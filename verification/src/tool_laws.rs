//! What a tool owes the command it stands for: its name, its words, and a schema
//! that asks for exactly what the command takes.
use crate::catalog::{
    args_of, catalog_tools, first_dead, first_duplicate, has_tool, tool_name, tool_of, tools_of,
    ArgV, ToolV,
};
use crate::classify::mutates;
use crate::cli::{
    help_for, help_named, plain_args, DBPATH_AI, MEM_ADD_AI, MEM_OVERVIEW_AI, MEM_RECALL_AI,
    MEM_SEARCH_AI, MEM_UPDATE_AI, METRICS_OVERVIEW_AI, ROOT_AI, TASK_OVERVIEW_AI,
};
use crate::json::{field, str_field, texts_json, JsonV};
use crate::schema::{
    content_file_key, has_content, prop_json, properties, required_names, requires_json,
    schema_json,
};
use crate::text::{replaced, starts, words};
use crate::text_laws::{law_prefix_and_rest, law_replacing_goes_by_character};
use vstd::prelude::*;

verus! {

/// A schema has a property for exactly the arguments of the command but the one
/// that asks for JSON, and asks for exactly those that are required.
pub proof fn law_schema_asks_for_the_arguments(args: Seq<ArgV>, key: Seq<char>)
    ensures
        properties(args).contains_key(key) <==> key != "json"@ && exists|i: int|
            0 <= i < args.len() && (#[trigger] args[i]).name == key,
        required_names(args).contains(key) <==> key != "json"@ && exists|i: int|
            0 <= i < args.len() && (#[trigger] args[i]).name == key && args[i].required,
    decreases args.len(),
{
    if args.len() > 0 {
        let prev = args.drop_last();
        let a = args.last();
        law_schema_asks_for_the_arguments(prev, key);
        assert(args[args.len() - 1] == a);
        assert forall|i: int| 0 <= i < prev.len() implies #[trigger] prev[i] == args[i] by {}
        if exists|i: int| 0 <= i < args.len() && (#[trigger] args[i]).name == key {
            let i = choose|i: int| 0 <= i < args.len() && (#[trigger] args[i]).name == key;
            if i < prev.len() {
                assert(prev[i].name == key);
            }
        }
        if exists|i: int| 0 <= i < prev.len() && (#[trigger] prev[i]).name == key {
            let i = choose|i: int| 0 <= i < prev.len() && (#[trigger] prev[i]).name == key;
            assert(args[i].name == key);
        }
        let init = required_names(prev);
        let all = required_names(args);
        if all.contains(key) {
            let j = choose|j: int| 0 <= j < all.len() && all[j] == key;
            if j < init.len() {
                assert(init[j] == key);
                let i = choose|i: int|
                    0 <= i < prev.len() && (#[trigger] prev[i]).name == key && prev[i].required;
                assert(args[i].name == key && args[i].required);
            }
        }
        if key != "json"@ && exists|i: int|
            0 <= i < args.len() && (#[trigger] args[i]).name == key && args[i].required {
            let i = choose|i: int|
                0 <= i < args.len() && (#[trigger] args[i]).name == key && args[i].required;
            if i < prev.len() {
                assert(prev[i].name == key && prev[i].required);
                assert(init.contains(key));
                let j = choose|j: int| 0 <= j < init.len() && init[j] == key;
                assert(all[j] == key);
            } else {
                assert(all[all.len() - 1] == key);
            }
        }
    } else {
        assert(!required_names(args).contains(key));
    }
}

/// The last argument of a name says what its property is.
pub proof fn law_property_of_an_argument(args: Seq<ArgV>, a: ArgV)
    requires
        a.name != "json"@,
    ensures
        properties(args.push(a))[a.name] == prop_json(a),
{
    assert(args.push(a).drop_last() =~= args);
    assert(args.push(a).last() == a);
}

/// A flag is a truth value, an argument that may be repeated a list of texts, any
/// other a text, one of the possible values where there are such; it is described
/// by its help, else by the name of its value, and has its default.
pub proof fn law_property_says_what_is_taken(a: ArgV)
    ensures
        ({
            let j = prop_json(a);
            &&& a.boolean() ==> str_field(j, "type"@) == Some("boolean"@)
            &&& !a.boolean() && a.multiple ==> str_field(j, "type"@) == Some("array"@)
                && field(j, "items"@) is Some && str_field(field(j, "items"@)->0, "type"@) == Some(
                "string"@,
            )
            &&& !a.boolean() && !a.multiple ==> str_field(j, "type"@) == Some("string"@)
            &&& !a.boolean() && !a.multiple && a.possible_values.len() > 0 ==> field(j, "enum"@)
                == Some(texts_json(a.possible_values))
            &&& !a.boolean() && !a.multiple && a.possible_values.len() == 0 ==> field(j, "enum"@)
                is None
            &&& a.help is Some ==> str_field(j, "description"@) == a.help
            &&& a.help is None && a.value_name is Some ==> str_field(j, "description"@)
                == a.value_name
            &&& a.help is None && a.value_name is None ==> field(j, "description"@) is None
            &&& a.default is None ==> field(j, "default"@) is None
            &&& a.default is Some && !a.boolean() ==> str_field(j, "default"@) == a.default
            &&& a.default is Some && a.boolean() ==> field(j, "default"@) == Some(
                JsonV::Bool(a.default->0 == "true"@),
            )
        }),
{
    reveal_strlit("type");
    reveal_strlit("items");
    reveal_strlit("enum");
    reveal_strlit("description");
    reveal_strlit("default");
    assert("type"@.len() == 4 && "enum"@.len() == 4 && "items"@.len() == 5 && "description"@.len()
        == 11 && "default"@.len() == 7);
    assert("type"@[0] == 't' && "enum"@[0] == 'e');
}

/// The schema of a command is an object of its properties and names what is
/// required; where a body can be given as text or as a file it asks for one of
/// the two.
pub proof fn law_schema_of_a_command(args: Seq<ArgV>)
    ensures
        ({
            let j = schema_json(args);
            let f = content_file_key(args);
            &&& str_field(j, "type"@) == Some("object"@)
            &&& field(j, "properties"@) == Some(JsonV::Object(properties(args)))
            &&& field(j, "required"@) == Some(texts_json(required_names(args)))
            &&& f is Some && has_content(args) ==> field(j, "oneOf"@) == Some(
                JsonV::Array(seq![requires_json("content"@), requires_json(f->0)]),
            )
            &&& f is None || !has_content(args) ==> field(j, "oneOf"@) is None
        }),
        has_content(args) <==> exists|i: int|
            0 <= i < args.len() && (#[trigger] args[i]).name == "content"@,
        content_file_key(args) is Some ==> content_file_key(args)->0 == "content_file"@
            || content_file_key(args)->0 == "content-file"@,
    decreases args.len(),
{
    if args.len() > 0 {
        law_schema_of_a_command(args.drop_last());
    }
    reveal_strlit("type");
    reveal_strlit("properties");
    reveal_strlit("required");
    reveal_strlit("oneOf");
    assert("type"@.len() == 4 && "properties"@.len() == 10 && "required"@.len() == 8
        && "oneOf"@.len() == 5);
}

/// The name of a tool is that of its command with underscores for spaces and
/// dashes, character by character.
pub proof fn law_tool_is_named_after_its_command(a: Seq<char>, b: Seq<char>, c: char)
    ensures
        tool_name(a + b) == tool_name(a) + tool_name(b),
        tool_name(seq![c]) == (if c == ' ' || c == '-' {
            seq!['_']
        } else {
            seq![c]
        }),
{
    reveal_strlit("_");
    let u = "_"@;
    assert(u =~= seq!['_']);
    law_replacing_goes_by_character(a, b, c, ' ', u);
    law_replacing_goes_by_character(replaced(a, ' ', u), replaced(b, ' ', u), c, '-', u);
    law_replacing_goes_by_character(a, b, '_', '-', u);
}

/// A tool stands for the command of its path, with its words and arguments, and
/// changes state exactly where its name is not one of those that only read.
pub proof fn law_tool_stands_for_its_command(t: JsonV, rest: Seq<char>)
    requires
        str_field(t, "path"@) == Some("agent "@ + rest),
        rest.len() > 0,
        rest != "agent"@,
    ensures
        ({
            let x = tool_of(t);
            &&& x is Some
            &&& x->0.name == tool_name(rest)
            &&& x->0.argv == words(rest)
            &&& x->0.args == args_of(t)
            &&& x->0.is_write == mutates(x->0.name)
            &&& str_field(t, "about"@) is Some ==> Some(x->0.description) == str_field(t, "about"@)
            &&& x->0.has_json_flag <==> exists|i: int|
                0 <= i < args_of(t).len() && (#[trigger] args_of(t)[i]).name == "json"@
        }),
{
    law_prefix_and_rest("agent "@ + rest, "agent "@, rest);
}

/// The tools of a catalog are accepted exactly where there are any and no two have
/// one name, and then all of them are.
pub proof fn law_tools_have_names_of_their_own(root: JsonV)
    ensures
        ({
            let v = tools_of(root);
            &&& catalog_tools(root) is Ok <==> v.len() > 0 && forall|i: int, j: int|
                0 <= i < j < v.len() ==> (#[trigger] v[i]).name != (#[trigger] v[j]).name
            &&& catalog_tools(root) is Ok ==> catalog_tools(root)->Ok_0 == v
        }),
{
    lemma_duplicates(tools_of(root));
}

/// A duplicate is found exactly where there is one.
proof fn lemma_duplicates(v: Seq<ToolV>)
    ensures
        first_duplicate(v) is None <==> forall|i: int, j: int|
            0 <= i < j < v.len() ==> (#[trigger] v[i]).name != (#[trigger] v[j]).name,
    decreases v.len(),
{
    if v.len() > 0 {
        let prev = v.drop_last();
        lemma_duplicates(prev);
        assert forall|i: int| 0 <= i < prev.len() implies #[trigger] prev[i] == v[i] by {}
        if first_duplicate(v) is None {
            assert forall|i: int, j: int| 0 <= i < j < v.len() implies (#[trigger] v[i]).name != (
            #[trigger] v[j]).name by {
                assert(prev[i] == v[i]);
                if j < prev.len() {
                    assert(prev[j] == v[j]);
                }
            }
        } else if has_tool(prev, v.last().name) {
            let i = choose|i: int| 0 <= i < prev.len() && (#[trigger] prev[i]).name == v.last().name;
            assert(v[i].name == v[v.len() - 1].name);
        } else {
            let (i, j) = choose|i: int, j: int|
                0 <= i < j < prev.len() && (#[trigger] prev[i]).name == (#[trigger] prev[j]).name;
            assert(v[i].name == v[j].name);
        }
    }
}

/// Whether one of some tools has a name.
pub open spec fn one_is_named(v: Seq<ToolV>, name: Seq<char>) -> bool {
    exists|i: int| 0 <= i < v.len() && (#[trigger] v[i]).name == name
}

/// A name without a tool is found exactly where there is one.
pub proof fn law_names_without_a_tool(names: Seq<Seq<char>>, v: Seq<ToolV>)
    ensures
        first_dead(names, v) is None <==> forall|k: int|
            0 <= k < names.len() ==> #[trigger] one_is_named(v, names[k]),
    decreases names.len(),
{
    if names.len() > 0 {
        let prev = names.drop_last();
        let n = names.len() - 1;
        law_names_without_a_tool(prev, v);
        assert(has_tool(v, names[n]) == one_is_named(v, names[n]));
        if first_dead(names, v) is None {
            assert forall|k: int| 0 <= k < names.len() implies #[trigger] one_is_named(
                v,
                names[k],
            ) by {
                if k < n {
                    assert(one_is_named(v, prev[k]));
                }
            }
        } else if first_dead(prev, v) is Some {
            let k = choose|k: int| 0 <= k < prev.len() && !#[trigger] one_is_named(v, prev[k]);
            assert(!one_is_named(v, names[k]));
        }
    }
}

/// Flags do not matter for which help is meant, and a group that has help of its
/// own gives it; without one the overview of all is given.
pub proof fn law_help_of_a_group(
    argv: Seq<Seq<char>>,
    flag: Seq<char>,
    group: Seq<char>,
    sub: Seq<char>,
)
    ensures
        starts(flag, "-"@) ==> help_named(argv.push(flag)) == help_named(argv),
        !starts(flag, "-"@) ==> plain_args(argv.push(flag)) == plain_args(argv).push(flag),
        group == "memory"@ && sub == "add"@ ==> help_for(group, sub) == MEM_ADD_AI@,
        group == "memory"@ && sub == "update"@ ==> help_for(group, sub) == MEM_UPDATE_AI@,
        group == "memory"@ && sub == "search"@ ==> help_for(group, sub) == MEM_SEARCH_AI@,
        group == "memory"@ && sub == "recall"@ ==> help_for(group, sub) == MEM_RECALL_AI@,
        group == "memory"@ && sub.len() == 0 ==> help_for(group, sub) == MEM_OVERVIEW_AI@,
        group == "task"@ && sub.len() == 0 ==> help_for(group, sub) == TASK_OVERVIEW_AI@,
        group == "metrics"@ && sub.len() == 0 ==> help_for(group, sub) == METRICS_OVERVIEW_AI@,
        group == "db-path"@ ==> help_for(group, sub) == DBPATH_AI@,
        group.len() == 0 ==> help_for(group, sub) == ROOT_AI@,
{
    assert(argv.push(flag).drop_last() =~= argv);
    assert(argv.push(flag).last() == flag);
    reveal_strlit("memory");
    reveal_strlit("task");
    reveal_strlit("metrics");
    reveal_strlit("db-path");
    assert("memory"@.len() == 6 && "task"@.len() == 4 && "metrics"@.len() == 7 && "db-path"@.len()
        == 7);
    assert("metrics"@[0] == 'm' && "db-path"@[0] == 'd');
    reveal_strlit("add");
    reveal_strlit("update");
    reveal_strlit("search");
    reveal_strlit("recall");
    reveal_strlit("recent");
    reveal_strlit("list");
    reveal_strlit("context");
    reveal_strlit("context-stats");
    reveal_strlit("rebuild-index");
    reveal_strlit("reindex");
    reveal_strlit("export");
    reveal_strlit("migrate");
    reveal_strlit("create");
    reveal_strlit("show");
    reveal_strlit("resume");
    reveal_strlit("record-completion");
    reveal_strlit("record-usage");
    reveal_strlit("report");
    assert("add"@.len() == 3 && "update"@.len() == 6 && "search"@.len() == 6 && "recall"@.len() == 6);
    assert("update"@[0] == 'u' && "search"@[0] == 's' && "recall"@[0] == 'r');
    assert("list"@.len() == 4 && "context"@.len() == 7 && "context-stats"@.len() == 13
        && "rebuild-index"@.len() == 13 && "reindex"@.len() == 7 && "export"@.len() == 6
        && "migrate"@.len() == 7 && "recent"@.len() == 6 && "create"@.len() == 6 && "show"@.len()
        == 4 && "resume"@.len() == 6 && "report"@.len() == 6);
    assert("record-completion"@.len() == 17 && "record-usage"@.len() == 12);
}

} // verus!
