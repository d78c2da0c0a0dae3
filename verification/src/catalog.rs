//! The tool catalog: every invokable leaf of a command-tree catalog as one
//! tool, with its arguments.
use crate::classify::{is_write, mutates, read_tool_names, read_tools};
use crate::json::{array_field, field, lemma_tree_finite, str_field, str_of, trees, Json, JsonV};
use crate::text::{
    after_prefix, is_listed, lemma_texts_push, listed, opt_text, replace_char, replaced, same,
    split_white, strip_prefix, texts, words,
};
use vstd::prelude::*;

verus! {

/// One argument of a command-line leaf.
#[derive(Debug, Clone)]
pub struct ArgSpec {
    /// The argument's id, the key of its JSON property.
    pub name: String,
    /// The long flag with its dashes.
    pub long: Option<String>,
    pub positional: bool,
    pub required: bool,
    /// `false` for a bare boolean flag.
    pub takes_value: bool,
    pub multiple: bool,
    pub help: Option<String>,
    pub value_name: Option<String>,
    pub possible_values: Vec<String>,
    /// The default value; always a text.
    pub default: Option<String>,
}

/// One invokable leaf, mapped to a tool.
#[derive(Debug, Clone)]
pub struct ToolSpec {
    /// snake_case, without the program's name.
    pub name: String,
    /// The subcommand path, without the program's name.
    pub argv: Vec<String>,
    pub description: String,
    pub args: Vec<ArgSpec>,
    pub is_write: bool,
    /// The leaf has a `--json` flag.
    pub has_json_flag: bool,
}

/// What an argument is.
pub struct ArgV {
    pub name: Seq<char>,
    pub long: Option<Seq<char>>,
    pub positional: bool,
    pub required: bool,
    pub takes_value: bool,
    pub multiple: bool,
    pub help: Option<Seq<char>>,
    pub value_name: Option<Seq<char>>,
    pub possible_values: Seq<Seq<char>>,
    pub default: Option<Seq<char>>,
}

/// What a tool is.
pub struct ToolV {
    pub name: Seq<char>,
    pub argv: Seq<Seq<char>>,
    pub description: Seq<char>,
    pub args: Seq<ArgV>,
    pub is_write: bool,
    pub has_json_flag: bool,
}

impl View for ArgSpec {
    type V = ArgV;

    open spec fn view(&self) -> ArgV {
        ArgV {
            name: self.name@,
            long: opt_text(self.long),
            positional: self.positional,
            required: self.required,
            takes_value: self.takes_value,
            multiple: self.multiple,
            help: opt_text(self.help),
            value_name: opt_text(self.value_name),
            possible_values: texts(self.possible_values@),
            default: opt_text(self.default),
        }
    }
}

/// What a list of arguments is.
pub open spec fn args_view(v: Seq<ArgSpec>) -> Seq<ArgV> {
    v.map_values(|a: ArgSpec| a@)
}

impl View for ToolSpec {
    type V = ToolV;

    open spec fn view(&self) -> ToolV {
        ToolV {
            name: self.name@,
            argv: texts(self.argv@),
            description: self.description@,
            args: args_view(self.args@),
            is_write: self.is_write,
            has_json_flag: self.has_json_flag,
        }
    }
}

/// What a list of tools is.
pub open spec fn tools_view(v: Seq<ToolSpec>) -> Seq<ToolV> {
    v.map_values(|t: ToolSpec| t@)
}

impl ArgV {
    /// A flag that is given without a value.
    pub open spec fn bare(self) -> bool {
        !self.takes_value
    }

    /// An argument whose value is a truth value: a bare flag, or one whose
    /// possible values are `true` and `false`.
    pub open spec fn boolean(self) -> bool {
        self.bare() || (self.possible_values.len() == 2 && listed(self.possible_values, "true"@)
            && listed(self.possible_values, "false"@))
    }
}

impl ArgSpec {
    /// Whether the argument's value is a truth value.
    pub fn is_bool(&self) -> (r: bool)
        ensures
            r == self@.boolean(),
    {
        self.is_bare_flag() || (self.possible_values.len() == 2 && is_listed(
            &self.possible_values,
            "true",
        ) && is_listed(&self.possible_values, "false"))
    }

    /// Whether the argument is given without a value.
    pub fn is_bare_flag(&self) -> (r: bool)
        ensures
            r == self@.bare(),
    {
        !self.takes_value
    }
}

/// Whether the value under a key is `true`.
pub open spec fn true_field(t: JsonV, key: Seq<char>) -> bool {
    field(t, key) == Some(JsonV::Bool(true))
}

/// The texts among a list of values, in order.
pub open spec fn strings_of(v: Seq<JsonV>) -> Seq<Seq<char>>
    decreases v.len(),
{
    if v.len() == 0 {
        Seq::empty()
    } else {
        match str_of(v.last()) {
            Some(s) => strings_of(v.drop_last()).push(s),
            None => strings_of(v.drop_last()),
        }
    }
}

/// The argument that a catalog entry describes.
pub open spec fn arg_of(t: JsonV) -> ArgV {
    ArgV {
        name: match str_field(t, "name"@) {
            Some(s) => s,
            None => Seq::empty(),
        },
        long: str_field(t, "long"@),
        positional: true_field(t, "positional"@),
        required: true_field(t, "required"@),
        takes_value: true_field(t, "takes_value"@),
        multiple: true_field(t, "multiple"@),
        help: str_field(t, "help"@),
        value_name: str_field(t, "value_name"@),
        possible_values: match array_field(t, "possible_values"@) {
            Some(a) => strings_of(a),
            None => Seq::empty(),
        },
        default: match array_field(t, "default"@) {
            Some(a) => if a.len() > 0 {
                str_of(a[0])
            } else {
                None
            },
            None => None,
        },
    }
}

/// The arguments that a leaf's catalog entry lists.
pub open spec fn args_of(t: JsonV) -> Seq<ArgV> {
    match array_field(t, "args"@) {
        Some(a) => a.map_values(|x: JsonV| arg_of(x)),
        None => Seq::empty(),
    }
}

/// The invocation path without the leading program name.
pub open spec fn path_rest(path: Seq<char>) -> Seq<char> {
    match after_prefix(path, "agent "@) {
        Some(r) => r,
        None => path,
    }
}

/// The tool name for a path: spaces and dashes become underscores.
pub open spec fn tool_name(rest: Seq<char>) -> Seq<char> {
    replaced(replaced(rest, ' ', "_"@), '-', "_"@)
}

/// Whether some argument has a name.
pub open spec fn has_arg(args: Seq<ArgV>, name: Seq<char>) -> bool {
    exists|i: int| 0 <= i < args.len() && (#[trigger] args[i]).name == name
}

/// The tool that a leaf's catalog entry describes; none for the program itself
/// and for an entry without a path.
pub open spec fn tool_of(t: JsonV) -> Option<ToolV> {
    match str_field(t, "path"@) {
        None => None,
        Some(path) => {
            let rest = path_rest(path);
            if rest.len() == 0 || rest == "agent"@ {
                None
            } else {
                Some(
                    ToolV {
                        name: tool_name(rest),
                        argv: words(rest),
                        description: match str_field(t, "about"@) {
                            Some(s) => s,
                            None => Seq::empty(),
                        },
                        args: args_of(t),
                        is_write: mutates(tool_name(rest)),
                        has_json_flag: has_arg(args_of(t), "json"@),
                    },
                )
            }
        },
    }
}

/// The tool of an entry itself, where the entry is invokable.
pub open spec fn own_tool(t: JsonV) -> Seq<ToolV> {
    if true_field(t, "invokable"@) {
        match tool_of(t) {
            Some(x) => seq![x],
            None => Seq::empty(),
        }
    } else {
        Seq::empty()
    }
}

/// The tools of an entry and of everything below it, parents first and
/// siblings in order.
pub open spec fn tools_of(t: JsonV) -> Seq<ToolV>
    decreases t,
{
    match t {
        JsonV::Object(m) => if m.dom().finite() {
            match field(t, "subcommands"@) {
                Some(JsonV::Array(a)) => own_tool(t) + all_tools_of(a),
                _ => own_tool(t),
            }
        } else {
            Seq::empty()
        },
        _ => Seq::empty(),
    }
}

/// The tools of a list of entries, in order.
pub open spec fn all_tools_of(v: Seq<JsonV>) -> Seq<ToolV>
    decreases v,
{
    if v.len() == 0 {
        Seq::empty()
    } else {
        all_tools_of(v.drop_last()) + tools_of(v.last())
    }
}

/// The first position whose tool has the name of an earlier one.
pub open spec fn first_duplicate(v: Seq<ToolV>) -> Option<int>
    decreases v.len(),
{
    if v.len() == 0 {
        None
    } else {
        match first_duplicate(v.drop_last()) {
            Some(i) => Some(i),
            None => if has_tool(v.drop_last(), v.last().name) {
                Some(v.len() - 1)
            } else {
                None
            },
        }
    }
}

/// Whether some tool has a name.
pub open spec fn has_tool(v: Seq<ToolV>, name: Seq<char>) -> bool {
    exists|i: int| 0 <= i < v.len() && (#[trigger] v[i]).name == name
}

/// What a catalog gives: its tools, refused where there are none or where two
/// share a name.
pub open spec fn catalog_tools(root: JsonV) -> Result<Seq<ToolV>, Seq<char>> {
    let v = tools_of(root);
    if v.len() == 0 {
        Err("no invokable tools found in catalog"@)
    } else {
        match first_duplicate(v) {
            Some(i) => Err("duplicate tool name after normalization: "@ + v[i].name),
            None => Ok(v),
        }
    }
}

/// Reads an argument out of its catalog entry.
pub fn arg_from_json(v: &Json) -> (r: ArgSpec)
    ensures
        r@ == arg_of(v.tree()),
{
    let mut possible_values: Vec<String> = Vec::new();
    if let Some(a) = v.array_at("possible_values") {
        let mut i: usize = 0;
        assert(texts(possible_values@) =~= strings_of(trees(a@).take(0)));
        while i < a.len()
            invariant
                i <= a@.len(),
                texts(possible_values@) == strings_of(trees(a@).take(i as int)),
            decreases a@.len() - i,
        {
            assert(trees(a@).take(i as int + 1).drop_last() =~= trees(a@).take(i as int));
            assert(trees(a@).take(i as int + 1).last() == a@[i as int].tree());
            if let Some(s) = a[i].as_str() {
                let owned = s.to_owned();
                proof {
                    lemma_texts_push(possible_values@, owned);
                }
                possible_values.push(owned);
            }
            i = i + 1;
        }
        assert(trees(a@).take(i as int) =~= trees(a@));
    } else {
        assert(texts(possible_values@) =~= Seq::<Seq<char>>::empty());
    }
    let mut default: Option<String> = None;
    if let Some(a) = v.array_at("default") {
        if a.len() > 0 {
            assert(trees(a@)[0] == a@[0].tree());
            if let Some(s) = a[0].as_str() {
                default = Some(s.to_owned());
            }
        }
    }
    let name = match v.str_at("name") {
        Some(s) => s.to_owned(),
        None => String::new(),
    };
    ArgSpec {
        name,
        long: own(v.str_at("long")),
        positional: v.is_true_at("positional"),
        required: v.is_true_at("required"),
        takes_value: v.is_true_at("takes_value"),
        multiple: v.is_true_at("multiple"),
        help: own(v.str_at("help")),
        value_name: own(v.str_at("value_name")),
        possible_values,
        default,
    }
}

/// An owned copy of an optional text.
fn own(s: Option<&str>) -> (r: Option<String>)
    ensures
        match s {
            Some(t) => opt_text(r) == Some(t@),
            None => r is None,
        },
{
    match s {
        Some(t) => Some(t.to_owned()),
        None => None,
    }
}

/// Reads the arguments of a leaf.
fn args_from_json(node: &Json) -> (r: Vec<ArgSpec>)
    ensures
        args_view(r@) == args_of(node.tree()),
{
    let mut args: Vec<ArgSpec> = Vec::new();
    if let Some(a) = node.array_at("args") {
        let mut i: usize = 0;
        while i < a.len()
            invariant
                i <= a@.len(),
                args@.len() == i,
                forall|k: int| 0 <= k < i ==> (#[trigger] args@[k])@ == arg_of(a@[k].tree()),
            decreases a@.len() - i,
        {
            args.push(arg_from_json(&a[i]));
            i = i + 1;
        }
        assert(args_view(args@) =~= trees(a@).map_values(|x: JsonV| arg_of(x)));
    } else {
        assert(args_view(args@) =~= Seq::<ArgV>::empty());
    }
    args
}

/// Reads the tool of a leaf.
pub fn tool_from_node(node: &Json) -> (r: Option<ToolSpec>)
    ensures
        match r {
            Some(t) => tool_of(node.tree()) == Some(t@),
            None => tool_of(node.tree()) is None,
        },
{
    let path = match node.str_at("path") {
        Some(p) => p,
        None => {
            return None;
        },
    };
    let rest = match strip_prefix(path, "agent ") {
        Some(r) => r,
        None => path.to_owned(),
    };
    if rest.as_str().is_empty() || same(rest.as_str(), "agent") {
        return None;
    }
    let argv = split_white(rest.as_str());
    let name = replace_char(replace_char(rest.as_str(), ' ', "_").as_str(), '-', "_");
    let description = match node.str_at("about") {
        Some(s) => s.to_owned(),
        None => String::new(),
    };
    let args = args_from_json(node);
    let mut has_json_flag = false;
    let mut i: usize = 0;
    while i < args.len()
        invariant
            i <= args@.len(),
            has_json_flag == exists|k: int|
                0 <= k < i && (#[trigger] args_view(args@)[k]).name == "json"@,
        decreases args@.len() - i,
    {
        assert(args_view(args@)[i as int].name == args@[i as int].name@);
        if same(args[i].name.as_str(), "json") {
            has_json_flag = true;
        }
        i = i + 1;
    }
    let is_write = is_write(name.as_str());
    Some(ToolSpec { name, argv, description, args, is_write, has_json_flag })
}

/// Appends the tools of an entry and of everything below it.
pub fn collect(node: &Json, out: &mut Vec<ToolSpec>)
    ensures
        tools_view(final(out)@) == tools_view(old(out)@) + tools_of(node.tree()),
    decreases node,
{
    proof {
        lemma_tree_finite(*node);
    }
    let ghost start = tools_view(out@);
    if node.is_true_at("invokable") {
        if let Some(spec) = tool_from_node(node) {
            let ghost before = out@;
            out.push(spec);
            assert(tools_view(out@) =~= tools_view(before) + seq![spec@]);
        }
    }
    assert(tools_view(out@) =~= start + own_tool(node.tree()));
    let ghost own = tools_view(out@);
    if let Some(subs) = node.array_at("subcommands") {
        let mut i: usize = 0;
        assert(own + all_tools_of(trees(subs@).take(0)) =~= own);
        while i < subs.len()
            invariant
                i <= subs@.len(),
                decreases_to!(*node => subs@),
                tools_view(out@) == own + all_tools_of(trees(subs@).take(i as int)),
            decreases subs@.len() - i,
        {
            assert(trees(subs@).take(i as int + 1).drop_last() =~= trees(subs@).take(i as int));
            assert(trees(subs@).take(i as int + 1).last() == subs@[i as int].tree());
            assert(decreases_to!(subs@ => subs@[i as int]));
            collect(&subs[i], out);
            assert(own + (all_tools_of(trees(subs@).take(i as int)) + tools_of(
                subs@[i as int].tree(),
            )) =~= tools_view(out@));
            i = i + 1;
        }
        assert(trees(subs@).take(i as int) =~= trees(subs@));
        assert(start + (own_tool(node.tree()) + all_tools_of(trees(subs@))) =~= tools_view(out@));
    } else {
        assert(own =~= start + own_tool(node.tree()));
    }
}

/// Every catalog entry's tool, or why the catalog is refused.
pub fn parse_catalog(root: &Json) -> (r: Result<Vec<ToolSpec>, String>)
    ensures
        match r {
            Ok(v) => catalog_tools(root.tree()) == Ok::<Seq<ToolV>, Seq<char>>(tools_view(v@)),
            Err(e) => catalog_tools(root.tree()) == Err::<Seq<ToolV>, Seq<char>>(e@),
        },
{
    let mut specs: Vec<ToolSpec> = Vec::new();
    collect(root, &mut specs);
    assert(tools_view(specs@) =~= tools_of(root.tree()));
    if specs.len() == 0 {
        return Err("no invokable tools found in catalog".to_string());
    }
    let ghost all = tools_view(specs@);
    let mut i: usize = 0;
    while i < specs.len()
        invariant
            all == tools_view(specs@),
            all == tools_of(root.tree()),
            all.len() > 0,
            i <= specs@.len(),
            first_duplicate(all.take(i as int)) is None,
        decreases specs@.len() - i,
    {
        assert(all.take(i as int + 1).drop_last() =~= all.take(i as int));
        assert(all.take(i as int + 1).last() == specs@[i as int]@);
        let mut k: usize = 0;
        while k < i
            invariant
                k <= i < specs@.len(),
                all == tools_view(specs@),
                all == tools_of(root.tree()),
                all.len() > 0,
                all.take(i as int + 1).drop_last() == all.take(i as int),
                all.take(i as int + 1).last() == specs@[i as int]@,
                first_duplicate(all.take(i as int)) is None,
                forall|j: int| 0 <= j < k ==> (#[trigger] all[j]).name != all[i as int].name,
            decreases i - k,
        {
            assert(all[k as int].name == specs@[k as int].name@);
            if same(specs[k].name.as_str(), specs[i].name.as_str()) {
                let mut e = "duplicate tool name after normalization: ".to_string();
                e.append(specs[i].name.as_str());
                proof {
                    assert(all.take(i as int)[k as int] == all[k as int]);
                    assert(has_tool(all.take(i as int), all[i as int].name));
                    lemma_duplicate_stays(all, i as int + 1);
                }
                return Err(e);
            }
            k = k + 1;
        }
        assert(!has_tool(all.take(i as int), all[i as int].name)) by {
            if has_tool(all.take(i as int), all[i as int].name) {
                let j = choose|j: int|
                    0 <= j < i && (#[trigger] all.take(i as int)[j]).name == all[i as int].name;
                assert(all[j].name == all[i as int].name);
            }
        }
        i = i + 1;
    }
    assert(all.take(i as int) =~= all);
    Ok(specs)
}

/// A duplicate among the first tools is the first duplicate of all.
proof fn lemma_duplicate_stays(v: Seq<ToolV>, n: int)
    requires
        0 <= n <= v.len(),
        first_duplicate(v.take(n)) is Some,
    ensures
        first_duplicate(v) == first_duplicate(v.take(n)),
    decreases v.len() - n,
{
    if n < v.len() {
        assert(v.take(n + 1).drop_last() =~= v.take(n));
        lemma_duplicate_stays(v, n + 1);
    } else {
        assert(v.take(n) =~= v);
    }
}

/// The position of the first reading name that no tool has.
pub open spec fn first_dead(names: Seq<Seq<char>>, v: Seq<ToolV>) -> Option<int>
    decreases names.len(),
{
    if names.len() == 0 {
        None
    } else {
        match first_dead(names.drop_last(), v) {
            Some(i) => Some(i),
            None => if has_tool(v, names.last()) {
                None
            } else {
                Some(names.len() - 1)
            },
        }
    }
}

/// A dead name among the first stays the first.
proof fn lemma_dead_stays(names: Seq<Seq<char>>, v: Seq<ToolV>, n: int)
    requires
        0 <= n <= names.len(),
        first_dead(names.take(n), v) is Some,
    ensures
        first_dead(names, v) == first_dead(names.take(n), v),
    decreases names.len() - n,
{
    if n < names.len() {
        assert(names.take(n + 1).drop_last() =~= names.take(n));
        lemma_dead_stays(names, v, n + 1);
    } else {
        assert(names.take(n) =~= names);
    }
}

/// Fails where a name on the reading list belongs to no tool, naming the first
/// such entry.
pub fn validate_read_classification(specs: &Vec<ToolSpec>) -> (r: Result<(), String>)
    ensures
        match r {
            Ok(_) => first_dead(read_tool_names(), tools_view(specs@)) is None,
            Err(e) => match first_dead(read_tool_names(), tools_view(specs@)) {
                Some(i) => e@ == "READ_TOOLS entry '"@ + read_tool_names()[i]
                    + "' is not a live tool (catalog drift)"@,
                None => false,
            },
        },
{
    let names = read_tools();
    let ghost all = tools_view(specs@);
    let ghost ns = read_tool_names();
    let mut i: usize = 0;
    while i < names.len()
        invariant
            all == tools_view(specs@),
            ns == read_tool_names(),
            ns == texts(names@),
            i <= names@.len(),
            first_dead(ns.take(i as int), all) is None,
        decreases names@.len() - i,
    {
        assert(ns.take(i as int + 1).drop_last() =~= ns.take(i as int));
        assert(ns.take(i as int + 1).last() == names@[i as int]@);
        let mut found = false;
        let mut k: usize = 0;
        while k < specs.len()
            invariant
                k <= specs@.len(),
                i < names@.len(),
                all == tools_view(specs@),
                found == exists|j: int|
                    0 <= j < k && (#[trigger] all[j]).name == names@[i as int]@,
            decreases specs@.len() - k,
        {
            assert(all[k as int].name == specs@[k as int].name@);
            if same(specs[k].name.as_str(), names[i].as_str()) {
                found = true;
            }
            k = k + 1;
        }
        if !found {
            let mut e = "READ_TOOLS entry '".to_string();
            e.append(names[i].as_str());
            e.append("' is not a live tool (catalog drift)");
            proof {
                assert(!has_tool(all, ns[i as int]));
                lemma_dead_stays(ns, all, i as int + 1);
            }
            return Err(e);
        }
        i = i + 1;
    }
    assert(ns.take(i as int) =~= ns);
    Ok(())
}

} // verus!
