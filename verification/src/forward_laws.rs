//! Mapping an invocation to a tool call undoes building the invocation from
//! the tool call.
use crate::catalog::{arg_of, args_of, ArgV, ToolV};
use crate::clap_catalog::{
    arg_json, args_json, automatic, command_json, find_child, ArgKind, ArgNode, CommandNode,
};
use crate::forward::{
    assigned, mapped, option_at, path_tool, positional_names, put_value, walked, MapErrorV,
};
use crate::invoke::{all_option_tokens, call_argv, option_tokens, positional_tokens, repeated_flag};
use crate::json::{array_field, JsonV};
use crate::text::{cut, first_pos, starts};
use vstd::prelude::*;

verus! {

/// The arguments of a leaf as its catalog entry gives them.
pub open spec fn leaf_args(args: Seq<ArgNode>) -> Seq<ArgV> {
    args_json(args).map_values(|x: JsonV| arg_of(x))
}

/// The catalog entry of an argument gives the argument back.
pub proof fn lemma_arg_round_trip(a: ArgNode)
    ensures
        arg_of(arg_json(a)).name == a.id@,
        arg_of(arg_json(a)).long == a.long_flag(),
        arg_of(arg_json(a)).positional == a.positional,
        arg_of(arg_json(a)).required == a.required,
        arg_of(arg_json(a)).takes_value == a.valued(),
        arg_of(arg_json(a)).multiple == (a.action == ArgKind::Values),
{
    reveal_strlit("name");
    reveal_strlit("long");
    reveal_strlit("short");
    reveal_strlit("positional");
    reveal_strlit("required");
    reveal_strlit("takes_value");
    reveal_strlit("multiple");
    reveal_strlit("value_name");
    reveal_strlit("help");
    reveal_strlit("possible_values");
    reveal_strlit("default");
    assert("name"@.len() == 4 && "long"@.len() == 4 && "help"@.len() == 4);
    assert("name"@[0] == 'n' && "long"@[0] == 'l' && "help"@[0] == 'h');
    assert("short"@.len() == 5 && "default"@.len() == 7);
    assert("required"@.len() == 8 && "multiple"@.len() == 8);
    assert("required"@[0] == 'r' && "multiple"@[0] == 'm');
    assert("positional"@.len() == 10 && "value_name"@.len() == 10);
    assert("positional"@[0] == 'p' && "value_name"@[0] == 'v');
    assert("takes_value"@.len() == 11 && "possible_values"@.len() == 15);
}

/// The catalog entry of a command lists the command's own arguments.
pub proof fn law_catalog_lists_own_arguments(c: CommandNode, path: Seq<char>)
    ensures
        args_of(command_json(c, path)) == leaf_args(c.args@),
{
    reveal_strlit("name");
    reveal_strlit("path");
    reveal_strlit("summary");
    reveal_strlit("about");
    reveal_strlit("aliases");
    reveal_strlit("invokable");
    reveal_strlit("args");
    reveal_strlit("subcommands");
    assert("args"@.len() == 4 && "name"@.len() == 4 && "path"@.len() == 4);
    assert("args"@[0] == 'a' && "name"@[0] == 'n' && "path"@[0] == 'p');
    assert("summary"@.len() == 7 && "about"@.len() == 5 && "aliases"@.len() == 7);
    assert("invokable"@.len() == 9 && "subcommands"@.len() == 11);
    let args = args_json(c.args@);
    if args.len() > 0 {
        assert(array_field(command_json(c, path), "args"@) == Some(args));
    } else {
        assert(array_field(command_json(c, path), "args"@) is None);
        assert(leaf_args(c.args@) =~= Seq::<ArgV>::empty());
    }
}

/// Leaf arguments grow with the arguments.
proof fn lemma_leaf_args_step(args: Seq<ArgNode>)
    requires
        args.len() > 0,
    ensures
        automatic(args.last().action) ==> leaf_args(args) == leaf_args(args.drop_last()),
        !automatic(args.last().action) ==> leaf_args(args) == leaf_args(args.drop_last()).push(
            arg_of(arg_json(args.last())),
        ),
{
    if !automatic(args.last().action) {
        assert(leaf_args(args) =~= leaf_args(args.drop_last()).push(
            arg_of(arg_json(args.last())),
        ));
    }
}

/// Whether an argument is an option of its command.
pub open spec fn is_option(a: ArgNode) -> bool {
    !automatic(a.action) && !a.positional
}

/// Whether an argument is a positional of its command.
pub open spec fn is_positional(a: ArgNode) -> bool {
    !automatic(a.action) && a.positional
}

/// Arguments that can be told apart: different ids, and for each option a long
/// flag of its own without an equals sign.
pub open spec fn distinct_args(args: Seq<ArgNode>) -> bool {
    &&& forall|i: int, j: int|
        0 <= i < j < args.len() && !automatic(args[i].action) && !automatic(args[j].action)
            ==> (#[trigger] args[i]).id@ != (#[trigger] args[j]).id@
    &&& forall|i: int|
        0 <= i < args.len() && is_option(#[trigger] args[i]) ==> args[i].long is Some
            && !args[i].long->0@.contains('=')
    &&& forall|i: int, j: int|
        0 <= i < j < args.len() && is_option(args[i]) && is_option(args[j])
            ==> (#[trigger] args[i]).long_flag() != (#[trigger] args[j]).long_flag()
}

/// A value that an argument can carry to the command line and back: a text for
/// a positional (one that does not look like a flag) and for an option with a
/// value, `true` for a bare flag, a non-empty list of texts for a repeatable
/// option.
pub open spec fn carries(a: ArgNode, v: JsonV) -> bool {
    if a.positional {
        match v {
            JsonV::Str(s) => !starts(s, "--"@),
            _ => false,
        }
    } else if !a.valued() {
        v == JsonV::Bool(true)
    } else if a.action == ArgKind::Values {
        match v {
            JsonV::Array(vs) => vs.len() > 0 && forall|i: int|
                0 <= i < vs.len() ==> (#[trigger] vs[i]) is Str,
            _ => false,
        }
    } else {
        v is Str
    }
}

/// Arguments of a call that a command line can express: each belongs to an
/// argument of the command other than `json`, with a value that it carries;
/// positionals are given without a gap, the required ones among them.
pub open spec fn expressible(args: Seq<ArgNode>, m: Map<Seq<char>, JsonV>) -> bool {
    &&& forall|key: Seq<char>| #[trigger]
        m.contains_key(key) ==> key != "json"@ && exists|i: int|
            0 <= i < args.len() && !automatic(args[i].action) && (#[trigger] args[i]).id@ == key
    &&& forall|i: int|
        0 <= i < args.len() && !automatic((#[trigger] args[i]).action) && m.contains_key(args[i].id@)
            ==> carries(args[i], m[args[i].id@])
    &&& forall|i: int, j: int|
        0 <= i < j < args.len() && is_positional(#[trigger] args[i]) && is_positional(
            #[trigger] args[j],
        ) && m.contains_key(args[j].id@) ==> m.contains_key(args[i].id@)
    &&& forall|i: int|
        0 <= i < args.len() && is_positional(#[trigger] args[i]) && args[i].required
            ==> m.contains_key(args[i].id@)
}

/// The entries of `m` that belong to the positionals among `args`.
pub open spec fn positional_part(args: Seq<ArgNode>, m: Map<Seq<char>, JsonV>) -> Map<
    Seq<char>,
    JsonV,
>
    decreases args.len(),
{
    if args.len() == 0 {
        Map::empty()
    } else {
        let a = args.last();
        let init = positional_part(args.drop_last(), m);
        if is_positional(a) && m.contains_key(a.id@) {
            init.insert(a.id@, m[a.id@])
        } else {
            init
        }
    }
}

/// `base` with the entries of `m` that belong to the options among `args`.
pub open spec fn option_part(
    base: Map<Seq<char>, JsonV>,
    args: Seq<ArgNode>,
    m: Map<Seq<char>, JsonV>,
) -> Map<Seq<char>, JsonV>
    decreases args.len(),
{
    if args.len() == 0 {
        base
    } else {
        let a = args.last();
        let init = option_part(base, args.drop_last(), m);
        if is_option(a) && m.contains_key(a.id@) {
            init.insert(a.id@, m[a.id@])
        } else {
            init
        }
    }
}

/// The names of the first positionals come first.
proof fn lemma_names_prefix(args: Seq<ArgNode>, k: int)
    requires
        0 <= k <= args.len(),
    ensures
        positional_names(args.take(k)).len() <= positional_names(args).len(),
        forall|i: int|
            0 <= i < positional_names(args.take(k)).len() ==> positional_names(args)[i]
                == #[trigger] positional_names(args.take(k))[i],
    decreases args.len() - k,
{
    if k < args.len() {
        lemma_names_prefix(args, k + 1);
        assert(args.take(k + 1).drop_last() =~= args.take(k));
        let next = positional_names(args.take(k + 1));
        assert forall|i: int| 0 <= i < positional_names(args.take(k)).len() implies
            positional_names(args)[i] == #[trigger] positional_names(args.take(k))[i] by {
            assert(next[i] == positional_names(args.take(k))[i]);
        }
    } else {
        assert(args.take(k) =~= args);
    }
}

/// An option's own flag finds it.
proof fn lemma_option_found(args: Seq<ArgNode>, k: int, n: int)
    requires
        0 <= k < n <= args.len(),
        distinct_args(args),
        is_option(args[k]),
    ensures
        option_at(args.take(n), args[k].long_flag()->0) == Some(k),
    decreases n,
{
    let flag = args[k].long_flag()->0;
    assert(args.take(n).drop_last() =~= args.take(n - 1));
    assert(args.take(n).last() == args[n - 1]);
    if k < n - 1 {
        if is_option(args[n - 1]) {
            assert(args[k].long_flag() != args[n - 1].long_flag());
        }
        lemma_option_found(args, k, n - 1);
    }
}

/// A flag without an equals sign cannot be cut at one.
proof fn lemma_no_cut(s: Seq<char>, c: char)
    requires
        !s.contains(c),
    ensures
        first_pos(s, c) == s.len(),
        cut(s, c) is None,
    decreases s.len(),
{
    if s.len() > 0 {
        assert(s[0] != c);
        assert(!s.drop_first().contains(c)) by {
            if s.drop_first().contains(c) {
                let i = choose|i: int| 0 <= i < s.drop_first().len() && s.drop_first()[i] == c;
                assert(s[i + 1] == c);
            }
        }
        lemma_no_cut(s.drop_first(), c);
    }
}

/// A long flag starts with two dashes and has no equals sign.
proof fn lemma_flag_shape(args: Seq<ArgNode>, k: int)
    requires
        0 <= k < args.len(),
        distinct_args(args),
        is_option(args[k]),
    ensures
        args[k].long_flag() is Some,
        starts(args[k].long_flag()->0, "--"@),
        cut(args[k].long_flag()->0, '=') is None,
{
    reveal_strlit("--");
    let l = args[k].long->0@;
    let f = "--"@ + l;
    assert(f.subrange(0, 2) =~= "--"@);
    assert(!f.contains('=')) by {
        if f.contains('=') {
            let i = choose|i: int| 0 <= i < f.len() && f[i] == '=';
            if i >= 2 {
                assert(l[i - 2] == '=');
                assert(l.contains('='));
            }
        }
    }
    lemma_no_cut(f, '=');
}

/// One flag with its value, read.
proof fn lemma_read_pair(
    args: Seq<ArgNode>,
    k: int,
    v: Seq<char>,
    tail: Seq<Seq<char>>,
    m: Map<Seq<char>, JsonV>,
    pos: nat,
    tool: Seq<char>,
)
    requires
        0 <= k < args.len(),
        distinct_args(args),
        is_option(args[k]),
        args[k].valued(),
    ensures
        assigned(args, seq![args[k].long_flag()->0, v] + tail, m, pos, tool) == assigned(
            args,
            tail,
            put_value(m, args[k].id@, args[k].action == ArgKind::Values, JsonV::Str(v)),
            pos,
            tool,
        ),
{
    lemma_flag_shape(args, k);
    lemma_option_found(args, k, args.len() as int);
    assert(args.take(args.len() as int) =~= args);
    let rest = seq![args[k].long_flag()->0, v] + tail;
    assert(rest.skip(2) =~= tail);
    assert(rest[0] == args[k].long_flag()->0);
    assert(rest[1] == v);
}

/// A repeated flag, read: the values gather in the order given.
proof fn lemma_read_repeated(
    args: Seq<ArgNode>,
    k: int,
    vs: Seq<JsonV>,
    tail: Seq<Seq<char>>,
    m: Map<Seq<char>, JsonV>,
    pos: nat,
    tool: Seq<char>,
)
    requires
        0 <= k < args.len(),
        distinct_args(args),
        is_option(args[k]),
        args[k].action == ArgKind::Values,
        !m.contains_key(args[k].id@),
        vs.len() > 0,
        forall|i: int| 0 <= i < vs.len() ==> (#[trigger] vs[i]) is Str,
    ensures
        repeated_flag(args[k].long_flag()->0, vs) is Ok,
        assigned(args, repeated_flag(args[k].long_flag()->0, vs)->Ok_0 + tail, m, pos, tool)
            == assigned(args, tail, m.insert(args[k].id@, JsonV::Array(vs)), pos, tool),
    decreases vs.len(),
{
    let long = args[k].long_flag()->0;
    let init = vs.drop_last();
    let s = vs.last()->Str_0;
    assert(vs[vs.len() - 1] is Str);
    let pair = seq![long, s];
    if vs.len() == 1 {
        assert(init.len() == 0);
        let toks = repeated_flag(long, vs)->Ok_0;
        assert(toks =~= pair);
        lemma_read_pair(args, k, s, tail, m, pos, tool);
        assert(seq![JsonV::Str(s)] =~= vs);
    } else {
        assert forall|i: int| 0 <= i < init.len() implies (#[trigger] init[i]) is Str by {
            assert(init[i] == vs[i]);
        }
        lemma_read_repeated(args, k, init, pair + tail, m, pos, tool);
        let before = repeated_flag(long, init)->Ok_0;
        let toks = repeated_flag(long, vs)->Ok_0;
        assert(toks + tail =~= before + (pair + tail));
        let m1 = m.insert(args[k].id@, JsonV::Array(init));
        lemma_read_pair(args, k, s, tail, m1, pos, tool);
        assert(init.push(JsonV::Str(s)) =~= vs);
        assert(m1.insert(args[k].id@, JsonV::Array(vs)) =~= m.insert(
            args[k].id@,
            JsonV::Array(vs),
        ));
    }
}

/// Keys of the positional part belong to positionals among the arguments.
proof fn lemma_positional_part_keys(args: Seq<ArgNode>, m: Map<Seq<char>, JsonV>, key: Seq<char>)
    ensures
        positional_part(args, m).contains_key(key) <==> m.contains_key(key) && exists|i: int|
            0 <= i < args.len() && is_positional(#[trigger] args[i]) && args[i].id@ == key,
        positional_part(args, m).contains_key(key) ==> positional_part(args, m)[key] == m[key],
    decreases args.len(),
{
    if args.len() > 0 {
        let t = args.drop_last();
        lemma_positional_part_keys(t, m, key);
        if positional_part(t, m).contains_key(key) {
            let i = choose|i: int|
                0 <= i < t.len() && is_positional(#[trigger] t[i]) && t[i].id@ == key;
            assert(args[i] == t[i]);
        }
        if m.contains_key(key) && exists|i: int|
            0 <= i < args.len() && is_positional(#[trigger] args[i]) && args[i].id@ == key {
            let i = choose|i: int|
                0 <= i < args.len() && is_positional(#[trigger] args[i]) && args[i].id@ == key;
            if i < t.len() {
                assert(t[i] == args[i]);
            }
        }
    }
}

/// Keys of the option part are those of the base and those of options among
/// the arguments.
proof fn lemma_option_part_keys(
    base: Map<Seq<char>, JsonV>,
    args: Seq<ArgNode>,
    m: Map<Seq<char>, JsonV>,
    key: Seq<char>,
)
    requires
        base.contains_key(key) ==> m.contains_key(key) && base[key] == m[key],
    ensures
        option_part(base, args, m).contains_key(key) <==> base.contains_key(key) || (m.contains_key(
            key,
        ) && exists|i: int|
            0 <= i < args.len() && is_option(#[trigger] args[i]) && args[i].id@ == key),
        option_part(base, args, m).contains_key(key) ==> option_part(base, args, m)[key] == m[key],
    decreases args.len(),
{
    if args.len() > 0 {
        let t = args.drop_last();
        lemma_option_part_keys(base, t, m, key);
        if exists|i: int| 0 <= i < t.len() && is_option(#[trigger] t[i]) && t[i].id@ == key {
            let i = choose|i: int| 0 <= i < t.len() && is_option(#[trigger] t[i]) && t[i].id@ == key;
            assert(args[i] == t[i]);
        }
        if exists|i: int|
            0 <= i < args.len() && is_option(#[trigger] args[i]) && args[i].id@ == key {
            let i = choose|i: int|
                0 <= i < args.len() && is_option(#[trigger] args[i]) && args[i].id@ == key;
            if i < t.len() {
                assert(t[i] == args[i]);
            }
        }
    }
}

/// The positionals of the first `k` arguments, written and read.
proof fn lemma_positionals_read(
    args: Seq<ArgNode>,
    k: int,
    m: Map<Seq<char>, JsonV>,
    tail: Seq<Seq<char>>,
    tool: Seq<char>,
)
    requires
        0 <= k <= args.len(),
        distinct_args(args),
        expressible(args, m),
    ensures
        ({
            let p = positional_tokens(leaf_args(args.take(k)), m);
            &&& p is Ok
            &&& assigned(args, p->Ok_0 + tail, Map::empty(), 0, tool) == assigned(
                args,
                tail,
                positional_part(args.take(k), m),
                p->Ok_0.len(),
                tool,
            )
            &&& (forall|i: int|
                0 <= i < k && is_positional(#[trigger] args[i]) ==> m.contains_key(args[i].id@))
                ==> p->Ok_0.len() == positional_names(args.take(k)).len()
        }),
    decreases k,
{
    let part = args.take(k);
    if k == 0 {
        assert(leaf_args(part) =~= Seq::<ArgV>::empty());
        assert(Seq::<Seq<char>>::empty() + tail =~= tail);
    } else {
        let a = args[k - 1];
        let init = args.take(k - 1);
        assert(part.drop_last() =~= init);
        assert(part.last() == a);
        lemma_leaf_args_step(part);
        lemma_arg_round_trip(a);
        let p0 = positional_tokens(leaf_args(init), m);
        if is_positional(a) && m.contains_key(a.id@) {
            let s = m[a.id@]->Str_0;
            assert(carries(a, m[a.id@]));
            lemma_positionals_read(args, k - 1, m, seq![s] + tail, tool);
            assert forall|i: int| 0 <= i < k - 1 && is_positional(#[trigger] args[i]) implies
                m.contains_key(args[i].id@) by {
                assert(is_positional(args[k - 1]));
            }
            let la = leaf_args(part);
            assert(la.drop_last() =~= leaf_args(init));
            let p = positional_tokens(la, m)->Ok_0;
            assert(p =~= p0->Ok_0.push(s));
            assert(p + tail =~= p0->Ok_0 + (seq![s] + tail));
            let rest = seq![s] + tail;
            assert(rest.drop_first() =~= tail);
            lemma_names_prefix(args, k);
            let names = positional_names(part);
            assert(names == positional_names(init).push(a.id@));
            assert(names[names.len() - 1] == a.id@);
            assert(positional_names(args)[names.len() - 1] == a.id@);
        } else {
            lemma_positionals_read(args, k - 1, m, tail, tool);
            if !automatic(a.action) {
                let la = leaf_args(part);
                assert(la.drop_last() =~= leaf_args(init));
                if a.positional {
                    assert(is_positional(args[k - 1]));
                }
            }
            if forall|i: int|
                0 <= i < k && is_positional(#[trigger] args[i]) ==> m.contains_key(args[i].id@) {
                if is_positional(a) {
                    assert(is_positional(args[k - 1]));
                }
            }
        }
    }
}

/// The options of the first `k` arguments, written and read.
proof fn lemma_options_read(
    args: Seq<ArgNode>,
    k: int,
    m: Map<Seq<char>, JsonV>,
    tail: Seq<Seq<char>>,
    base: Map<Seq<char>, JsonV>,
    pos: nat,
    tool: Seq<char>,
)
    requires
        0 <= k <= args.len(),
        distinct_args(args),
        expressible(args, m),
        base == positional_part(args, m),
    ensures
        ({
            let p = all_option_tokens(leaf_args(args.take(k)), m);
            &&& p is Ok
            &&& assigned(args, p->Ok_0 + tail, base, pos, tool) == assigned(
                args,
                tail,
                option_part(base, args.take(k), m),
                pos,
                tool,
            )
        }),
    decreases k,
{
    let part = args.take(k);
    if k == 0 {
        assert(leaf_args(part) =~= Seq::<ArgV>::empty());
        assert(Seq::<Seq<char>>::empty() + tail =~= tail);
    } else {
        let a = args[k - 1];
        let init = args.take(k - 1);
        assert(part.drop_last() =~= init);
        assert(part.last() == a);
        lemma_leaf_args_step(part);
        lemma_arg_round_trip(a);
        let av = arg_of(arg_json(a));
        let p0 = all_option_tokens(leaf_args(init), m);
        if is_option(a) && m.contains_key(a.id@) {
            assert(carries(args[k - 1], m[a.id@]));
            lemma_flag_shape(args, k - 1);
            let la = leaf_args(part);
            assert(la.drop_last() =~= leaf_args(init));
            let mk = option_part(base, init, m);
            // the option's own name has not been given yet
            lemma_positional_part_keys(args, m, a.id@);
            lemma_option_part_keys(base, init, m, a.id@);
            assert(!base.contains_key(a.id@)) by {
                if base.contains_key(a.id@) {
                    let i = choose|i: int|
                        0 <= i < args.len() && is_positional(#[trigger] args[i]) && args[i].id@
                            == a.id@;
                    assert(args[k - 1].id@ == args[i].id@);
                }
            }
            assert(!mk.contains_key(a.id@)) by {
                if mk.contains_key(a.id@) {
                    let i = choose|i: int|
                        0 <= i < init.len() && is_option(#[trigger] init[i]) && init[i].id@ == a.id@;
                    assert(args[i] == init[i]);
                    assert(args[i].id@ == args[k - 1].id@);
                }
            }
            let more = option_tokens(av, m);
            let long = a.long_flag()->0;
            if !a.valued() {
                let rest = seq![long] + tail;
                lemma_option_found(args, k - 1, args.len() as int);
                assert(args.take(args.len() as int) =~= args);
                assert(rest.drop_first() =~= tail);
                assert(assigned(args, rest, mk, pos, tool) == assigned(
                    args,
                    tail,
                    mk.insert(a.id@, m[a.id@]),
                    pos,
                    tool,
                ));
            } else if a.action == ArgKind::Values {
                lemma_read_repeated(args, k - 1, m[a.id@]->Array_0, tail, mk, pos, tool);
            } else {
                lemma_read_pair(args, k - 1, m[a.id@]->Str_0, tail, mk, pos, tool);
            }
            assert(more is Ok);
            lemma_options_read(args, k - 1, m, more->Ok_0 + tail, base, pos, tool);
            let p = all_option_tokens(la, m)->Ok_0;
            assert(p + tail =~= p0->Ok_0 + (more->Ok_0 + tail));
        } else {
            lemma_options_read(args, k - 1, m, tail, base, pos, tool);
            if !automatic(a.action) {
                let la = leaf_args(part);
                assert(la.drop_last() =~= leaf_args(init));
                assert(option_tokens(av, m) == Ok::<Seq<Seq<char>>, Seq<char>>(Seq::empty()));
                assert(p0->Ok_0 + Seq::<Seq<char>>::empty() =~= p0->Ok_0);
            }
        }
    }
}

/// The tokens that a call's arguments are written as read back as the same
/// arguments, whatever tokens follow.
pub proof fn law_arguments_round_trip(
    args: Seq<ArgNode>,
    m: Map<Seq<char>, JsonV>,
    tail: Seq<Seq<char>>,
    tool: Seq<char>,
)
    requires
        distinct_args(args),
        expressible(args, m),
    ensures
        ({
            let p = positional_tokens(leaf_args(args), m);
            let o = all_option_tokens(leaf_args(args), m);
            &&& p is Ok
            &&& o is Ok
            &&& assigned(args, p->Ok_0 + o->Ok_0 + tail, Map::empty(), 0, tool) == assigned(
                args,
                tail,
                m,
                p->Ok_0.len(),
                tool,
            )
        }),
{
    let n = args.len() as int;
    assert(args.take(n) =~= args);
    let base = positional_part(args, m);
    let p = positional_tokens(leaf_args(args), m)->Ok_0;
    let o = all_option_tokens(leaf_args(args), m)->Ok_0;
    lemma_positionals_read(args, n, m, o + tail, tool);
    lemma_options_read(args, n, m, tail, base, p.len(), tool);
    assert(p + o + tail =~= p + (o + tail));
    let all = option_part(base, args, m);
    assert forall|key: Seq<char>| #[trigger] all.contains_key(key) <==> m.contains_key(key) by {
        lemma_positional_part_keys(args, m, key);
        lemma_option_part_keys(base, args, m, key);
        if m.contains_key(key) {
            let i = choose|i: int|
                0 <= i < args.len() && !automatic(args[i].action) && (#[trigger] args[i]).id@ == key;
            assert(is_positional(args[i]) || is_option(args[i]));
        }
    }
    assert forall|key: Seq<char>| #[trigger] all.contains_key(key) implies all[key] == m[key] by {
        lemma_positional_part_keys(args, m, key);
        lemma_option_part_keys(base, args, m, key);
    }
    assert(all.dom() =~= m.dom());
    assert(all =~= m);
}

/// A walk along a path that is followed to its end goes on with what comes
/// behind it.
proof fn lemma_walk_on(node: CommandNode, path: Seq<Seq<char>>, rest: Seq<Seq<char>>)
    requires
        walked(node, path).1 == path.len(),
        walked(node, path).0.subcommands@.len() == 0,
    ensures
        walked(node, path + rest) == (walked(node, path).0, path.len()),
    decreases path.len(),
{
    if path.len() == 0 {
        assert(path + rest =~= rest);
        crate::clap_catalog::lemma_find_child(node.subcommands@, rest[0]);
    } else {
        assert((path + rest)[0] == path[0]);
        assert((path + rest).drop_first() =~= path.drop_first() + rest);
        let i = find_child(node.subcommands@, path[0])->0;
        lemma_walk_on(node.subcommands@[i], path.drop_first(), rest);
    }
}

/// Whether an argument of a command is the bare `--json` switch.
pub open spec fn is_json_switch(a: ArgNode) -> bool {
    is_option(a) && a.id@ == "json"@ && a.long_flag() == Some("--json"@) && !a.valued()
}

/// Mapping an invocation undoes building it: for a leaf of the command tree and
/// a call that a command line can express, the built argument vector maps back
/// to the same tool with the same arguments, and with `json` set where the leaf
/// has that switch.
pub proof fn law_map_invocation_undoes_build_argv(
    root: CommandNode,
    spec: ToolV,
    m: Map<Seq<char>, JsonV>,
)
    requires
        spec.argv.len() > 0,
        walked(root, spec.argv).1 == spec.argv.len(),
        walked(root, spec.argv).0.subcommands@.len() == 0,
        spec.args == leaf_args(walked(root, spec.argv).0.args@),
        distinct_args(walked(root, spec.argv).0.args@),
        expressible(walked(root, spec.argv).0.args@, m),
        spec.has_json_flag <==> exists|i: int|
            0 <= i < walked(root, spec.argv).0.args@.len() && is_json_switch(
                #[trigger] walked(root, spec.argv).0.args@[i],
            ),
    ensures
        call_argv(spec, m) is Ok,
        mapped(root, call_argv(spec, m)->Ok_0) == Ok::<
            (Seq<char>, Map<Seq<char>, JsonV>),
            MapErrorV,
        >(
            (
                path_tool(spec.argv),
                if spec.has_json_flag {
                    m.insert("json"@, JsonV::Bool(true))
                } else {
                    m
                },
            ),
        ),
{
    let leaf = walked(root, spec.argv).0;
    let args = leaf.args@;
    let tool = path_tool(spec.argv);
    let tail = if spec.has_json_flag {
        seq!["--json"@]
    } else {
        Seq::<Seq<char>>::empty()
    };
    law_arguments_round_trip(args, m, tail, tool);
    let p = positional_tokens(leaf_args(args), m)->Ok_0;
    let o = all_option_tokens(leaf_args(args), m)->Ok_0;
    let rest = p + o + tail;
    let argv = call_argv(spec, m)->Ok_0;
    assert(argv =~= spec.argv + rest);
    lemma_walk_on(root, spec.argv, rest);
    assert(argv.take(spec.argv.len() as int) =~= spec.argv);
    assert(argv.skip(spec.argv.len() as int) =~= rest);
    if spec.has_json_flag {
        let i = choose|i: int| 0 <= i < args.len() && is_json_switch(#[trigger] args[i]);
        lemma_flag_shape(args, i);
        lemma_option_found(args, i, args.len() as int);
        assert(args.take(args.len() as int) =~= args);
        assert(tail.drop_first().len() == 0);
        assert(tail[0] == args[i].long_flag()->0);
        assert(assigned(args, tail, m, p.len(), tool) == assigned(
            args,
            tail.drop_first(),
            m.insert("json"@, JsonV::Bool(true)),
            p.len(),
            tool,
        ));
    }
}

} // verus!
