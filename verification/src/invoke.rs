//! Turns a tool call into the argument vector of a command-line invocation.
use crate::catalog::{args_view, ArgSpec, ArgV, ToolSpec, ToolV};
use crate::json::{json_text, scalar_shown, trees, Json, JsonObject, JsonV};
use crate::text::{copy_texts, lemma_texts_push, same, texts};
use vstd::prelude::*;

verus! {

/// The outcome of a step that yields tokens or an error message.
pub type Tokens = Result<Seq<Seq<char>>, Seq<char>>;

/// The token of a scalar value, or why there is none.
pub open spec fn scalar_token(v: JsonV) -> Result<Seq<char>, Seq<char>> {
    match scalar_shown(v) {
        Some(s) => Ok(s),
        None => Err("expected a scalar value, got "@ + json_text(v)),
    }
}

/// The tokens of the positional arguments that are given, in declared order.
pub open spec fn positional_tokens(args: Seq<ArgV>, m: Map<Seq<char>, JsonV>) -> Tokens
    decreases args.len(),
{
    if args.len() == 0 {
        Ok(Seq::empty())
    } else {
        match positional_tokens(args.drop_last(), m) {
            Err(e) => Err(e),
            Ok(out) => {
                let a = args.last();
                if !a.positional {
                    Ok(out)
                } else if m.contains_key(a.name) {
                    match scalar_token(m[a.name]) {
                        Ok(s) => Ok(out.push(s)),
                        Err(e) => Err(e),
                    }
                } else if a.required {
                    Err("missing required positional '"@ + a.name + "'"@)
                } else {
                    Ok(out)
                }
            },
        }
    }
}

/// The flag and one token, for each of a list of values.
pub open spec fn repeated_flag(long: Seq<char>, vs: Seq<JsonV>) -> Tokens
    decreases vs.len(),
{
    if vs.len() == 0 {
        Ok(Seq::empty())
    } else {
        match repeated_flag(long, vs.drop_last()) {
            Err(e) => Err(e),
            Ok(out) => match scalar_token(vs.last()) {
                Ok(s) => Ok(out.push(long).push(s)),
                Err(e) => Err(e),
            },
        }
    }
}

/// The tokens of one option: nothing where it is not given or is the managed
/// `json` switch, the flag alone for a bare flag that is true, and the flag
/// before each value otherwise.
pub open spec fn option_tokens(a: ArgV, m: Map<Seq<char>, JsonV>) -> Tokens {
    if a.positional || a.name == "json"@ || !m.contains_key(a.name) {
        Ok(Seq::empty())
    } else {
        let v = m[a.name];
        match a.long {
            None => Err("non-positional arg '"@ + a.name + "' has no long flag"@),
            Some(long) => if a.bare() {
                if v == JsonV::Bool(true) {
                    Ok(seq![long])
                } else {
                    Ok(Seq::empty())
                }
            } else if a.multiple {
                match v {
                    JsonV::Array(vs) => repeated_flag(long, vs),
                    _ => Err("arg '"@ + a.name + "' expects an array"@),
                }
            } else {
                match scalar_token(v) {
                    Ok(s) => Ok(seq![long, s]),
                    Err(e) => Err(e),
                }
            },
        }
    }
}

/// The tokens of all options, in declared order.
pub open spec fn all_option_tokens(args: Seq<ArgV>, m: Map<Seq<char>, JsonV>) -> Tokens
    decreases args.len(),
{
    if args.len() == 0 {
        Ok(Seq::empty())
    } else {
        match all_option_tokens(args.drop_last(), m) {
            Err(e) => Err(e),
            Ok(out) => match option_tokens(args.last(), m) {
                Err(e) => Err(e),
                Ok(more) => Ok(out + more),
            },
        }
    }
}

/// The argument vector of a call: the subcommand path, the positionals, the
/// options, and `--json` where the leaf has that flag.
pub open spec fn call_argv(spec: ToolV, m: Map<Seq<char>, JsonV>) -> Tokens {
    match positional_tokens(spec.args, m) {
        Err(e) => Err(e),
        Ok(pos) => match all_option_tokens(spec.args, m) {
            Err(e) => Err(e),
            Ok(opts) => Ok(
                spec.argv + pos + opts + (if spec.has_json_flag {
                    seq!["--json"@]
                } else {
                    Seq::empty()
                }),
            ),
        },
    }
}

/// An executed outcome agrees with a specified one.
pub open spec fn tokens_match(r: Result<Vec<String>, String>, t: Tokens) -> bool {
    match r {
        Ok(v) => t == Ok::<Seq<Seq<char>>, Seq<char>>(texts(v@)),
        Err(e) => t == Err::<Seq<Seq<char>>, Seq<char>>(e@),
    }
}

/// The text of a scalar on the command line.
fn scalar_to_string(v: &Json) -> (r: Result<String, String>)
    ensures
        match r {
            Ok(s) => scalar_token(v.tree()) == Ok::<Seq<char>, Seq<char>>(s@),
            Err(e) => scalar_token(v.tree()) == Err::<Seq<char>, Seq<char>>(e@),
        },
{
    match v.scalar_text() {
        Some(s) => Ok(s),
        None => {
            let mut e = "expected a scalar value, got ".to_string();
            e.append(v.text().as_str());
            Err(e)
        },
    }
}

/// The tokens of one option.
fn option_argv(a: &ArgSpec, args: &JsonObject) -> (r: Result<Vec<String>, String>)
    ensures
        tokens_match(r, option_tokens(a@, args.map())),
{
    let mut out: Vec<String> = Vec::new();
    assert(texts(out@) =~= Seq::<Seq<char>>::empty());
    if a.positional || same(a.name.as_str(), "json") {
        return Ok(out);
    }
    let v = match args.get(a.name.as_str()) {
        Some(v) => v,
        None => {
            return Ok(out);
        },
    };
    let long = match &a.long {
        Some(l) => l,
        None => {
            let mut e = "non-positional arg '".to_string();
            e.append(a.name.as_str());
            e.append("' has no long flag");
            return Err(e);
        },
    };
    if a.is_bare_flag() {
        if let Json::Bool(true) = v {
            out.push(long.clone());
            assert(texts(out@) =~= seq![long@]);
        }
        Ok(out)
    } else if a.multiple {
        match v {
            Json::Array(arr) => {
                let mut i: usize = 0;
                assert(trees(arr@).take(0).len() == 0);
                while i < arr.len()
                    invariant
                        i <= arr@.len(),
                        Ok::<Seq<Seq<char>>, Seq<char>>(texts(out@)) == repeated_flag(
                            long@,
                            trees(arr@).take(i as int),
                        ),
                        option_tokens(a@, args.map()) == repeated_flag(long@, trees(arr@)),
                    decreases arr@.len() - i,
                {
                    let ghost part = trees(arr@).take(i as int + 1);
                    assert(part.drop_last() =~= trees(arr@).take(i as int));
                    assert(part.last() == arr@[i as int].tree());
                    match scalar_to_string(&arr[i]) {
                        Ok(s) => {
                            let flag = long.clone();
                            proof {
                                lemma_texts_push(out@, flag);
                                lemma_texts_push(out@.push(flag), s);
                            }
                            out.push(flag);
                            out.push(s);
                        },
                        Err(e) => {
                            proof {
                                lemma_flag_error_stays(long@, trees(arr@), i as int + 1);
                            }
                            return Err(e);
                        },
                    }
                    i = i + 1;
                }
                assert(trees(arr@).take(i as int) =~= trees(arr@));
                Ok(out)
            },
            _ => {
                let mut e = "arg '".to_string();
                e.append(a.name.as_str());
                e.append("' expects an array");
                Err(e)
            },
        }
    } else {
        match scalar_to_string(v) {
            Ok(s) => {
                out.push(long.clone());
                out.push(s);
                assert(texts(out@) =~= seq![long@, s@]);
                Ok(out)
            },
            Err(e) => Err(e),
        }
    }
}

/// An error among the first values is the error of all of them.
proof fn lemma_flag_error_stays(long: Seq<char>, vs: Seq<JsonV>, n: int)
    requires
        0 <= n <= vs.len(),
        repeated_flag(long, vs.take(n)) is Err,
    ensures
        repeated_flag(long, vs) == repeated_flag(long, vs.take(n)),
    decreases vs.len() - n,
{
    if n < vs.len() {
        assert(vs.take(n + 1).drop_last() =~= vs.take(n));
        lemma_flag_error_stays(long, vs, n + 1);
    } else {
        assert(vs.take(n) =~= vs);
    }
}

/// An error among the first positionals is the error of all of them.
proof fn lemma_positional_error_stays(args: Seq<ArgV>, m: Map<Seq<char>, JsonV>, n: int)
    requires
        0 <= n <= args.len(),
        positional_tokens(args.take(n), m) is Err,
    ensures
        positional_tokens(args, m) == positional_tokens(args.take(n), m),
    decreases args.len() - n,
{
    if n < args.len() {
        assert(args.take(n + 1).drop_last() =~= args.take(n));
        lemma_positional_error_stays(args, m, n + 1);
    } else {
        assert(args.take(n) =~= args);
    }
}

/// An error among the first options is the error of all of them.
proof fn lemma_option_error_stays(args: Seq<ArgV>, m: Map<Seq<char>, JsonV>, n: int)
    requires
        0 <= n <= args.len(),
        all_option_tokens(args.take(n), m) is Err,
    ensures
        all_option_tokens(args, m) == all_option_tokens(args.take(n), m),
    decreases args.len() - n,
{
    if n < args.len() {
        assert(args.take(n + 1).drop_last() =~= args.take(n));
        lemma_option_error_stays(args, m, n + 1);
    } else {
        assert(args.take(n) =~= args);
    }
}

/// Builds the argument vector, without the program itself, of a tool call.
pub fn build_argv(spec: &ToolSpec, args: &JsonObject) -> (r: Result<Vec<String>, String>)
    ensures
        tokens_match(r, call_argv(spec@, args.map())),
{
    let ghost avs = args_view(spec.args@);
    let ghost m = args.map();
    let mut out = copy_texts(&spec.argv);
    let mut i: usize = 0;
    let ghost head = texts(spec.argv@);
    assert(avs.take(0).len() == 0);
    assert(head + Seq::<Seq<char>>::empty() =~= head);
    while i < spec.args.len()
        invariant
            avs == args_view(spec.args@),
            m == args.map(),
            head == texts(spec.argv@),
            i <= spec.args@.len(),
            positional_tokens(avs.take(i as int), m) is Ok,
            texts(out@) == head + positional_tokens(avs.take(i as int), m)->Ok_0,
        decreases spec.args@.len() - i,
    {
        let a = &spec.args[i];
        let ghost pos = positional_tokens(avs.take(i as int), m)->Ok_0;
        assert(avs.take(i as int + 1).drop_last() =~= avs.take(i as int));
        assert(avs.take(i as int + 1).last() == a@);
        if a.positional {
            match args.get(a.name.as_str()) {
                Some(v) => match scalar_to_string(v) {
                    Ok(s) => {
                        proof {
                            lemma_texts_push(out@, s);
                        }
                        out.push(s);
                        assert(texts(out@) =~= head + pos.push(s@));
                    },
                    Err(e) => {
                        proof {
                            lemma_positional_error_stays(avs, m, i as int + 1);
                        }
                        return Err(e);
                    },
                },
                None => {
                    if a.required {
                        let mut e = "missing required positional '".to_string();
                        e.append(a.name.as_str());
                        e.append("'");
                        proof {
                            lemma_positional_error_stays(avs, m, i as int + 1);
                        }
                        return Err(e);
                    }
                },
            }
        }
        i = i + 1;
    }
    assert(avs.take(i as int) =~= avs);
    let ghost pos = positional_tokens(avs, m)->Ok_0;
    let mut k: usize = 0;
    assert(avs.take(0).len() == 0);
    assert(head + pos + Seq::<Seq<char>>::empty() =~= head + pos);
    while k < spec.args.len()
        invariant
            avs == args_view(spec.args@),
            m == args.map(),
            k <= spec.args@.len(),
            positional_tokens(avs, m) == Ok::<Seq<Seq<char>>, Seq<char>>(pos),
            all_option_tokens(avs.take(k as int), m) is Ok,
            texts(out@) == head + pos + all_option_tokens(avs.take(k as int), m)->Ok_0,
        decreases spec.args@.len() - k,
    {
        let a = &spec.args[k];
        let ghost before = all_option_tokens(avs.take(k as int), m)->Ok_0;
        assert(avs.take(k as int + 1).drop_last() =~= avs.take(k as int));
        assert(avs.take(k as int + 1).last() == a@);
        match option_argv(a, args) {
            Ok(more) => {
                let mut more = more;
                let ghost out0 = out@;
                let ghost more0 = more@;
                out.append(&mut more);
                assert(texts(out@) =~= texts(out0) + texts(more0));
                assert(head + pos + before + texts(more0) =~= head + pos + (before + texts(more0)));
            },
            Err(e) => {
                proof {
                    lemma_option_error_stays(avs, m, k as int + 1);
                }
                return Err(e);
            },
        }
        k = k + 1;
    }
    assert(avs.take(k as int) =~= avs);
    let ghost opts = all_option_tokens(avs, m)->Ok_0;
    if spec.has_json_flag {
        let flag = "--json".to_string();
        proof {
            lemma_texts_push(out@, flag);
        }
        out.push(flag);
        assert(texts(out@) =~= head + pos + opts + seq!["--json"@]);
    } else {
        assert(texts(out@) =~= head + pos + opts + Seq::<Seq<char>>::empty());
    }
    Ok(out)
}

} // verus!
