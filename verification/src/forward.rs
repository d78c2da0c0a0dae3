//! Forwarding: whether an invocation goes to a remote tool server, which tool
//! call it is, and what happens when the server cannot be reached.
use crate::clap_catalog::{automatic, find_child, ArgKind, ArgNode, CommandNode};
use crate::classify::{is_write, mutates};
use crate::json::{Json, JsonObject, JsonV};
use crate::settings::{either, nonempty, Settings, SettingsV};
use crate::text::{
    after_prefix, blank, cut, cut_last, has_prefix, int_value, is_blank, join, joined,
    lemma_texts_push, opt_text, parse_unsigned, replace_char, replaced, rsplit_once, same, skip_any,
    split_char, split_on, split_once, starts, strip_prefix, texts, trim_start_any,
};
use vstd::prelude::*;

verus! {

/// The URL given last by `--via-mcp`, and the other arguments. A `--via-mcp`
/// without a value leaves no URL.
pub open spec fn via_scan(
    argv: Seq<Seq<char>>,
    url: Option<Seq<char>>,
    rest: Seq<Seq<char>>,
) -> (Option<Seq<char>>, Seq<Seq<char>>)
    decreases argv.len(),
{
    if argv.len() == 0 {
        (url, rest)
    } else {
        match after_prefix(argv[0], "--via-mcp="@) {
            Some(u) => via_scan(argv.drop_first(), Some(u), rest),
            None => if argv[0] == "--via-mcp"@ {
                if argv.len() >= 2 {
                    via_scan(argv.skip(2), Some(argv[1]), rest)
                } else {
                    (None, rest)
                }
            } else {
                via_scan(argv.drop_first(), url, rest.push(argv[0]))
            },
        }
    }
}

/// The first argument that is no flag.
pub open spec fn first_plain(argv: Seq<Seq<char>>) -> Option<Seq<char>>
    decreases argv.len(),
{
    if argv.len() == 0 {
        None
    } else if !starts(argv[0], "-"@) {
        Some(argv[0])
    } else {
        first_plain(argv.drop_first())
    }
}

/// Whether a command group works on the shared store.
pub open spec fn shared_group(g: Option<Seq<char>>) -> bool {
    g == Some("memory"@) || g == Some("task"@) || g == Some("metrics"@)
}

/// Where an invocation is forwarded to and with which arguments. Nothing is
/// forwarded from inside a tool server, nor outside the groups that work on the
/// shared store, nor without a URL: the flag's, else the environment's, else
/// the configured one.
pub open spec fn forward_target(argv: Seq<Seq<char>>, s: SettingsV) -> Option<
    (Seq<char>, Seq<Seq<char>>),
> {
    if s.var("AGENT_NO_FORWARD"@) is Some {
        None
    } else {
        let (flag, rest) = via_scan(argv, None, Seq::empty());
        if !shared_group(first_plain(rest)) {
            None
        } else {
            match either(
                either(flag, nonempty(s.var("AGENT_MCP_URL"@))),
                nonempty(s.configured("agent"@, "mcp_url"@)),
            ) {
                Some(u) => Some((u, rest)),
                None => None,
            }
        }
    }
}

/// The configured endpoint.
fn default_mcp_url_from_config(s: &Settings) -> (r: Option<String>)
    ensures
        opt_text(r) == nonempty(s@.configured("agent"@, "mcp_url"@)),
{
    match s.read_config_toml_value("agent", "mcp_url") {
        Some(u) => if u.as_str().is_empty() {
            None
        } else {
            Some(u)
        },
        None => None,
    }
}

/// Finds the first argument that is no flag.
fn find_plain(argv: &Vec<String>) -> (r: Option<String>)
    ensures
        opt_text(r) == first_plain(texts(argv@)),
{
    let ghost all = texts(argv@);
    let mut i: usize = 0;
    assert(all.skip(0) =~= all);
    while i < argv.len()
        invariant
            all == texts(argv@),
            i <= argv@.len(),
            first_plain(all) == first_plain(all.skip(i as int)),
        decreases argv@.len() - i,
    {
        assert(all.skip(i as int)[0] == argv@[i as int]@);
        assert(all.skip(i as int).drop_first() =~= all.skip(i as int + 1));
        if !has_prefix(argv[i].as_str(), "-") {
            return Some(argv[i].clone());
        }
        i = i + 1;
    }
    None
}

/// Resolves where an invocation is forwarded to; `None` to run locally.
pub fn target(argv: &Vec<String>, s: &Settings) -> (r: Option<(String, Vec<String>)>)
    ensures
        match r {
            Some((u, rest)) => forward_target(texts(argv@), s@) == Some((u@, texts(rest@))),
            None => forward_target(texts(argv@), s@) is None,
        },
{
    if s.var("AGENT_NO_FORWARD").is_some() {
        return None;
    }
    let ghost all = texts(argv@);
    let mut url: Option<String> = None;
    let mut rest: Vec<String> = Vec::new();
    let mut i: usize = 0;
    assert(all.skip(0) =~= all);
    assert(texts(rest@) =~= Seq::<Seq<char>>::empty());
    while i < argv.len()
        invariant
            all == texts(argv@),
            i <= argv@.len(),
            via_scan(all, None, Seq::empty()) == via_scan(
                all.skip(i as int),
                opt_text(url),
                texts(rest@),
            ),
        decreases argv@.len() - i,
    {
        let a = argv[i].as_str();
        let ghost here = all.skip(i as int);
        assert(here[0] == a@);
        assert(here.drop_first() =~= all.skip(i as int + 1));
        if let Some(u) = strip_prefix(a, "--via-mcp=") {
            url = Some(u);
            i = i + 1;
        } else if same(a, "--via-mcp") {
            if i + 1 < argv.len() {
                assert(here[1] == argv@[i as int + 1]@);
                assert(here.skip(2) =~= all.skip(i as int + 2));
                url = Some(argv[i + 1].clone());
                i = i + 2;
            } else {
                url = None;
                i = i + 1;
                assert(all.skip(i as int).len() == 0);
            }
        } else {
            let kept = argv[i].clone();
            proof {
                lemma_texts_push(rest@, kept);
            }
            rest.push(kept);
            i = i + 1;
        }
    }
    let group = find_plain(&rest);
    let shared = match &group {
        Some(g) => same(g.as_str(), "memory") || same(g.as_str(), "task") || same(
            g.as_str(),
            "metrics",
        ),
        None => false,
    };
    if !shared {
        return None;
    }
    let found = match url {
        Some(u) => Some(u),
        None => match s.nonempty_var("AGENT_MCP_URL") {
            Some(u) => Some(u),
            None => default_mcp_url_from_config(s),
        },
    };
    match found {
        Some(u) => Some((u, rest)),
        None => None,
    }
}

/// How a forward attempt ended: the call completed, or the caller serves the
/// read from the local store.
#[derive(Clone, Copy, Debug, PartialEq, Eq, Structural)]
pub enum Outcome {
    Done,
    FallBackLocal,
}

/// What to do when a forwarded call failed.
#[derive(Debug)]
pub enum AfterFailure {
    /// The server answered: its error stands.
    Propagate,
    /// A write must not run against the local store.
    Refuse(String),
    /// A read may.
    FallBackLocal,
}

/// The message for a write that found its server unreachable.
pub open spec fn refused_write(url: Seq<char>, tool: Seq<char>) -> Seq<char> {
    "agent-mcp at "@ + url + " is unreachable; refusing to run write `"@ + tool
        + "` against the local DB (that would re-introduce the per-machine drift this routing exists to kill). Bring the endpoint up, or pass an explicit --via-mcp / set AGENT_MCP_URL to override."@
}

/// Decides what follows a failed call.
pub fn after_failure(url: &str, tool: &str, reachable: bool) -> (r: AfterFailure)
    ensures
        match r {
            AfterFailure::Propagate => reachable,
            AfterFailure::Refuse(m) => !reachable && mutates(tool@) && m@ == refused_write(
                url@,
                tool@,
            ),
            AfterFailure::FallBackLocal => !reachable && !mutates(tool@),
        },
{
    if reachable {
        AfterFailure::Propagate
    } else if is_write(tool) {
        let mut m = "agent-mcp at ".to_string();
        m.append(url);
        m.append(" is unreachable; refusing to run write `");
        m.append(tool);
        m.append(
            "` against the local DB (that would re-introduce the per-machine drift this routing exists to kill). Bring the endpoint up, or pass an explicit --via-mcp / set AGENT_MCP_URL to override.",
        );
        AfterFailure::Refuse(m)
    } else {
        AfterFailure::FallBackLocal
    }
}

/// The host and port that an `http` or `https` URL names. A port that is
/// missing or is no number is the scheme's own.
pub open spec fn authority_of(url: Seq<char>) -> Option<(Seq<char>, nat)> {
    let rest = match after_prefix(url, "http://"@) {
        Some(r) => Some(r),
        None => after_prefix(url, "https://"@),
    };
    let default_port: nat = if starts(url, "https://"@) {
        443
    } else {
        80
    };
    match rest {
        None => None,
        Some(r) => {
            let authority = split_on(r, '/')[0];
            match cut_last(authority, ':') {
                Some((h, p)) => Some(
                    (
                        h,
                        match int_value(p) {
                            Some(n) if n <= 65535 && p[0] != '-' => n as nat,
                            _ => default_port,
                        },
                    ),
                ),
                None => Some((authority, default_port)),
            }
        },
    }
}

/// Reads the host and port of a URL.
pub fn host_port(url: &str) -> (r: Option<(String, u16)>)
    ensures
        match r {
            Some((h, p)) => authority_of(url@) == Some((h@, p as nat)),
            None => authority_of(url@) is None,
        },
{
    let default_port: u16 = if has_prefix(url, "https://") {
        443
    } else {
        80
    };
    let rest = match strip_prefix(url, "http://") {
        Some(r) => r,
        None => match strip_prefix(url, "https://") {
            Some(r) => r,
            None => {
                return None;
            },
        },
    };
    let pieces = split_char(rest.as_str(), '/');
    assert(texts(pieces@)[0] == pieces@[0]@);
    match rsplit_once(pieces[0].as_str(), ':') {
        Some((h, p)) => {
            let port: u16 = match parse_unsigned(p.as_str(), 65535) {
                Some(n) => n as u16,
                None => default_port,
            };
            Some((h, port))
        },
        None => Some((pieces[0].clone(), default_port)),
    }
}

/// Why an invocation is no tool call.
#[derive(Debug)]
pub enum MapError {
    NoSubcommand,
    MissingValue(String),
    UnknownFlag(String, String),
    UnexpectedPositional(String),
}

/// What such an error is.
pub enum MapErrorV {
    NoSubcommand,
    MissingValue(Seq<char>),
    UnknownFlag(Seq<char>, Seq<char>),
    UnexpectedPositional(Seq<char>),
}

impl View for MapError {
    type V = MapErrorV;

    open spec fn view(&self) -> MapErrorV {
        match self {
            MapError::NoSubcommand => MapErrorV::NoSubcommand,
            MapError::MissingValue(t) => MapErrorV::MissingValue(t@),
            MapError::UnknownFlag(t, tool) => MapErrorV::UnknownFlag(t@, tool@),
            MapError::UnexpectedPositional(t) => MapErrorV::UnexpectedPositional(t@),
        }
    }
}

impl MapErrorV {
    /// The message of the error, given how the arguments are shown.
    pub open spec fn shown(self, args: Seq<char>) -> Seq<char> {
        match self {
            MapErrorV::NoSubcommand => "no subcommand to forward (got "@ + args + ")"@,
            MapErrorV::MissingValue(t) => "flag "@ + t + " expects a value"@,
            MapErrorV::UnknownFlag(t, tool) => "unknown flag "@ + t + " for tool "@ + tool,
            MapErrorV::UnexpectedPositional(t) => "unexpected positional argument: "@ + t,
        }
    }
}

impl MapError {
    /// The message of the error, given how the arguments are shown.
    pub fn message(&self, args: &str) -> (r: String)
        ensures
            r@ == self@.shown(args@),
    {
        match self {
            MapError::NoSubcommand => {
                let mut m = "no subcommand to forward (got ".to_string();
                m.append(args);
                m.append(")");
                m
            },
            MapError::MissingValue(t) => {
                let mut m = "flag ".to_string();
                m.append(t.as_str());
                m.append(" expects a value");
                m
            },
            MapError::UnknownFlag(t, tool) => {
                let mut m = "unknown flag ".to_string();
                m.append(t.as_str());
                m.append(" for tool ");
                m.append(tool.as_str());
                m
            },
            MapError::UnexpectedPositional(t) => {
                let mut m = "unexpected positional argument: ".to_string();
                m.append(t.as_str());
                m
            },
        }
    }
}

/// The command that leading arguments name, and how many of them: each names a
/// child of the one before, up to the first flag or the first that names none.
pub open spec fn walked(node: CommandNode, args: Seq<Seq<char>>) -> (CommandNode, nat)
    decreases args.len(),
{
    if args.len() == 0 || starts(args[0], "-"@) {
        (node, 0)
    } else {
        match find_child(node.subcommands@, args[0]) {
            Some(i) => {
                let (end, n) = walked(node.subcommands@[i], args.drop_first());
                (end, n + 1)
            },
            None => (node, 0),
        }
    }
}

/// The names of the positional arguments, in order.
pub open spec fn positional_names(args: Seq<ArgNode>) -> Seq<Seq<char>>
    decreases args.len(),
{
    if args.len() == 0 {
        Seq::empty()
    } else {
        let a = args.last();
        if !automatic(a.action) && a.positional {
            positional_names(args.drop_last()).push(a.id@)
        } else {
            positional_names(args.drop_last())
        }
    }
}

/// The position of the option that a long flag names; the last of several.
pub open spec fn option_at(args: Seq<ArgNode>, flag: Seq<char>) -> Option<int>
    decreases args.len(),
{
    if args.len() == 0 {
        None
    } else {
        let a = args.last();
        if !automatic(a.action) && !a.positional && a.long_flag() == Some(flag) {
            Some(args.len() - 1)
        } else {
            option_at(args.drop_last(), flag)
        }
    }
}

/// The arguments with one more: a repeatable one is gathered in an array,
/// another replaces what was there.
pub open spec fn put_value(
    m: Map<Seq<char>, JsonV>,
    name: Seq<char>,
    multiple: bool,
    v: JsonV,
) -> Map<Seq<char>, JsonV> {
    if multiple {
        if m.contains_key(name) {
            match m[name] {
                JsonV::Array(a) => m.insert(name, JsonV::Array(a.push(v))),
                _ => m.insert(name, JsonV::Array(seq![v])),
            }
        } else {
            m.insert(name, JsonV::Array(seq![v]))
        }
    } else {
        m.insert(name, v)
    }
}

/// The name under which `--flag=value` is kept: the option's, or the flag's
/// text with its leading dashes gone and the others made underscores.
pub open spec fn joined_flag_name(args: Seq<ArgNode>, flag: Seq<char>) -> Seq<char> {
    match option_at(args, flag) {
        Some(i) => args[i].id@,
        None => replaced(skip_any(flag, "-"@), '-', "_"@),
    }
}

/// Whether a flag names a repeatable option.
pub open spec fn flag_repeats(args: Seq<ArgNode>, flag: Seq<char>) -> bool {
    match option_at(args, flag) {
        Some(i) => args[i].action == ArgKind::Values,
        None => false,
    }
}

/// The arguments that the tokens behind a command give: `--flag=value`, a bare
/// flag, a flag with the next token as its value, and positionals in declared
/// order.
pub open spec fn assigned(
    args: Seq<ArgNode>,
    rest: Seq<Seq<char>>,
    m: Map<Seq<char>, JsonV>,
    pos: nat,
    tool: Seq<char>,
) -> Result<Map<Seq<char>, JsonV>, MapErrorV>
    decreases rest.len(),
{
    if rest.len() == 0 {
        Ok(m)
    } else {
        let tok = rest[0];
        if starts(tok, "--"@) {
            match cut(tok, '=') {
                Some((flag, val)) => assigned(
                    args,
                    rest.drop_first(),
                    put_value(
                        m,
                        joined_flag_name(args, flag),
                        flag_repeats(args, flag),
                        JsonV::Str(val),
                    ),
                    pos,
                    tool,
                ),
                None => match option_at(args, tok) {
                    Some(i) => if !args[i].valued() {
                        assigned(
                            args,
                            rest.drop_first(),
                            m.insert(args[i].id@, JsonV::Bool(true)),
                            pos,
                            tool,
                        )
                    } else if rest.len() < 2 {
                        Err(MapErrorV::MissingValue(tok))
                    } else {
                        assigned(
                            args,
                            rest.skip(2),
                            put_value(
                                m,
                                args[i].id@,
                                args[i].action == ArgKind::Values,
                                JsonV::Str(rest[1]),
                            ),
                            pos,
                            tool,
                        )
                    },
                    None => Err(MapErrorV::UnknownFlag(tok, tool)),
                },
            }
        } else {
            let names = positional_names(args);
            if pos < names.len() {
                assigned(
                    args,
                    rest.drop_first(),
                    m.insert(names[pos as int], JsonV::Str(tok)),
                    pos + 1,
                    tool,
                )
            } else {
                Err(MapErrorV::UnexpectedPositional(tok))
            }
        }
    }
}

/// The tool name of a command path.
pub open spec fn path_tool(path: Seq<Seq<char>>) -> Seq<char> {
    replaced(joined(path, "_"@), '-', "_"@)
}

/// The tool call that an invocation is.
pub open spec fn mapped(root: CommandNode, args: Seq<Seq<char>>) -> Result<
    (Seq<char>, Map<Seq<char>, JsonV>),
    MapErrorV,
> {
    let (leaf, n) = walked(root, args);
    if n == 0 {
        Err(MapErrorV::NoSubcommand)
    } else {
        let tool = path_tool(args.take(n as int));
        match assigned(leaf.args@, args.skip(n as int), Map::empty(), 0, tool) {
            Ok(m) => Ok((tool, m)),
            Err(e) => Err(e),
        }
    }
}

/// Adds one value to the arguments.
pub fn put(arguments: &mut JsonObject, name: &str, multiple: bool, val: Json)
    ensures
        final(arguments).map() == put_value(old(arguments).map(), name@, multiple, val.tree()),
{
    if multiple {
        let mut items: Vec<Json> = Vec::new();
        if let Some(Json::Array(arr)) = arguments.get(name) {
            let mut i: usize = 0;
            while i < arr.len()
                invariant
                    i <= arr@.len(),
                    items@.len() == i,
                    forall|k: int|
                        0 <= k < i ==> (#[trigger] items@[k]).tree() == arr@[k].tree(),
                decreases arr@.len() - i,
            {
                items.push(arr[i].copy());
                i = i + 1;
            }
            let ghost before = items@;
            assert(crate::json::trees(before) =~= crate::json::trees(arr@));
            let ghost vt = val.tree();
            items.push(val);
            assert(crate::json::trees(items@) =~= crate::json::trees(before).push(vt));
        } else {
            let ghost vt = val.tree();
            items.push(val);
            assert(crate::json::trees(items@) =~= seq![vt]);
        }
        arguments.insert(name, Json::Array(items));
    } else {
        arguments.insert(name, val);
    }
}

/// Finds the option that a long flag names.
fn find_option(args: &Vec<ArgNode>, flag: &str) -> (r: Option<usize>)
    ensures
        match r {
            Some(i) => i < args@.len() && option_at(args@, flag@) == Some(i as int),
            None => option_at(args@, flag@) is None,
        },
{
    let mut n: usize = args.len();
    assert(args@.take(n as int) =~= args@);
    while n > 0
        invariant
            n <= args@.len(),
            option_at(args@, flag@) == option_at(args@.take(n as int), flag@),
        decreases n,
    {
        let a = &args[n - 1];
        assert(args@.take(n as int).drop_last() =~= args@.take(n - 1));
        assert(args@.take(n as int).last() == *a);
        if !is_automatic(a.action) && !a.positional {
            if let Some(l) = &a.long {
                let mut long = "--".to_string();
                long.append(l.as_str());
                if same(long.as_str(), flag) {
                    return Some(n - 1);
                }
            }
        }
        n = n - 1;
    }
    None
}

/// Whether an argument is one that every command has.
fn is_automatic(k: ArgKind) -> (r: bool)
    ensures
        r == automatic(k),
{
    k == ArgKind::Help || k == ArgKind::HelpShort || k == ArgKind::HelpLong || k == ArgKind::Version
}

/// Whether an argument is followed by a value.
fn takes_value(a: &ArgNode) -> (r: bool)
    ensures
        r == a.valued(),
{
    a.action == ArgKind::Value || a.action == ArgKind::Values
}

/// The names of the positional arguments.
fn read_positional_names(args: &Vec<ArgNode>) -> (r: Vec<String>)
    ensures
        texts(r@) == positional_names(args@),
{
    let mut out: Vec<String> = Vec::new();
    let mut i: usize = 0;
    assert(texts(out@) =~= positional_names(args@.take(0)));
    while i < args.len()
        invariant
            i <= args@.len(),
            texts(out@) == positional_names(args@.take(i as int)),
        decreases args@.len() - i,
    {
        assert(args@.take(i as int + 1).drop_last() =~= args@.take(i as int));
        if !is_automatic(args[i].action) && args[i].positional {
            let name = args[i].id.clone();
            proof {
                lemma_texts_push(out@, name);
            }
            out.push(name);
        }
        i = i + 1;
    }
    assert(args@.take(i as int) =~= args@);
    out
}

/// Reads the arguments behind a command.
fn assign(args: &Vec<ArgNode>, all: &Vec<String>, from: usize, tool: &str) -> (r: Result<
    JsonObject,
    MapError,
>)
    requires
        from <= all@.len(),
    ensures
        match r {
            Ok(o) => assigned(args@, texts(all@).skip(from as int), Map::empty(), 0, tool@) == Ok::<
                Map<Seq<char>, JsonV>,
                MapErrorV,
            >(o.map()),
            Err(e) => assigned(args@, texts(all@).skip(from as int), Map::empty(), 0, tool@)
                == Err::<Map<Seq<char>, JsonV>, MapErrorV>(e@),
        },
{
    let names = read_positional_names(args);
    let mut arguments = JsonObject::new();
    let mut pos: usize = 0;
    let mut j: usize = from;
    let ghost ts = texts(all@);
    let ghost goal = assigned(args@, ts.skip(from as int), Map::empty(), 0, tool@);
    while j < all.len()
        invariant
            ts == texts(all@),
            texts(names@) == positional_names(args@),
            from <= j <= all@.len(),
            pos <= names@.len(),
            goal == assigned(args@, ts.skip(from as int), Map::empty(), 0, tool@),
            goal == assigned(args@, ts.skip(j as int), arguments.map(), pos as nat, tool@),
        decreases all@.len() - j,
    {
        let tok = all[j].as_str();
        let ghost here = ts.skip(j as int);
        assert(here[0] == tok@);
        assert(here.drop_first() =~= ts.skip(j as int + 1));
        if has_prefix(tok, "--") {
            if let Some((flag, val)) = split_once(tok, '=') {
                let (key, multiple) = match find_option(args, flag.as_str()) {
                    Some(i) => (args[i].id.clone(), args[i].action == ArgKind::Values),
                    None => (
                        replace_char(trim_start_any(flag.as_str(), "-").as_str(), '-', "_"),
                        false,
                    ),
                };
                put(&mut arguments, key.as_str(), multiple, Json::Str(val));
                j = j + 1;
            } else {
                match find_option(args, tok) {
                    Some(i) => {
                        if !takes_value(&args[i]) {
                            arguments.insert(args[i].id.as_str(), Json::Bool(true));
                            j = j + 1;
                        } else if j + 1 < all.len() {
                            assert(here[1] == all@[j as int + 1]@);
                            assert(here.skip(2) =~= ts.skip(j as int + 2));
                            put(
                                &mut arguments,
                                args[i].id.as_str(),
                                args[i].action == ArgKind::Values,
                                Json::Str(all[j + 1].clone()),
                            );
                            j = j + 2;
                        } else {
                            return Err(MapError::MissingValue(tok.to_owned()));
                        }
                    },
                    None => {
                        return Err(MapError::UnknownFlag(tok.to_owned(), tool.to_owned()));
                    },
                }
            }
        } else {
            if pos < names.len() {
                assert(texts(names@)[pos as int] == names@[pos as int]@);
                arguments.insert(names[pos].as_str(), Json::Str(tok.to_owned()));
                pos = pos + 1;
                j = j + 1;
            } else {
                return Err(MapError::UnexpectedPositional(tok.to_owned()));
            }
        }
    }
    assert(ts.skip(j as int).len() == 0);
    Ok(arguments)
}

/// Maps an invocation to a tool call: follows the command tree to the leaf and
/// assigns the trailing tokens to its arguments by name.
pub fn map_invocation(root: &CommandNode, args: &Vec<String>) -> (r: Result<
    (String, JsonObject),
    MapError,
>)
    ensures
        match r {
            Ok((tool, o)) => mapped(*root, texts(args@)) == Ok::<
                (Seq<char>, Map<Seq<char>, JsonV>),
                MapErrorV,
            >((tool@, o.map())),
            Err(e) => mapped(*root, texts(args@)) == Err::<
                (Seq<char>, Map<Seq<char>, JsonV>),
                MapErrorV,
            >(e@),
        },
{
    let ghost all = texts(args@);
    let mut node: &CommandNode = root;
    let mut path: Vec<String> = Vec::new();
    let mut i: usize = 0;
    let mut stopped = false;
    assert(all.skip(0) =~= all);
    assert(texts(path@) =~= all.take(0));
    while i < args.len() && !stopped
        invariant
            all == texts(args@),
            i <= args@.len(),
            texts(path@) == all.take(i as int),
            walked(*root, all).0 == (if stopped {
                *node
            } else {
                walked(*node, all.skip(i as int)).0
            }),
            walked(*root, all).1 == i + (if stopped {
                0
            } else {
                walked(*node, all.skip(i as int)).1
            }),
        decreases args@.len() - i, (if stopped {
            0nat
        } else {
            1nat
        }),
    {
        let ghost here = all.skip(i as int);
        assert(here[0] == args@[i as int]@);
        assert(here.drop_first() =~= all.skip(i as int + 1));
        if has_prefix(args[i].as_str(), "-") {
            stopped = true;
        } else {
            match node.find_subcommand(args[i].as_str()) {
                Some(child) => {
                    node = child;
                    let seg = args[i].clone();
                    proof {
                        lemma_texts_push(path@, seg);
                        assert(all.take(i as int + 1) =~= all.take(i as int).push(seg@));
                    }
                    path.push(seg);
                    i = i + 1;
                },
                None => {
                    stopped = true;
                },
            }
        }
    }
    assert(walked(*root, all).1 == i);
    if path.len() == 0 {
        assert(texts(path@).len() == 0);
        return Err(MapError::NoSubcommand);
    }
    assert(texts(path@).len() == path@.len());
    let tool = replace_char(join(&path, "_").as_str(), '-', "_");
    match assign(&node.args, args, i, tool.as_str()) {
        Ok(o) => Ok((tool, o)),
        Err(e) => Err(e),
    }
}

/// Where the body of a forwarded memory comes from.
#[derive(Debug)]
pub enum BodySource {
    /// The arguments are forwarded as they are.
    AsGiven,
    /// From a file of the client.
    File(String),
    /// A file argument that is no path.
    BadPath,
    /// From the client's standard input.
    Stdin,
}

/// Whether a tool call carries a memory's body.
pub open spec fn carries_body(tool: Seq<char>) -> bool {
    tool == "memory_add"@ || tool == "memory_update"@
}

/// Whether a call names a file for a body.
pub open spec fn names_file(tool: Seq<char>, m: Map<Seq<char>, JsonV>) -> bool {
    carries_body(tool) && m.contains_key("content_file"@)
}

/// Whether a call takes its body from the standard input.
pub open spec fn names_stdin(tool: Seq<char>, m: Map<Seq<char>, JsonV>) -> bool {
    carries_body(tool) && !m.contains_key("content_file"@) && m.contains_key("content"@)
        && m["content"@] == JsonV::Str("-"@)
}

/// Decides where the body comes from: a content file before standard input,
/// which `-` stands for, before inline content.
pub fn body_source(tool: &str, arguments: &JsonObject) -> (r: BodySource)
    ensures
        ({
            let m = arguments.map();
            match r {
                BodySource::File(p) => names_file(tool@, m) && m["content_file"@] == JsonV::Str(p@),
                BodySource::BadPath => names_file(tool@, m) && !(m["content_file"@] is Str),
                BodySource::Stdin => names_stdin(tool@, m),
                BodySource::AsGiven => !names_file(tool@, m) && !names_stdin(tool@, m),
            }
        }),
{
    if !(same(tool, "memory_add") || same(tool, "memory_update")) {
        return BodySource::AsGiven;
    }
    match arguments.get("content_file") {
        Some(v) => match v {
            Json::Str(p) => BodySource::File(p.clone()),
            _ => BodySource::BadPath,
        },
        None => match arguments.get("content") {
            Some(Json::Str(c)) => if same(c.as_str(), "-") {
                BodySource::Stdin
            } else {
                BodySource::AsGiven
            },
            _ => BodySource::AsGiven,
        },
    }
}

/// The message for a body that turned out blank.
pub open spec fn blank_body(tool: Seq<char>) -> Seq<char> {
    "memory body for `"@ + tool
        + "` resolved to empty/whitespace-only content on the client; refusing to forward a blank memory"@
}

/// The arguments with the body that the client read in place of where it was to
/// be read; those that name no such place as they are. A body that is blank is
/// refused, and so is a file argument that is no path.
pub fn inline_memory_body(tool: &str, arguments: &JsonObject, body: &str) -> (r: Result<
    JsonObject,
    String,
>)
    ensures
        ({
            let m = arguments.map();
            if names_file(tool@, m) && !(m["content_file"@] is Str) {
                r is Err && r->Err_0@ == "--content-file expects a path"@
            } else if !names_file(tool@, m) && !names_stdin(tool@, m) {
                r is Ok && r->Ok_0.map() == m
            } else if blank(body@) {
                r is Err && r->Err_0@ == blank_body(tool@)
            } else {
                r is Ok && r->Ok_0.map() == m.remove("content_file"@).insert(
                    "content"@,
                    JsonV::Str(body@),
                )
            }
        }),
{
    match body_source(tool, arguments) {
        BodySource::AsGiven => {
            return Ok(arguments.copy());
        },
        BodySource::BadPath => {
            return Err("--content-file expects a path".to_string());
        },
        _ => {},
    }
    if is_blank(body) {
        let mut e = "memory body for `".to_string();
        e.append(tool);
        e.append(
            "` resolved to empty/whitespace-only content on the client; refusing to forward a blank memory",
        );
        return Err(e);
    }
    let mut o = arguments.without("content_file");
    o.insert_str("content", body);
    Ok(o)
}

} // verus!
