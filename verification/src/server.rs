//! The tool server's rules: which tools it lists, which calls it runs and how
//! it answers.
use crate::catalog::{tools_view, ToolSpec, ToolV};
use crate::invoke::{build_argv, call_argv};
use crate::json::{Json, JsonObject, JsonV};
use crate::schema::{input_schema, schema_json};
use crate::settings::{Settings, SettingsV};
use crate::text::{
    after_prefix, lemma_texts_push, opt_text, same, split_char, split_on, strip_prefix, texts, trim,
    trimmed,
};
use vstd::prelude::*;

verus! {

/// The tools of a server.
pub struct Registry {
    pub specs: Vec<ToolSpec>,
}

/// A tool as a client sees it.
pub struct Listing {
    pub name: String,
    pub description: String,
    pub schema: Json,
}

/// What such a listing is.
pub struct ListingV {
    pub name: Seq<char>,
    pub description: Seq<char>,
    pub schema: JsonV,
}

impl View for Listing {
    type V = ListingV;

    open spec fn view(&self) -> ListingV {
        ListingV { name: self.name@, description: self.description@, schema: self.schema.tree() }
    }
}

/// What a list of listings is.
pub open spec fn listings_view(v: Seq<Listing>) -> Seq<ListingV> {
    v.map_values(|l: Listing| l@)
}

/// The tools that are listed: those that only read, and the others where writes
/// are allowed, in order.
pub open spec fn listed_tools(v: Seq<ToolV>, allow_writes: bool) -> Seq<ListingV>
    decreases v.len(),
{
    if v.len() == 0 {
        Seq::empty()
    } else {
        let init = listed_tools(v.drop_last(), allow_writes);
        let t = v.last();
        if allow_writes || !t.is_write {
            init.push(
                ListingV {
                    name: t.name,
                    description: t.description,
                    schema: schema_json(t.args),
                },
            )
        } else {
            init
        }
    }
}

/// The tool of a name; the last of several.
pub open spec fn tool_named(v: Seq<ToolV>, name: Seq<char>) -> Option<ToolV>
    decreases v.len(),
{
    if v.len() == 0 {
        None
    } else if v.last().name == name {
        Some(v.last())
    } else {
        tool_named(v.drop_last(), name)
    }
}

/// How many tools change state.
pub open spec fn count_writes(v: Seq<ToolV>) -> nat
    decreases v.len(),
{
    if v.len() == 0 {
        0
    } else {
        count_writes(v.drop_last()) + (if v.last().is_write {
            1nat
        } else {
            0nat
        })
    }
}

impl Registry {
    /// What the tools are.
    pub open spec fn tools_v(self) -> Seq<ToolV> {
        tools_view(self.specs@)
    }

    /// A registry of some tools.
    pub fn new(specs: Vec<ToolSpec>) -> (r: Registry)
        ensures
            r.tools_v() == tools_view(specs@),
    {
        Registry { specs }
    }

    /// The tools to list.
    pub fn tools(&self, allow_writes: bool) -> (r: Vec<Listing>)
        ensures
            listings_view(r@) == listed_tools(self.tools_v(), allow_writes),
    {
        let mut out: Vec<Listing> = Vec::new();
        let mut i: usize = 0;
        let ghost all = self.tools_v();
        assert(listings_view(out@) =~= listed_tools(all.take(0), allow_writes));
        while i < self.specs.len()
            invariant
                all == self.tools_v(),
                i <= self.specs@.len(),
                listings_view(out@) == listed_tools(all.take(i as int), allow_writes),
            decreases self.specs@.len() - i,
        {
            let t = &self.specs[i];
            assert(all.take(i as int + 1).drop_last() =~= all.take(i as int));
            assert(all.take(i as int + 1).last() == t@);
            if allow_writes || !t.is_write {
                let l = Listing {
                    name: t.name.clone(),
                    description: t.description.clone(),
                    schema: input_schema(t),
                };
                let ghost before = out@;
                out.push(l);
                assert(listings_view(out@) =~= listings_view(before).push(l@));
            }
            i = i + 1;
        }
        assert(all.take(i as int) =~= all);
        out
    }

    /// The tool of a name.
    pub fn get(&self, name: &str) -> (r: Option<&ToolSpec>)
        ensures
            match r {
                Some(t) => tool_named(self.tools_v(), name@) == Some(t@),
                None => tool_named(self.tools_v(), name@) is None,
            },
    {
        let ghost all = self.tools_v();
        let mut n: usize = self.specs.len();
        assert(all.take(n as int) =~= all);
        while n > 0
            invariant
                all == self.tools_v(),
                n <= self.specs@.len(),
                tool_named(all, name@) == tool_named(all.take(n as int), name@),
            decreases n,
        {
            let t = &self.specs[n - 1];
            assert(all.take(n as int).last() == t@);
            assert(all.take(n as int).drop_last() =~= all.take(n - 1));
            if same(t.name.as_str(), name) {
                return Some(t);
            }
            n = n - 1;
        }
        None
    }

    /// How many tools there are, and how many of them change state.
    pub fn counts(&self) -> (r: (usize, usize))
        ensures
            r.0 == self.specs@.len(),
            r.1 == count_writes(self.tools_v()),
            r.1 <= r.0,
    {
        let ghost all = self.tools_v();
        let mut writes: usize = 0;
        let mut i: usize = 0;
        assert(all.take(0).len() == 0);
        while i < self.specs.len()
            invariant
                all == self.tools_v(),
                i <= self.specs@.len(),
                writes <= i,
                writes == count_writes(all.take(i as int)),
            decreases self.specs@.len() - i,
        {
            assert(all.take(i as int + 1).drop_last() =~= all.take(i as int));
            assert(all.take(i as int + 1).last() == self.specs@[i as int]@);
            if self.specs[i].is_write {
                writes = writes + 1;
            }
            i = i + 1;
        }
        assert(all.take(i as int) =~= all);
        (self.specs.len(), writes)
    }
}

/// What a server does with a call: it answers with an error, or runs the
/// command line with an argument vector.
#[derive(Debug)]
pub enum CallPlan {
    Refuse(String),
    Run(Vec<String>),
}

/// What such a plan is.
pub enum CallPlanV {
    Refuse(Seq<char>),
    Run(Seq<Seq<char>>),
}

impl View for CallPlan {
    type V = CallPlanV;

    open spec fn view(&self) -> CallPlanV {
        match self {
            CallPlan::Refuse(m) => CallPlanV::Refuse(m@),
            CallPlan::Run(v) => CallPlanV::Run(texts(v@)),
        }
    }
}

/// What is done with a call. An unknown tool is refused, then a tool that
/// changes state unless writes are allowed, then arguments that are no argument
/// vector.
pub open spec fn call_plan(
    v: Seq<ToolV>,
    name: Seq<char>,
    m: Map<Seq<char>, JsonV>,
    allow_writes: bool,
) -> CallPlanV {
    match tool_named(v, name) {
        None => CallPlanV::Refuse("unknown tool: "@ + name),
        Some(t) => if t.is_write && !allow_writes {
            CallPlanV::Refuse(
                "tool '"@ + t.name
                    + "' mutates state; start agent-mcp with --allow-writes to enable it"@,
            )
        } else {
            match call_argv(t, m) {
                Ok(argv) => CallPlanV::Run(argv),
                Err(e) => CallPlanV::Refuse("bad arguments: "@ + e),
            }
        },
    }
}

/// Decides what is done with a call.
pub fn plan_call(reg: &Registry, name: &str, args: &JsonObject, allow_writes: bool) -> (r: CallPlan)
    ensures
        r@ == call_plan(reg.tools_v(), name@, args.map(), allow_writes),
{
    match reg.get(name) {
        None => {
            let mut m = "unknown tool: ".to_string();
            m.append(name);
            CallPlan::Refuse(m)
        },
        Some(t) => {
            if t.is_write && !allow_writes {
                let mut m = "tool '".to_string();
                m.append(t.name.as_str());
                m.append("' mutates state; start agent-mcp with --allow-writes to enable it");
                return CallPlan::Refuse(m);
            }
            match build_argv(t, args) {
                Ok(argv) => CallPlan::Run(argv),
                Err(e) => {
                    let mut m = "bad arguments: ".to_string();
                    m.append(e.as_str());
                    CallPlan::Refuse(m)
                },
            }
        },
    }
}

/// Without leave to write, no call of a tool that changes state is run, and a
/// call of a name that no tool has is never run.
pub proof fn law_write_gate(v: Seq<ToolV>, name: Seq<char>, m: Map<Seq<char>, JsonV>)
    ensures
        call_plan(v, name, m, false) is Run ==> tool_named(v, name) is Some && !tool_named(
            v,
            name,
        )->0.is_write,
        tool_named(v, name) is None ==> forall|w: bool|
            #[trigger] call_plan(v, name, m, w) is Refuse,
{
}

/// Without leave to write, every tool that is listed only reads.
pub proof fn law_listing_hides_writes(v: Seq<ToolV>, k: int)
    requires
        0 <= k < listed_tools(v, false).len(),
    ensures
        exists|i: int|
            0 <= i < v.len() && !(#[trigger] v[i]).is_write && v[i].name == listed_tools(
                v,
                false,
            )[k].name,
    decreases v.len(),
{
    let t = v.drop_last();
    if k < listed_tools(t, false).len() {
        law_listing_hides_writes(t, k);
        let i = choose|i: int|
            0 <= i < t.len() && !(#[trigger] t[i]).is_write && t[i].name == listed_tools(
                t,
                false,
            )[k].name;
        assert(v[i] == t[i]);
        assert(listed_tools(v, false)[k] == listed_tools(t, false)[k]);
    } else {
        assert(!v[v.len() - 1].is_write);
    }
}

/// The answer to a call whose command ended: its output, as an error with both
/// streams where it failed.
pub fn call_answer(success: bool, stdout: &str, stderr: &str) -> (r: (bool, String))
    ensures
        r.0 == !success,
        r.1@ == (if success {
            stdout@
        } else {
            "agent exited non-zero.\n--- stdout ---\n"@ + stdout@ + "\n--- stderr ---\n"@ + stderr@
        }),
{
    if success {
        (false, stdout.to_owned())
    } else {
        let mut m = "agent exited non-zero.\n--- stdout ---\n".to_string();
        m.append(stdout);
        m.append("\n--- stderr ---\n");
        m.append(stderr);
        (true, m)
    }
}

/// The value of the first `--listen`; nothing where it is the last argument.
pub open spec fn listen_address(args: Seq<Seq<char>>) -> Option<Seq<char>>
    decreases args.len(),
{
    if args.len() == 0 {
        None
    } else {
        match after_prefix(args[0], "--listen="@) {
            Some(v) => Some(v),
            None => if args[0] == "--listen"@ {
                if args.len() >= 2 {
                    Some(args[1])
                } else {
                    None
                }
            } else {
                listen_address(args.drop_first())
            },
        }
    }
}

/// Reads the address to listen on.
pub fn parse_listen(args: &Vec<String>) -> (r: Option<String>)
    ensures
        opt_text(r) == listen_address(texts(args@)),
{
    let ghost all = texts(args@);
    let mut i: usize = 0;
    assert(all.skip(0) =~= all);
    while i < args.len()
        invariant
            all == texts(args@),
            i <= args@.len(),
            listen_address(all) == listen_address(all.skip(i as int)),
        decreases args@.len() - i,
    {
        assert(all.skip(i as int)[0] == args@[i as int]@);
        assert(all.skip(i as int).drop_first() =~= all.skip(i as int + 1));
        if let Some(v) = strip_prefix(args[i].as_str(), "--listen=") {
            return Some(v);
        }
        if same(args[i].as_str(), "--listen") {
            if i + 1 < args.len() {
                assert(all.skip(i as int)[1] == args@[i as int + 1]@);
                return Some(args[i + 1].clone());
            }
            return None;
        }
        i = i + 1;
    }
    None
}

/// The hosts given by `--allow-host`, in order.
pub open spec fn flagged_hosts(args: Seq<Seq<char>>, hosts: Seq<Seq<char>>) -> Seq<Seq<char>>
    decreases args.len(),
{
    if args.len() == 0 {
        hosts
    } else {
        match after_prefix(args[0], "--allow-host="@) {
            Some(h) => flagged_hosts(args.drop_first(), hosts.push(h)),
            None => if args[0] == "--allow-host"@ {
                if args.len() >= 2 {
                    flagged_hosts(args.skip(2), hosts.push(args[1]))
                } else {
                    hosts
                }
            } else {
                flagged_hosts(args.drop_first(), hosts)
            },
        }
    }
}

/// The pieces that are not empty once white space round them is gone.
pub open spec fn trimmed_pieces(pieces: Seq<Seq<char>>) -> Seq<Seq<char>>
    decreases pieces.len(),
{
    if pieces.len() == 0 {
        Seq::empty()
    } else {
        let init = trimmed_pieces(pieces.drop_last());
        let p = trimmed(pieces.last());
        if p.len() > 0 {
            init.push(p)
        } else {
            init
        }
    }
}

/// The hosts that may be served: the flags', else the environment's; none means
/// any.
pub open spec fn allowed_hosts(args: Seq<Seq<char>>, s: SettingsV) -> Seq<Seq<char>> {
    let flagged = flagged_hosts(args, Seq::empty());
    if flagged.len() > 0 {
        flagged
    } else {
        match s.var("AGENT_MCP_ALLOWED_HOSTS"@) {
            Some(list) => trimmed_pieces(split_on(list, ',')),
            None => Seq::empty(),
        }
    }
}

/// Splits a comma-separated list, trims the pieces and leaves out empty ones.
pub fn comma_list(list: &str) -> (r: Vec<String>)
    ensures
        texts(r@) == trimmed_pieces(split_on(list@, ',')),
{
    let pieces = split_char(list, ',');
    let ghost all = texts(pieces@);
    let mut out: Vec<String> = Vec::new();
    let mut i: usize = 0;
    assert(texts(out@) =~= trimmed_pieces(all.take(0)));
    while i < pieces.len()
        invariant
            all == texts(pieces@),
            i <= pieces@.len(),
            texts(out@) == trimmed_pieces(all.take(i as int)),
        decreases pieces@.len() - i,
    {
        assert(all.take(i as int + 1).drop_last() =~= all.take(i as int));
        assert(all.take(i as int + 1).last() == pieces@[i as int]@);
        let p = trim(pieces[i].as_str());
        if !p.as_str().is_empty() {
            proof {
                lemma_texts_push(out@, p);
            }
            out.push(p);
        }
        i = i + 1;
    }
    assert(all.take(i as int) =~= all);
    out
}

/// Reads the hosts that may be served.
pub fn parse_allowed_hosts(args: &Vec<String>, s: &Settings) -> (r: Vec<String>)
    ensures
        texts(r@) == allowed_hosts(texts(args@), s@),
{
    let ghost all = texts(args@);
    let mut hosts: Vec<String> = Vec::new();
    let mut i: usize = 0;
    assert(all.skip(0) =~= all);
    assert(texts(hosts@) =~= Seq::<Seq<char>>::empty());
    while i < args.len()
        invariant
            all == texts(args@),
            i <= args@.len(),
            flagged_hosts(all, Seq::empty()) == flagged_hosts(all.skip(i as int), texts(hosts@)),
        decreases args@.len() - i,
    {
        let ghost here = all.skip(i as int);
        assert(here[0] == args@[i as int]@);
        assert(here.drop_first() =~= all.skip(i as int + 1));
        if let Some(h) = strip_prefix(args[i].as_str(), "--allow-host=") {
            proof {
                lemma_texts_push(hosts@, h);
            }
            hosts.push(h);
            i = i + 1;
        } else if same(args[i].as_str(), "--allow-host") {
            if i + 1 < args.len() {
                assert(here[1] == args@[i as int + 1]@);
                assert(here.skip(2) =~= all.skip(i as int + 2));
                let h = args[i + 1].clone();
                proof {
                    lemma_texts_push(hosts@, h);
                }
                hosts.push(h);
                i = i + 2;
            } else {
                i = i + 1;
                assert(all.skip(i as int).len() == 0);
            }
        } else {
            i = i + 1;
        }
    }
    assert(texts(hosts@).len() == hosts@.len());
    if hosts.len() == 0 {
        assert(texts(hosts@) =~= Seq::<Seq<char>>::empty());
        if let Some(list) = s.var("AGENT_MCP_ALLOWED_HOSTS") {
            return comma_list(list.as_str());
        }
    }
    hosts
}

/// Whether tools that change state are enabled: by the flag, or by the variable
/// set to `1` or `true`.
pub fn writes_allowed(args: &Vec<String>, s: &Settings) -> (r: bool)
    ensures
        r == (crate::text::listed(texts(args@), "--allow-writes"@) || s@.var(
            "AGENT_MCP_ALLOW_WRITES"@,
        ) == Some("1"@) || s@.var("AGENT_MCP_ALLOW_WRITES"@) == Some("true"@)),
{
    if crate::text::is_listed(args, "--allow-writes") {
        return true;
    }
    match s.var("AGENT_MCP_ALLOW_WRITES") {
        Some(v) => same(v.as_str(), "1") || same(v.as_str(), "true"),
        None => false,
    }
}

/// The program that calls are run with.
pub fn resolve_agent_bin(s: &Settings) -> (r: String)
    ensures
        r@ == (match s@.var("AGENT_BIN"@) {
            Some(b) => b,
            None => "agent"@,
        }),
{
    match s.var("AGENT_BIN") {
        Some(b) => b,
        None => "agent".to_string(),
    }
}

} // verus!
