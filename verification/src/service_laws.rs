//! What the ways in and out owe: which tools read and which are refused, where a
//! command line is sent, what is watched, and which embedder is asked.
use crate::classify::{mutates, read_tool_names};
use crate::dialogue::{latest_time, message_line, message_time};
use crate::dialogue_presence::{
    clean_endpoint, clean_endpoints, lease_alive, presence_of, ttl_left, ttl_of,
};
use crate::embed::{
    chain_of, embedder_of, fallback_embedder, half_words, hex, key_for, primary_embedder, LinkV,
};
use crate::forward::{authority_of, first_plain, forward_target, via_scan};
use crate::invoke::call_argv;
use crate::json::{field, str_field, JsonV};
use crate::kernel::{array_items, count_named, identity_entry, injections, ContextLogV};
use crate::mcp::first_text;
use crate::server::{
    allowed_hosts, call_plan, count_writes, flagged_hosts, listed_tools, listen_address,
    tool_named, trimmed_pieces,
};
use crate::catalog::ToolV;
use crate::settings::{bare_value, scan, SettingsV};
use crate::text::{
    after_prefix, clipped, contains, cut_last, drop_any, int_text, int_value,
    law_integer_text_reads_back, listed, replaced, skip_any, split_on, starts, trimmed,
};
use crate::text_laws::{
    law_cut_parts_are_the_text, law_ends_are_taken_off, law_prefix_and_rest,
    law_split_at_the_separator, law_trimming_takes_white_space_off,
};
use vstd::prelude::*;

verus! {

/// The tools that only read are the twenty that are known to; every other name,
/// known or not, counts as changing state.
pub proof fn law_unknown_tools_change_state(t: Seq<char>)
    ensures
        !mutates(t) <==> {
            ||| t == "memory_show"@
            ||| t == "memory_events"@
            ||| t == "memory_patch_log"@
            ||| t == "memory_diff"@
            ||| t == "memory_search"@
            ||| t == "memory_recent"@
            ||| t == "memory_list"@
            ||| t == "memory_context"@
            ||| t == "memory_context_stats"@
            ||| t == "memory_recall"@
            ||| t == "memory_recall_stats"@
            ||| t == "memory_resolve"@
            ||| t == "memory_kernel_show"@
            ||| t == "memory_export"@
            ||| t == "task_list"@
            ||| t == "task_show"@
            ||| t == "task_resume"@
            ||| t == "metrics_report"@
            ||| t == "metrics_list"@
            ||| t == "db_path"@
        },
{
    let v = read_tool_names();
    assert(v.len() == 20);
    assert(v[0] == "memory_show"@ && v[1] == "memory_events"@ && v[2] == "memory_patch_log"@ && v[3]
        == "memory_diff"@ && v[4] == "memory_search"@ && v[5] == "memory_recent"@ && v[6]
        == "memory_list"@ && v[7] == "memory_context"@ && v[8] == "memory_context_stats"@ && v[9]
        == "memory_recall"@);
    assert(v[10] == "memory_recall_stats"@ && v[11] == "memory_resolve"@ && v[12]
        == "memory_kernel_show"@ && v[13] == "memory_export"@ && v[14] == "task_list"@ && v[15]
        == "task_show"@ && v[16] == "task_resume"@ && v[17] == "metrics_report"@ && v[18]
        == "metrics_list"@ && v[19] == "db_path"@);
    if listed(v, t) {
        let i = choose|i: int| 0 <= i < v.len() && #[trigger] v[i] == t;
        assert(0 <= i < 20);
    }
}

/// The tool of a name has the name and is one of the tools; none is found only
/// where none has it.
pub proof fn law_tool_is_found_by_name(v: Seq<ToolV>, name: Seq<char>)
    ensures
        match tool_named(v, name) {
            Some(t) => v.contains(t) && t.name == name,
            None => forall|i: int| 0 <= i < v.len() ==> (#[trigger] v[i]).name != name,
        },
    decreases v.len(),
{
    if v.len() > 0 {
        let prev = v.drop_last();
        if v.last().name == name {
            assert(v[v.len() - 1] == v.last());
        } else {
            law_tool_is_found_by_name(prev, name);
            match tool_named(prev, name) {
                Some(t) => {
                    let k = choose|k: int| 0 <= k < prev.len() && prev[k] == t;
                    assert(v[k] == t);
                },
                None => {
                    assert forall|i: int| 0 <= i < v.len() implies (#[trigger] v[i]).name
                        != name by {
                        if i < prev.len() {
                            assert(prev[i] == v[i]);
                        }
                    }
                },
            }
        }
    }
}

/// Every tool that may be called is listed under its name and description, and
/// nothing else is.
pub proof fn law_every_callable_tool_is_listed(v: Seq<ToolV>, allow_writes: bool)
    ensures
        forall|k: int|
            0 <= k < v.len() && (allow_writes || !(#[trigger] v[k]).is_write) ==> exists|i: int|
                0 <= i < listed_tools(v, allow_writes).len() && (#[trigger] listed_tools(
                    v,
                    allow_writes,
                )[i]).name == v[k].name && listed_tools(v, allow_writes)[i].description
                    == v[k].description,
        forall|i: int|
            0 <= i < listed_tools(v, allow_writes).len() ==> exists|k: int|
                0 <= k < v.len() && (allow_writes || !(#[trigger] v[k]).is_write) && (
                #[trigger] listed_tools(v, allow_writes)[i]).name == v[k].name,
    decreases v.len(),
{
    if v.len() > 0 {
        let prev = v.drop_last();
        law_every_callable_tool_is_listed(prev, allow_writes);
        let init = listed_tools(prev, allow_writes);
        let r = listed_tools(v, allow_writes);
        assert forall|k: int|
            0 <= k < v.len() && (allow_writes || !(#[trigger] v[k]).is_write) implies exists|i: int|
            0 <= i < r.len() && (#[trigger] r[i]).name == v[k].name && r[i].description
                == v[k].description by {
            if k < prev.len() {
                assert(prev[k] == v[k]);
                let i = choose|i: int|
                    0 <= i < init.len() && (#[trigger] init[i]).name == prev[k].name
                        && init[i].description == prev[k].description;
                assert(r[i] == init[i]);
            } else {
                assert(r[r.len() - 1].name == v[k].name);
            }
        }
        assert forall|i: int| 0 <= i < r.len() implies exists|k: int|
            0 <= k < v.len() && (allow_writes || !(#[trigger] v[k]).is_write) && (
            #[trigger] r[i]).name == v[k].name by {
            if i < init.len() {
                assert(r[i] == init[i]);
                let k = choose|k: int|
                    0 <= k < prev.len() && (allow_writes || !(#[trigger] prev[k]).is_write)
                        && init[i].name == prev[k].name;
                assert(v[k] == prev[k]);
            } else {
                assert(v[v.len() - 1].name == r[i].name);
            }
        }
    }
}

/// A call is run exactly where the tool is there, may be called, and its
/// arguments make an argument vector, which is then the one that is run.
pub proof fn law_call_is_run_where_allowed(
    v: Seq<ToolV>,
    name: Seq<char>,
    m: Map<Seq<char>, JsonV>,
    allow_writes: bool,
)
    ensures
        call_plan(v, name, m, allow_writes) is Run <==> {
            let t = tool_named(v, name);
            t is Some && (allow_writes || !t->0.is_write) && call_argv(t->0, m) is Ok
        },
        call_plan(v, name, m, allow_writes) is Run ==> call_argv(tool_named(v, name)->0, m) == Ok::<
            Seq<Seq<char>>,
            Seq<char>,
        >(call_plan(v, name, m, allow_writes)->Run_0),
{
}

/// The tools that change state are counted: one more for each.
pub proof fn law_writes_are_counted(v: Seq<ToolV>, t: ToolV)
    ensures
        count_writes(Seq::empty()) == 0,
        count_writes(v.push(t)) == count_writes(v) + (if t.is_write {
            1nat
        } else {
            0nat
        }),
{
    assert(v.push(t).drop_last() =~= v);
    assert(v.push(t).last() == t);
}

/// The address to listen on is the value of the first flag for it, in either
/// form; other arguments before it do not matter.
pub proof fn law_listen_flag(a: Seq<char>, value: Seq<char>, rest: Seq<Seq<char>>)
    ensures
        listen_address(seq!["--listen="@ + value] + rest) == Some(value),
        listen_address(seq!["--listen"@, value] + rest) == Some(value),
        a != "--listen"@ && after_prefix(a, "--listen="@) is None ==> listen_address(seq![a] + rest)
            == listen_address(rest),
        listen_address(Seq::empty()) is None,
{
    law_prefix_and_rest("--listen="@ + value, "--listen="@, value);
    let x = seq!["--listen="@ + value] + rest;
    assert(x[0] == "--listen="@ + value);
    let y = seq!["--listen"@, value] + rest;
    assert(y[0] == "--listen"@ && y[1] == value);
    assert(after_prefix("--listen"@, "--listen="@) is None) by {
        reveal_strlit("--listen");
        reveal_strlit("--listen=");
        assert("--listen"@.len() == 8 && "--listen="@.len() == 9);
    }
    let z = seq![a] + rest;
    assert(z[0] == a);
    assert(z.drop_first() =~= rest);
}

/// Hosts given by flags are the ones allowed, whatever the environment says;
/// without any the environment's are.
pub proof fn law_flagged_hosts_win(args: Seq<Seq<char>>, s: SettingsV)
    ensures
        flagged_hosts(args, Seq::empty()).len() > 0 ==> allowed_hosts(args, s) == flagged_hosts(
            args,
            Seq::empty(),
        ),
        flagged_hosts(args, Seq::empty()).len() == 0 && s.var(
            "AGENT_MCP_ALLOWED_HOSTS"@,
        ) is Some ==> allowed_hosts(args, s) == trimmed_pieces(
            split_on(s.var("AGENT_MCP_ALLOWED_HOSTS"@)->0, ','),
        ),
        flagged_hosts(args, Seq::empty()).len() == 0 && s.var(
            "AGENT_MCP_ALLOWED_HOSTS"@,
        ) is None ==> allowed_hosts(args, s).len() == 0,
{
}

/// A host flag adds its value in either form, and another argument adds nothing.
pub proof fn law_host_flag(
    a: Seq<char>,
    host: Seq<char>,
    rest: Seq<Seq<char>>,
    hosts: Seq<Seq<char>>,
)
    ensures
        flagged_hosts(seq!["--allow-host="@ + host] + rest, hosts) == flagged_hosts(
            rest,
            hosts.push(host),
        ),
        flagged_hosts(seq!["--allow-host"@, host] + rest, hosts) == flagged_hosts(
            rest,
            hosts.push(host),
        ),
        a != "--allow-host"@ && after_prefix(a, "--allow-host="@) is None ==> flagged_hosts(
            seq![a] + rest,
            hosts,
        ) == flagged_hosts(rest, hosts),
        flagged_hosts(Seq::empty(), hosts) == hosts,
{
    law_prefix_and_rest("--allow-host="@ + host, "--allow-host="@, host);
    let x = seq!["--allow-host="@ + host] + rest;
    assert(x[0] == "--allow-host="@ + host);
    assert(x.drop_first() =~= rest);
    let y = seq!["--allow-host"@, host] + rest;
    assert(y[0] == "--allow-host"@ && y[1] == host);
    assert(y.skip(2) =~= rest);
    assert(after_prefix("--allow-host"@, "--allow-host="@) is None) by {
        reveal_strlit("--allow-host");
        reveal_strlit("--allow-host=");
        assert("--allow-host"@.len() == 12 && "--allow-host="@.len() == 13);
    }
    let z = seq![a] + rest;
    assert(z[0] == a);
    assert(z.drop_first() =~= rest);
}

/// The kept pieces of a list are its pieces without white space round them, those
/// that say something, in order.
pub proof fn law_pieces_are_trimmed(v: Seq<Seq<char>>, p: Seq<char>)
    ensures
        trimmed_pieces(Seq::empty()).len() == 0,
        trimmed_pieces(v.push(p)) == (if trimmed(p).len() > 0 {
            trimmed_pieces(v).push(trimmed(p))
        } else {
            trimmed_pieces(v)
        }),
{
    assert(v.push(p).drop_last() =~= v);
    assert(v.push(p).last() == p);
}

/// A command line is sent elsewhere only for the groups that work on the shared
/// store and only where forwarding is not switched off; the flag's address wins
/// over the environment's, which wins over the configured one.
pub proof fn law_forwarding_goes_where_it_is_told(argv: Seq<Seq<char>>, s: SettingsV)
    ensures
        s.var("AGENT_NO_FORWARD"@) is Some ==> forward_target(argv, s) is None,
        forward_target(argv, s) is Some ==> ({
            let (flag, rest) = via_scan(argv, None, Seq::empty());
            let (u, line) = forward_target(argv, s)->0;
            let g = first_plain(rest);
            &&& line == rest
            &&& g == Some("memory"@) || g == Some("task"@) || g == Some("metrics"@)
            &&& flag is Some ==> u == flag->0
            &&& flag is None && s.var("AGENT_MCP_URL"@) is Some && s.var("AGENT_MCP_URL"@)->0.len()
                > 0 ==> Some(u) == s.var("AGENT_MCP_URL"@)
            &&& flag is None && s.var("AGENT_MCP_URL"@) is None ==> s.configured(
                "agent"@,
                "mcp_url"@,
            ) == Some(u)
        }),
        s.var("AGENT_NO_FORWARD"@) is None && via_scan(argv, None, Seq::empty()).0 is Some && ({
            let g = first_plain(via_scan(argv, None, Seq::empty()).1);
            g == Some("memory"@) || g == Some("task"@) || g == Some("metrics"@)
        }) ==> forward_target(argv, s) is Some,
{
}

/// The flag for another server is taken out of a command line, in either form and
/// the last one deciding; every other argument stays, in order.
pub proof fn law_via_flag_is_taken_out(
    a: Seq<char>,
    value: Seq<char>,
    more: Seq<Seq<char>>,
    url: Option<Seq<char>>,
    rest: Seq<Seq<char>>,
)
    ensures
        via_scan(seq!["--via-mcp="@ + value] + more, url, rest) == via_scan(
            more,
            Some(value),
            rest,
        ),
        via_scan(seq!["--via-mcp"@, value] + more, url, rest) == via_scan(more, Some(value), rest),
        a != "--via-mcp"@ && after_prefix(a, "--via-mcp="@) is None ==> via_scan(
            seq![a] + more,
            url,
            rest,
        ) == via_scan(more, url, rest.push(a)),
        via_scan(Seq::empty(), url, rest) == (url, rest),
{
    law_prefix_and_rest("--via-mcp="@ + value, "--via-mcp="@, value);
    let x = seq!["--via-mcp="@ + value] + more;
    assert(x[0] == "--via-mcp="@ + value);
    assert(x.drop_first() =~= more);
    let y = seq!["--via-mcp"@, value] + more;
    assert(y[0] == "--via-mcp"@ && y[1] == value);
    assert(y.skip(2) =~= more);
    assert(after_prefix("--via-mcp"@, "--via-mcp="@) is None) by {
        reveal_strlit("--via-mcp");
        reveal_strlit("--via-mcp=");
        assert("--via-mcp"@.len() == 9 && "--via-mcp="@.len() == 10);
    }
    let z = seq![a] + more;
    assert(z[0] == a);
    assert(z.drop_first() =~= more);
}

/// The host and port of an address are read back from it, whatever path follows;
/// without a port it is the scheme's own.
pub proof fn law_address_reads_back(host: Seq<char>, port: nat, path: Seq<char>)
    requires
        !host.contains('/'),
        !host.contains(':'),
        port <= 65535,
    ensures
        authority_of("http://"@ + (host.push(':') + int_text(port as int)).push('/') + path) == Some(
            (host, port),
        ),
        authority_of("http://"@ + host.push('/') + path) == Some((host, 80nat)),
        authority_of("https://"@ + host.push('/') + path) == Some((host, 443nat)),
{
    reveal_strlit("http://");
    reveal_strlit("https://");
    let a = "http://"@;
    let b = "https://"@;
    assert(a.len() == 7 && b.len() == 8 && a[4] == ':' && b[4] == 's');
    let p = int_text(port as int);
    law_integer_text_reads_back(port as int);
    lemma_digits_alone(port, '/');
    lemma_digits_alone(port, ':');
    lemma_digits_alone(port, '-');
    assert(p[0] != '-');
    let named = host.push(':') + p;
    assert(!named.contains('/')) by {
        if named.contains('/') {
            let i = choose|i: int| 0 <= i < named.len() && named[i] == '/';
            if i < host.len() {
                assert(host[i] == '/');
            } else if i > host.len() {
                assert(p[i - host.len() - 1] == '/');
            }
        }
    }
    let r1 = named.push('/') + path;
    let r2 = host.push('/') + path;
    let u1 = a + named.push('/') + path;
    let u2 = a + host.push('/') + path;
    let u3 = b + host.push('/') + path;
    assert(u1 =~= a + r1);
    assert(u2 =~= a + r2);
    assert(u3 =~= b + r2);
    law_prefix_and_rest(u1, a, r1);
    law_prefix_and_rest(u2, a, r2);
    law_prefix_and_rest(u3, b, r2);
    assert(!starts(u1, b)) by {
        if starts(u1, b) {
            assert(u1.subrange(0, 0 + b.len() as int)[4] == u1[4]);
        }
    }
    assert(!starts(u2, b)) by {
        if starts(u2, b) {
            assert(u2.subrange(0, 0 + b.len() as int)[4] == u2[4]);
        }
    }
    assert(!starts(u3, a)) by {
        if starts(u3, a) {
            assert(u3.subrange(0, 0 + a.len() as int)[4] == u3[4]);
        }
    }
    law_split_at_the_separator(named, path, '/');
    law_split_at_the_separator(host, path, '/');
    assert(split_on(r1, '/')[0] == named);
    assert(split_on(r2, '/')[0] == host);
    law_cut_parts_are_the_text(host, ':');
    law_cut_parts_are_the_text(named, ':');
    assert(cut_last(host, ':') is None) by {
        if let Some((x, y)) = cut_last(host, ':') {
            assert(host[x.len() as int] == ':');
        }
    }
    assert(cut_last(named, ':') == Some((host, p))) by {
        match cut_last(named, ':') {
            Some((x, y)) => {
                assert(named == x.push(':') + y);
                assert(named[x.len() as int] == ':');
                if x.len() < host.len() {
                    assert(host[x.len() as int] == ':');
                } else if x.len() > host.len() {
                    assert(p[x.len() - host.len() - 1] == ':');
                }
                assert(x =~= named.take(x.len() as int));
                assert(host =~= named.take(host.len() as int));
                assert(y =~= named.skip(x.len() as int + 1));
                assert(p =~= named.skip(host.len() as int + 1));
            },
            None => {
                assert(named[host.len() as int] == ':');
            },
        }
    }
}

/// The time watched from never goes back: it is the latest of where the watch
/// stood and the messages' times, and one of those.
pub proof fn law_latest_time_is_the_greatest(ms: Seq<JsonV>, since: i64)
    ensures
        latest_time(ms, since) >= since,
        forall|i: int|
            0 <= i < ms.len() && message_time(#[trigger] ms[i]) is Some ==> message_time(ms[i])->0
                <= latest_time(ms, since),
        latest_time(ms, since) == since || exists|i: int|
            0 <= i < ms.len() && message_time(#[trigger] ms[i]) == Some(latest_time(ms, since)),
    decreases ms.len(),
{
    if ms.len() > 0 {
        let prev = ms.drop_last();
        law_latest_time_is_the_greatest(prev, since);
        let t = latest_time(ms, since);
        assert forall|i: int|
            0 <= i < ms.len() && message_time(#[trigger] ms[i]) is Some implies message_time(
            ms[i],
        )->0 <= t by {
            if i < prev.len() {
                assert(prev[i] == ms[i]);
            }
        }
        if t == latest_time(prev, since) {
            if t != since {
                let i = choose|i: int|
                    0 <= i < prev.len() && message_time(#[trigger] prev[i]) == Some(t);
                assert(ms[i] == prev[i]);
            }
        } else {
            assert(message_time(ms[ms.len() - 1]) == Some(t));
        }
    }
}

/// A message is told on one line: who sent it, and no more than the start of what
/// it says.
pub proof fn law_message_is_told_on_one_line(m: JsonV, from: Seq<char>, content: Seq<char>)
    requires
        str_field(m, "from"@) == Some(from),
        str_field(m, "content"@) == Some(content),
    ensures
        ({
            let head = "DIALOGUE "@ + from + ": "@;
            let l = message_line(m);
            &&& l.len() >= head.len() && l.take(head.len() as int) == head
            &&& l.len() <= head.len() + 180
            &&& !l.skip(head.len() as int).contains('\n')
            &&& !content.contains('\n') && content.len() <= 180 ==> l == head + content
        }),
{
    let head = "DIALOGUE "@ + from + ": "@;
    let c = clipped(content, 180);
    lemma_newlines_go(c);
    let r = replaced(c, '\n', " "@);
    assert(message_line(m).take(head.len() as int) =~= head);
    assert(message_line(m).skip(head.len() as int) =~= r);
    if !content.contains('\n') && content.len() <= 180 {
        lemma_nothing_to_replace(content);
    }
}

/// Newlines become spaces, one for one.
proof fn lemma_newlines_go(s: Seq<char>)
    ensures
        replaced(s, '\n', " "@).len() == s.len(),
        !replaced(s, '\n', " "@).contains('\n'),
    decreases s.len(),
{
    reveal_strlit(" ");
    if s.len() > 0 {
        lemma_newlines_go(s.drop_last());
        let r = replaced(s, '\n', " "@);
        let q = replaced(s.drop_last(), '\n', " "@);
        if r.contains('\n') {
            let i = choose|i: int| 0 <= i < r.len() && r[i] == '\n';
            if i < q.len() {
                assert(q[i] == '\n');
            }
        }
    }
}

/// A text without newlines stays.
proof fn lemma_nothing_to_replace(s: Seq<char>)
    requires
        !s.contains('\n'),
    ensures
        replaced(s, '\n', " "@) == s,
    decreases s.len(),
{
    if s.len() == 0 {
        assert(replaced(s, '\n', " "@) =~= s);
    } else {
        let t = s.drop_last();
        assert(!t.contains('\n')) by {
            if t.contains('\n') {
                let i = choose|i: int| 0 <= i < t.len() && t[i] == '\n';
                assert(s[i] == '\n');
            }
        }
        lemma_nothing_to_replace(t);
        assert(s[s.len() - 1] != '\n');
        assert(t + seq![s.last()] =~= s);
    }
}

/// A lease lives on exactly where the answer gives it time that is left, as a
/// number or as text.
pub proof fn law_lease_lives_on_while_time_is_left(t: JsonV)
    ensures
        lease_alive(t) ==> field(t, "result"@) is Some && field(
            field(t, "result"@)->0,
            "TTL"@,
        ) is Some && ttl_left(field(field(t, "result"@)->0, "TTL"@)->0) > 0,
        field(t, "result"@) is None ==> !lease_alive(t),
        field(t, "result"@) is Some && field(field(t, "result"@)->0, "TTL"@) is Some && ttl_left(
            field(field(t, "result"@)->0, "TTL"@)->0,
        ) > 0 ==> lease_alive(t),
        ttl_left(JsonV::Null) == 0,
{
}

/// A lease lives at least five seconds: a configured number from there on is
/// taken, anything else is the default.
pub proof fn law_lease_life(o: Option<Seq<char>>)
    ensures
        ttl_of(o) >= 5,
        o is Some && int_value(o->0) is Some && 5 <= int_value(o->0)->0 <= u64::MAX && o->0[0] != '-'
            ==> ttl_of(o) == int_value(o->0)->0,
        o is None ==> ttl_of(o) == crate::dialogue_presence::DEFAULT_TTL_S,
        o is Some && int_value(o->0) is Some && int_value(o->0)->0 < 5 ==> ttl_of(o)
            == crate::dialogue_presence::DEFAULT_TTL_S,
{
}

/// Presence is kept exactly where an endpoint is configured that says something,
/// and its endpoints are the configured ones without white space and slashes.
pub proof fn law_presence_needs_an_endpoint(s: SettingsV)
    ensures
        s.setting("dialogue"@, "presence_etcd"@, "AGENT_DIALOGUE_PRESENCE_ETCD"@) is None
            ==> presence_of(s) is None,
        presence_of(s) is Some ==> presence_of(s)->0.endpoints.len() > 0
            && presence_of(s)->0.endpoints == clean_endpoints(
            split_on(
                s.setting("dialogue"@, "presence_etcd"@, "AGENT_DIALOGUE_PRESENCE_ETCD"@)->0,
                ',',
            ),
        ) && presence_of(s)->0.ttl_s >= 5,
{
}

/// One more endpoint is kept without white space and slashes at its end where
/// something is left of it.
pub proof fn law_endpoints_are_cleaned(v: Seq<Seq<char>>, p: Seq<char>)
    ensures
        clean_endpoints(Seq::empty()).len() == 0,
        clean_endpoint(p).len() > 0 ==> clean_endpoints(v.push(p)) == clean_endpoints(v).push(
            clean_endpoint(p),
        ),
        clean_endpoint(p).len() == 0 ==> clean_endpoints(v.push(p)) == clean_endpoints(v),
        clean_endpoint(p).len() > 0 ==> clean_endpoint(p).last() != '/',
        p.len() > 0 && trimmed(p) == p && p.last() != '/' ==> clean_endpoint(p) == p,
{
    assert(v.push(p).drop_last() =~= v);
    assert(v.push(p).last() == p);
    reveal_strlit("/");
    assert("/"@[0] == '/');
    law_ends_are_taken_off(trimmed(p), "/"@);
    if clean_endpoint(p).len() > 0 && clean_endpoint(p).last() == '/' {
        assert("/"@.contains('/'));
    }
    if p.len() > 0 && trimmed(p) == p && p.last() != '/' {
        assert(!"/"@.contains(p.last()));
    }
}

/// The embedders are asked in order: the primary, then the fallback; the one that
/// needs no service only where neither is configured.
pub proof fn law_embedders_are_asked_in_order(s: SettingsV)
    ensures
        primary_embedder(s) is Some ==> chain_of(s)[0] == LinkV::Service(primary_embedder(s)->0),
        primary_embedder(s) is Some && fallback_embedder(s) is Some ==> chain_of(s).len() == 2
            && chain_of(s)[1] == LinkV::Service(fallback_embedder(s)->0),
        primary_embedder(s) is Some && fallback_embedder(s) is None ==> chain_of(s).len() == 1,
        primary_embedder(s) is None && fallback_embedder(s) is Some ==> chain_of(s) == seq![
            LinkV::Service(fallback_embedder(s)->0),
        ],
        primary_embedder(s) is None && fallback_embedder(s) is None ==> chain_of(s).len() == 1
            && chain_of(s)[0] is Mock,
{
    assert(chain_of(s) =~= (match (primary_embedder(s), fallback_embedder(s)) {
        (Some(a), Some(b)) => seq![LinkV::Service(a), LinkV::Service(b)],
        (Some(a), None) => seq![LinkV::Service(a)],
        (None, Some(b)) => seq![LinkV::Service(b)],
        (None, None) => seq![LinkV::Mock(128)],
    }));
}

/// The key is the environment's, else the configured one; a service that asks for
/// none needs none, and the one that does is left out without.
pub proof fn law_key_for_the_service(s: SettingsV, base_url: Seq<char>)
    ensures
        ({
            let env = s.var("OPENROUTER_API_KEY"@);
            let set = s.configured("openrouter"@, "api_key"@);
            let k = key_for(s, base_url);
            &&& env is Some && env->0.len() > 0 ==> k == env
            &&& (env is None || env->0.len() == 0) && set is Some ==> k == set
            &&& (env is None || env->0.len() == 0) && set is None && contains(
                base_url,
                "openrouter"@,
            ) ==> k is None
            &&& !contains(base_url, "openrouter"@) ==> k is Some
        }),
{
}

/// A setting of an embedder is the environment's, else the configured one, else
/// the default; an embedder is there exactly where it has a key.
pub proof fn law_embedder_settings(
    s: SettingsV,
    section: Seq<char>,
    prefix: Seq<char>,
    base: Seq<char>,
    model: Seq<char>,
    dims: nat,
)
    ensures
        ({
            let e = embedder_of(s, section, prefix, base, model, dims);
            let url = s.setting(section, "base_url"@, prefix + "_BASE_URL"@);
            let m = s.setting(section, "model"@, prefix + "_MODEL"@);
            let d = s.setting(section, "dims"@, prefix + "_DIMS"@);
            let used = if url is Some {
                url->0
            } else {
                base
            };
            &&& e is Some <==> key_for(s, used) is Some
            &&& e is Some ==> e->0.base_url == used && Some(e->0.api_key) == key_for(s, used)
            &&& e is Some && m is Some ==> e->0.model == m->0
            &&& e is Some && m is None ==> e->0.model == model
            &&& e is Some && d is None ==> e->0.dims == dims
        }),
{
}

/// Bytes in hexadecimal take two digits each, part by part.
pub proof fn law_hex_goes_byte_by_byte(a: Seq<u8>, b: Seq<u8>)
    ensures
        hex(a + b) == hex(a) + hex(b),
        hex(a).len() == 2 * a.len(),
    decreases a.len() + b.len(),
{
    if a.len() > 0 {
        law_hex_goes_byte_by_byte(a.drop_last(), Seq::empty());
        assert(a.drop_last() + Seq::<u8>::empty() =~= a.drop_last());
    }
    if b.len() == 0 {
        assert(a + b =~= a);
        assert(hex(a) + hex(b) =~= hex(a));
    } else {
        law_hex_goes_byte_by_byte(a, b.drop_last());
        assert((a + b).drop_last() =~= a + b.drop_last());
        assert((a + b).last() == b.last());
        assert(hex(a + b) =~= hex(a) + hex(b));
    }
}

/// One more session adds to how often a memory was given as often as it names it,
/// and moves the last time on, where it was an identity session; any other session
/// changes nothing.
pub proof fn law_injections_add_up(log: Seq<ContextLogV>, r: ContextLogV, id: Seq<char>)
    ensures
        ({
            let (n, last) = injections(log, id);
            let (m, now) = injections(log.push(r), id);
            let k = count_named(array_items(r.returned), id);
            &&& !identity_entry(r) || k == 0 ==> (m, now) == (n, last)
            &&& identity_entry(r) && k > 0 && n + k <= u64::MAX ==> m == n + k && now
                >= r.created_at && (now == r.created_at || now == last)
        }),
        injections(Seq::empty(), id) == (0int, 0i64),
{
    assert(log.push(r).drop_last() =~= log);
    assert(log.push(r).last() == r);
}

/// Items that name a memory are counted: one more for each.
pub proof fn law_named_items_are_counted(items: Seq<JsonV>, t: JsonV, id: Seq<char>)
    ensures
        count_named(Seq::empty(), id) == 0,
        count_named(items.push(t), id) == count_named(items, id) + (if str_field(t, "id"@) == Some(
            id,
        ) {
            1nat
        } else {
            0nat
        }),
{
    assert(items.push(t).drop_last() =~= items);
    assert(items.push(t).last() == t);
}

/// The text of a tool's answer is that of its first block that has one.
pub proof fn law_first_text_block(blocks: Seq<JsonV>, i: int)
    requires
        0 <= i < blocks.len(),
        str_field(blocks[i], "text"@) is Some,
        forall|k: int| 0 <= k < i ==> str_field(#[trigger] blocks[k], "text"@) is None,
    ensures
        first_text(blocks) == str_field(blocks[i], "text"@)->0,
    decreases blocks.len(),
{
    if i > 0 {
        assert(str_field(blocks[0], "text"@) is None);
        let t = blocks.skip(1);
        assert forall|k: int| 0 <= k < i - 1 implies str_field(#[trigger] t[k], "text"@) is None by {
            assert(t[k] == blocks[k + 1]);
        }
        assert(t[i - 1] == blocks[i]);
        law_first_text_block(t, i - 1);
    }
}

/// A configured value is found in its section: under the section's header a line
/// that sets the key decides, and a line that sets another key is passed over.
pub proof fn law_key_is_found_in_its_section(
    rest: Seq<Seq<char>>,
    header: Seq<char>,
    key: Seq<char>,
    other: Seq<char>,
    value: Seq<char>,
)
    requires
        plain_line(key.push('=') + value),
        plain_line(other.push('=') + value),
        !key.contains('='),
        !other.contains('='),
        trimmed(key) == key,
        trimmed(other) == other,
        other != key,
    ensures
        scan(seq![key.push('=') + value] + rest, true, header, key) == bare_value(value),
        scan(seq![other.push('=') + value] + rest, true, header, key) == scan(
            rest,
            true,
            header,
            key,
        ),
        scan(seq![key.push('=') + value] + rest, false, header, key) == scan(
            rest,
            false,
            header,
            key,
        ),
{
    let a = key.push('=') + value;
    let b = other.push('=') + value;
    lemma_cut_at(key, value);
    lemma_cut_at(other, value);
    let x = seq![a] + rest;
    let y = seq![b] + rest;
    assert(x[0] == a && y[0] == b);
    assert(x.drop_first() =~= rest);
    assert(y.drop_first() =~= rest);
}

/// Whether a line is neither empty, a comment nor a header, and has no white space
/// at its ends.
pub open spec fn plain_line(l: Seq<char>) -> bool {
    l.len() > 0 && trimmed(l) == l && !starts(l, "#"@) && !starts(l, "["@)
}

/// A line is cut at its first equals sign.
proof fn lemma_cut_at(k: Seq<char>, v: Seq<char>)
    requires
        !k.contains('='),
    ensures
        crate::text::cut(k.push('=') + v, '=') == Some((k, v)),
{
    let l = k.push('=') + v;
    law_cut_parts_are_the_text(l, '=');
    assert(l[k.len() as int] == '=');
    match crate::text::cut(l, '=') {
        Some((x, y)) => {
            assert(l[x.len() as int] == '=');
            if x.len() < k.len() {
                assert(k[x.len() as int] == '=');
            } else if x.len() > k.len() {
                assert(x[k.len() as int] == '=');
            }
            assert(x =~= l.take(x.len() as int));
            assert(k =~= l.take(k.len() as int));
            assert(y =~= l.skip(x.len() as int + 1));
            assert(v =~= l.skip(k.len() as int + 1));
        },
        None => {},
    }
}

/// The number of dimensions is what is set where that is a number that fits, and
/// the default otherwise.
pub proof fn law_dimensions_are_read(
    s: SettingsV,
    section: Seq<char>,
    prefix: Seq<char>,
    base: Seq<char>,
    model: Seq<char>,
    dims: nat,
    n: nat,
)
    requires
        n <= usize::MAX,
        embedder_of(s, section, prefix, base, model, dims) is Some,
    ensures
        ({
            let d = s.setting(section, "dims"@, prefix + "_DIMS"@);
            let e = embedder_of(s, section, prefix, base, model, dims)->0;
            &&& d == Some(int_text(n as int)) ==> e.dims == n
            &&& d is Some && int_value(d->0) is None ==> e.dims == dims
        }),
{
    law_integer_text_reads_back(n as int);
    lemma_digits_alone(n, '-');
    assert(int_text(n as int)[0] != '-');
}

/// The text of a number that is not negative has only digits.
proof fn lemma_digits_alone(n: nat, c: char)
    requires
        c == '-' || c == '/' || c == ':',
    ensures
        int_text(n as int).len() > 0,
        !int_text(n as int).contains(c),
    decreases n,
{
    let t = int_text(n as int);
    if n >= 10 {
        lemma_digits_alone(n / 10, c);
        let u = int_text((n / 10) as int);
        assert(t =~= u.push(crate::text::digit_char(n % 10)));
        if t.contains(c) {
            let i = choose|i: int| 0 <= i < t.len() && t[i] == c;
            if i < u.len() {
                assert(u[i] == c);
            }
        }
    }
}

/// Where nothing else is set the primary embedder is the usual model at the usual
/// address; what the environment or the configuration sets takes their place.
pub proof fn law_usual_embedder(s: SettingsV)
    requires
        primary_embedder(s) is Some,
    ensures
        ({
            let e = primary_embedder(s)->0;
            let url = s.setting("embed"@, "base_url"@, "AGENT_EMBED_BASE_URL"@);
            let model = s.setting("embed"@, "model"@, "AGENT_EMBED_MODEL"@);
            let dims = s.setting("embed"@, "dims"@, "AGENT_EMBED_DIMS"@);
            &&& url is Some ==> e.base_url == url->0
            &&& url is None ==> e.base_url == "https://openrouter.ai/api/v1"@
            &&& model is Some ==> e.model == model->0
            &&& model is None ==> e.model == "baai/bge-large-en-v1.5"@
            &&& dims is None ==> e.dims == 1024
        }),
{
    reveal_strlit("AGENT_EMBED");
    reveal_strlit("_BASE_URL");
    reveal_strlit("_MODEL");
    reveal_strlit("_DIMS");
    reveal_strlit("AGENT_EMBED_BASE_URL");
    reveal_strlit("AGENT_EMBED_MODEL");
    reveal_strlit("AGENT_EMBED_DIMS");
    assert("AGENT_EMBED"@ + "_BASE_URL"@ =~= "AGENT_EMBED_BASE_URL"@);
    assert("AGENT_EMBED"@ + "_MODEL"@ =~= "AGENT_EMBED_MODEL"@);
    assert("AGENT_EMBED"@ + "_DIMS"@ =~= "AGENT_EMBED_DIMS"@);
}

/// There is a fallback only where its address or its model is set.
pub proof fn law_fallback_has_to_be_set(s: SettingsV)
    ensures
        ({
            let url = s.setting("embed.fallback"@, "base_url"@, "AGENT_EMBED_FALLBACK_BASE_URL"@);
            let model = s.setting("embed.fallback"@, "model"@, "AGENT_EMBED_FALLBACK_MODEL"@);
            let e = fallback_embedder(s);
            &&& url is None && model is None ==> e is None
            &&& e is Some && url is Some ==> e->0.base_url == url->0
            &&& e is Some && url is None ==> e->0.base_url == "https://openrouter.ai/api/v1"@
            &&& e is Some && model is Some ==> e->0.model == model->0
            &&& e is Some && model is None ==> e->0.model == "openai/text-embedding-3-small"@
            &&& url is Some && !contains(url->0, "openrouter"@) ==> e is Some
        }),
{
    reveal_strlit("AGENT_EMBED_FALLBACK");
    reveal_strlit("_BASE_URL");
    reveal_strlit("_MODEL");
    reveal_strlit("AGENT_EMBED_FALLBACK_BASE_URL");
    reveal_strlit("AGENT_EMBED_FALLBACK_MODEL");
    assert("AGENT_EMBED_FALLBACK"@ + "_BASE_URL"@ =~= "AGENT_EMBED_FALLBACK_BASE_URL"@);
    assert("AGENT_EMBED_FALLBACK"@ + "_MODEL"@ =~= "AGENT_EMBED_FALLBACK_MODEL"@);
}

/// A configured value is the text as it stands there, without the quotes it may
/// stand in; what follows a hash is a remark.
pub proof fn law_configured_value_is_the_text(v: Seq<char>, remark: Seq<char>)
    requires
        v.len() > 0,
        !v.contains('#'),
        v[0] != '"' && v[0] != '\'' && v.last() != '"' && v.last() != '\'',
        trimmed(v) == v,
    ensures
        bare_value(v) == Some(v),
        bare_value(v.push('#') + remark) == Some(v),
        bare_value(seq!['"'] + v.push('"')) == Some(v),
{
    reveal_strlit("\"'");
    let qs = "\"'"@;
    assert(qs[0] == '"' && qs[1] == '\'' && qs.len() == 2);
    law_split_at_the_separator(v, remark, '#');
    assert(split_on(v.push('#') + remark, '#')[0] == v);
    law_ends_are_taken_off(v, qs);
    assert(!qs.contains(v[0]) && !qs.contains(v.last()));
    let q = seq!['"'] + v.push('"');
    assert(!q.contains('#')) by {
        if q.contains('#') {
            let i = choose|i: int| 0 <= i < q.len() && q[i] == '#';
            assert(v[i - 1] == '#');
        }
    }
    law_split_at_the_separator(q, remark, '#');
    let e = Seq::<char>::empty();
    assert(e + q + e =~= q);
    assert(q[0] == '"' && q.last() == '"');
    law_trimming_takes_white_space_off(e, q, e);
    assert(q.drop_first() =~= v.push('"'));
    assert(qs.contains('"'));
    law_ends_are_taken_off(v.push('"'), qs);
    assert(v.push('"')[0] == v[0]);
    assert(skip_any(q, qs) == v.push('"'));
    assert(v.push('"').drop_last() =~= v);
    assert(drop_any(v.push('"'), qs) == drop_any(v, qs));
}

/// The time of a message is the number it has for it.
pub proof fn law_time_of_a_message(m: JsonV, n: serde_json::Number)
    ensures
        field(m, "ts"@) == Some(JsonV::Number(n)) ==> message_time(m) == crate::json::number_int(n),
        field(m, "ts"@) is None ==> message_time(m) is None,
{
}

/// Two bytes make a half word, the low one first.
pub proof fn law_half_words_of_bytes(b: Seq<u8>, i: int)
    requires
        0 <= i,
        2 * i + 1 < b.len(),
    ensures
        half_words(b).len() == b.len() / 2,
        half_words(b)[i] == (b[2 * i] + b[2 * i + 1] * 256) as u16,
{
}

} // verus!
