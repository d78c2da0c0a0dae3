//! What a session is given at its start: signals of where it runs, the memories
//! that match them, and the identity kernel.
use crate::edit::in_kernel;
use crate::history::{ascending, insert_ascending};
use crate::json::{json_text, trees, Json, JsonObject, JsonV};
use crate::query::{by_type, selected, taken};
use crate::render::{after, memory_trust_label, say, say_all, session_label};
use crate::rows::{memories, Memory, MemoryV};
use crate::sort::{at_most, is_order, order_desc, ordered};
use crate::sql::{ScopeFilter, ScopeV};
use crate::store::{Rank, Store, StoreV, TopicV};
use crate::text::{decimal, is_listed, join, joined, listed, same, texts, usize_text};
use crate::tokens::{cwd_terms, signals_from_cwd, tokenize, tokens};
use vstd::prelude::*;

verus! {

/// The arguments of a session's start.
#[derive(Debug)]
pub struct ContextArgs {
    pub cwd: String,
    pub signals: String,
    pub limit: usize,
    pub verbose: bool,
    pub scope: Option<String>,
    /// `identity` or `full`.
    pub tier: String,
}

/// What a session is given.
#[derive(Clone, Copy, Debug, PartialEq, Eq, Structural)]
pub enum Tier {
    Identity,
    Full,
}

/// Reads what a session is given.
pub fn parse_tier(tier: &str) -> (r: Result<Tier, String>)
    ensures
        match r {
            Ok(t) => tier@ == (if t == Tier::Identity {
                "identity"@
            } else {
                "full"@
            }),
            Err(e) => tier@ != "identity"@ && tier@ != "full"@ && e@ == "invalid --tier: "@ + tier@
                + " (expected 'identity' or 'full')"@,
        },
{
    if same(tier, "identity") {
        Ok(Tier::Identity)
    } else if same(tier, "full") {
        Ok(Tier::Full)
    } else {
        let mut e = "invalid --tier: ".to_string();
        e.append(tier);
        e.append(" (expected 'identity' or 'full')");
        Err(e)
    }
}

/// Whether a term is a signal: one of the working directory or one of the given
/// text.
pub open spec fn is_signal(cwd: Seq<char>, signals: Seq<char>, t: Seq<char>) -> bool {
    cwd_terms(cwd).contains(t) || (signals.len() > 0 && tokens(signals).contains(t))
}

/// The signals of a session, each once and in order.
pub fn context_signals(cwd: &str, signals: &str) -> (r: Vec<String>)
    ensures
        ascending(texts(r@)),
        forall|t: Seq<char>| #[trigger] texts(r@).contains(t) <==> is_signal(cwd@, signals@, t),
{
    let mut out: Vec<String> = Vec::new();
    let own = signals_from_cwd(cwd);
    assert(ascending(texts(out@)));
    insert_all(&mut out, &own);
    if !signals.is_empty() {
        let more = tokenize(signals);
        insert_all(&mut out, &more);
    }
    assert forall|t: Seq<char>| #[trigger] texts(out@).contains(t) <==> is_signal(
        cwd@,
        signals@,
        t,
    ) by {
        assert(!Seq::<Seq<char>>::empty().contains(t));
    }
    out
}

/// Puts texts into an ascending list.
fn insert_all(out: &mut Vec<String>, more: &Vec<String>)
    requires
        ascending(texts(old(out)@)),
    ensures
        ascending(texts(final(out)@)),
        forall|x: Seq<char>| #[trigger]
            texts(final(out)@).contains(x) <==> texts(old(out)@).contains(x) || texts(
                more@,
            ).contains(x),
{
    let ghost start = texts(out@);
    let ghost all = texts(more@);
    let mut i: usize = 0;
    while i < more.len()
        invariant
            i <= more@.len(),
            start == texts(old(out)@),
            all == texts(more@),
            ascending(texts(out@)),
            forall|x: Seq<char>| #[trigger]
                texts(out@).contains(x) <==> start.contains(x) || all.take(i as int).contains(x),
        decreases more@.len() - i,
    {
        let ghost prev = texts(out@);
        insert_ascending(out, more[i].as_str());
        assert(all.take(i as int + 1) =~= all.take(i as int).push(more@[i as int]@));
        assert forall|x: Seq<char>| #[trigger] texts(out@).contains(x) <==> start.contains(x)
            || all.take(i as int + 1).contains(x) by {
            assert(texts(out@).contains(x) <==> prev.contains(x) || x == more@[i as int]@);
            let a = all.take(i as int);
            let b = all.take(i as int + 1);
            if a.contains(x) {
                let k = choose|k: int| 0 <= k < a.len() && a[k] == x;
                assert(b[k] == x);
            }
            if x == more@[i as int]@ {
                assert(b[i as int] == x);
            }
            if b.contains(x) {
                let k = choose|k: int| 0 <= k < b.len() && b[k] == x;
                if k < i {
                    assert(a[k] == x);
                }
            }
        }
        i = i + 1;
    }
    assert(all.take(i as int) =~= all);
}

/// A sum that stops at the largest number.
pub open spec fn capped(a: int, b: int) -> int {
    if a + b > i64::MAX {
        i64::MAX as int
    } else {
        a + b
    }
}

/// The weight of a memory for some terms, in half units; none where no index
/// entry of it is among them.
pub open spec fn topic_weight(ts: Seq<TopicV>, id: Seq<char>, terms: Seq<Seq<char>>) -> Option<int>
    decreases ts.len(),
{
    if ts.len() == 0 {
        None
    } else {
        let init = topic_weight(ts.drop_last(), id, terms);
        let t = ts.last();
        if t.memory_id == id && listed(terms, t.term) {
            Some(
                capped(
                    match init {
                        Some(n) => n,
                        None => 0,
                    },
                    t.weight as int,
                ),
            )
        } else {
            init
        }
    }
}

impl Store {
    /// The weight of a memory for some terms.
    pub fn weight_of(&self, id: &str, terms: &Vec<String>) -> (r: Option<i64>)
        ensures
            match r {
                Some(n) => topic_weight(self@.topics, id@, texts(terms@)) == Some(n as int) && n
                    >= 0,
                None => topic_weight(self@.topics, id@, texts(terms@)) is None,
            },
    {
        let ghost all = self@.topics;
        let mut sum: Option<i64> = None;
        let mut i: usize = 0;
        assert(all.take(0).len() == 0);
        while i < self.topics.len()
            invariant
                all == self@.topics,
                i <= self.topics@.len(),
                match sum {
                    Some(n) => topic_weight(all.take(i as int), id@, texts(terms@)) == Some(
                        n as int,
                    ) && n >= 0,
                    None => topic_weight(all.take(i as int), id@, texts(terms@)) is None,
                },
            decreases self.topics@.len() - i,
        {
            let t = &self.topics[i];
            assert(all.take(i as int + 1).drop_last() =~= all.take(i as int));
            assert(all.take(i as int + 1).last() == t@);
            if same(t.memory_id.as_str(), id) && is_listed(terms, t.term.as_str()) {
                let have: i64 = match sum {
                    Some(n) => n,
                    None => 0,
                };
                let room: u64 = (i64::MAX - have) as u64;
                sum = Some(
                    if t.weight > room {
                        i64::MAX
                    } else {
                        have + t.weight as i64
                    },
                );
            }
            i = i + 1;
        }
        assert(all.take(i as int) =~= all);
        sum
    }
}

/// Whether a memory of a type is a match for some terms: in force, within the
/// scope, and with an index entry among them.
pub open spec fn matches_terms(
    s: StoreV,
    m: MemoryV,
    type_: Seq<char>,
    scope: ScopeV,
    terms: Seq<Seq<char>>,
) -> bool {
    by_type(type_, scope).admits(m) && topic_weight(s.topics, m.id, terms) is Some
}

/// The positions of the matches among the first `n` memories.
pub open spec fn match_positions(
    s: StoreV,
    type_: Seq<char>,
    scope: ScopeV,
    terms: Seq<Seq<char>>,
    n: nat,
) -> Seq<int>
    decreases n,
{
    if n == 0 {
        Seq::empty()
    } else {
        let init = match_positions(s, type_, scope, terms, (n - 1) as nat);
        if matches_terms(s, s.memories[n - 1], type_, scope, terms) {
            init.push(n - 1)
        } else {
            init
        }
    }
}

/// The weights of the memories at some positions, by which they are ordered.
pub open spec fn match_keys(s: StoreV, at: Seq<int>, terms: Seq<Seq<char>>) -> Seq<(i64, i64)> {
    at.map_values(|i: int| (topic_weight(s.topics, s.memories[i].id, terms)->0 as i64, 0i64))
}

/// The positions of the heaviest matches, at most four times as many as are
/// wanted, since age is weighed behind.
pub open spec fn heaviest(
    s: StoreV,
    type_: Seq<char>,
    scope: ScopeV,
    terms: Seq<Seq<char>>,
    limit: nat,
) -> Seq<int> {
    let at = match_positions(s, type_, scope, terms, s.memories.len());
    let order = ordered(match_keys(s, at, terms));
    Seq::new(at_most(4 * limit, at.len()), |i: int| at[order[i] as int])
}

/// Positions as numbers.
pub open spec fn places(v: Seq<usize>) -> Seq<int> {
    v.map_values(|i: usize| i as int)
}

impl Store {
    /// The heaviest matches of a type for some terms, with their weights in half
    /// units.
    pub fn topic_matches(
        &self,
        terms: &Vec<String>,
        type_: &str,
        limit: usize,
        scope: &ScopeFilter,
    ) -> (r: (Vec<usize>, Vec<i64>))
        requires
            4 * limit <= usize::MAX,
        ensures
            places(r.0@) == heaviest(self@, type_@, scope@, texts(terms@), limit as nat),
            r.1@.len() == r.0@.len(),
            forall|i: int| 0 <= i < r.0@.len() ==> (#[trigger] r.0@[i]) < self.memories@.len(),
            forall|i: int|
                0 <= i < r.0@.len() ==> topic_weight(
                    self@.topics,
                    self@.memories[r.0@[i] as int].id,
                    texts(terms@),
                ) == Some(#[trigger] r.1@[i] as int),
    {
        let ghost ms = self@.memories;
        let ghost tm = texts(terms@);
        let mut found: Vec<usize> = Vec::new();
        let mut keys: Vec<(i64, i64)> = Vec::new();
        let mut i: usize = 0;
        let ghost mut at: Seq<int> = Seq::empty();
        assert(at =~= match_positions(self@, type_@, scope@, tm, 0));
        while i < self.memories.len()
            invariant
                ms == self@.memories,
                tm == texts(terms@),
                i <= self.memories@.len(),
                at == match_positions(self@, type_@, scope@, tm, i as nat),
                found@.len() == at.len(),
                keys@.len() == at.len(),
                forall|k: int| 0 <= k < at.len() ==> found@[k] == #[trigger] at[k],
                forall|k: int| 0 <= k < at.len() ==> 0 <= #[trigger] at[k] < i,
                forall|k: int|
                    0 <= k < at.len() ==> topic_weight(self@.topics, ms[at[k]].id, tm) == Some(
                        (#[trigger] keys@[k]).0 as int,
                    ) && keys@[k].1 == 0,
            decreases self.memories@.len() - i,
        {
            let m = &self.memories[i];
            assert(ms[i as int] == m@);
            if same(m.type_.as_str(), type_) && m.is_in_force() && scope.admits(
                m.scope.as_str(),
            ) {
                if let Some(w) = self.weight_of(m.id.as_str(), terms) {
                    found.push(i);
                    keys.push((w, 0));
                    proof {
                        at = at.push(i as int);
                    }
                }
            }
            i = i + 1;
        }
        assert(keys@ =~= match_keys(self@, at, tm));
        let order = order_desc(&keys);
        let want: usize = limit * 4;
        let n: usize = if order.len() < want {
            order.len()
        } else {
            want
        };
        let mut out: Vec<usize> = Vec::new();
        let mut weights: Vec<i64> = Vec::new();
        let mut k: usize = 0;
        while k < n
            invariant
                k <= n <= order@.len(),
                ms == self@.memories,
                is_order(keys@, order@),
                keys@.len() == found@.len(),
                found@.len() == at.len(),
                forall|x: int| 0 <= x < at.len() ==> found@[x] == #[trigger] at[x],
                forall|x: int| 0 <= x < at.len() ==> 0 <= #[trigger] at[x] < self.memories@.len(),
                forall|x: int|
                    0 <= x < at.len() ==> topic_weight(self@.topics, ms[at[x]].id, tm) == Some(
                        (#[trigger] keys@[x]).0 as int,
                    ),
                out@.len() == k,
                weights@.len() == k,
                forall|x: int| 0 <= x < k ==> #[trigger] out@[x] == at[order@[x] as int],
                forall|x: int| 0 <= x < k ==> (#[trigger] out@[x]) < self.memories@.len(),
                forall|x: int|
                    0 <= x < k ==> topic_weight(
                        self@.topics,
                        self@.memories[out@[x] as int].id,
                        tm,
                    ) == Some(#[trigger] weights@[x] as int),
            decreases n - k,
        {
            let p = order[k];
            assert(p < keys@.len());
            assert(found@[p as int] == at[p as int]);
            assert(topic_weight(self@.topics, ms[at[p as int]].id, tm) == Some(
                keys@[p as int].0 as int,
            ));
            out.push(found[p]);
            weights.push(keys[p].0);
            k = k + 1;
        }
        assert(places(out@) =~= heaviest(self@, type_@, scope@, tm, limit as nat));
        (out, weights)
    }
}

/// The best of some scored memories, at most `limit`, equal ones in the order
/// given.
pub open spec fn best(scores: Seq<Rank>, limit: nat) -> Seq<usize> {
    let keys = scores.map_values(|k: Rank| (k.key, 0i64));
    Seq::new(at_most(limit, scores.len()), |i: int| ordered(keys)[i])
}

/// Ranks scored memories.
pub fn rank_scored(scores: &Vec<Rank>, limit: usize) -> (r: Vec<usize>)
    ensures
        r@ == best(scores@, limit as nat),
        forall|i: int| 0 <= i < r@.len() ==> (#[trigger] r@[i]) < scores@.len(),
{
    let mut keys: Vec<(i64, i64)> = Vec::new();
    let mut i: usize = 0;
    while i < scores.len()
        invariant
            i <= scores@.len(),
            keys@.len() == i,
            forall|k: int| 0 <= k < i ==> #[trigger] keys@[k] == (scores@[k].key, 0i64),
        decreases scores@.len() - i,
    {
        keys.push((scores[i].key, 0));
        i = i + 1;
    }
    assert(keys@ =~= scores@.map_values(|k: Rank| (k.key, 0i64)));
    let order = order_desc(&keys);
    let n: usize = if order.len() < limit {
        order.len()
    } else {
        limit
    };
    let mut out: Vec<usize> = Vec::new();
    let mut k: usize = 0;
    while k < n
        invariant
            k <= n <= order@.len(),
            is_order(keys@, order@),
            keys@.len() == scores@.len(),
            out@.len() == k,
            forall|x: int| 0 <= x < k ==> #[trigger] out@[x] == order@[x],
            forall|x: int| 0 <= x < k ==> (#[trigger] out@[x]) < scores@.len(),
        decreases n - k,
    {
        assert(order@[k as int] < keys@.len());
        out.push(order[k]);
        k = k + 1;
    }
    assert(out@ =~= best(scores@, limit as nat));
    out
}

/// How many memories of projects and of references a session is given.
pub fn context_limits(limit: usize) -> (r: (usize, usize))
    ensures
        r.0 == (if limit < 5 {
            5
        } else {
            limit
        }),
        r.1 == (if limit / 2 < 3 {
            3
        } else {
            limit / 2
        }),
{
    (
        if limit < 5 {
            5
        } else {
            limit
        },
        if limit / 2 < 3 {
            3
        } else {
            limit / 2
        },
    )
}

/// A name in bold with what follows it.
pub open spec fn bold(name: Seq<char>, text: Seq<char>) -> Seq<char> {
    "**"@ + name + "**: "@ + text
}

/// A label in italics.
pub open spec fn italic(label: Seq<char>) -> Seq<char> {
    "*"@ + label + "*"@
}

/// Writes a name in bold with what follows it.
fn write_bold(name: &str, text: &str) -> (r: String)
    ensures
        r@ == bold(name@, text@),
{
    let mut l = "**".to_string();
    l.append(name);
    l.append("**: ");
    l.append(text);
    l
}

/// Writes a label in italics.
fn write_italic(label: &str) -> (r: String)
    ensures
        r@ == italic(label@),
{
    let mut l = "*".to_string();
    l.append(label);
    l.append("*");
    l
}

/// How a memory is given in its section.
#[derive(Clone, Copy, Debug, PartialEq, Eq, Structural)]
pub enum Style {
    /// Name and description, label, content.
    Rule,
    /// Label, content.
    Profile,
    /// Name and content, label.
    Reference,
    /// Name and description, label.
    Short,
}

/// A memory as it is given.
pub open spec fn given(m: MemoryV, style: Style) -> Seq<Seq<char>> {
    match style {
        Style::Rule => seq![
            bold(m.name, m.description),
            italic(session_label(m)),
            m.content + "\n"@,
        ],
        Style::Profile => seq![italic(session_label(m)), m.content + "\n"@],
        Style::Reference => seq![bold(m.name, m.content), italic(session_label(m)) + "\n"@],
        Style::Short => seq![bold(m.name, m.description), italic(session_label(m)) + "\n"@],
    }
}

/// Memories as they are given.
pub open spec fn given_all(ms: Seq<MemoryV>, style: Style) -> Seq<Seq<char>>
    decreases ms.len(),
{
    if ms.len() == 0 {
        Seq::empty()
    } else {
        given_all(ms.drop_last(), style) + given(ms.last(), style)
    }
}

/// A section: its title and its memories, nothing where there are none.
pub open spec fn section(title: Seq<char>, ms: Seq<MemoryV>, style: Style) -> Seq<Seq<char>> {
    if ms.len() == 0 {
        Seq::empty()
    } else {
        seq![title] + given_all(ms, style)
    }
}

/// What a session is given in full; nothing where there are no memories.
pub open spec fn full_context(
    feedback: Seq<MemoryV>,
    user: Seq<MemoryV>,
    project: Seq<MemoryV>,
    reference: Seq<MemoryV>,
) -> Seq<Seq<char>> {
    if feedback.len() == 0 && user.len() == 0 && project.len() == 0 && reference.len() == 0 {
        Seq::empty()
    } else {
        seq!["## Active Memory Context\n"@] + section(
            "### Behavioral Rules (Feedback)\n"@,
            feedback,
            Style::Rule,
        ) + section("### User Profile\n"@, user, Style::Profile) + section(
            "### Project Context\n"@,
            project,
            Style::Rule,
        ) + section("### References\n"@, reference, Style::Reference)
    }
}

impl Store {
    /// Gives one memory.
    fn give(&self, m: &Memory, style: Style) -> (r: Vec<String>)
        ensures
            texts(r@) == given(m@, style),
    {
        let label = memory_trust_label(m);
        let mut out: Vec<String> = Vec::new();
        match style {
            Style::Rule => {
                out.push(write_bold(m.name.as_str(), m.description.as_str()));
                out.push(write_italic(label.as_str()));
                out.push(after(m.content.as_str(), "\n"));
            },
            Style::Profile => {
                out.push(write_italic(label.as_str()));
                out.push(after(m.content.as_str(), "\n"));
            },
            Style::Reference => {
                out.push(write_bold(m.name.as_str(), m.content.as_str()));
                out.push(after(write_italic(label.as_str()).as_str(), "\n"));
            },
            Style::Short => {
                out.push(write_bold(m.name.as_str(), m.description.as_str()));
                out.push(after(write_italic(label.as_str()).as_str(), "\n"));
            },
        }
        assert(texts(out@) =~= given(m@, style));
        out
    }

    /// Gives a section.
    fn give_section(&self, title: &str, at: &Vec<usize>, style: Style) -> (r: Vec<String>)
        requires
            forall|i: int| 0 <= i < at@.len() ==> (#[trigger] at@[i]) < self.memories@.len(),
        ensures
            texts(r@) == section(title@, taken(self@.memories, at@), style),
    {
        let ghost ms = taken(self@.memories, at@);
        let mut out: Vec<String> = Vec::new();
        assert(ms.len() == at@.len());
        if at.len() == 0 {
            assert(texts(out@) =~= Seq::<Seq<char>>::empty());
            return out;
        }
        out.push(title.to_owned());
        let mut i: usize = 0;
        assert(texts(out@) =~= seq![title@] + given_all(ms.take(0), style));
        while i < at.len()
            invariant
                i <= at@.len(),
                ms == taken(self@.memories, at@),
                forall|x: int| 0 <= x < at@.len() ==> (#[trigger] at@[x]) < self.memories@.len(),
                texts(out@) == seq![title@] + given_all(ms.take(i as int), style),
            decreases at@.len() - i,
        {
            let m = &self.memories[at[i]];
            assert(ms.take(i as int + 1).drop_last() =~= ms.take(i as int));
            assert(ms.take(i as int + 1).last() == m@);
            let block = self.give(m, style);
            let ghost b = texts(block@);
            say_all(&mut out, block);
            assert(seq![title@] + given_all(ms.take(i as int), style) + b =~= seq![title@] + (
            given_all(ms.take(i as int), style) + b));
            i = i + 1;
        }
        assert(ms.take(i as int) =~= ms);
        out
    }

    /// What a session is given in full, the memories by position.
    pub fn print_context(
        &self,
        feedback: &Vec<usize>,
        user: &Vec<usize>,
        project: &Vec<usize>,
        reference: &Vec<usize>,
    ) -> (r: Vec<String>)
        requires
            forall|i: int|
                0 <= i < feedback@.len() ==> (#[trigger] feedback@[i]) < self.memories@.len(),
            forall|i: int| 0 <= i < user@.len() ==> (#[trigger] user@[i]) < self.memories@.len(),
            forall|i: int|
                0 <= i < project@.len() ==> (#[trigger] project@[i]) < self.memories@.len(),
            forall|i: int|
                0 <= i < reference@.len() ==> (#[trigger] reference@[i]) < self.memories@.len(),
        ensures
            texts(r@) == full_context(
                taken(self@.memories, feedback@),
                taken(self@.memories, user@),
                taken(self@.memories, project@),
                taken(self@.memories, reference@),
            ),
    {
        let mut out: Vec<String> = Vec::new();
        if feedback.len() == 0 && user.len() == 0 && project.len() == 0 && reference.len() == 0 {
            assert(texts(out@) =~= Seq::<Seq<char>>::empty());
            return out;
        }
        out.push("## Active Memory Context\n".to_string());
        assert(texts(out@) =~= seq!["## Active Memory Context\n"@]);
        say_all(
            &mut out,
            self.give_section("### Behavioral Rules (Feedback)\n", feedback, Style::Rule),
        );
        say_all(&mut out, self.give_section("### User Profile\n", user, Style::Profile));
        say_all(&mut out, self.give_section("### Project Context\n", project, Style::Rule));
        say_all(&mut out, self.give_section("### References\n", reference, Style::Reference));
        out
    }
}

/// One memory that a session was given, as the log keeps it.
pub open spec fn returned_json(id: Seq<char>, name: Seq<char>, score: JsonV) -> JsonV {
    JsonV::Object(
        Map::empty().insert("id"@, JsonV::Str(id)).insert("name"@, JsonV::Str(name)).insert(
            "score"@,
            score,
        ),
    )
}

/// The memories that a session was given, as the log keeps them.
pub open spec fn returned_list(ms: Seq<MemoryV>, scores: Seq<JsonV>) -> JsonV {
    JsonV::Array(Seq::new(ms.len(), |i: int| returned_json(ms[i].id, ms[i].name, scores[i])))
}

impl Store {
    /// The log entry of the memories that a session was given, with their
    /// scores.
    pub fn returned_log(&self, at: &Vec<usize>, scores: &Vec<Json>) -> (r: String)
        requires
            at@.len() == scores@.len(),
            forall|i: int| 0 <= i < at@.len() ==> (#[trigger] at@[i]) < self.memories@.len(),
        ensures
            r@ == json_text(returned_list(taken(self@.memories, at@), trees(scores@))),
    {
        let ghost ms = taken(self@.memories, at@);
        let mut items: Vec<Json> = Vec::new();
        let mut i: usize = 0;
        while i < at.len()
            invariant
                i <= at@.len(),
                at@.len() == scores@.len(),
                ms == taken(self@.memories, at@),
                forall|x: int| 0 <= x < at@.len() ==> (#[trigger] at@[x]) < self.memories@.len(),
                items@.len() == i,
                forall|k: int|
                    0 <= k < i ==> (#[trigger] items@[k]).tree() == returned_json(
                        ms[k].id,
                        ms[k].name,
                        trees(scores@)[k],
                    ),
            decreases at@.len() - i,
        {
            let m = &self.memories[at[i]];
            assert(ms[i as int] == m@);
            assert(trees(scores@)[i as int] == scores@[i as int].tree());
            let mut o = JsonObject::new();
            o.insert_str("id", m.id.as_str());
            o.insert_str("name", m.name.as_str());
            o.insert("score", scores[i].copy());
            items.push(o.done());
            i = i + 1;
        }
        assert(trees(items@) =~= Seq::new(
            ms.len(),
            |i: int| returned_json(ms[i].id, ms[i].name, trees(scores@)[i]),
        ));
        Json::Array(items).text()
    }
}

/// Memories of the identity kernel among some.
pub open spec fn kernel_members(ms: Seq<MemoryV>) -> Seq<MemoryV>
    decreases ms.len(),
{
    if ms.len() == 0 {
        Seq::empty()
    } else if in_kernel(ms.last().tags) {
        kernel_members(ms.drop_last()).push(ms.last())
    } else {
        kernel_members(ms.drop_last())
    }
}

/// The identity kernel: the tagged memories among the newest fifty of the user
/// and of feedback.
pub open spec fn kernel_of(ms: Seq<MemoryV>, type_: Seq<char>, scope: ScopeV) -> Seq<MemoryV> {
    kernel_members(selected(ms, by_type(type_, scope), 50))
}

/// Whether a memory has the kernel's tag.
pub fn has_identity_tag(m: &Memory) -> (r: bool)
    ensures
        r == in_kernel(m@.tags),
{
    is_listed(&crate::server::comma_list(m.tags.as_str()), "identity")
}

/// Every memory of the identity kernel is in force, of the type asked for, and
/// carries the tag; nothing is in it by default.
pub proof fn law_kernel_is_tagged(ms: Seq<MemoryV>, type_: Seq<char>, scope: ScopeV)
    requires
        ms.len() <= usize::MAX,
    ensures
        forall|i: int|
            0 <= i < kernel_of(ms, type_, scope).len() ==> (#[trigger] kernel_of(
                ms,
                type_,
                scope,
            )[i]).in_force() && in_kernel(kernel_of(ms, type_, scope)[i].tags) && kernel_of(
                ms,
                type_,
                scope,
            )[i].type_ == type_,
{
    let sel = selected(ms, by_type(type_, scope), 50);
    crate::query::law_selection_admits(ms, by_type(type_, scope), 50);
    lemma_kernel_members(sel, by_type(type_, scope));
}

/// Members of the kernel are among the selected and tagged.
proof fn lemma_kernel_members(ms: Seq<MemoryV>, q: crate::query::QueryV)
    requires
        forall|i: int| 0 <= i < ms.len() ==> q.admits(#[trigger] ms[i]),
    ensures
        forall|i: int|
            0 <= i < kernel_members(ms).len() ==> q.admits(#[trigger] kernel_members(ms)[i])
                && in_kernel(kernel_members(ms)[i].tags),
    decreases ms.len(),
{
    if ms.len() > 0 {
        let init = ms.drop_last();
        assert forall|i: int| 0 <= i < init.len() implies q.admits(#[trigger] init[i]) by {
            assert(init[i] == ms[i]);
        }
        lemma_kernel_members(init, q);
        assert(q.admits(ms[ms.len() - 1]));
        let k = kernel_members(ms);
        let j = kernel_members(init);
        assert forall|i: int| 0 <= i < k.len() implies q.admits(#[trigger] k[i]) && in_kernel(
            k[i].tags,
        ) by {
            if i < j.len() {
                assert(k[i] == j[i]);
            }
        }
    }
}

impl Store {
    /// The identity kernel of a type, by position.
    pub fn kernel_by_type(&self, type_: &str, scope: &ScopeFilter) -> (r: Vec<usize>)
        ensures
            forall|i: int| 0 <= i < r@.len() ==> (#[trigger] r@[i]) < self.memories@.len(),
            taken(self@.memories, r@) == kernel_of(self@.memories, type_@, scope@),
    {
        let at = self.query_by_type(type_, 50, scope);
        let ghost ms = taken(self@.memories, at@);
        let mut out: Vec<usize> = Vec::new();
        let mut i: usize = 0;
        assert(taken(self@.memories, out@) =~= kernel_members(ms.take(0)));
        while i < at.len()
            invariant
                i <= at@.len(),
                ms == taken(self@.memories, at@),
                forall|x: int| 0 <= x < at@.len() ==> (#[trigger] at@[x]) < self.memories@.len(),
                forall|x: int| 0 <= x < out@.len() ==> (#[trigger] out@[x]) < self.memories@.len(),
                taken(self@.memories, out@) == kernel_members(ms.take(i as int)),
            decreases at@.len() - i,
        {
            let m = &self.memories[at[i]];
            assert(ms.take(i as int + 1).drop_last() =~= ms.take(i as int));
            assert(ms.take(i as int + 1).last() == m@);
            if has_identity_tag(m) {
                let ghost before = out@;
                out.push(at[i]);
                assert(taken(self@.memories, out@) =~= taken(self@.memories, before).push(m@));
            }
            i = i + 1;
        }
        assert(ms.take(i as int) =~= ms);
        out
    }

    /// The identity kernel: the user's memories and the standing rules, by
    /// position.
    pub fn identity_kernel(&self, scope: &ScopeFilter) -> (r: (Vec<usize>, Vec<usize>))
        ensures
            forall|i: int| 0 <= i < r.0@.len() ==> (#[trigger] r.0@[i]) < self.memories@.len(),
            forall|i: int| 0 <= i < r.1@.len() ==> (#[trigger] r.1@[i]) < self.memories@.len(),
            taken(self@.memories, r.0@) == kernel_of(self@.memories, "user"@, scope@),
            taken(self@.memories, r.1@) == kernel_of(self@.memories, "feedback"@, scope@),
    {
        (self.kernel_by_type("user", scope), self.kernel_by_type("feedback", scope))
    }
}

/// What a session is told beside the identity kernel.
pub open spec fn kernel_note() -> Seq<char> {
    "*Everything else is recall-only: `agent memory recall \"<topic>\"` (semantic), `agent memory search \"<term>\"` (lexical), `agent memory show <name>` (full rule + why). Memories are testimony — check the labels.*"@
}

/// The identity kernel as a session is given it; nothing where it is empty. The
/// user's memories come first and in full, the rules in short.
pub open spec fn kernel_context(user: Seq<MemoryV>, feedback: Seq<MemoryV>) -> Seq<Seq<char>> {
    if user.len() == 0 && feedback.len() == 0 {
        Seq::empty()
    } else {
        seq!["## Identity Kernel\n"@] + section("### User Profile\n"@, user, Style::Profile)
            + section("### Standing Rules\n"@, feedback, Style::Short) + seq![kernel_note()]
    }
}

impl Store {
    /// Gives the identity kernel.
    pub fn print_kernel(&self, user: &Vec<usize>, feedback: &Vec<usize>) -> (r: Vec<String>)
        requires
            forall|i: int| 0 <= i < user@.len() ==> (#[trigger] user@[i]) < self.memories@.len(),
            forall|i: int|
                0 <= i < feedback@.len() ==> (#[trigger] feedback@[i]) < self.memories@.len(),
        ensures
            texts(r@) == kernel_context(
                taken(self@.memories, user@),
                taken(self@.memories, feedback@),
            ),
    {
        let mut out: Vec<String> = Vec::new();
        if user.len() == 0 && feedback.len() == 0 {
            assert(texts(out@) =~= Seq::<Seq<char>>::empty());
            return out;
        }
        out.push("## Identity Kernel\n".to_string());
        assert(texts(out@) =~= seq!["## Identity Kernel\n"@]);
        say_all(&mut out, self.give_section("### User Profile\n", user, Style::Profile));
        say_all(&mut out, self.give_section("### Standing Rules\n", feedback, Style::Short));
        let ghost before = texts(out@);
        say(
            &mut out,
            "*Everything else is recall-only: `agent memory recall \"<topic>\"` (semantic), `agent memory search \"<term>\"` (lexical), `agent memory show <name>` (full rule + why). Memories are testimony — check the labels.*".to_string(),
        );
        assert(texts(out@) =~= before + seq![kernel_note()]);
        out
    }
}

/// The lines on the memories of one type that a verbose session is told of.
pub open spec fn scored_lines(
    type_: Seq<char>,
    ms: Seq<MemoryV>,
    shown: Seq<Seq<char>>,
) -> Seq<Seq<char>> {
    seq!["[context] "@ + type_ + " ("@ + decimal(ms.len()) + " returned):"@] + Seq::new(
        ms.len(),
        |i: int| "  "@ + shown[i] + "  "@ + ms[i].id + " — "@ + ms[i].description,
    )
}

impl Store {
    /// Tells of the memories of one type, with their scores as they are shown.
    fn tell_scored(&self, type_: &str, at: &Vec<usize>, shown: &Vec<String>) -> (r: Vec<String>)
        requires
            forall|i: int| 0 <= i < at@.len() ==> (#[trigger] at@[i]) < self.memories@.len(),
            shown@.len() == at@.len(),
        ensures
            texts(r@) == scored_lines(type_@, taken(self@.memories, at@), texts(shown@)),
    {
        let ghost ms = taken(self@.memories, at@);
        let ghost ss = texts(shown@);
        let mut l = "[context] ".to_string();
        l.append(type_);
        l.append(" (");
        l.append(usize_text(at.len()).as_str());
        l.append(" returned):");
        let ghost first = l@;
        let mut out: Vec<String> = Vec::new();
        out.push(l);
        let mut i: usize = 0;
        while i < at.len()
            invariant
                i <= at@.len(),
                ms == taken(self@.memories, at@),
                ss == texts(shown@),
                shown@.len() == at@.len(),
                forall|x: int| 0 <= x < at@.len() ==> (#[trigger] at@[x]) < self.memories@.len(),
                out@.len() == i + 1,
                out@[0]@ == first,
                forall|k: int|
                    1 <= k < i + 1 ==> (#[trigger] out@[k])@ == "  "@ + ss[k - 1] + "  "@ + ms[k
                        - 1].id + " — "@ + ms[k - 1].description,
            decreases at@.len() - i,
        {
            let m = &self.memories[at[i]];
            assert(ms[i as int] == m@);
            assert(ss[i as int] == shown@[i as int]@);
            let mut t = "  ".to_string();
            t.append(shown[i].as_str());
            t.append("  ");
            t.append(m.id.as_str());
            t.append(" — ");
            t.append(m.description.as_str());
            out.push(t);
            i = i + 1;
        }
        assert(texts(out@) =~= scored_lines(type_@, ms, ss));
        out
    }

    /// What a verbose session is told of its terms and of the memories that
    /// they found.
    pub fn context_verbose(
        &self,
        signals: &Vec<String>,
        project: &Vec<usize>,
        project_shown: &Vec<String>,
        reference: &Vec<usize>,
        reference_shown: &Vec<String>,
    ) -> (r: Vec<String>)
        requires
            forall|i: int|
                0 <= i < project@.len() ==> (#[trigger] project@[i]) < self.memories@.len(),
            forall|i: int|
                0 <= i < reference@.len() ==> (#[trigger] reference@[i]) < self.memories@.len(),
            project_shown@.len() == project@.len(),
            reference_shown@.len() == reference@.len(),
        ensures
            texts(r@) == seq!["[context] signals: "@ + joined(texts(signals@), ", "@)]
                + scored_lines(
                "project"@,
                taken(self@.memories, project@),
                texts(project_shown@),
            ) + scored_lines(
                "reference"@,
                taken(self@.memories, reference@),
                texts(reference_shown@),
            ),
    {
        let l = after("[context] signals: ", join(signals, ", ").as_str());
        let ghost first = l@;
        let mut out: Vec<String> = Vec::new();
        out.push(l);
        assert(texts(out@) =~= seq![first]);
        say_all(&mut out, self.tell_scored("project", project, project_shown));
        say_all(&mut out, self.tell_scored("reference", reference, reference_shown));
        out
    }
}

/// How many rules every session is given at most.
pub const FEEDBACK_LIMIT: usize = 20;

/// How many memories of the user every session is given at most.
pub const USER_LIMIT: usize = 5;

/// Which of some scored memories a session is given: the best where terms were
/// weighed, otherwise all as they come.
pub open spec fn context_picks(scores: Seq<Rank>, weighed: bool, limit: nat) -> Seq<usize> {
    if weighed {
        best(scores, limit)
    } else {
        Seq::new(scores.len(), |i: int| i as usize)
    }
}

/// Picks the memories that a session is given.
pub fn pick_context(scores: &Vec<Rank>, weighed: bool, limit: usize) -> (r: Vec<usize>)
    ensures
        r@ == context_picks(scores@, weighed, limit as nat),
        forall|i: int| 0 <= i < r@.len() ==> (#[trigger] r@[i]) < scores@.len(),
{
    if weighed {
        return rank_scored(scores, limit);
    }
    let mut out: Vec<usize> = Vec::new();
    let mut i: usize = 0;
    while i < scores.len()
        invariant
            i <= scores@.len(),
            out@.len() == i,
            forall|k: int| 0 <= k < i ==> #[trigger] out@[k] == k,
        decreases scores@.len() - i,
    {
        out.push(i);
        i = i + 1;
    }
    assert(out@ =~= context_picks(scores@, weighed, limit as nat));
    out
}

/// What the log keeps of a session's start.
#[derive(Debug)]
pub struct ContextCall {
    pub signals: String,
    pub n_scored: usize,
    pub returned: String,
}

impl Store {
    /// The rules and the user's memories that every session is given, by
    /// position.
    pub fn context_always(&self, scope: &ScopeFilter) -> (r: (Vec<usize>, Vec<usize>))
        ensures
            forall|i: int| 0 <= i < r.0@.len() ==> (#[trigger] r.0@[i]) < self.memories@.len(),
            forall|i: int| 0 <= i < r.1@.len() ==> (#[trigger] r.1@[i]) < self.memories@.len(),
            taken(self@.memories, r.0@) == selected(
                self@.memories,
                by_type("feedback"@, scope@),
                FEEDBACK_LIMIT as nat,
            ),
            taken(self@.memories, r.1@) == selected(
                self@.memories,
                by_type("user"@, scope@),
                USER_LIMIT as nat,
            ),
    {
        (
            self.query_by_type("feedback", FEEDBACK_LIMIT, scope),
            self.query_by_type("user", USER_LIMIT, scope),
        )
    }

    /// The memories of a type among which a session is given the best, by
    /// position: the heaviest matches of the terms with their weights in half
    /// units, and the newest without weights where there are no terms.
    pub fn context_candidates(
        &self,
        terms: &Vec<String>,
        type_: &str,
        limit: usize,
        scope: &ScopeFilter,
    ) -> (r: (Vec<usize>, Option<Vec<i64>>))
        requires
            4 * limit <= usize::MAX,
        ensures
            forall|i: int| 0 <= i < r.0@.len() ==> (#[trigger] r.0@[i]) < self.memories@.len(),
            match r.1 {
                None => terms@.len() == 0 && taken(self@.memories, r.0@) == selected(
                    self@.memories,
                    by_type(type_@, scope@),
                    limit as nat,
                ),
                Some(ws) => {
                    &&& terms@.len() > 0
                    &&& places(r.0@) == heaviest(
                        self@,
                        type_@,
                        scope@,
                        texts(terms@),
                        limit as nat,
                    )
                    &&& ws@.len() == r.0@.len()
                    &&& forall|i: int|
                        0 <= i < r.0@.len() ==> topic_weight(
                            self@.topics,
                            self@.memories[r.0@[i] as int].id,
                            texts(terms@),
                        ) == Some(#[trigger] ws@[i] as int)
                },
            },
    {
        if terms.len() == 0 {
            return (self.query_by_type(type_, limit, scope), None);
        }
        let (at, ws) = self.topic_matches(terms, type_, limit, scope);
        (at, Some(ws))
    }

    /// What the log keeps of a session that was given memories in full; nothing
    /// where it was given none.
    pub fn context_call(
        &self,
        signals: &Vec<String>,
        feedback: &Vec<usize>,
        user: &Vec<usize>,
        project: &Vec<usize>,
        project_scores: &Vec<Json>,
        reference: &Vec<usize>,
        reference_scores: &Vec<Json>,
    ) -> (r: Option<ContextCall>)
        requires
            project@.len() + reference@.len() <= usize::MAX,
            project_scores@.len() == project@.len(),
            reference_scores@.len() == reference@.len(),
            forall|i: int|
                0 <= i < project@.len() ==> (#[trigger] project@[i]) < self.memories@.len(),
            forall|i: int|
                0 <= i < reference@.len() ==> (#[trigger] reference@[i]) < self.memories@.len(),
        ensures
            match r {
                None => feedback@.len() == 0 && user@.len() == 0 && project@.len() == 0
                    && reference@.len() == 0,
                Some(c) => {
                    &&& feedback@.len() > 0 || user@.len() > 0 || project@.len() > 0 || reference@.len()
                        > 0
                    &&& c.signals@ == joined(texts(signals@), " "@)
                    &&& c.n_scored == project@.len() + reference@.len()
                    &&& c.returned@ == json_text(
                        returned_list(
                            taken(self@.memories, project@ + reference@),
                            trees(project_scores@ + reference_scores@),
                        ),
                    )
                },
            },
    {
        if feedback.len() == 0 && user.len() == 0 && project.len() == 0 && reference.len() == 0 {
            return None;
        }
        let mut at: Vec<usize> = Vec::new();
        let mut scores: Vec<Json> = Vec::new();
        let mut i: usize = 0;
        while i < project.len()
            invariant
                i <= project@.len(),
                project_scores@.len() == project@.len(),
                at@ == project@.take(i as int),
                scores@.len() == i,
                forall|k: int|
                    0 <= k < i ==> (#[trigger] scores@[k]).tree() == project_scores@[k].tree(),
            decreases project@.len() - i,
        {
            at.push(project[i]);
            scores.push(project_scores[i].copy());
            i = i + 1;
            assert(at@ =~= project@.take(i as int));
        }
        let mut j: usize = 0;
        let ghost n = project@.len() as int;
        assert(at@ =~= project@ + reference@.take(0));
        while j < reference.len()
            invariant
                j <= reference@.len(),
                n == project@.len(),
                project_scores@.len() == n,
                reference_scores@.len() == reference@.len(),
                at@ == project@ + reference@.take(j as int),
                scores@.len() == n + j,
                forall|k: int|
                    0 <= k < n + j ==> (#[trigger] scores@[k]).tree() == (project_scores@
                        + reference_scores@)[k].tree(),
            decreases reference@.len() - j,
        {
            at.push(reference[j]);
            scores.push(reference_scores[j].copy());
            j = j + 1;
            assert(at@ =~= project@ + reference@.take(j as int));
        }
        assert(at@ =~= project@ + reference@);
        assert(trees(scores@) =~= trees(project_scores@ + reference_scores@));
        Some(
            ContextCall {
                signals: join(signals, " "),
                n_scored: project.len() + reference.len(),
                returned: self.returned_log(&at, &scores),
            },
        )
    }

    /// What the log keeps of a session that was given the identity kernel, whose
    /// memories are not scored; nothing where the kernel is empty.
    pub fn kernel_call(&self, user: &Vec<usize>, feedback: &Vec<usize>, zero: &Json) -> (r: Option<
        ContextCall,
    >)
        requires
            forall|i: int| 0 <= i < user@.len() ==> (#[trigger] user@[i]) < self.memories@.len(),
            forall|i: int|
                0 <= i < feedback@.len() ==> (#[trigger] feedback@[i]) < self.memories@.len(),
        ensures
            match r {
                None => user@.len() == 0 && feedback@.len() == 0,
                Some(c) => {
                    &&& user@.len() > 0 || feedback@.len() > 0
                    &&& c.signals@ == "tier:identity"@
                    &&& c.n_scored == 0
                    &&& c.returned@ == json_text(
                        returned_list(
                            taken(self@.memories, user@ + feedback@),
                            Seq::new((user@ + feedback@).len(), |i: int| zero.tree()),
                        ),
                    )
                },
            },
    {
        if user.len() == 0 && feedback.len() == 0 {
            return None;
        }
        let mut at: Vec<usize> = Vec::new();
        let mut zeros: Vec<Json> = Vec::new();
        let mut i: usize = 0;
        while i < user.len()
            invariant
                i <= user@.len(),
                at@ == user@.take(i as int),
                zeros@.len() == i,
                forall|k: int| 0 <= k < i ==> (#[trigger] zeros@[k]).tree() == zero.tree(),
            decreases user@.len() - i,
        {
            at.push(user[i]);
            zeros.push(zero.copy());
            i = i + 1;
            assert(at@ =~= user@.take(i as int));
        }
        let mut j: usize = 0;
        assert(at@ =~= user@ + feedback@.take(0));
        while j < feedback.len()
            invariant
                j <= feedback@.len(),
                at@ == user@ + feedback@.take(j as int),
                zeros@.len() == user@.len() + j,
                forall|k: int|
                    0 <= k < user@.len() + j ==> (#[trigger] zeros@[k]).tree() == zero.tree(),
            decreases feedback@.len() - j,
        {
            at.push(feedback[j]);
            zeros.push(zero.copy());
            j = j + 1;
            assert(at@ =~= user@ + feedback@.take(j as int));
        }
        assert(at@ =~= user@ + feedback@);
        assert(trees(zeros@) =~= Seq::new((user@ + feedback@).len(), |i: int| zero.tree()));
        Some(
            ContextCall {
                signals: "tier:identity".to_string(),
                n_scored: 0,
                returned: self.returned_log(&at, &zeros),
            },
        )
    }
}

} // verus!
