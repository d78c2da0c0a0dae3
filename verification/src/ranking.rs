//! Ranking what a recall found: credit for superseded matches, ordering, ties
//! between near-duplicates, and pairs that may contradict each other.
use crate::dates::fmt_ts;
use crate::kx::{KxFilters, KxFiltersV};
use crate::query::like;
use crate::render::day;
use crate::resolve::resolved;
use crate::rows::{Memory, MemoryV};
use crate::sort::{at_most, is_order, order_desc, ordered};
use crate::sql::{ScopeFilter, ScopeV, TypeFilter, TypeV};
use crate::store::{position, Rank, Store, StoreV};
use crate::text::{
    copy_opt, holds, is_listed, lemma_texts_push, listed, opt_text, same, texts, to_ascii_lower,
};
use vstd::prelude::*;

verus! {

/// The least freshness of a memory, in hundredths: age takes a match no lower.
pub const RANK_FRESH_FLOOR_PERCENT: u32 = 85;

/// The most that a recent verification adds to a match, in hundredths.
pub const RANK_TRUST_BOOST_PERCENT: u32 = 25;

/// The days over which the worth of a verification decays.
pub const RANK_TRUST_DECAY_DAYS: u32 = 180;

/// How near two scores are that count as equal, in hundredths of the larger.
pub const RANK_TIE_REL_WINDOW_PERCENT: u32 = 10;

/// How similar two memories are that count as one topic, in hundredths.
pub const RANK_TIE_PAIR_COSINE_PERCENT: u32 = 85;

/// How similar two memories are that may contradict each other, in hundredths.
pub const CONFLICT_PAIR_COSINE_PERCENT: u32 = 85;

/// Whether a trust factor is in its bounds, on a scale of `n` to one hundredth.
pub open spec fn trust_in_bounds(t: int, n: int) -> bool {
    100 * n <= t <= (100 + RANK_TRUST_BOOST_PERCENT) * n
}

/// Whether a freshness factor is in its bounds, on a scale of `n` to one
/// hundredth.
pub open spec fn fresh_in_bounds(f: int, n: int) -> bool {
    RANK_FRESH_FLOOR_PERCENT * n <= f <= 100 * n
}

/// A decisively better match is never passed by trust and freshness: where one
/// similarity is at least 1.48 times another, its score is the larger whatever
/// the two factors of each are within their bounds.
pub proof fn law_decisive_match_stays_ahead(
    n: int,
    c: int,
    trust: int,
    fresh: int,
    other_c: int,
    other_trust: int,
    other_fresh: int,
)
    requires
        n > 0,
        other_c > 0,
        100 * c >= 148 * other_c,
        trust_in_bounds(trust, n),
        fresh_in_bounds(fresh, n),
        trust_in_bounds(other_trust, n),
        fresh_in_bounds(other_fresh, n),
    ensures
        c * (trust * fresh) > other_c * (other_trust * other_fresh),
{
    let s = n * n;
    assert(s > 0) by (nonlinear_arith)
        requires
            n > 0,
            s == n * n,
    ;
    assert(trust * fresh >= 8500 * s) by (nonlinear_arith)
        requires
            n > 0,
            s == n * n,
            trust >= 100 * n,
            fresh >= 85 * n,
    ;
    assert(other_trust * other_fresh <= 12500 * s) by (nonlinear_arith)
        requires
            n > 0,
            s == n * n,
            0 <= other_trust <= 125 * n,
            0 <= other_fresh <= 100 * n,
    ;
    assert(c * (trust * fresh) >= c * (8500 * s)) by (nonlinear_arith)
        requires
            c > 0,
            trust * fresh >= 8500 * s,
    ;
    assert(other_c * (other_trust * other_fresh) <= other_c * (12500 * s)) by (nonlinear_arith)
        requires
            other_c > 0,
            other_trust * other_fresh <= 12500 * s,
    ;
    assert(c * (8500 * s) > other_c * (12500 * s)) by (nonlinear_arith)
        requires
            s > 0,
            other_c > 0,
            8500 * c > 12500 * other_c,
    ;
}

/// The time from which a memory ages: verification renews it.
pub open spec fn effective_time(created_at: i64, updated_at: i64, verified_at: Option<i64>) -> i64 {
    let v = match verified_at {
        Some(t) => t,
        None => 0,
    };
    let m = if updated_at > created_at {
        updated_at
    } else {
        created_at
    };
    if v > m {
        v
    } else {
        m
    }
}

/// The time from which a memory ages.
pub fn rank_t_eff(created_at: i64, updated_at: i64, verified_at: Option<i64>) -> (r: i64)
    ensures
        r == effective_time(created_at, updated_at, verified_at),
{
    let v: i64 = match verified_at {
        Some(t) => t,
        None => 0,
    };
    let m: i64 = if updated_at > created_at {
        updated_at
    } else {
        created_at
    };
    if v > m {
        v
    } else {
        m
    }
}

/// Verifying a memory never makes it older, and makes it as young as the
/// verification.
pub proof fn law_verification_renews(created_at: i64, updated_at: i64, verified_at: i64)
    ensures
        effective_time(created_at, updated_at, Some(verified_at)) >= verified_at,
        effective_time(created_at, updated_at, Some(verified_at)) >= created_at,
        effective_time(created_at, updated_at, Some(verified_at)) >= updated_at,
        created_at >= 0 ==> effective_time(created_at, updated_at, Some(verified_at))
            >= effective_time(created_at, updated_at, None),
{
}

/// One match of a recall: a memory by position, how similar it is, and the
/// superseded memory that the match came through.
#[derive(Debug)]
pub struct Scored {
    pub at: usize,
    pub cosine: Rank,
    pub via: Option<String>,
}

/// What a match is.
pub struct ScoredV {
    pub at: int,
    pub cosine: Rank,
    pub via: Option<Seq<char>>,
}

impl View for Scored {
    type V = ScoredV;

    open spec fn view(&self) -> ScoredV {
        ScoredV { at: self.at as int, cosine: self.cosine, via: opt_text(self.via) }
    }
}

/// What a list of matches is.
pub open spec fn scored_view(v: Seq<Scored>) -> Seq<ScoredV> {
    v.map_values(|x: Scored| x@)
}

/// Whether a memory can be recalled: active, of the type and scope asked for,
/// within the tags and days, and superseded only where its match is credited to
/// its successor.
pub open spec fn recallable(
    m: MemoryV,
    type_: TypeV,
    scope: ScopeV,
    extra: KxFiltersV,
    credit: bool,
) -> bool {
    m.is_active && (credit || m.lifecycle != "superseded"@) && type_.admits(m.type_)
        && scope.admits(m.scope) && within(m, extra)
}

/// Whether a memory carries a tag as a whole entry, in whatever case.
pub open spec fn carries_tag(tags: Seq<char>, tag: Seq<char>) -> bool {
    like(","@ + tags + ","@, ","@ + tag + ","@)
}

/// Whether a memory is within tags and days; one without a day is in no range.
pub open spec fn within(m: MemoryV, f: KxFiltersV) -> bool {
    &&& forall|i: int| 0 <= i < f.tags.len() ==> carries_tag(m.tags, #[trigger] f.tags[i])
    &&& f.from is Some ==> m.valid_from is Some && f.from->0 <= m.valid_from->0
    &&& f.to_exclusive is Some ==> m.valid_from is Some && m.valid_from->0 < f.to_exclusive->0
}

/// A text between commas.
fn between_commas(s: &str) -> (r: String)
    ensures
        r@ == ","@ + s@ + ","@,
{
    let mut t = ",".to_string();
    t.append(s);
    t.append(",");
    t
}

/// Decides [`within`].
pub fn is_within(m: &Memory, f: &KxFilters) -> (r: bool)
    ensures
        r == within(m@, f@),
{
    let tags = to_ascii_lower(between_commas(m.tags.as_str()).as_str());
    let mut i: usize = 0;
    while i < f.tags.len()
        invariant
            i <= f.tags@.len(),
            tags@ == crate::text::ascii_lower(","@ + m@.tags + ","@),
            forall|k: int| 0 <= k < i ==> carries_tag(m@.tags, #[trigger] f@.tags[k]),
        decreases f.tags@.len() - i,
    {
        assert(f@.tags[i as int] == f.tags@[i as int]@);
        let t = to_ascii_lower(between_commas(f.tags[i].as_str()).as_str());
        if !holds(tags.as_str(), t.as_str()) {
            assert(!carries_tag(m@.tags, f@.tags[i as int]));
            return false;
        }
        i = i + 1;
    }
    let lower = match f.from {
        Some(t) => match m.valid_from {
            Some(v) => t <= v,
            None => false,
        },
        None => true,
    };
    let upper = match f.to_exclusive {
        Some(t) => match m.valid_from {
            Some(v) => v < t,
            None => false,
        },
        None => true,
    };
    lower && upper
}

/// The positions of the memories among the first `n` that can be recalled and
/// have a vector.
pub open spec fn recall_positions(
    ms: Seq<MemoryV>,
    type_: TypeV,
    scope: ScopeV,
    extra: KxFiltersV,
    credit: bool,
    embedded: Seq<Seq<char>>,
    n: nat,
) -> Seq<int>
    decreases n,
{
    if n == 0 {
        Seq::empty()
    } else {
        let init = recall_positions(ms, type_, scope, extra, credit, embedded, (n - 1) as nat);
        if recallable(ms[n - 1], type_, scope, extra, credit) && listed(embedded, ms[n - 1].id) {
            init.push(n - 1)
        } else {
            init
        }
    }
}

impl Store {
    /// The memories that a recall compares with its question.
    pub fn recall_candidates(
        &self,
        type_: &TypeFilter,
        scope: &ScopeFilter,
        extra: &KxFilters,
        credit: bool,
        embedded: &Vec<String>,
    ) -> (r: Vec<usize>)
        ensures
            crate::context::places(r@) == recall_positions(
                self@.memories,
                type_@,
                scope@,
                extra@,
                credit,
                texts(embedded@),
                self@.memories.len(),
            ),
            forall|i: int| 0 <= i < r@.len() ==> (#[trigger] r@[i]) < self.memories@.len(),
    {
        let ghost ms = self@.memories;
        let mut out: Vec<usize> = Vec::new();
        let mut i: usize = 0;
        assert(crate::context::places(out@) =~= Seq::<int>::empty());
        while i < self.memories.len()
            invariant
                ms == self@.memories,
                i <= self.memories@.len(),
                crate::context::places(out@) == recall_positions(
                    ms,
                    type_@,
                    scope@,
                    extra@,
                    credit,
                    texts(embedded@),
                    i as nat,
                ),
                forall|x: int| 0 <= x < out@.len() ==> (#[trigger] out@[x]) < self.memories@.len(),
            decreases self.memories@.len() - i,
        {
            let m = &self.memories[i];
            assert(ms[i as int] == m@);
            if m.is_active && (credit || !same(m.lifecycle.as_str(), "superseded"))
                && type_.admits(m.type_.as_str()) && scope.admits(m.scope.as_str()) && is_within(
                m,
                extra,
            ) && is_listed(embedded, m.id.as_str()) {
                let ghost before = out@;
                out.push(i);
                assert(crate::context::places(out@) =~= crate::context::places(before).push(
                    i as int,
                ));
            }
            i = i + 1;
        }
        out
    }
}

/// The matches among some that are not superseded.
pub open spec fn standing(s: StoreV, v: Seq<ScoredV>) -> Seq<ScoredV>
    decreases v.len(),
{
    if v.len() == 0 {
        Seq::empty()
    } else if s.memories[v.last().at].lifecycle == "superseded"@ {
        standing(s, v.drop_last())
    } else {
        standing(s, v.drop_last()).push(v.last())
    }
}

/// The position among some matches of the memory with an id; the last of
/// several.
pub open spec fn match_of(s: StoreV, v: Seq<ScoredV>, id: Seq<char>) -> Option<int>
    decreases v.len(),
{
    if v.len() == 0 {
        None
    } else if s.memories[v.last().at].id == id {
        Some(v.len() - 1)
    } else {
        match_of(s, v.drop_last(), id)
    }
}

/// A match with another's similarity where that is higher.
pub open spec fn credited(h: ScoredV, m: ScoredV, note: Seq<char>) -> ScoredV {
    if m.cosine.key > h.cosine.key {
        ScoredV { cosine: m.cosine, via: Some(note), ..h }
    } else {
        h
    }
}

/// How a credit is noted: the superseded memory and its day.
pub open spec fn credit_note(m: MemoryV) -> Seq<char> {
    m.id + " ("@ + day(m.updated_at) + ")"@
}

/// Whether a memory may be returned by a recall that asks for a type and scope.
pub open spec fn asked_row(m: MemoryV, type_: TypeV, scope: ScopeV) -> bool {
    type_.admits(m.type_) && scope.admits(m.scope)
}

/// One superseded match credited to the memory in force. A chain that cannot be
/// resolved, or whose end is not in force or not of the type and scope asked
/// for, gives nothing.
pub open spec fn credit_one(
    s: StoreV,
    heads: Seq<ScoredV>,
    m: ScoredV,
    type_: TypeV,
    scope: ScopeV,
) -> Seq<ScoredV> {
    let row = s.memories[m.at];
    match resolved(s, row.id) {
        Err(_) => heads,
        Ok(hops) => if hops.len() == 0 {
            heads
        } else {
            let head = hops.last();
            match match_of(s, heads, head) {
                Some(i) => heads.update(i, credited(heads[i], m, credit_note(row))),
                None => match position(s.memories, head) {
                    Some(p) => if s.memories[p].in_force() && asked_row(
                        s.memories[p],
                        type_,
                        scope,
                    ) {
                        heads.push(
                            credited(
                                ScoredV { at: p, cosine: Rank { key: 0 }, via: None },
                                m,
                                credit_note(row),
                            ),
                        )
                    } else {
                        heads
                    },
                    None => heads,
                },
            }
        },
    }
}

/// The superseded matches among some credited in order.
pub open spec fn credit_all(
    s: StoreV,
    heads: Seq<ScoredV>,
    v: Seq<ScoredV>,
    type_: TypeV,
    scope: ScopeV,
) -> Seq<ScoredV>
    decreases v.len(),
{
    if v.len() == 0 {
        heads
    } else {
        let h = credit_all(s, heads, v.drop_last(), type_, scope);
        if s.memories[v.last().at].lifecycle == "superseded"@ {
            credit_one(s, h, v.last(), type_, scope)
        } else {
            h
        }
    }
}

/// Matches with the superseded ones credited to the memories in force.
pub open spec fn heads_of(s: StoreV, v: Seq<ScoredV>, type_: TypeV, scope: ScopeV) -> Seq<ScoredV> {
    credit_all(s, standing(s, v), v, type_, scope)
}

/// Whether matches are memories of a store.
pub open spec fn in_store(s: StoreV, v: Seq<ScoredV>) -> bool {
    forall|i: int| 0 <= i < v.len() ==> 0 <= (#[trigger] v[i]).at < s.memories.len()
}

/// A match found is one of the matches.
proof fn lemma_match_of(s: StoreV, v: Seq<ScoredV>, id: Seq<char>)
    ensures
        match match_of(s, v, id) {
            Some(i) => 0 <= i < v.len() && s.memories[v[i].at].id == id,
            None => true,
        },
    decreases v.len(),
{
    if v.len() > 0 && s.memories[v.last().at].id != id {
        lemma_match_of(s, v.drop_last(), id);
    }
}

impl Store {
    /// Credits one superseded match.
    fn credit(
        &self,
        heads: &mut Vec<Scored>,
        m: &Scored,
        type_: &TypeFilter,
        scope: &ScopeFilter,
    )
        requires
            m.at < self.memories@.len(),
            in_store(self@, scored_view(old(heads)@)),
        ensures
            scored_view(final(heads)@) == credit_one(
                self@,
                scored_view(old(heads)@),
                m@,
                type_@,
                scope@,
            ),
            in_store(self@, scored_view(final(heads)@)),
    {
        let ghost hs = scored_view(heads@);
        let row = &self.memories[m.at];
        assert(self@.memories[m.at as int] == row@);
        let hops = match self.resolve_current(row.id.as_str()) {
            Ok(h) => h,
            Err(_) => {
                return;
            },
        };
        assert(texts(hops@).len() == hops@.len());
        if hops.len() == 0 {
            return;
        }
        assert(texts(hops@).last() == hops@[hops@.len() - 1]@);
        let head = hops[hops.len() - 1].clone();
        let mut note = row.id.clone();
        note.append(" (");
        note.append(fmt_ts(row.updated_at).as_str());
        note.append(")");
        let mut n: usize = heads.len();
        assert(hs.take(n as int) =~= hs);
        while n > 0
            invariant
                *heads == *old(heads),
                hs == scored_view(heads@),
                n <= heads@.len(),
                in_store(self@, hs),
                match_of(self@, hs, head@) == match_of(self@, hs.take(n as int), head@),
                credit_one(self@, hs, m@, type_@, scope@) == (match match_of(self@, hs, head@) {
                    Some(i) => hs.update(i, credited(hs[i], m@, note@)),
                    None => match position(self@.memories, head@) {
                        Some(p) => if self@.memories[p].in_force() && asked_row(
                            self@.memories[p],
                            type_@,
                            scope@,
                        ) {
                            hs.push(
                                credited(
                                    ScoredV { at: p, cosine: Rank { key: 0 }, via: None },
                                    m@,
                                    note@,
                                ),
                            )
                        } else {
                            hs
                        },
                        None => hs,
                    },
                }),
            decreases n,
        {
            let h = &heads[n - 1];
            assert(hs[n - 1] == h@);
            assert(hs.take(n as int).last() == h@);
            assert(hs.take(n as int).drop_last() =~= hs.take(n - 1));
            assert(self@.memories[h.at as int] == self.memories@[h.at as int]@);
            if same(self.memories[h.at].id.as_str(), head.as_str()) {
                if m.cosine.key > h.cosine.key {
                    let better = Scored { at: h.at, cosine: m.cosine, via: Some(note) };
                    let ghost before = heads@;
                    heads.set(n - 1, better);
                    assert(scored_view(heads@) =~= hs.update(n - 1, better@));
                } else {
                    assert(hs.update(n - 1, hs[n - 1]) =~= hs);
                }
                return;
            }
            n = n - 1;
        }
        if let Some(p) = self.find(head.as_str()) {
            assert(self@.memories[p as int] == self.memories@[p as int]@);
            let end = &self.memories[p];
            if end.is_in_force() && type_.admits(end.type_.as_str()) && scope.admits(
                end.scope.as_str(),
            ) {
                let new = if m.cosine.key > 0 {
                    Scored { at: p, cosine: m.cosine, via: Some(note) }
                } else {
                    Scored { at: p, cosine: Rank { key: 0 }, via: None }
                };
                let ghost before = heads@;
                heads.push(new);
                assert(scored_view(heads@) =~= scored_view(before).push(new@));
            }
        }
    }

    /// Credits superseded matches to the memories in force: only those are left,
    /// and none joins them that is not of the type and scope asked for.
    pub fn credit_heads(&self, scored: &Vec<Scored>, type_: &TypeFilter, scope: &ScopeFilter) -> (r:
        Vec<Scored>)
        requires
            in_store(self@, scored_view(scored@)),
        ensures
            scored_view(r@) == heads_of(self@, scored_view(scored@), type_@, scope@),
            in_store(self@, scored_view(r@)),
    {
        let ghost all = scored_view(scored@);
        let mut heads: Vec<Scored> = Vec::new();
        let mut i: usize = 0;
        assert(scored_view(heads@) =~= standing(self@, all.take(0)));
        while i < scored.len()
            invariant
                all == scored_view(scored@),
                in_store(self@, all),
                i <= scored@.len(),
                scored_view(heads@) == standing(self@, all.take(i as int)),
                in_store(self@, scored_view(heads@)),
            decreases scored@.len() - i,
        {
            let x = &scored[i];
            assert(all[i as int] == x@);
            assert(all.take(i as int + 1).drop_last() =~= all.take(i as int));
            assert(all.take(i as int + 1).last() == x@);
            assert(self@.memories[x.at as int] == self.memories@[x.at as int]@);
            if !same(self.memories[x.at].lifecycle.as_str(), "superseded") {
                let y = Scored { at: x.at, cosine: x.cosine, via: copy_opt(&x.via) };
                let ghost before = heads@;
                heads.push(y);
                assert(scored_view(heads@) =~= scored_view(before).push(y@));
            }
            i = i + 1;
        }
        assert(all.take(i as int) =~= all);
        let ghost start = standing(self@, all);
        let mut k: usize = 0;
        assert(all.take(0).len() == 0);
        while k < scored.len()
            invariant
                all == scored_view(scored@),
                in_store(self@, all),
                k <= scored@.len(),
                scored_view(heads@) == credit_all(
                    self@,
                    start,
                    all.take(k as int),
                    type_@,
                    scope@,
                ),
                in_store(self@, scored_view(heads@)),
            decreases scored@.len() - k,
        {
            let x = &scored[k];
            assert(all[k as int] == x@);
            assert(all.take(k as int + 1).drop_last() =~= all.take(k as int));
            assert(all.take(k as int + 1).last() == x@);
            assert(self@.memories[x.at as int] == self.memories@[x.at as int]@);
            if same(self.memories[x.at].lifecycle.as_str(), "superseded") {
                self.credit(&mut heads, x, type_, scope);
            }
            k = k + 1;
        }
        assert(all.take(k as int) =~= all);
        heads
    }
}

/// Whether none of some matches is superseded.
pub open spec fn none_superseded(s: StoreV, v: Seq<ScoredV>) -> bool {
    forall|i: int|
        0 <= i < v.len() ==> s.memories[(#[trigger] v[i]).at].lifecycle != "superseded"@
}

/// The standing matches are not superseded.
proof fn lemma_standing(s: StoreV, v: Seq<ScoredV>)
    ensures
        none_superseded(s, standing(s, v)),
    decreases v.len(),
{
    if v.len() > 0 {
        lemma_standing(s, v.drop_last());
    }
}

/// Crediting adds no superseded match.
proof fn lemma_credit_all(
    s: StoreV,
    heads: Seq<ScoredV>,
    v: Seq<ScoredV>,
    type_: TypeV,
    scope: ScopeV,
)
    requires
        none_superseded(s, heads),
    ensures
        none_superseded(s, credit_all(s, heads, v, type_, scope)),
    decreases v.len(),
{
    if v.len() > 0 {
        lemma_credit_all(s, heads, v.drop_last(), type_, scope);
        let h = credit_all(s, heads, v.drop_last(), type_, scope);
        let m = v.last();
        if s.memories[m.at].lifecycle == "superseded"@ {
            reveal_strlit("active");
            reveal_strlit("superseded");
            assert("active"@.len() == 6 && "superseded"@.len() == 10);
            match resolved(s, s.memories[m.at].id) {
                Err(_) => {},
                Ok(hops) => {
                    if hops.len() > 0 {
                        lemma_match_of(s, h, hops.last());
                    }
                },
            }
        }
    }
}

/// A recall never returns a superseded memory: its strength goes to the memory
/// that replaced it.
pub proof fn law_recall_returns_heads(s: StoreV, v: Seq<ScoredV>, type_: TypeV, scope: ScopeV)
    ensures
        none_superseded(s, heads_of(s, v, type_, scope)),
{
    lemma_standing(s, v);
    lemma_credit_all(s, standing(s, v), v, type_, scope);
}

/// Whether every match is of the type and scope asked for.
pub open spec fn all_asked(s: StoreV, v: Seq<ScoredV>, type_: TypeV, scope: ScopeV) -> bool {
    forall|i: int|
        0 <= i < v.len() ==> asked_row(s.memories[(#[trigger] v[i]).at], type_, scope)
}

/// The standing matches are among the matches.
proof fn lemma_standing_asked(s: StoreV, v: Seq<ScoredV>, type_: TypeV, scope: ScopeV)
    requires
        all_asked(s, v, type_, scope),
    ensures
        all_asked(s, standing(s, v), type_, scope),
    decreases v.len(),
{
    if v.len() > 0 {
        lemma_standing_asked(s, v.drop_last(), type_, scope);
        assert(asked_row(s.memories[v[v.len() - 1].at], type_, scope));
    }
}

/// Crediting adds no match that is not asked for.
proof fn lemma_credit_asked(
    s: StoreV,
    heads: Seq<ScoredV>,
    v: Seq<ScoredV>,
    type_: TypeV,
    scope: ScopeV,
)
    requires
        all_asked(s, heads, type_, scope),
    ensures
        all_asked(s, credit_all(s, heads, v, type_, scope), type_, scope),
    decreases v.len(),
{
    if v.len() > 0 {
        lemma_credit_asked(s, heads, v.drop_last(), type_, scope);
        let h = credit_all(s, heads, v.drop_last(), type_, scope);
        let m = v.last();
        if s.memories[m.at].lifecycle == "superseded"@ {
            match resolved(s, s.memories[m.at].id) {
                Err(_) => {},
                Ok(hops) => {
                    if hops.len() > 0 {
                        lemma_match_of(s, h, hops.last());
                    }
                },
            }
        }
    }
}

/// A recall returns only what was asked for: where every match is of the type
/// and scope, so is everything that is ranked. In particular a recall that
/// leaves the knowledge index out never returns an entry of it.
pub proof fn law_recall_stays_within_what_is_asked(
    s: StoreV,
    v: Seq<ScoredV>,
    credit: bool,
    type_: TypeV,
    scope: ScopeV,
)
    requires
        all_asked(s, v, type_, scope),
    ensures
        all_asked(s, weighed_of(s, v, credit, type_, scope), type_, scope),
        type_ is ExcludeKx ==> forall|i: int|
            0 <= i < weighed_of(s, v, credit, type_, scope).len()
                ==> s.memories[(#[trigger] weighed_of(s, v, credit, type_, scope)[i]).at].type_
                != "kx"@,
{
    lemma_standing_asked(s, v, type_, scope);
    lemma_credit_asked(s, standing(s, v), v, type_, scope);
    let w = weighed_of(s, v, credit, type_, scope);
    assert forall|i: int| type_ is ExcludeKx && 0 <= i < w.len() implies s.memories[(
    #[trigger] w[i]).at].type_ != "kx"@ by {
        assert(asked_row(s.memories[w[i].at], type_, scope));
    }
}

/// What a recall compares is of the type and scope asked for.
pub proof fn law_compared_is_asked(
    ms: Seq<MemoryV>,
    type_: TypeV,
    scope: ScopeV,
    extra: KxFiltersV,
    credit: bool,
    embedded: Seq<Seq<char>>,
    n: nat,
)
    requires
        n <= ms.len(),
    ensures
        forall|i: int|
            0 <= i < recall_positions(ms, type_, scope, extra, credit, embedded, n).len()
                ==> 0 <= (#[trigger] recall_positions(
                ms,
                type_,
                scope,
                extra,
                credit,
                embedded,
                n,
            )[i]) < n && asked_row(
                ms[recall_positions(ms, type_, scope, extra, credit, embedded, n)[i]],
                type_,
                scope,
            ),
    decreases n,
{
    if n > 0 {
        law_compared_is_asked(ms, type_, scope, extra, credit, embedded, (n - 1) as nat);
        let init = recall_positions(ms, type_, scope, extra, credit, embedded, (n - 1) as nat);
        let at = recall_positions(ms, type_, scope, extra, credit, embedded, n);
        assert forall|i: int| 0 <= i < at.len() implies 0 <= (#[trigger] at[i]) < n && asked_row(
            ms[at[i]],
            type_,
            scope,
        ) by {
            if i < init.len() {
                assert(at[i] == init[i]);
            }
        }
    }
}

/// The scores that reach a floor, by position.
pub open spec fn above_floor(scores: Seq<Rank>, floor: Option<Rank>) -> Seq<int>
    decreases scores.len(),
{
    if scores.len() == 0 {
        Seq::empty()
    } else {
        let init = above_floor(scores.drop_last(), floor);
        if floor is Some && scores.last().key < floor->0.key {
            init
        } else {
            init.push(scores.len() - 1)
        }
    }
}

/// The keys of the scores at some positions.
pub open spec fn score_keys(scores: Seq<Rank>, at: Seq<int>) -> Seq<(i64, i64)> {
    at.map_values(|i: int| (scores[i].key, 0i64))
}

/// The best scores that reach a floor, at most `limit`, equal ones in the order
/// given.
pub open spec fn top_scores(scores: Seq<Rank>, floor: Option<Rank>, limit: nat) -> Seq<int> {
    let at = above_floor(scores, floor);
    Seq::new(at_most(limit, at.len()), |i: int| at[ordered(score_keys(scores, at))[i] as int])
}

/// Picks the best scores.
pub fn rank_hits(scores: &Vec<Rank>, floor: Option<Rank>, limit: usize) -> (r: Vec<usize>)
    ensures
        crate::context::places(r@) == top_scores(scores@, floor, limit as nat),
        forall|i: int| 0 <= i < r@.len() ==> (#[trigger] r@[i]) < scores@.len(),
        r@.len() <= limit,
        floor is Some ==> forall|i: int|
            0 <= i < r@.len() ==> scores@[(#[trigger] r@[i]) as int].key >= floor->0.key,
{
    let mut found: Vec<usize> = Vec::new();
    let mut keys: Vec<(i64, i64)> = Vec::new();
    let ghost mut at: Seq<int> = Seq::empty();
    let mut i: usize = 0;
    assert(at =~= above_floor(scores@.take(0), floor));
    while i < scores.len()
        invariant
            i <= scores@.len(),
            at == above_floor(scores@.take(i as int), floor),
            found@.len() == at.len(),
            keys@.len() == at.len(),
            forall|k: int| 0 <= k < at.len() ==> found@[k] == #[trigger] at[k],
            forall|k: int| 0 <= k < at.len() ==> 0 <= #[trigger] at[k] < i,
            forall|k: int| 0 <= k < at.len() ==> #[trigger] keys@[k] == (scores@[at[k]].key, 0i64),
            floor is Some ==> forall|k: int|
                0 <= k < at.len() ==> scores@[#[trigger] at[k]].key >= floor->0.key,
        decreases scores@.len() - i,
    {
        assert(scores@.take(i as int + 1).drop_last() =~= scores@.take(i as int));
        assert(scores@.take(i as int + 1).last() == scores@[i as int]);
        let keep = match floor {
            Some(f) => scores[i].key >= f.key,
            None => true,
        };
        if keep {
            found.push(i);
            keys.push((scores[i].key, 0));
            proof {
                at = at.push(i as int);
            }
        }
        i = i + 1;
    }
    assert(scores@.take(i as int) =~= scores@);
    assert(keys@ =~= score_keys(scores@, at));
    let order = order_desc(&keys);
    let n: usize = if order.len() < limit {
        order.len()
    } else {
        limit
    };
    let mut out: Vec<usize> = Vec::new();
    let mut k: usize = 0;
    while k < n
        invariant
            k <= n <= order@.len(),
            is_order(keys@, order@),
            keys@.len() == found@.len(),
            found@.len() == at.len(),
            forall|x: int| 0 <= x < at.len() ==> found@[x] == #[trigger] at[x],
            forall|x: int| 0 <= x < at.len() ==> 0 <= #[trigger] at[x] < scores@.len(),
            floor is Some ==> forall|x: int|
                0 <= x < at.len() ==> scores@[#[trigger] at[x]].key >= floor->0.key,
            out@.len() == k,
            forall|x: int| 0 <= x < k ==> #[trigger] out@[x] == at[order@[x] as int],
            forall|x: int| 0 <= x < k ==> (#[trigger] out@[x]) < scores@.len(),
            floor is Some ==> forall|x: int|
                0 <= x < k ==> scores@[(#[trigger] out@[x]) as int].key >= floor->0.key,
        decreases n - k,
    {
        let p = order[k];
        assert(p < keys@.len());
        assert(found@[p as int] == at[p as int]);
        out.push(found[p]);
        k = k + 1;
    }
    assert(crate::context::places(out@) =~= top_scores(scores@, floor, limit as nat));
    out
}

/// A square table of yes and no for the hits of a recall.
pub open spec fn is_table(t: Seq<Vec<bool>>, n: nat) -> bool {
    t.len() == n && forall|i: int| 0 <= i < n ==> (#[trigger] t[i])@.len() == n
}

/// Whether hit `b` may pass hit `a` in front of it: their scores are as good as
/// equal, they are about the same, and `b` is the younger.
pub open spec fn may_pass(
    ties: Seq<Vec<bool>>,
    close: Seq<Vec<bool>>,
    t_eff: Seq<i64>,
    a: int,
    b: int,
) -> bool {
    ties[a]@[b] && close[a]@[b] && t_eff[b] > t_eff[a]
}

/// Two neighbours exchanged.
pub open spec fn exchanged(p: Seq<usize>, i: int) -> Seq<usize> {
    p.update(i, p[i + 1]).update(i + 1, p[i])
}

/// The hits after one pass from the first to the last pair before `n`: where
/// the second of a pair may pass, the two are exchanged.
pub open spec fn passed(
    p: Seq<usize>,
    ties: Seq<Vec<bool>>,
    close: Seq<Vec<bool>>,
    t_eff: Seq<i64>,
    n: int,
) -> Seq<usize>
    decreases n,
{
    if n <= 0 {
        p
    } else {
        let q = passed(p, ties, close, t_eff, n - 1);
        if may_pass(ties, close, t_eff, q[n - 1] as int, q[n] as int) {
            exchanged(q, n - 1)
        } else {
            q
        }
    }
}

/// The hits after some passes.
pub open spec fn passes(
    p: Seq<usize>,
    ties: Seq<Vec<bool>>,
    close: Seq<Vec<bool>>,
    t_eff: Seq<i64>,
    rounds: nat,
) -> Seq<usize>
    decreases rounds,
{
    if rounds == 0 {
        p
    } else {
        passed(
            passes(p, ties, close, t_eff, (rounds - 1) as nat),
            ties,
            close,
            t_eff,
            p.len() - 1,
        )
    }
}

/// The positions in order.
pub open spec fn in_order(n: nat) -> Seq<usize> {
    Seq::new(n, |i: int| i as usize)
}

/// Whether `p` lists the positions below its length, each once.
pub open spec fn is_listing(p: Seq<usize>) -> bool {
    &&& forall|i: int| 0 <= i < p.len() ==> (#[trigger] p[i]) < p.len()
    &&& forall|i: int, j: int| 0 <= i < j < p.len() ==> (#[trigger] p[i]) != (#[trigger] p[j])
}

/// Whether every hit that stands before one that was in front of it was allowed
/// to pass it.
pub open spec fn only_permitted(
    p: Seq<usize>,
    ties: Seq<Vec<bool>>,
    close: Seq<Vec<bool>>,
    t_eff: Seq<i64>,
) -> bool {
    forall|i: int, j: int|
        0 <= i < j < p.len() && p[i] > p[j] ==> may_pass(
            ties,
            close,
            t_eff,
            #[trigger] p[j] as int,
            #[trigger] p[i] as int,
        )
}

/// Exchanging neighbours of which the second may pass keeps the listing and the
/// permissions.
proof fn lemma_exchanged(
    p: Seq<usize>,
    ties: Seq<Vec<bool>>,
    close: Seq<Vec<bool>>,
    t_eff: Seq<i64>,
    k: int,
)
    requires
        0 <= k < p.len() - 1,
        is_listing(p),
        only_permitted(p, ties, close, t_eff),
        may_pass(ties, close, t_eff, p[k] as int, p[k + 1] as int),
    ensures
        exchanged(p, k).len() == p.len(),
        is_listing(exchanged(p, k)),
        only_permitted(exchanged(p, k), ties, close, t_eff),
{
    let q = exchanged(p, k);
    assert forall|i: int| 0 <= i < q.len() implies q[i] == (if i == k {
        p[k + 1]
    } else if i == k + 1 {
        p[k]
    } else {
        p[i]
    }) by {}
    assert forall|i: int, j: int| 0 <= i < j < q.len() implies (#[trigger] q[i]) != (
    #[trigger] q[j]) by {
        let a = if i == k {
            k + 1
        } else if i == k + 1 {
            k
        } else {
            i
        };
        let b = if j == k {
            k + 1
        } else if j == k + 1 {
            k
        } else {
            j
        };
        assert(p[a] != p[b]);
    }
    assert forall|i: int, j: int| 0 <= i < j < q.len() && q[i] > q[j] implies may_pass(
        ties,
        close,
        t_eff,
        #[trigger] q[j] as int,
        #[trigger] q[i] as int,
    ) by {
        if i == k && j == k + 1 {
        } else {
            let a = if i == k {
                k + 1
            } else if i == k + 1 {
                k
            } else {
                i
            };
            let b = if j == k {
                k + 1
            } else if j == k + 1 {
                k
            } else {
                j
            };
            assert(a < b);
            assert(q[i] == p[a] && q[j] == p[b]);
        }
    }
}

/// A pass keeps the listing and the permissions.
proof fn lemma_passed(
    p: Seq<usize>,
    ties: Seq<Vec<bool>>,
    close: Seq<Vec<bool>>,
    t_eff: Seq<i64>,
    n: int,
)
    requires
        n < p.len(),
        is_listing(p),
        only_permitted(p, ties, close, t_eff),
    ensures
        passed(p, ties, close, t_eff, n).len() == p.len(),
        is_listing(passed(p, ties, close, t_eff, n)),
        only_permitted(passed(p, ties, close, t_eff, n), ties, close, t_eff),
    decreases n,
{
    if n > 0 {
        lemma_passed(p, ties, close, t_eff, n - 1);
        let q = passed(p, ties, close, t_eff, n - 1);
        if may_pass(ties, close, t_eff, q[n - 1] as int, q[n] as int) {
            lemma_exchanged(q, ties, close, t_eff, n - 1);
        }
    }
}

/// Passes keep the listing and the permissions.
proof fn lemma_passes(
    p: Seq<usize>,
    ties: Seq<Vec<bool>>,
    close: Seq<Vec<bool>>,
    t_eff: Seq<i64>,
    rounds: nat,
)
    requires
        is_listing(p),
        only_permitted(p, ties, close, t_eff),
    ensures
        passes(p, ties, close, t_eff, rounds).len() == p.len(),
        is_listing(passes(p, ties, close, t_eff, rounds)),
        only_permitted(passes(p, ties, close, t_eff, rounds), ties, close, t_eff),
    decreases rounds,
{
    if rounds > 0 {
        lemma_passes(p, ties, close, t_eff, (rounds - 1) as nat);
        lemma_passed(
            passes(p, ties, close, t_eff, (rounds - 1) as nat),
            ties,
            close,
            t_eff,
            p.len() - 1,
        );
    }
}

/// Positions in order are listed and none has passed another.
proof fn lemma_in_order(
    n: nat,
    ties: Seq<Vec<bool>>,
    close: Seq<Vec<bool>>,
    t_eff: Seq<i64>,
)
    requires
        n <= usize::MAX,
    ensures
        is_listing(in_order(n)),
        only_permitted(in_order(n), ties, close, t_eff),
{
    let p = in_order(n);
    assert forall|i: int| 0 <= i < p.len() implies p[i] == i by {}
}

/// Breaking ties loses no hit and invents none, and lets a hit pass another
/// only where the scores are as good as equal, the two are about the same, and
/// the one that passes is younger.
pub proof fn law_ties_break_by_age_alone(
    n: nat,
    ties: Seq<Vec<bool>>,
    close: Seq<Vec<bool>>,
    t_eff: Seq<i64>,
)
    requires
        n <= usize::MAX,
    ensures
        ({
            let r = passes(in_order(n), ties, close, t_eff, n);
            r.len() == n && is_listing(r) && only_permitted(r, ties, close, t_eff)
        }),
{
    lemma_in_order(n, ties, close, t_eff);
    lemma_passes(in_order(n), ties, close, t_eff, n);
}

/// More passes change nothing once one changed nothing.
proof fn lemma_stable(
    p: Seq<usize>,
    ties: Seq<Vec<bool>>,
    close: Seq<Vec<bool>>,
    t_eff: Seq<i64>,
    k: nat,
    n: nat,
)
    requires
        k < n,
        passes(p, ties, close, t_eff, k + 1) == passes(p, ties, close, t_eff, k),
    ensures
        passes(p, ties, close, t_eff, n) == passes(p, ties, close, t_eff, k),
    decreases n,
{
    if n > k + 1 {
        lemma_stable(p, ties, close, t_eff, k, (n - 1) as nat);
        assert(passes(p, ties, close, t_eff, n) == passed(
            passes(p, ties, close, t_eff, (n - 1) as nat),
            ties,
            close,
            t_eff,
            p.len() - 1,
        ));
    }
}

/// A pass up to a pair leaves the pairs behind it alone.
proof fn lemma_passed_tail(
    p: Seq<usize>,
    ties: Seq<Vec<bool>>,
    close: Seq<Vec<bool>>,
    t_eff: Seq<i64>,
    n: int,
)
    requires
        0 <= n < p.len(),
    ensures
        passed(p, ties, close, t_eff, n).len() == p.len(),
        forall|i: int| n < i < p.len() ==> passed(p, ties, close, t_eff, n)[i] == p[i],
    decreases n,
{
    if n > 0 {
        lemma_passed_tail(p, ties, close, t_eff, n - 1);
    }
}

/// Breaks ties among the hits of a recall, given as tables over the hits in
/// their order by score: whether two scores are as good as equal, and whether
/// two hits are about the same.
pub fn rank_tie_break(ties: &Vec<Vec<bool>>, close: &Vec<Vec<bool>>, t_eff: &Vec<i64>) -> (r: Vec<
    usize,
>)
    requires
        is_table(ties@, t_eff@.len()),
        is_table(close@, t_eff@.len()),
    ensures
        r@ == passes(in_order(t_eff@.len()), ties@, close@, t_eff@, t_eff@.len()),
{
    let n: usize = t_eff.len();
    let mut p: Vec<usize> = Vec::new();
    let mut i: usize = 0;
    while i < n
        invariant
            i <= n,
            p@.len() == i,
            forall|k: int| 0 <= k < i ==> #[trigger] p@[k] == k,
        decreases n - i,
    {
        p.push(i);
        i = i + 1;
    }
    let ghost start = in_order(n as nat);
    assert(p@ =~= start);
    proof {
        lemma_in_order(n as nat, ties@, close@, t_eff@);
    }
    let mut round: usize = 0;
    while round < n
        invariant
            n == t_eff@.len(),
            is_table(ties@, n as nat),
            is_table(close@, n as nat),
            start == in_order(n as nat),
            is_listing(start),
            only_permitted(start, ties@, close@, t_eff@),
            round <= n,
            p@.len() == n,
            p@ == passes(start, ties@, close@, t_eff@, round as nat),
        decreases n - round,
    {
        proof {
            lemma_passes(start, ties@, close@, t_eff@, round as nat);
        }
        let ghost before = p@;
        let mut swapped = false;
        let mut k: usize = 0;
        while k + 1 < n
            invariant
                n == t_eff@.len(),
                is_table(ties@, n as nat),
                is_table(close@, n as nat),
                before.len() == n,
                n > 0,
                is_listing(before),
                only_permitted(before, ties@, close@, t_eff@),
                k < n,
                p@ == passed(before, ties@, close@, t_eff@, k as int),
                !swapped ==> p@ == before,
            decreases n - k,
        {
            proof {
                lemma_passed(before, ties@, close@, t_eff@, k as int);
            }
            let a = p[k];
            let b = p[k + 1];
            assert(a < n && b < n);
            assert(ties@[a as int]@.len() == n);
            assert(close@[a as int]@.len() == n);
            if ties[a][b] && close[a][b] && t_eff[b] > t_eff[a] {
                let ghost q = p@;
                p.set(k, b);
                p.set(k + 1, a);
                assert(p@ =~= exchanged(q, k as int));
                swapped = true;
            }
            k = k + 1;
        }
        assert(p@ == passed(before, ties@, close@, t_eff@, n - 1));
        proof {
            lemma_passed_tail(before, ties@, close@, t_eff@, n - 1);
        }
        if !swapped {
            proof {
                assert(passes(start, ties@, close@, t_eff@, (round + 1) as nat) == passes(
                    start,
                    ties@,
                    close@,
                    t_eff@,
                    round as nat,
                ));
                lemma_stable(start, ties@, close@, t_eff@, round as nat, n as nat);
            }
            return p;
        }
        round = round + 1;
    }
    p
}

/// Whether two hits are about the same, whichever comes first.
pub open spec fn pair_close(close: Seq<Vec<bool>>, i: int, j: int) -> bool {
    if i < j {
        close[i]@[j]
    } else {
        close[j]@[i]
    }
}

/// The ids among the first `n` hits that may contradict hit `i`.
pub open spec fn partners_of(
    ids: Seq<Seq<char>>,
    close: Seq<Vec<bool>>,
    i: int,
    n: nat,
) -> Seq<Seq<char>>
    decreases n,
{
    if n == 0 {
        Seq::empty()
    } else {
        let init = partners_of(ids, close, i, (n - 1) as nat);
        if n - 1 != i && pair_close(close, i, n - 1) {
            init.push(ids[n - 1])
        } else {
            init
        }
    }
}

/// For each hit, the ids of the hits that are about the same: they may
/// contradict it.
pub fn conflict_partners(ids: &Vec<String>, close: &Vec<Vec<bool>>) -> (r: Vec<Vec<String>>)
    requires
        is_table(close@, ids@.len()),
    ensures
        r@.len() == ids@.len(),
        forall|i: int|
            0 <= i < ids@.len() ==> texts((#[trigger] r@[i])@) == partners_of(
                texts(ids@),
                close@,
                i,
                ids@.len(),
            ),
{
    let n: usize = ids.len();
    let mut out: Vec<Vec<String>> = Vec::new();
    let mut i: usize = 0;
    while i < n
        invariant
            n == ids@.len(),
            is_table(close@, n as nat),
            i <= n,
            out@.len() == i,
            forall|k: int|
                0 <= k < i ==> texts((#[trigger] out@[k])@) == partners_of(
                    texts(ids@),
                    close@,
                    k,
                    n as nat,
                ),
        decreases n - i,
    {
        let mut mine: Vec<String> = Vec::new();
        let mut j: usize = 0;
        assert(texts(mine@) =~= Seq::<Seq<char>>::empty());
        while j < n
            invariant
                n == ids@.len(),
                is_table(close@, n as nat),
                i < n,
                j <= n,
                texts(mine@) == partners_of(texts(ids@), close@, i as int, j as nat),
            decreases n - j,
        {
            assert(close@[i as int]@.len() == n);
            assert(close@[j as int]@.len() == n);
            let hit = if i < j {
                close[i][j]
            } else {
                close[j][i]
            };
            if j != i && hit {
                let x = ids[j].clone();
                proof {
                    lemma_texts_push(mine@, x);
                }
                mine.push(x);
            }
            j = j + 1;
        }
        out.push(mine);
        i = i + 1;
    }
    out
}

/// A hit is a partner exactly where it is about the same.
proof fn lemma_partners(ids: Seq<Seq<char>>, close: Seq<Vec<bool>>, i: int, n: nat, j: int)
    requires
        0 <= j < n <= ids.len(),
        i != j,
        forall|a: int, b: int| 0 <= a < b < ids.len() ==> #[trigger] ids[a] != #[trigger] ids[b],
    ensures
        listed(partners_of(ids, close, i, n), ids[j]) == pair_close(close, i, j),
    decreases n,
{
    let p = partners_of(ids, close, i, n);
    let init = partners_of(ids, close, i, (n - 1) as nat);
    if j == n - 1 {
        lemma_partners_bound(ids, close, i, (n - 1) as nat, j);
        if pair_close(close, i, j) {
            assert(p[p.len() - 1] == ids[j]);
        }
    } else {
        lemma_partners(ids, close, i, (n - 1) as nat, j);
        if listed(init, ids[j]) {
            let k = choose|k: int| 0 <= k < init.len() && #[trigger] init[k] == ids[j];
            assert(p[k] == ids[j]);
        }
        if listed(p, ids[j]) {
            let k = choose|k: int| 0 <= k < p.len() && #[trigger] p[k] == ids[j];
            if k < init.len() {
                assert(init[k] == ids[j]);
            } else {
                assert(ids[n - 1] == ids[j]);
            }
        }
    }
}

/// No later hit is listed among the partners of earlier ones.
proof fn lemma_partners_bound(ids: Seq<Seq<char>>, close: Seq<Vec<bool>>, i: int, n: nat, j: int)
    requires
        n <= j < ids.len(),
        forall|a: int, b: int| 0 <= a < b < ids.len() ==> #[trigger] ids[a] != #[trigger] ids[b],
    ensures
        !listed(partners_of(ids, close, i, n), ids[j]),
    decreases n,
{
    if n > 0 {
        lemma_partners_bound(ids, close, i, (n - 1) as nat, j);
        let p = partners_of(ids, close, i, n);
        let init = partners_of(ids, close, i, (n - 1) as nat);
        if listed(p, ids[j]) {
            let k = choose|k: int| 0 <= k < p.len() && #[trigger] p[k] == ids[j];
            if k < init.len() {
                assert(init[k] == ids[j]);
            } else {
                assert(ids[n - 1] != ids[j]);
            }
        }
    }
}

/// Of two hits, each is flagged with the other or neither is.
pub proof fn law_conflict_flags_are_mutual(
    ids: Seq<Seq<char>>,
    close: Seq<Vec<bool>>,
    i: int,
    j: int,
)
    requires
        0 <= i < ids.len(),
        0 <= j < ids.len(),
        i != j,
        forall|a: int, b: int| 0 <= a < b < ids.len() ==> #[trigger] ids[a] != #[trigger] ids[b],
    ensures
        listed(partners_of(ids, close, i, ids.len()), ids[j]) == listed(
            partners_of(ids, close, j, ids.len()),
            ids[i],
        ),
{
    lemma_partners(ids, close, i, ids.len(), j);
    lemma_partners(ids, close, j, ids.len(), i);
}

/// What a recall ranks of its matches: under crediting only the memories in
/// force, otherwise every match as it is.
pub open spec fn weighed_of(
    s: StoreV,
    v: Seq<ScoredV>,
    credit: bool,
    type_: TypeV,
    scope: ScopeV,
) -> Seq<ScoredV> {
    if credit {
        heads_of(s, v, type_, scope)
    } else {
        v
    }
}

/// The times by which ties between some matches are broken.
pub open spec fn hit_times(s: StoreV, v: Seq<ScoredV>, picked: Seq<usize>) -> Seq<i64> {
    Seq::new(
        picked.len(),
        |i: int|
            {
                let m = s.memories[v[picked[i] as int].at];
                effective_time(m.created_at, m.updated_at, m.verified_at)
            },
    )
}

/// The picked matches in the order in which a recall returns them: under
/// crediting with ties broken by age, otherwise as picked.
pub open spec fn hit_order(
    s: StoreV,
    v: Seq<ScoredV>,
    picked: Seq<usize>,
    ties: Seq<Vec<bool>>,
    close: Seq<Vec<bool>>,
    credit: bool,
) -> Seq<usize> {
    if credit {
        let p = passes(in_order(picked.len()), ties, close, hit_times(s, v, picked), picked.len());
        Seq::new(picked.len(), |i: int| picked[p[i] as int])
    } else {
        picked
    }
}

/// Whether every number lies below a length.
pub open spec fn all_below(v: Seq<usize>, n: nat) -> bool {
    forall|i: int| 0 <= i < v.len() ==> (#[trigger] v[i]) < n
}

/// The ids of the memories at some matches.
pub open spec fn hit_ids(s: StoreV, v: Seq<ScoredV>, order: Seq<usize>) -> Seq<Seq<char>> {
    Seq::new(order.len(), |i: int| s.memories[v[order[i] as int].at].id)
}

impl Store {
    /// What a recall ranks of its matches.
    pub fn weigh_matches(
        &self,
        scored: Vec<Scored>,
        credit: bool,
        type_: &TypeFilter,
        scope: &ScopeFilter,
    ) -> (r: Vec<Scored>)
        requires
            in_store(self@, scored_view(scored@)),
        ensures
            scored_view(r@) == weighed_of(
                self@,
                scored_view(scored@),
                credit,
                type_@,
                scope@,
            ),
            in_store(self@, scored_view(r@)),
    {
        if credit {
            self.credit_heads(&scored, type_, scope)
        } else {
            scored
        }
    }

    /// Puts the picked matches in the order in which a recall returns them,
    /// given as tables over the picked matches whether two scores are as good as
    /// equal, and whether two matches are about the same.
    pub fn order_hits(
        &self,
        scored: &Vec<Scored>,
        picked: &Vec<usize>,
        ties: &Vec<Vec<bool>>,
        close: &Vec<Vec<bool>>,
        credit: bool,
    ) -> (r: Vec<usize>)
        requires
            in_store(self@, scored_view(scored@)),
            all_below(picked@, scored@.len()),
            is_table(ties@, picked@.len()),
            is_table(close@, picked@.len()),
        ensures
            r@ == hit_order(self@, scored_view(scored@), picked@, ties@, close@, credit),
            all_below(r@, scored@.len()),
    {
        let ghost v = scored_view(scored@);
        let mut out: Vec<usize> = Vec::new();
        if !credit {
            let mut i: usize = 0;
            while i < picked.len()
                invariant
                    i <= picked@.len(),
                    out@ == picked@.take(i as int),
                decreases picked@.len() - i,
            {
                out.push(picked[i]);
                i = i + 1;
                assert(out@ =~= picked@.take(i as int));
            }
            assert(out@ =~= picked@);
            return out;
        }
        let mut times: Vec<i64> = Vec::new();
        let mut i: usize = 0;
        while i < picked.len()
            invariant
                i <= picked@.len(),
                v == scored_view(scored@),
                in_store(self@, v),
                all_below(picked@, scored@.len()),
                times@.len() == i,
                forall|k: int|
                    0 <= k < i ==> #[trigger] times@[k] == hit_times(self@, v, picked@)[k],
            decreases picked@.len() - i,
        {
            assert(picked@[i as int] < scored@.len());
            let x = &scored[picked[i]];
            assert(v[picked@[i as int] as int] == x@);
            let m = &self.memories[x.at];
            assert(self@.memories[x.at as int] == m@);
            times.push(rank_t_eff(m.created_at, m.updated_at, m.verified_at));
            i = i + 1;
        }
        assert(times@ =~= hit_times(self@, v, picked@));
        let p = rank_tie_break(ties, close, &times);
        proof {
            law_ties_break_by_age_alone(picked@.len(), ties@, close@, times@);
        }
        let mut k: usize = 0;
        while k < p.len()
            invariant
                k <= p@.len(),
                p@.len() == picked@.len(),
                is_listing(p@),
                all_below(picked@, scored@.len()),
                out@.len() == k,
                forall|j: int| 0 <= j < k ==> #[trigger] out@[j] == picked@[p@[j] as int],
                all_below(out@, scored@.len()),
            decreases p@.len() - k,
        {
            assert(p@[k as int] < p@.len());
            out.push(picked[p[k]]);
            k = k + 1;
        }
        assert(out@ =~= hit_order(self@, v, picked@, ties@, close@, credit));
        out
    }

    /// For each hit the ids of the hits that may contradict it, given as a table
    /// over the hits whether two are about the same; none without crediting.
    pub fn conflict_flags(
        &self,
        scored: &Vec<Scored>,
        order: &Vec<usize>,
        close: &Vec<Vec<bool>>,
        credit: bool,
    ) -> (r: Vec<Vec<String>>)
        requires
            in_store(self@, scored_view(scored@)),
            all_below(order@, scored@.len()),
            is_table(close@, order@.len()),
        ensures
            r@.len() == order@.len(),
            forall|i: int|
                0 <= i < order@.len() ==> texts((#[trigger] r@[i])@) == (if credit {
                    partners_of(
                        hit_ids(self@, scored_view(scored@), order@),
                        close@,
                        i,
                        order@.len(),
                    )
                } else {
                    Seq::empty()
                }),
    {
        let ghost v = scored_view(scored@);
        let mut ids: Vec<String> = Vec::new();
        let mut none: Vec<Vec<String>> = Vec::new();
        let mut i: usize = 0;
        while i < order.len()
            invariant
                i <= order@.len(),
                v == scored_view(scored@),
                in_store(self@, v),
                all_below(order@, scored@.len()),
                ids@.len() == i,
                none@.len() == i,
                forall|k: int| 0 <= k < i ==> (#[trigger] ids@[k])@ == hit_ids(self@, v, order@)[k],
                forall|k: int| 0 <= k < i ==> (#[trigger] none@[k])@.len() == 0,
            decreases order@.len() - i,
        {
            assert(order@[i as int] < scored@.len());
            let x = &scored[order[i]];
            assert(v[order@[i as int] as int] == x@);
            let m = &self.memories[x.at];
            assert(self@.memories[x.at as int] == m@);
            ids.push(m.id.clone());
            none.push(Vec::new());
            i = i + 1;
        }
        if credit {
            assert(texts(ids@) =~= hit_ids(self@, v, order@));
            conflict_partners(&ids, close)
        } else {
            assert forall|k: int| 0 <= k < order@.len() implies texts((#[trigger] none@[k])@)
                == Seq::<Seq<char>>::empty() by {
                assert(texts(none@[k]@) =~= Seq::<Seq<char>>::empty());
            }
            none
        }
    }
}

/// A recall returns each match that was picked once, whatever ties it breaks.
pub proof fn law_order_keeps_the_picked(
    s: StoreV,
    v: Seq<ScoredV>,
    picked: Seq<usize>,
    ties: Seq<Vec<bool>>,
    close: Seq<Vec<bool>>,
    credit: bool,
)
    requires
        picked.len() <= usize::MAX,
    ensures
        hit_order(s, v, picked, ties, close, credit).to_multiset() == picked.to_multiset(),
{
    let r = hit_order(s, v, picked, ties, close, credit);
    if credit {
        let times = hit_times(s, v, picked);
        law_ties_break_by_age_alone(picked.len(), ties, close, times);
        let p = passes(in_order(picked.len()), ties, close, times, picked.len());
        lemma_listing_rearranges(picked, p);
        assert(r =~= Seq::new(p.len(), |i: int| picked[p[i] as int]));
    }
}

/// Reading a sequence in the order of a listing of its positions rearranges it.
proof fn lemma_listing_rearranges(a: Seq<usize>, p: Seq<usize>)
    requires
        p.len() == a.len(),
        is_listing(p),
    ensures
        Seq::new(p.len(), |i: int| a[p[i] as int]).to_multiset() == a.to_multiset(),
    decreases a.len(),
{
    broadcast use vstd::seq_lib::group_to_multiset_ensures;

    let r = Seq::new(p.len(), |i: int| a[p[i] as int]);
    if a.len() == 0 {
        assert(r =~= a);
    } else {
        let j = p.last() as int;
        let b = a.remove(j);
        let q = Seq::new(
            (p.len() - 1) as nat,
            |i: int|
                if p[i] > j {
                    (p[i] - 1) as usize
                } else {
                    p[i]
                },
        );
        assert forall|i: int| 0 <= i < q.len() implies (#[trigger] q[i]) < q.len() by {
            assert(p[i] < p.len());
            assert(p[i] != p[p.len() - 1]);
        }
        assert forall|x: int, y: int| 0 <= x < y < q.len() implies (#[trigger] q[x]) != (
        #[trigger] q[y]) by {
            assert(p[x] != p[y]);
            assert(p[x] != p[p.len() - 1]);
            assert(p[y] != p[p.len() - 1]);
        }
        lemma_listing_rearranges(b, q);
        let t = Seq::new(q.len(), |i: int| b[q[i] as int]);
        assert forall|i: int| 0 <= i < t.len() implies t[i] == r.drop_last()[i] by {
            assert(p[i] < p.len());
            assert(p[i] != p[p.len() - 1]);
        }
        assert(t =~= r.drop_last());
        assert(r =~= t.push(a[j]));
        assert(b.to_multiset() =~= a.to_multiset().remove(a[j]));
        assert(a.contains(a[j]));
        assert(r.to_multiset() =~= a.to_multiset());
    }
}

} // verus!
