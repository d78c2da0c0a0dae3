//! What a recall owes: which memories it compares, what becomes of the strength
//! of a superseded match, and which hits a floor and a limit leave.
use crate::context_laws::law_order_is_largest_first;
use crate::kx::KxFiltersV;
use crate::ranking::{
    above_floor, carries_tag, credit_all, credit_one, credited, heads_of, in_store, match_of,
    recall_positions, score_keys, standing, top_scores, weighed_of, within, ScoredV,
};
use crate::resolve::resolved;
use crate::rows::MemoryV;
use crate::sort::ordered;
use crate::sql::{scope_filter, ScopeV, TypeV};
use crate::store::{lemma_position, position, Rank, StoreV};
use crate::text::{ascii_lower, listed, occurs_at, split_on};
use crate::text_laws::law_split_at_the_separator;
use vstd::prelude::*;

verus! {

/// Whether a type is asked for: never the knowledge index where that is left out.
pub open spec fn type_asked(f: TypeV, t: Seq<char>) -> bool {
    match f {
        TypeV::ExcludeKx(None) => t != "kx"@,
        TypeV::ExcludeKx(Some(x)) => t != "kx"@ && t == x,
        TypeV::Only(x) => t == x,
    }
}

/// Whether a scope is asked for.
pub open spec fn scope_asked(f: ScopeV, s: Seq<char>) -> bool {
    match f {
        ScopeV::All => true,
        ScopeV::Only(v) => v.contains(s),
    }
}

/// A filter lets through what is asked for and nothing else.
pub proof fn law_filters_let_through_what_is_asked(
    f: TypeV,
    t: Seq<char>,
    g: ScopeV,
    s: Seq<char>,
)
    ensures
        f.admits(t) == type_asked(f, t),
        g.admits(s) == scope_asked(g, s),
{
    if g is Only {
        let v = g->Only_0;
        if v.contains(s) {
            let k = choose|k: int| 0 <= k < v.len() && v[k] == s;
            assert(v[k] == s);
        }
    }
}

/// A listed text is one that a sequence holds.
proof fn lemma_listed(v: Seq<Seq<char>>, x: Seq<char>)
    ensures
        listed(v, x) == v.contains(x),
{
    if v.contains(x) {
        let k = choose|k: int| 0 <= k < v.len() && v[k] == x;
        assert(v[k] == x);
    }
}

/// Days narrow what is compared: a memory without a day is in no range, and one
/// with a day is in a range exactly where the day lies in it, its end excluded.
pub proof fn law_days_bound_what_is_compared(m: MemoryV, from: Option<int>, to: Option<int>)
    ensures
        ({
            let f = KxFiltersV { tags: Seq::empty(), from, to_exclusive: to };
            within(m, f) == (match m.valid_from {
                None => from is None && to is None,
                Some(d) => (from is Some ==> from->0 <= d) && (to is Some ==> d < to->0),
            })
        }),
{
}

/// Every memory that a recall compares is active, has a vector, is of the type
/// and scope asked for and within the tags and days, and is superseded only
/// where its match is credited; and every memory of which this holds is
/// compared, once.
pub proof fn law_recall_compares_what_is_active(
    ms: Seq<MemoryV>,
    type_: TypeV,
    scope: ScopeV,
    extra: KxFiltersV,
    credit: bool,
    embedded: Seq<Seq<char>>,
    n: nat,
)
    requires
        n <= ms.len(),
    ensures
        ({
            let at = recall_positions(ms, type_, scope, extra, credit, embedded, n);
            &&& forall|k: int|
                0 <= k < at.len() ==> {
                    let m = ms[#[trigger] at[k]];
                    &&& 0 <= at[k] < n
                    &&& m.is_active
                    &&& embedded.contains(m.id)
                    &&& type_asked(type_, m.type_)
                    &&& scope_asked(scope, m.scope)
                    &&& within(m, extra)
                    &&& m.lifecycle == "superseded"@ ==> credit
                }
            &&& forall|x: int|
                0 <= x < n && (#[trigger] ms[x]).is_active && embedded.contains(ms[x].id)
                    && type_asked(type_, ms[x].type_) && scope_asked(scope, ms[x].scope) && within(
                    ms[x],
                    extra,
                ) && (ms[x].lifecycle == "superseded"@ ==> credit) ==> at.contains(x)
            &&& forall|j: int, k: int|
                0 <= j < k < at.len() ==> (#[trigger] at[j]) < (#[trigger] at[k])
        }),
    decreases n,
{
    if n > 0 {
        law_recall_compares_what_is_active(
            ms,
            type_,
            scope,
            extra,
            credit,
            embedded,
            (n - 1) as nat,
        );
        let init = recall_positions(ms, type_, scope, extra, credit, embedded, (n - 1) as nat);
        let at = recall_positions(ms, type_, scope, extra, credit, embedded, n);
        law_filters_let_through_what_is_asked(type_, ms[n - 1].type_, scope, ms[n - 1].scope);
        lemma_listed(embedded, ms[n - 1].id);
        assert forall|k: int| 0 <= k < at.len() implies {
            let m = ms[#[trigger] at[k]];
            &&& 0 <= at[k] < n
            &&& m.is_active
            &&& embedded.contains(m.id)
            &&& type_asked(type_, m.type_)
            &&& scope_asked(scope, m.scope)
            &&& within(m, extra)
            &&& m.lifecycle == "superseded"@ ==> credit
        } by {
            if k < init.len() {
                assert(at[k] == init[k]);
            }
        }
        assert forall|x: int|
            0 <= x < n && (#[trigger] ms[x]).is_active && embedded.contains(ms[x].id) && type_asked(
                type_,
                ms[x].type_,
            ) && scope_asked(scope, ms[x].scope) && within(ms[x], extra) && (ms[x].lifecycle
                == "superseded"@ ==> credit) implies at.contains(x) by {
            if x < n - 1 {
                let k = choose|k: int| 0 <= k < init.len() && init[k] == x;
                assert(at[k] == x);
            } else {
                assert(at[at.len() - 1] == x);
            }
        }
        assert forall|j: int, k: int| 0 <= j < k < at.len() implies (#[trigger] at[j]) < (
        #[trigger] at[k]) by {
            assert(at[j] == init[j]);
            if k < init.len() {
                assert(at[k] == init[k]);
            }
        }
    }
}

/// Whether every match is an active memory.
pub open spec fn all_active(s: StoreV, v: Seq<ScoredV>) -> bool {
    forall|i: int| 0 <= i < v.len() ==> s.memories[(#[trigger] v[i]).at].is_active
}

/// The standing matches are among the matches, and all of them that are not
/// superseded.
proof fn lemma_standing_among(s: StoreV, v: Seq<ScoredV>)
    ensures
        forall|i: int| 0 <= i < standing(s, v).len() ==> v.contains(#[trigger] standing(s, v)[i]),
        forall|i: int|
            0 <= i < standing(s, v).len() ==> s.memories[(#[trigger] standing(
                s,
                v,
            )[i]).at].lifecycle != "superseded"@,
        forall|i: int|
            0 <= i < v.len() && s.memories[(#[trigger] v[i]).at].lifecycle != "superseded"@
                ==> standing(s, v).contains(v[i]),
    decreases v.len(),
{
    if v.len() > 0 {
        let init = v.drop_last();
        lemma_standing_among(s, init);
        let w = standing(s, v);
        let x = standing(s, init);
        assert forall|i: int| 0 <= i < w.len() implies v.contains(#[trigger] w[i])
            && s.memories[w[i].at].lifecycle != "superseded"@ by {
            if i < x.len() {
                assert(w[i] == x[i]);
                let k = choose|k: int| 0 <= k < init.len() && init[k] == x[i];
                assert(v[k] == w[i]);
            } else {
                assert(v[v.len() - 1] == w[i]);
            }
        }
        assert forall|i: int|
            0 <= i < v.len() && s.memories[(#[trigger] v[i]).at].lifecycle
                != "superseded"@ implies w.contains(v[i]) by {
            if i < init.len() {
                assert(init[i] == v[i]);
                let k = choose|k: int| 0 <= k < x.len() && x[k] == init[i];
                assert(w[k] == v[i]);
            } else {
                assert(w[w.len() - 1] == v[i]);
            }
        }
    }
}

/// A match found is one of the matches and has the id; where none is found, none
/// has it.
proof fn lemma_match_found(s: StoreV, v: Seq<ScoredV>, id: Seq<char>)
    ensures
        match match_of(s, v, id) {
            Some(i) => 0 <= i < v.len() && s.memories[v[i].at].id == id,
            None => forall|i: int| 0 <= i < v.len() ==> s.memories[(#[trigger] v[i]).at].id != id,
        },
    decreases v.len(),
{
    if v.len() > 0 && s.memories[v.last().at].id != id {
        let init = v.drop_last();
        lemma_match_found(s, init, id);
        if match_of(s, init, id) is None {
            assert forall|i: int| 0 <= i < v.len() implies s.memories[(#[trigger] v[i]).at].id
                != id by {
                if i < init.len() {
                    assert(init[i] == v[i]);
                }
            }
        }
    }
}

/// Whether each match of a list is still there in a longer one, at the same place
/// and at least as strong.
pub open spec fn stronger(a: Seq<ScoredV>, b: Seq<ScoredV>) -> bool {
    a.len() <= b.len() && forall|i: int|
        0 <= i < a.len() ==> (#[trigger] b[i]).at == a[i].at && b[i].cosine.key >= a[i].cosine.key
}

/// One credit keeps every match, weakens none, and adds at most a memory in force
/// that is asked for.
proof fn lemma_credit_one(
    s: StoreV,
    heads: Seq<ScoredV>,
    m: ScoredV,
    type_: TypeV,
    scope: ScopeV,
)
    requires
        in_store(s, heads),
    ensures
        in_store(s, credit_one(s, heads, m, type_, scope)),
        stronger(heads, credit_one(s, heads, m, type_, scope)),
        forall|i: int|
            heads.len() <= i < credit_one(s, heads, m, type_, scope).len() ==> {
                let n = s.memories[(#[trigger] credit_one(s, heads, m, type_, scope)[i]).at];
                n.is_active && n.lifecycle == "active"@ && type_asked(type_, n.type_)
                    && scope_asked(scope, n.scope)
            },
        forall|i: int|
            #![trigger credit_one(s, heads, m, type_, scope)[i]]
            0 <= i < credit_one(s, heads, m, type_, scope).len() ==> {
                let h = credit_one(s, heads, m, type_, scope)[i];
                ||| i < heads.len() && h == heads[i]
                ||| h.cosine == m.cosine && h.via is Some
                ||| i >= heads.len() && h.cosine.key == 0 && m.cosine.key <= 0
            },
        forall|head: Seq<char>|
            resolved(s, s.memories[m.at].id) is Ok && resolved(
                s,
                s.memories[m.at].id,
            )->Ok_0.len() > 0 && #[trigger] resolved(s, s.memories[m.at].id)->Ok_0.last() == head && s.get(
                head,
            ) is Some && s.get(head)->0.is_active && s.get(head)->0.lifecycle == "active"@
                && type_asked(type_, s.get(head)->0.type_) && scope_asked(
                scope,
                s.get(head)->0.scope,
            ) ==> holds_id(s, credit_one(s, heads, m, type_, scope), head, m.cosine),
{
    let row = s.memories[m.at];
    let r = credit_one(s, heads, m, type_, scope);
    match resolved(s, row.id) {
        Err(_) => {},
        Ok(hops) => {
            if hops.len() > 0 {
                let head = hops.last();
                lemma_match_found(s, heads, head);
                lemma_position(s.memories, head);
                match match_of(s, heads, head) {
                    Some(i) => {
                        assert(r[i].at == heads[i].at);
                        assert(s.memories[r[i].at].id == head && r[i].cosine.key >= m.cosine.key);
                    },
                    None => {
                        match position(s.memories, head) {
                            Some(p) => {
                                let n = s.memories[p];
                                law_filters_let_through_what_is_asked(
                                    type_,
                                    n.type_,
                                    scope,
                                    n.scope,
                                );
                                if r.len() > heads.len() {
                                    let k = heads.len() as int;
                                    assert(s.memories[r[k].at].id == head && r[k].cosine.key
                                        >= m.cosine.key);
                                }
                            },
                            None => {},
                        }
                    },
                }
            }
        },
    }
}

/// Whether a memory is among some matches with at least some strength.
pub open spec fn holds_id(s: StoreV, v: Seq<ScoredV>, id: Seq<char>, cosine: Rank) -> bool {
    exists|i: int|
        0 <= i < v.len() && s.memories[(#[trigger] v[i]).at].id == id && v[i].cosine.key
            >= cosine.key
}

/// A memory among matches is still among stronger ones.
proof fn lemma_holds_stronger(
    s: StoreV,
    a: Seq<ScoredV>,
    b: Seq<ScoredV>,
    id: Seq<char>,
    cosine: Rank,
)
    requires
        stronger(a, b),
        holds_id(s, a, id, cosine),
    ensures
        holds_id(s, b, id, cosine),
{
    let i = choose|i: int|
        0 <= i < a.len() && s.memories[(#[trigger] a[i]).at].id == id && a[i].cosine.key
            >= cosine.key;
    assert(b[i].at == a[i].at);
}

/// What crediting a list keeps and adds.
proof fn lemma_credit_list(
    s: StoreV,
    heads: Seq<ScoredV>,
    v: Seq<ScoredV>,
    type_: TypeV,
    scope: ScopeV,
)
    requires
        in_store(s, heads),
        in_store(s, v),
    ensures
        in_store(s, credit_all(s, heads, v, type_, scope)),
        stronger(heads, credit_all(s, heads, v, type_, scope)),
        forall|i: int|
            heads.len() <= i < credit_all(s, heads, v, type_, scope).len() ==> {
                let n = s.memories[(#[trigger] credit_all(s, heads, v, type_, scope)[i]).at];
                n.is_active && n.lifecycle == "active"@ && type_asked(type_, n.type_)
                    && scope_asked(scope, n.scope)
            },
        forall|k: int|
            0 <= k < v.len() && s.memories[(#[trigger] v[k]).at].lifecycle == "superseded"@
                && credit_due(s, v[k], type_, scope) ==> holds_id(
                s,
                credit_all(s, heads, v, type_, scope),
                resolved(s, s.memories[v[k].at].id)->Ok_0.last(),
                v[k].cosine,
            ),
        forall|i: int|
            0 <= i < credit_all(s, heads, v, type_, scope).len() ==> strength_has_a_source(
                heads,
                v,
                #[trigger] credit_all(s, heads, v, type_, scope)[i],
            ),
    decreases v.len(),
{
    let r = credit_all(s, heads, v, type_, scope);
    if v.len() == 0 {
        assert forall|i: int| 0 <= i < r.len() implies strength_has_a_source(
            heads,
            v,
            #[trigger] r[i],
        ) by {
            assert(heads[i] == r[i]);
        }
    } else {
        let init = v.drop_last();
        assert forall|i: int| 0 <= i < init.len() implies 0 <= (#[trigger] init[i]).at
            < s.memories.len() by {
            assert(init[i] == v[i]);
        }
        lemma_credit_list(s, heads, init, type_, scope);
        let h = credit_all(s, heads, init, type_, scope);
        let m = v.last();
        let old = s.memories[m.at].lifecycle == "superseded"@;
        if old {
            lemma_credit_one(s, h, m, type_, scope);
        }
        assert forall|i: int| 0 <= i < heads.len() implies (#[trigger] r[i]).at == heads[i].at
            && r[i].cosine.key >= heads[i].cosine.key by {
            assert(h[i].at == heads[i].at);
        }
        assert forall|i: int| heads.len() <= i < r.len() implies {
            let n = s.memories[(#[trigger] r[i]).at];
            n.is_active && n.lifecycle == "active"@ && type_asked(type_, n.type_) && scope_asked(
                scope,
                n.scope,
            )
        } by {
            if i < h.len() {
                assert(r[i].at == h[i].at);
            }
        }
        assert forall|k: int|
            0 <= k < v.len() && s.memories[(#[trigger] v[k]).at].lifecycle == "superseded"@
                && credit_due(s, v[k], type_, scope) implies holds_id(
            s,
            r,
            resolved(s, s.memories[v[k].at].id)->Ok_0.last(),
            v[k].cosine,
        ) by {
            if k < init.len() {
                assert(init[k] == v[k]);
                lemma_holds_stronger(
                    s,
                    h,
                    r,
                    resolved(s, s.memories[v[k].at].id)->Ok_0.last(),
                    v[k].cosine,
                );
            }
        }
        assert forall|i: int| 0 <= i < r.len() implies strength_has_a_source(
            heads,
            v,
            #[trigger] r[i],
        ) by {
            if i < h.len() && r[i] == h[i] {
                assert(strength_has_a_source(heads, init, h[i]));
                if exists|k: int| 0 <= k < init.len() && (#[trigger] init[k]).cosine == h[i].cosine {
                    let k = choose|k: int|
                        0 <= k < init.len() && (#[trigger] init[k]).cosine == h[i].cosine;
                    assert(v[k].cosine == r[i].cosine);
                }
            } else if old {
                assert(v[v.len() - 1] == m);
            }
        }
    }
}

/// Whether a superseded match has a memory to credit: its chain ends at one in
/// force that is asked for.
pub open spec fn credit_due(s: StoreV, m: ScoredV, type_: TypeV, scope: ScopeV) -> bool {
    let r = resolved(s, s.memories[m.at].id);
    r is Ok && r->Ok_0.len() > 0 && {
        let head = s.get(r->Ok_0.last());
        head is Some && head->0.is_active && head->0.lifecycle == "active"@ && type_asked(
            type_,
            head->0.type_,
        ) && scope_asked(scope, head->0.scope)
    }
}

/// Whether a hit is as strong as something that matched: it is one of the hits
/// that stood, it has the strength of a match, or it has none.
pub open spec fn strength_has_a_source(heads: Seq<ScoredV>, v: Seq<ScoredV>, h: ScoredV) -> bool {
    ||| heads.contains(h)
    ||| exists|k: int| 0 <= k < v.len() && (#[trigger] v[k]).cosine == h.cosine
    ||| h.cosine.key == 0
}

/// What a recall returns is active: where every match is, everything that is
/// weighed is; and under crediting nothing superseded is among it.
pub proof fn law_recall_returns_what_is_active(
    s: StoreV,
    v: Seq<ScoredV>,
    credit: bool,
    type_: TypeV,
    scope: ScopeV,
)
    requires
        in_store(s, v),
        all_active(s, v),
    ensures
        all_active(s, weighed_of(s, v, credit, type_, scope)),
        credit ==> forall|i: int|
            0 <= i < weighed_of(s, v, credit, type_, scope).len()
                ==> s.memories[(#[trigger] weighed_of(s, v, credit, type_, scope)[i]).at].lifecycle
                != "superseded"@,
        !credit ==> weighed_of(s, v, credit, type_, scope) == v,
{
    reveal_strlit("active");
    reveal_strlit("superseded");
    assert("active"@.len() == 6 && "superseded"@.len() == 10);
    let a = standing(s, v);
    lemma_standing_among(s, v);
    assert forall|i: int| 0 <= i < a.len() implies 0 <= (#[trigger] a[i]).at < s.memories.len()
        && s.memories[a[i].at].is_active by {
        let k = choose|k: int| 0 <= k < v.len() && v[k] == a[i];
        assert(v[k] == a[i]);
    }
    lemma_credit_list(s, a, v, type_, scope);
    let w = heads_of(s, v, type_, scope);
    assert forall|i: int| 0 <= i < w.len() implies s.memories[(#[trigger] w[i]).at].is_active
        && s.memories[w[i].at].lifecycle != "superseded"@ by {
        if i < a.len() {
            assert(w[i].at == a[i].at);
        }
    }
}

/// Under crediting nothing that matched is lost: a match that is not superseded
/// is returned at least as strong, and the strength of a superseded one goes to
/// the memory in force that its chain ends at, where that is asked for. Nothing
/// is stronger than what matched.
pub proof fn law_credit_keeps_the_strength(
    s: StoreV,
    v: Seq<ScoredV>,
    type_: TypeV,
    scope: ScopeV,
)
    requires
        in_store(s, v),
    ensures
        ({
            let w = weighed_of(s, v, true, type_, scope);
            &&& forall|k: int|
                0 <= k < v.len() && s.memories[(#[trigger] v[k]).at].lifecycle != "superseded"@
                    ==> holds_id(s, w, s.memories[v[k].at].id, v[k].cosine)
            &&& forall|k: int|
                0 <= k < v.len() && s.memories[(#[trigger] v[k]).at].lifecycle == "superseded"@
                    && credit_due(s, v[k], type_, scope) ==> holds_id(
                    s,
                    w,
                    resolved(s, s.memories[v[k].at].id)->Ok_0.last(),
                    v[k].cosine,
                )
            &&& forall|i: int|
                0 <= i < w.len() ==> (#[trigger] w[i]).cosine.key == 0 || exists|k: int|
                    0 <= k < v.len() && (#[trigger] v[k]).cosine == w[i].cosine
        }),
{
    let a = standing(s, v);
    let w = weighed_of(s, v, true, type_, scope);
    lemma_standing_among(s, v);
    assert forall|i: int| 0 <= i < a.len() implies 0 <= (#[trigger] a[i]).at < s.memories.len() by {
        let k = choose|k: int| 0 <= k < v.len() && v[k] == a[i];
        assert(v[k] == a[i]);
    }
    lemma_credit_list(s, a, v, type_, scope);
    assert forall|k: int|
        0 <= k < v.len() && s.memories[(#[trigger] v[k]).at].lifecycle
            != "superseded"@ implies holds_id(s, w, s.memories[v[k].at].id, v[k].cosine) by {
        assert(a.contains(v[k]));
        let i = choose|i: int| 0 <= i < a.len() && a[i] == v[k];
        assert(s.memories[a[i].at].id == s.memories[v[k].at].id);
        lemma_holds_stronger(s, a, w, s.memories[v[k].at].id, v[k].cosine);
    }
    assert forall|i: int| 0 <= i < w.len() implies (#[trigger] w[i]).cosine.key == 0 || exists|
        k: int,
    | 0 <= k < v.len() && (#[trigger] v[k]).cosine == w[i].cosine by {
        assert(strength_has_a_source(a, v, w[i]));
        if a.contains(w[i]) {
            let j = choose|j: int| 0 <= j < a.len() && a[j] == w[i];
            assert(v.contains(a[j]));
            let k = choose|k: int| 0 <= k < v.len() && v[k] == a[j];
            assert(v[k].cosine == w[i].cosine);
        }
    }
}

/// Whether a score reaches a floor, where there is one.
pub open spec fn reaches(score: Rank, floor: Option<Rank>) -> bool {
    match floor {
        Some(f) => score.key >= f.key,
        None => true,
    }
}

/// The positions that reach a floor, in order.
proof fn lemma_above_floor(scores: Seq<Rank>, floor: Option<Rank>)
    ensures
        above_floor(scores, floor).len() <= scores.len(),
        forall|k: int|
            0 <= k < above_floor(scores, floor).len() ==> 0 <= (#[trigger] above_floor(
                scores,
                floor,
            )[k]) < scores.len() && (floor is Some ==> scores[above_floor(scores, floor)[k]].key
                >= floor->0.key),
        forall|x: int|
            0 <= x < scores.len() && reaches(#[trigger] scores[x], floor)
                ==> above_floor(scores, floor).contains(x),
        forall|j: int, k: int|
            0 <= j < k < above_floor(scores, floor).len() ==> (#[trigger] above_floor(
                scores,
                floor,
            )[j]) < (#[trigger] above_floor(scores, floor)[k]),
    decreases scores.len(),
{
    if scores.len() > 0 {
        let prev = scores.drop_last();
        lemma_above_floor(prev, floor);
        let init = above_floor(prev, floor);
        let at = above_floor(scores, floor);
        assert forall|k: int| 0 <= k < at.len() implies 0 <= (#[trigger] at[k]) < scores.len() && (
        floor is Some ==> scores[at[k]].key >= floor->0.key) by {
            if k < init.len() {
                assert(at[k] == init[k]);
                assert(prev[init[k]] == scores[init[k]]);
            }
        }
        assert forall|x: int|
            0 <= x < scores.len() && reaches(#[trigger] scores[x], floor) implies at.contains(x) by {
            if x < prev.len() {
                assert(prev[x] == scores[x]);
                let k = choose|k: int| 0 <= k < init.len() && init[k] == x;
                assert(at[k] == x);
            } else {
                assert(at[at.len() - 1] == x);
            }
        }
        assert forall|j: int, k: int| 0 <= j < k < at.len() implies (#[trigger] at[j]) < (
        #[trigger] at[k]) by {
            assert(at[j] == init[j]);
            if k < init.len() {
                assert(at[k] == init[k]);
            }
        }
    }
}

/// The hits that a recall keeps reach the floor, come the best first and each
/// once, and none that reaches the floor is left out for a worse one; where there
/// is room all that reach it are kept.
pub proof fn law_hits_are_the_best(scores: Seq<Rank>, floor: Option<Rank>, limit: nat)
    requires
        scores.len() <= usize::MAX,
    ensures
        ({
            let r = top_scores(scores, floor, limit);
            &&& r.len() <= limit
            &&& forall|i: int|
                0 <= i < r.len() ==> 0 <= (#[trigger] r[i]) < scores.len() && (floor is Some
                    ==> scores[r[i]].key >= floor->0.key)
            &&& forall|i: int, j: int|
                0 <= i < j < r.len() ==> (#[trigger] r[i]) != (#[trigger] r[j]) && (
                scores[r[i]].key > scores[r[j]].key || (scores[r[i]].key == scores[r[j]].key && r[i]
                    < r[j]))
            &&& forall|x: int|
                0 <= x < scores.len() && reaches(#[trigger] scores[x], floor) && !r.contains(x) ==> r.len() == limit && forall|i: int|
                    0 <= i < r.len() ==> scores[#[trigger] r[i]].key >= scores[x].key
        }),
{
    let at = above_floor(scores, floor);
    let keys = score_keys(scores, at);
    let r = top_scores(scores, floor, limit);
    lemma_above_floor(scores, floor);
    law_order_is_largest_first(keys);
    let p = ordered(keys);
    assert forall|i: int| 0 <= i < r.len() implies p[i] < at.len() && #[trigger] r[i]
        == at[p[i] as int] && keys[p[i] as int] == (scores[r[i]].key, 0i64) by {
        assert(p[i] < keys.len());
    }
    assert forall|i: int, j: int| 0 <= i < j < r.len() implies (#[trigger] r[i]) != (#[trigger] r[j])
        && (scores[r[i]].key > scores[r[j]].key || (scores[r[i]].key == scores[r[j]].key && r[i]
        < r[j])) by {
        assert(p[i] < keys.len() && p[j] < keys.len());
        assert(p[i] != p[j]);
        if p[i] < p[j] {
            assert(at[p[i] as int] < at[p[j] as int]);
        } else {
            assert(at[p[j] as int] < at[p[i] as int]);
        }
    }
    assert forall|x: int|
        0 <= x < scores.len() && reaches(#[trigger] scores[x], floor)
            && !r.contains(x) implies r.len() == limit && forall|i: int|
        0 <= i < r.len() ==> scores[#[trigger] r[i]].key >= scores[x].key by {
        let k = choose|k: int| 0 <= k < at.len() && at[k] == x;
        assert(p.contains(k as usize));
        let j = choose|j: int| 0 <= j < p.len() && p[j] == k as usize;
        if j < r.len() {
            assert(r[j] == x);
        }
        assert forall|i: int| 0 <= i < r.len() implies scores[#[trigger] r[i]].key
            >= scores[x].key by {
            assert(p[i] < keys.len());
            assert(keys[p[j] as int] == (scores[x].key, 0i64));
        }
    }
}

/// What asks for some tags and for nothing else.
pub open spec fn tagged(tags: Seq<Seq<char>>) -> KxFiltersV {
    KxFiltersV { tags, from: None, to_exclusive: None }
}

/// A memory is within two lists of tags exactly where it is within each, and
/// within one tag exactly where it carries it.
pub proof fn law_every_tag_is_asked_for(
    m: MemoryV,
    a: Seq<Seq<char>>,
    b: Seq<Seq<char>>,
    tag: Seq<char>,
)
    ensures
        within(m, tagged(a + b)) <==> within(m, tagged(a)) && within(m, tagged(b)),
        within(m, tagged(seq![tag])) <==> carries_tag(m.tags, tag),
        within(m, tagged(Seq::empty())),
{
    let ab = a + b;
    if within(m, tagged(ab)) {
        assert forall|i: int| 0 <= i < a.len() implies carries_tag(m.tags, #[trigger] a[i]) by {
            assert(tagged(ab).tags[i] == a[i]);
        }
        assert forall|i: int| 0 <= i < b.len() implies carries_tag(m.tags, #[trigger] b[i]) by {
            assert(tagged(ab).tags[a.len() + i] == b[i]);
        }
    }
    if within(m, tagged(a)) && within(m, tagged(b)) {
        assert forall|i: int| 0 <= i < ab.len() implies carries_tag(m.tags, #[trigger] ab[i]) by {
            if i < a.len() {
                assert(tagged(a).tags[i] == ab[i]);
            } else {
                assert(tagged(b).tags[i - a.len()] == ab[i]);
            }
        }
    }
    assert(tagged(seq![tag]).tags[0] == tag);
}

/// A memory carries a tag only where the tag is one of the entries of its list, in
/// whatever case.
pub proof fn law_tag_is_a_whole_entry(tags: Seq<char>, tag: Seq<char>)
    requires
        tag.len() > 0,
        !ascii_lower(tag).contains(','),
    ensures
        carries_tag(tags, tag) ==> listed(split_on(ascii_lower(tags), ','), ascii_lower(tag)),
{
    reveal_strlit(",");
    assert(","@ =~= seq![',']);
    let s = ascii_lower(tags);
    let t = ascii_lower(tag);
    let big = ","@ + tags + ","@;
    let part = ","@ + tag + ","@;
    let padded = (seq![','] + s).push(',');
    assert(ascii_lower(big) =~= padded);
    assert(ascii_lower(part) =~= (seq![','] + t).push(','));
    if carries_tag(tags, tag) {
        let p = ascii_lower(part);
        let i = choose|i: int| occurs_at(padded, p, i);
        let x = padded.take(i);
        let y = padded.skip(i + p.len());
        assert(padded =~= x + p + y);
        let e = Seq::<char>::empty();
        assert(padded =~= e.push(',') + s.push(','));
        assert(s.push(',') =~= s.push(',') + e);
        law_split_at_the_separator(e, s.push(','), ',');
        law_split_at_the_separator(s, e, ',');
        law_split_at_the_separator(e, e, ',');
        assert(!e.contains(','));
        let whole = split_on(padded, ',');
        let mid = split_on(s, ',');
        assert(whole =~= seq![e] + (mid + seq![e]));
        assert(padded =~= x.push(',') + (t.push(',') + y));
        law_split_at_the_separator(x, t.push(',') + y, ',');
        law_split_at_the_separator(t, y, ',');
        let k = split_on(x, ',').len() as int;
        assert(whole =~= split_on(x, ',') + (seq![t] + split_on(y, ',')));
        assert(whole[k] == t);
        assert(t.len() > 0);
        if k == 0 {
            assert(whole[0] == e);
        } else if k == whole.len() - 1 {
            assert(whole[whole.len() - 1] == e);
        }
        assert(mid[k - 1] == t);
    }
}

/// A memory carries every tag of its list, in whatever case it is asked for.
pub proof fn law_listed_tag_is_carried(
    a: Seq<char>,
    tag: Seq<char>,
    b: Seq<char>,
    asked: Seq<char>,
)
    requires
        ascii_lower(asked) == ascii_lower(tag),
    ensures
        carries_tag(tag, asked),
        carries_tag(tag + ","@ + b, asked),
        carries_tag(a + ","@ + tag, asked),
        carries_tag(a + ","@ + tag + ","@ + b, asked),
{
    reveal_strlit(",");
    assert(","@ =~= seq![',']);
    let p = ascii_lower(","@ + asked + ","@);
    let t = ascii_lower(","@ + tag + ","@);
    assert(p =~= (seq![','] + ascii_lower(asked)).push(','));
    assert(t =~= (seq![','] + ascii_lower(tag)).push(','));
    let one = ascii_lower(","@ + tag + ","@);
    assert(one.subrange(0, p.len() as int) =~= p);
    assert(occurs_at(one, p, 0));
    let two = ascii_lower(","@ + (tag + ","@ + b) + ","@);
    assert(two.subrange(0, p.len() as int) =~= t);
    assert(occurs_at(two, p, 0));
    let n = a.len() as int + 1;
    let three = ascii_lower(","@ + (a + ","@ + tag) + ","@);
    assert(three.subrange(n, n + p.len()) =~= t);
    assert(occurs_at(three, p, n));
    let four = ascii_lower(","@ + (a + ","@ + tag + ","@ + b) + ","@);
    assert(four.subrange(n, n + p.len()) =~= t);
    assert(occurs_at(four, p, n));
}

/// A scope asked for by name lets through what has that scope and what is shared;
/// no name, an empty one or a star lets everything through.
pub proof fn law_scope_by_its_name(name: Option<Seq<char>>, s: Seq<char>)
    ensures
        scope_asked(scope_filter(name), s) <==> name is None || name->0.len() == 0 || name->0
            == "*"@ || s == "shared"@ || s == name->0,
{
    if name is Some && name->0.len() > 0 && name->0 != "*"@ {
        let f = scope_filter(name);
        if name->0 == "shared"@ {
            let v = seq!["shared"@];
            assert(v[0] == "shared"@);
            assert(v.contains("shared"@));
        } else {
            let v = seq![name->0, "shared"@];
            assert(v[0] == name->0 && v[1] == "shared"@);
            assert(v.contains("shared"@) && v.contains(name->0));
        }
    }
}

} // verus!
