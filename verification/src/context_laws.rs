//! What decides which memories a session is given: how terms add up to a weight,
//! and what the order by weight, by score or by age leaves out.
use crate::context::{
    best, heaviest, kernel_members, kernel_of, match_keys, match_positions, topic_weight,
};
use crate::edit::in_kernel;
use crate::query::{admitted, by_type, keys_at, selected, QueryV};
use crate::rows::MemoryV;
use crate::sort::{lemma_order_exists, ordered, placed};
use crate::sql::ScopeV;
use crate::store::{Rank, StoreV, TopicV};
use crate::text::listed;
use crate::tokens::{bumped, bumped_all, cwd_terms, memory_terms, tokens, Weights};
use vstd::prelude::*;

verus! {

/// A weight as a number: none counts as nothing.
pub open spec fn amount(w: Option<int>) -> int {
    match w {
        Some(n) => n,
        None => 0,
    }
}

/// A weight lies between nothing and the largest number.
proof fn lemma_weight_bounds(ts: Seq<TopicV>, id: Seq<char>, terms: Seq<Seq<char>>)
    ensures
        0 <= amount(topic_weight(ts, id, terms)) <= i64::MAX,
    decreases ts.len(),
{
    if ts.len() > 0 {
        lemma_weight_bounds(ts.drop_last(), id, terms);
    }
}

/// Weights add up: the weight of a memory over two lists of index entries is the
/// sum of its weights over each, up to the largest number, and it matches where
/// it matches one of them.
pub proof fn law_weights_add_up(
    a: Seq<TopicV>,
    b: Seq<TopicV>,
    id: Seq<char>,
    terms: Seq<Seq<char>>,
)
    ensures
        ({
            let x = amount(topic_weight(a, id, terms));
            let y = amount(topic_weight(b, id, terms));
            amount(topic_weight(a + b, id, terms)) == (if x + y <= i64::MAX {
                x + y
            } else {
                i64::MAX as int
            })
        }),
        topic_weight(a + b, id, terms) is Some <==> topic_weight(a, id, terms) is Some
            || topic_weight(b, id, terms) is Some,
    decreases b.len(),
{
    lemma_weight_bounds(a, id, terms);
    if b.len() == 0 {
        assert(a + b =~= a);
    } else {
        law_weights_add_up(a, b.drop_last(), id, terms);
        lemma_weight_bounds(b.drop_last(), id, terms);
        assert((a + b).drop_last() =~= a + b.drop_last());
        assert((a + b).last() == b.last());
    }
}

/// One more index entry adds its own weight to the memory it belongs to where
/// its term is asked for, and changes nothing for any other memory or term.
pub proof fn law_one_more_entry_adds_its_weight(
    ts: Seq<TopicV>,
    t: TopicV,
    id: Seq<char>,
    terms: Seq<Seq<char>>,
)
    ensures
        t.memory_id == id && terms.contains(t.term) ==> {
            let n = amount(topic_weight(ts, id, terms)) + t.weight;
            topic_weight(ts.push(t), id, terms) == Some(
                if n <= i64::MAX {
                    n
                } else {
                    i64::MAX as int
                },
            )
        },
        t.memory_id != id || !terms.contains(t.term) ==> topic_weight(ts.push(t), id, terms)
            == topic_weight(ts, id, terms),
{
    assert(ts.push(t).drop_last() =~= ts);
    assert(listed(terms, t.term) == terms.contains(t.term)) by {
        if terms.contains(t.term) {
            let k = choose|k: int| 0 <= k < terms.len() && terms[k] == t.term;
            assert(terms[k] == t.term);
        }
    }
}

/// A memory matches some terms exactly where one of its index entries has one of
/// them.
pub proof fn law_match_has_an_entry(ts: Seq<TopicV>, id: Seq<char>, terms: Seq<Seq<char>>)
    ensures
        topic_weight(ts, id, terms) is Some <==> exists|i: int|
            0 <= i < ts.len() && (#[trigger] ts[i]).memory_id == id && terms.contains(ts[i].term),
    decreases ts.len(),
{
    if ts.len() > 0 {
        let init = ts.drop_last();
        law_match_has_an_entry(init, id, terms);
        law_one_more_entry_adds_its_weight(init, ts.last(), id, terms);
        assert(init.push(ts.last()) =~= ts);
        if topic_weight(ts, id, terms) is Some {
            if topic_weight(init, id, terms) is Some {
                let i = choose|i: int|
                    0 <= i < init.len() && (#[trigger] init[i]).memory_id == id && terms.contains(
                        init[i].term,
                    );
                assert(ts[i] == init[i]);
            } else {
                assert(ts[ts.len() - 1].memory_id == id);
            }
        }
        if exists|i: int|
            0 <= i < ts.len() && (#[trigger] ts[i]).memory_id == id && terms.contains(
                ts[i].term,
            ) {
            let i = choose|i: int|
                0 <= i < ts.len() && (#[trigger] ts[i]).memory_id == id && terms.contains(
                    ts[i].term,
                );
            if i < init.len() {
                assert(init[i] == ts[i]);
            }
        }
    }
}

/// More terms never make a memory weigh less.
pub proof fn law_more_terms_weigh_no_less(
    ts: Seq<TopicV>,
    id: Seq<char>,
    few: Seq<Seq<char>>,
    many: Seq<Seq<char>>,
)
    requires
        forall|x: Seq<char>| #[trigger] few.contains(x) ==> many.contains(x),
    ensures
        amount(topic_weight(ts, id, few)) <= amount(topic_weight(ts, id, many)),
    decreases ts.len(),
{
    if ts.len() > 0 {
        let init = ts.drop_last();
        law_more_terms_weigh_no_less(init, id, few, many);
        law_one_more_entry_adds_its_weight(init, ts.last(), id, few);
        law_one_more_entry_adds_its_weight(init, ts.last(), id, many);
        lemma_weight_bounds(init, id, few);
        lemma_weight_bounds(init, id, many);
        assert(init.push(ts.last()) =~= ts);
    }
}

/// An order by keys lists every position once, the larger key first, and of
/// equal keys the one that stands first.
pub proof fn law_order_is_largest_first(keys: Seq<(i64, i64)>)
    requires
        keys.len() <= usize::MAX,
    ensures
        ordered(keys).len() == keys.len(),
        forall|i: int|
            0 <= i < keys.len() ==> (#[trigger] ordered(keys)[i]) < keys.len(),
        forall|x: int| 0 <= x < keys.len() ==> ordered(keys).contains(#[trigger] (x as usize)),
        forall|i: int, j: int|
            0 <= i < j < keys.len() ==> {
                let a = keys[(#[trigger] ordered(keys)[i]) as int];
                let b = keys[(#[trigger] ordered(keys)[j]) as int];
                a.0 > b.0 || (a.0 == b.0 && a.1 > b.1) || (a == b && ordered(keys)[i]
                    < ordered(keys)[j])
            },
{
    lemma_order_exists(keys);
    let p = ordered(keys);
    assert forall|x: int| 0 <= x < keys.len() implies p.contains(#[trigger] (x as usize)) by {
        assert(placed(p, x));
        let i = choose|i: int| 0 <= i < p.len() && #[trigger] p[i] == x;
        assert(p[i] == x as usize);
    }
    assert forall|i: int, j: int| 0 <= i < j < keys.len() implies {
        let a = keys[(#[trigger] p[i]) as int];
        let b = keys[(#[trigger] p[j]) as int];
        a.0 > b.0 || (a.0 == b.0 && a.1 > b.1) || (a == b && p[i] < p[j])
    } by {
        assert(crate::sort::ahead(keys, p[i] as int, p[j] as int));
    }
}

/// A position found in an order that is cut off is among the first, or its key
/// is no larger than any among them.
proof fn lemma_cut(keys: Seq<(i64, i64)>, n: int, x: int)
    requires
        keys.len() <= usize::MAX,
        0 <= n <= keys.len(),
        0 <= x < keys.len(),
    ensures
        (exists|i: int| 0 <= i < n && #[trigger] ordered(keys)[i] == x) || forall|i: int|
            0 <= i < n ==> {
                let a = keys[(#[trigger] ordered(keys)[i]) as int];
                a.0 > keys[x].0 || (a.0 == keys[x].0 && a.1 >= keys[x].1)
            },
{
    law_order_is_largest_first(keys);
    let p = ordered(keys);
    assert(p.contains(x as usize));
    let j = choose|j: int| 0 <= j < p.len() && p[j] == x as usize;
    if j >= n {
        assert forall|i: int| 0 <= i < n implies {
            let a = keys[(#[trigger] p[i]) as int];
            a.0 > keys[x].0 || (a.0 == keys[x].0 && a.1 >= keys[x].1)
        } by {
            assert(p[j] == x);
        }
    } else {
        assert(p[j] == x);
    }
}

/// The best of some scores: each a position, each once, as many as wanted, the
/// higher score first and the earlier of equal ones; and none is left out that
/// scores higher than one that is in.
pub proof fn law_best_are_the_highest(scores: Seq<Rank>, limit: nat)
    requires
        scores.len() <= usize::MAX,
    ensures
        best(scores, limit).len() == (if limit < scores.len() {
            limit
        } else {
            scores.len()
        }),
        forall|i: int|
            0 <= i < best(scores, limit).len() ==> (#[trigger] best(scores, limit)[i])
                < scores.len(),
        forall|i: int, j: int|
            0 <= i < j < best(scores, limit).len() ==> {
                let a = #[trigger] best(scores, limit)[i];
                let b = #[trigger] best(scores, limit)[j];
                a != b && (scores[a as int].key > scores[b as int].key || (scores[a as int].key
                    == scores[b as int].key && a < b))
            },
        forall|x: int, i: int|
            0 <= x < scores.len() && 0 <= i < best(scores, limit).len() && !best(
                scores,
                limit,
            ).contains(#[trigger] (x as usize)) ==> scores[x].key <= scores[(#[trigger] best(
                scores,
                limit,
            )[i]) as int].key,
{
    let keys = scores.map_values(|k: Rank| (k.key, 0i64));
    law_order_is_largest_first(keys);
    let b = best(scores, limit);
    let p = ordered(keys);
    assert forall|i: int| 0 <= i < b.len() implies b[i] == p[i] by {}
    assert forall|i: int, j: int| 0 <= i < j < b.len() implies {
        let x = #[trigger] b[i];
        let y = #[trigger] b[j];
        x != y && (scores[x as int].key > scores[y as int].key || (scores[x as int].key
            == scores[y as int].key && x < y))
    } by {
        assert(b[i] == p[i] && b[j] == p[j]);
        assert(p[i] < keys.len() && p[j] < keys.len());
        assert(keys[p[i] as int] == (scores[p[i] as int].key, 0i64));
        assert(keys[p[j] as int] == (scores[p[j] as int].key, 0i64));
    }
    assert forall|x: int, i: int|
        0 <= x < scores.len() && 0 <= i < b.len() && !b.contains(#[trigger] (x as usize)) implies
        scores[x].key <= scores[(#[trigger] b[i]) as int].key by {
        lemma_cut(keys, b.len() as int, x);
        if exists|k: int| 0 <= k < b.len() && #[trigger] p[k] == x {
            let k = choose|k: int| 0 <= k < b.len() && #[trigger] p[k] == x;
            assert(b[k] == x as usize);
        }
        assert(b[i] == p[i]);
        assert(p[i] < keys.len());
        assert(keys[p[i] as int] == (scores[p[i] as int].key, 0i64));
        assert(keys[x] == (scores[x].key, 0i64));
    }
}

/// The matches of some terms are the memories in force of the type and scope
/// that have an index entry among them, each once and in stored order.
pub proof fn law_matches_are_in_force(
    s: StoreV,
    type_: Seq<char>,
    scope: ScopeV,
    terms: Seq<Seq<char>>,
    n: nat,
)
    requires
        n <= s.memories.len(),
    ensures
        ({
            let at = match_positions(s, type_, scope, terms, n);
            &&& at.len() <= n
            &&& forall|k: int|
                0 <= k < at.len() ==> 0 <= (#[trigger] at[k]) < n && s.memories[at[k]].is_active
                    && s.memories[at[k]].lifecycle == "active"@ && s.memories[at[k]].type_ == type_
                    && scope.admits(s.memories[at[k]].scope) && topic_weight(
                    s.topics,
                    s.memories[at[k]].id,
                    terms,
                ) is Some
            &&& forall|j: int, k: int|
                0 <= j < k < at.len() ==> (#[trigger] at[j]) < (#[trigger] at[k])
            &&& forall|x: int|
                #![trigger s.memories[x]]
                0 <= x < n && s.memories[x].is_active && s.memories[x].lifecycle == "active"@
                    && s.memories[x].type_ == type_ && scope.admits(s.memories[x].scope)
                    && topic_weight(s.topics, s.memories[x].id, terms) is Some ==> at.contains(x)
        }),
    decreases n,
{
    if n > 0 {
        law_matches_are_in_force(s, type_, scope, terms, (n - 1) as nat);
        let init = match_positions(s, type_, scope, terms, (n - 1) as nat);
        let at = match_positions(s, type_, scope, terms, n);
        assert forall|k: int| 0 <= k < at.len() implies 0 <= (#[trigger] at[k]) < n
            && s.memories[at[k]].is_active && s.memories[at[k]].lifecycle == "active"@
            && s.memories[at[k]].type_ == type_ && scope.admits(s.memories[at[k]].scope)
            && topic_weight(s.topics, s.memories[at[k]].id, terms) is Some by {
            if k < init.len() {
                assert(at[k] == init[k]);
            }
        }
        assert forall|j: int, k: int| 0 <= j < k < at.len() implies (#[trigger] at[j]) < (
        #[trigger] at[k]) by {
            assert(at[j] == init[j]);
            if k < init.len() {
                assert(at[k] == init[k]);
            }
        }
        assert forall|x: int|
            #![trigger s.memories[x]]
            0 <= x < n && s.memories[x].is_active && s.memories[x].lifecycle == "active"@
                && s.memories[x].type_ == type_ && scope.admits(s.memories[x].scope)
                && topic_weight(s.topics, s.memories[x].id, terms) is Some implies at.contains(
            x,
        ) by {
            if x < n - 1 {
                assert(init.contains(x));
                let k = choose|k: int| 0 <= k < init.len() && init[k] == x;
                assert(at[k] == x);
            } else {
                assert(at[at.len() - 1] == x);
            }
        }
    }
}

/// The heaviest matches come heaviest first and none is left out that weighs
/// more than one that is in; there are four for each that is wanted, or all.
pub proof fn law_heaviest_come_first(
    s: StoreV,
    type_: Seq<char>,
    scope: ScopeV,
    terms: Seq<Seq<char>>,
    limit: nat,
)
    requires
        s.memories.len() <= usize::MAX,
    ensures
        ({
            let h = heaviest(s, type_, scope, terms, limit);
            let all = match_positions(s, type_, scope, terms, s.memories.len());
            &&& h.len() == (if 4 * limit < all.len() {
                4 * limit
            } else {
                all.len()
            })
            &&& forall|i: int| 0 <= i < h.len() ==> all.contains(#[trigger] h[i])
            &&& forall|i: int, j: int|
                0 <= i < j < h.len() ==> (#[trigger] h[i]) != (#[trigger] h[j]) && topic_weight(
                    s.topics,
                    s.memories[h[i]].id,
                    terms,
                )->0 >= topic_weight(s.topics, s.memories[h[j]].id, terms)->0
            &&& forall|x: int, i: int|
                all.contains(x) && !(#[trigger] h.contains(x)) && 0 <= i < h.len() ==> topic_weight(
                    s.topics,
                    s.memories[#[trigger] h[i]].id,
                    terms,
                )->0 >= topic_weight(s.topics, s.memories[x].id, terms)->0
        }),
{
    let all = match_positions(s, type_, scope, terms, s.memories.len());
    let keys = match_keys(s, all, terms);
    let h = heaviest(s, type_, scope, terms, limit);
    law_matches_are_in_force(s, type_, scope, terms, s.memories.len());
    law_order_is_largest_first(keys);
    let p = ordered(keys);
    assert forall|k: int| 0 <= k < all.len() implies (#[trigger] keys[k]).1 == 0 && keys[k].0
        == topic_weight(s.topics, s.memories[all[k]].id, terms)->0 by {
        lemma_weight_bounds(s.topics, s.memories[all[k]].id, terms);
    }
    assert forall|i: int| 0 <= i < h.len() implies all.contains(#[trigger] h[i]) && h[i]
        == all[p[i] as int] && p[i] < keys.len() by {
        assert(p[i] < keys.len());
        assert(all[p[i] as int] == h[i]);
    }
    assert forall|i: int, j: int| 0 <= i < j < h.len() implies (#[trigger] h[i]) != (
    #[trigger] h[j]) && topic_weight(s.topics, s.memories[h[i]].id, terms)->0 >= topic_weight(
        s.topics,
        s.memories[h[j]].id,
        terms,
    )->0 by {
        assert(p[i] != p[j]);
        if p[i] < p[j] {
            assert(all[p[i] as int] < all[p[j] as int]);
        } else {
            assert(all[p[j] as int] < all[p[i] as int]);
        }
        assert(keys[p[i] as int].0 >= keys[p[j] as int].0);
    }
    assert forall|x: int, i: int|
        all.contains(x) && !(#[trigger] h.contains(x)) && 0 <= i < h.len() implies topic_weight(
        s.topics,
        s.memories[#[trigger] h[i]].id,
        terms,
    )->0 >= topic_weight(s.topics, s.memories[x].id, terms)->0 by {
        let k = choose|k: int| 0 <= k < all.len() && all[k] == x;
        lemma_cut(keys, h.len() as int, k);
        if exists|q: int| 0 <= q < h.len() && #[trigger] p[q] == k {
            let q = choose|q: int| 0 <= q < h.len() && #[trigger] p[q] == k;
            assert(h[q] == x);
        }
        assert(p[i] < keys.len());
        assert(keys[p[i] as int].0 >= keys[k].0);
    }
}

/// What some weighted terms give a term in all.
pub open spec fn weight_in(ws: Weights, t: Seq<char>) -> int
    decreases ws.len(),
{
    if ws.len() == 0 {
        0
    } else {
        weight_in(ws.drop_last(), t) + (if ws.last().0 == t {
            ws.last().1 as int
        } else {
            0
        })
    }
}

/// Whether no term stands twice among weighted terms.
pub open spec fn terms_once(ws: Weights) -> bool {
    forall|i: int, j: int| 0 <= i < j < ws.len() ==> (#[trigger] ws[i]).0 != (#[trigger] ws[j]).0
}

/// The smaller of a sum and the largest number.
pub open spec fn up_to_max(n: int) -> int {
    if n <= u64::MAX {
        n
    } else {
        u64::MAX as int
    }
}

/// A term that stands nowhere weighs nothing.
proof fn lemma_absent_weighs_nothing(ws: Weights, t: Seq<char>)
    requires
        forall|i: int| 0 <= i < ws.len() ==> (#[trigger] ws[i]).0 != t,
    ensures
        weight_in(ws, t) == 0,
    decreases ws.len(),
{
    if ws.len() > 0 {
        let init = ws.drop_last();
        assert forall|i: int| 0 <= i < init.len() implies (#[trigger] init[i]).0 != t by {
            assert(init[i] == ws[i]);
        }
        lemma_absent_weighs_nothing(init, t);
        assert(ws[ws.len() - 1].0 != t);
    }
}

/// A weight among terms that stand once is at most the largest number.
proof fn lemma_weight_in_bounds(ws: Weights, t: Seq<char>)
    requires
        terms_once(ws),
    ensures
        0 <= weight_in(ws, t) <= u64::MAX,
    decreases ws.len(),
{
    if ws.len() > 0 {
        let init = ws.drop_last();
        assert(terms_once(init));
        lemma_weight_in_bounds(init, t);
        if ws.last().0 == t {
            assert forall|i: int| 0 <= i < init.len() implies (#[trigger] init[i]).0 != t by {
                assert(ws[i].0 != ws[ws.len() - 1].0);
            }
            lemma_absent_weighs_nothing(init, t);
        }
    }
}

/// One more weight for a term adds to that term alone.
proof fn lemma_bumped(ws: Weights, term: Seq<char>, w: u64, t: Seq<char>)
    requires
        terms_once(ws),
    ensures
        terms_once(bumped(ws, term, w)),
        forall|i: int|
            0 <= i < bumped(ws, term, w).len() ==> (#[trigger] bumped(ws, term, w)[i]).0 == term
                || exists|k: int| 0 <= k < ws.len() && (#[trigger] ws[k]).0 == bumped(
                ws,
                term,
                w,
            )[i].0,
        weight_in(bumped(ws, term, w), t) == (if t == term {
            up_to_max(weight_in(ws, t) + w)
        } else {
            weight_in(ws, t)
        }),
    decreases ws.len(),
{
    let r = bumped(ws, term, w);
    if ws.len() == 0 {
        assert(r.drop_last() =~= Seq::empty());
        assert(weight_in(r.drop_last(), t) == 0);
    } else {
        let init = ws.drop_last();
        assert(terms_once(init));
        if ws.last().0 == term {
            assert(r.drop_last() =~= init);
            assert forall|i: int| 0 <= i < init.len() implies (#[trigger] init[i]).0 != term by {
                assert(ws[i].0 != ws[ws.len() - 1].0);
            }
            lemma_absent_weighs_nothing(init, term);
            assert forall|i: int| 0 <= i < r.len() implies (#[trigger] r[i]).0 == term
                || exists|k: int| 0 <= k < ws.len() && (#[trigger] ws[k]).0 == r[i].0 by {
                if i < init.len() {
                    assert(ws[i].0 == r[i].0);
                }
            }
            assert forall|i: int, j: int| 0 <= i < j < r.len() implies (#[trigger] r[i]).0 != (
            #[trigger] r[j]).0 by {
                assert(ws[i].0 != ws[j].0);
                assert(r[i] == init[i]);
            }
        } else {
            lemma_bumped(init, term, w, t);
            let b = bumped(init, term, w);
            assert(r.drop_last() =~= b);
            assert forall|i: int| 0 <= i < r.len() implies (#[trigger] r[i]).0 == term
                || exists|k: int| 0 <= k < ws.len() && (#[trigger] ws[k]).0 == r[i].0 by {
                if i < b.len() {
                    assert(r[i] == b[i]);
                    if b[i].0 != term {
                        let k = choose|k: int|
                            0 <= k < init.len() && (#[trigger] init[k]).0 == b[i].0;
                        assert(ws[k].0 == r[i].0);
                    }
                } else {
                    assert(ws[ws.len() - 1].0 == r[i].0);
                }
            }
            assert forall|i: int, j: int| 0 <= i < j < r.len() implies (#[trigger] r[i]).0 != (
            #[trigger] r[j]).0 by {
                assert(r[i] == b[i]);
                if j < b.len() {
                    assert(r[j] == b[j]);
                } else if b[i].0 != term {
                    let k = choose|k: int| 0 <= k < init.len() && (#[trigger] init[k]).0 == b[i].0;
                    assert(ws[k].0 != ws[ws.len() - 1].0);
                }
            }
        }
    }
}

/// Weights for some terms add to each as often as it occurs.
proof fn lemma_bumped_all(ws: Weights, ts: Seq<Seq<char>>, w: u64, t: Seq<char>)
    requires
        terms_once(ws),
    ensures
        terms_once(bumped_all(ws, ts, w)),
        weight_in(bumped_all(ws, ts, w), t) == up_to_max(
            weight_in(ws, t) + w * ts.to_multiset().count(t),
        ),
    decreases ts.len(),
{
    broadcast use vstd::seq_lib::group_to_multiset_ensures;

    lemma_weight_in_bounds(ws, t);
    if ts.len() > 0 {
        let init = ts.drop_last();
        lemma_bumped_all(ws, init, w, t);
        lemma_bumped(bumped_all(ws, init, w), ts.last(), w, t);
        assert(init.push(ts.last()) =~= ts);
        let c = init.to_multiset().count(t);
        if t == ts.last() {
            assert(ts.to_multiset().count(t) == c + 1);
            assert(w * (c + 1) == w * c + w) by (nonlinear_arith);
        } else {
            assert(ts.to_multiset().count(t) == c);
        }
        assert(w * c >= 0) by (nonlinear_arith);
    } else {
        assert(ts.to_multiset().count(t) == 0);
        assert(w * 0 == 0) by (nonlinear_arith);
    }
}

/// How much a term weighs in a memory: three units for each time the tags say
/// it, two for the name and for the working directory, one and a half for the
/// description and one for the start of the content, counted in half units; and
/// no term is indexed twice.
pub proof fn law_term_weight_counts_where_it_stands(
    tags: Seq<char>,
    name: Seq<char>,
    description: Seq<char>,
    content: Seq<char>,
    cwd: Seq<char>,
    t: Seq<char>,
)
    ensures
        terms_once(memory_terms(tags, name, description, content, cwd)),
        weight_in(memory_terms(tags, name, description, content, cwd), t) == up_to_max(
            (6 * tokens(tags).to_multiset().count(t) + 4 * tokens(name).to_multiset().count(t) + 3
                * tokens(description).to_multiset().count(t) + 2 * tokens(
                crate::text::clipped(content, 300),
            ).to_multiset().count(t) + (if cwd.len() > 0 {
                4 * cwd_terms(cwd).to_multiset().count(t)
            } else {
                0
            })) as int,
        ),
{
    let a = bumped_all(Seq::empty(), tokens(tags), 6);
    let b = bumped_all(a, tokens(name), 4);
    let c = bumped_all(b, tokens(description), 3);
    let body = tokens(crate::text::clipped(content, 300));
    let d = bumped_all(c, body, 2);
    assert(weight_in(Seq::empty(), t) == 0);
    lemma_bumped_all(Seq::empty(), tokens(tags), 6, t);
    lemma_bumped_all(a, tokens(name), 4, t);
    lemma_bumped_all(b, tokens(description), 3, t);
    lemma_bumped_all(c, body, 2, t);
    if cwd.len() > 0 {
        lemma_bumped_all(d, cwd_terms(cwd), 4, t);
    }
}

/// What a question asks of a memory, part by part: a part that is not given asks
/// nothing.
pub proof fn law_question_asks_each_part(q: QueryV, m: MemoryV)
    ensures
        q.admits(m) ==> {
            &&& q.key is Some ==> m.id == q.key->0 || m.name == q.key->0
            &&& q.type_ is Some ==> m.type_ == q.type_->0
            &&& q.active_only ==> m.is_active
            &&& q.lifecycle is Some ==> m.lifecycle == q.lifecycle->0
            &&& q.scope is Only ==> q.scope->Only_0.contains(m.scope)
        },
        q.key is None && q.type_ is None && !q.active_only && q.lifecycle is None && q.scope is All
            && q.cwd_part is None && q.tag_part is None ==> q.admits(m),
        q.admits(m) ==> (QueryV { key: None, ..q }).admits(m) && (QueryV {
            type_: None,
            ..q
        }).admits(m) && (QueryV { active_only: false, ..q }).admits(m) && (QueryV {
            lifecycle: None,
            ..q
        }).admits(m) && (QueryV { scope: ScopeV::All, ..q }).admits(m) && (QueryV {
            cwd_part: None,
            ..q
        }).admits(m) && (QueryV { tag_part: None, ..q }).admits(m),
        (QueryV { key: None, ..q }).admits(m) && (q.key == Some(m.id) || q.key == Some(m.name))
            ==> q.admits(m),
        (QueryV { type_: None, ..q }).admits(m) && q.type_ == Some(m.type_) ==> q.admits(m),
        (QueryV { lifecycle: None, ..q }).admits(m) && q.lifecycle == Some(m.lifecycle)
            ==> q.admits(m),
        (QueryV { active_only: false, ..q }).admits(m) && m.is_active ==> q.admits(m),
        (QueryV { scope: ScopeV::All, ..q }).admits(m) && q.scope is Only
            && q.scope->Only_0.contains(m.scope) ==> q.admits(m),
{
    if q.scope is Only {
        let v = q.scope->Only_0;
        if v.contains(m.scope) {
            let k = choose|k: int| 0 <= k < v.len() && v[k] == m.scope;
            assert(v[k] == m.scope);
        }
    }
}

/// A session asks for the memories of a type that are active, not set aside and
/// within the scope, and for no others.
pub proof fn law_session_asks_for_what_is_in_force(type_: Seq<char>, scope: ScopeV, m: MemoryV)
    ensures
        by_type(type_, scope).admits(m) <==> m.type_ == type_ && m.is_active && m.lifecycle
            == "active"@ && (scope is Only ==> scope->Only_0.contains(m.scope)),
{
    law_question_asks_each_part(by_type(type_, scope), m);
    if scope is Only {
        let v = scope->Only_0;
        if v.contains(m.scope) {
            let k = choose|k: int| 0 <= k < v.len() && v[k] == m.scope;
            assert(v[k] == m.scope);
        }
    }
}

/// The admitted positions are those of the admitted memories, in order.
proof fn lemma_admitted_all(ms: Seq<MemoryV>, q: QueryV)
    ensures
        admitted(ms, q).len() <= ms.len(),
        forall|k: int|
            0 <= k < admitted(ms, q).len() ==> 0 <= (#[trigger] admitted(ms, q)[k]) < ms.len()
                && q.admits(ms[admitted(ms, q)[k]]),
        forall|x: int|
            0 <= x < ms.len() && q.admits(#[trigger] ms[x]) ==> admitted(ms, q).contains(x),
        forall|j: int, k: int|
            0 <= j < k < admitted(ms, q).len() ==> (#[trigger] admitted(ms, q)[j]) < (
            #[trigger] admitted(ms, q)[k]),
    decreases ms.len(),
{
    if ms.len() > 0 {
        let prev = ms.drop_last();
        lemma_admitted_all(prev, q);
        let init = admitted(prev, q);
        let at = admitted(ms, q);
        assert forall|k: int| 0 <= k < at.len() implies 0 <= (#[trigger] at[k]) < ms.len()
            && q.admits(ms[at[k]]) by {
            if k < init.len() {
                assert(at[k] == init[k]);
                assert(ms[init[k]] == prev[init[k]]);
            }
        }
        assert forall|x: int| 0 <= x < ms.len() && q.admits(#[trigger] ms[x]) implies at.contains(
            x,
        ) by {
            if x < prev.len() {
                assert(prev[x] == ms[x]);
                let k = choose|k: int| 0 <= k < init.len() && init[k] == x;
                assert(at[k] == x);
            } else {
                assert(at[at.len() - 1] == x);
            }
        }
        assert forall|j: int, k: int| 0 <= j < k < at.len() implies (#[trigger] at[j]) < (
        #[trigger] at[k]) by {
            assert(at[j] == init[j]);
            if k < init.len() {
                assert(at[k] == init[k]);
            }
        }
    }
}

/// Whether one memory comes before another when a question is answered: the one
/// with the id that was asked for first, otherwise the newer.
pub open spec fn answers_before(key: Option<Seq<char>>, a: MemoryV, b: MemoryV) -> bool {
    let x = key == Some(a.id);
    let y = key == Some(b.id);
    (x && !y) || (x == y && a.updated_at >= b.updated_at)
}

/// What answers a question comes with the asked-for id first and then the newest
/// first; nothing that would come before is left out for something behind it, and
/// nothing is left out at all where there is room.
pub proof fn law_selection_is_newest_first(ms: Seq<MemoryV>, q: QueryV, limit: nat)
    requires
        ms.len() <= usize::MAX,
    ensures
        ({
            let r = selected(ms, q, limit);
            &&& forall|i: int, j: int|
                0 <= i < j < r.len() ==> answers_before(q.key, #[trigger] r[i], #[trigger] r[j])
            &&& forall|x: int, i: int|
                0 <= x < ms.len() && q.admits(#[trigger] ms[x]) && !r.contains(ms[x]) && 0 <= i
                    < r.len() ==> answers_before(q.key, #[trigger] r[i], ms[x])
            &&& r.len() < limit ==> forall|x: int|
                0 <= x < ms.len() && q.admits(#[trigger] ms[x]) ==> r.contains(ms[x])
        }),
{
    let at = admitted(ms, q);
    let keys = keys_at(ms, at, q);
    lemma_admitted_all(ms, q);
    law_order_is_largest_first(keys);
    let p = ordered(keys);
    let r = selected(ms, q, limit);
    assert forall|i: int| 0 <= i < r.len() implies p[i] < at.len() && #[trigger] r[i]
        == ms[at[p[i] as int]] by {
        assert(p[i] < keys.len());
    }
    assert forall|i: int, j: int| 0 <= i < j < r.len() implies answers_before(
        q.key,
        #[trigger] r[i],
        #[trigger] r[j],
    ) by {
        assert(p[i] < keys.len() && p[j] < keys.len());
        let a = keys[p[i] as int];
        let b = keys[p[j] as int];
        assert(a == q.key_of(r[i]) && b == q.key_of(r[j]));
    }
    assert forall|x: int| 0 <= x < ms.len() && q.admits(#[trigger] ms[x]) implies r.contains(ms[x])
        || (r.len() == limit && forall|i: int|
        0 <= i < r.len() ==> answers_before(q.key, #[trigger] r[i], ms[x])) by {
        let k = choose|k: int| 0 <= k < at.len() && at[k] == x;
        lemma_cut(keys, r.len() as int, k);
        if exists|i: int| 0 <= i < r.len() && #[trigger] p[i] == k {
            let i = choose|i: int| 0 <= i < r.len() && #[trigger] p[i] == k;
            assert(r[i] == ms[x]);
        } else {
            if r.len() == at.len() {
                assert(p.contains(k as usize));
                let i = choose|i: int| 0 <= i < p.len() && p[i] == k as usize;
                assert(p[i] == k);
            }
            assert forall|i: int| 0 <= i < r.len() implies answers_before(
                q.key,
                #[trigger] r[i],
                ms[x],
            ) by {
                assert(p[i] < keys.len());
                assert(keys[p[i] as int] == q.key_of(r[i]));
                assert(keys[k] == q.key_of(ms[x]));
            }
        }
    }
}

/// The identity kernel leaves out no tagged memory of those it is taken from,
/// and keeps them in their order.
pub proof fn law_kernel_is_complete(ms: Seq<MemoryV>, type_: Seq<char>, scope: ScopeV, x: int)
    requires
        0 <= x < selected(ms, by_type(type_, scope), 50).len(),
        in_kernel(selected(ms, by_type(type_, scope), 50)[x].tags),
    ensures
        kernel_of(ms, type_, scope).contains(selected(ms, by_type(type_, scope), 50)[x]),
{
    lemma_kernel_keeps(selected(ms, by_type(type_, scope), 50), x);
}

/// A tagged memory stays.
proof fn lemma_kernel_keeps(ms: Seq<MemoryV>, x: int)
    requires
        0 <= x < ms.len(),
        in_kernel(ms[x].tags),
    ensures
        kernel_members(ms).contains(ms[x]),
    decreases ms.len(),
{
    let k = kernel_members(ms);
    if x == ms.len() - 1 {
        assert(k[k.len() - 1] == ms[x]);
    } else {
        let init = ms.drop_last();
        lemma_kernel_keeps(init, x);
        let j = kernel_members(init);
        let i = choose|i: int| 0 <= i < j.len() && j[i] == init[x];
        assert(k[i] == ms[x]);
    }
}

} // verus!
