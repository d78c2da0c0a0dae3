//! What patterns mean, piece by piece: what a pattern made of two parts matches is
//! a text made of two such parts.
use crate::glob::{
    any_glob, glob_matches, glob_places, is_like, like_places, seg_matches, segs_match, Place,
};
use crate::text::{ascii_lower, replaced, split_on};
use vstd::prelude::*;

verus! {

/// Whether a text can be cut in two so that each part matches its pattern.
pub open spec fn cut_matches(p: Seq<Place>, q: Seq<Place>, t: Seq<char>) -> bool {
    exists|k: int|
        0 <= k <= t.len() && #[trigger] seg_matches(p, t.take(k)) && seg_matches(q, t.skip(k))
}

/// A pattern of two parts matches a text exactly where the text can be cut so that
/// each part matches its piece.
pub proof fn law_patterns_join(p: Seq<Place>, q: Seq<Place>, t: Seq<char>)
    ensures
        seg_matches(p + q, t) <==> cut_matches(p, q, t),
    decreases p.len() + t.len(),
{
    if p.len() == 0 {
        assert(p + q =~= q);
        assert(t.take(0).len() == 0);
        assert(t.skip(0) =~= t);
        if seg_matches(q, t) {
            assert(seg_matches(p, t.take(0)) && seg_matches(q, t.skip(0)));
        }
        if cut_matches(p, q, t) {
            let k = choose|k: int|
                0 <= k <= t.len() && #[trigger] seg_matches(p, t.take(k)) && seg_matches(
                    q,
                    t.skip(k),
                );
            assert(k == 0);
        }
    } else {
        let rest = p.drop_first();
        assert((p + q).drop_first() =~= rest + q);
        assert((p + q)[0] == p[0]);
        law_patterns_join(rest, q, t);
        if t.len() > 0 {
            law_patterns_join(p, q, t.drop_first());
            law_patterns_join(rest, q, t.drop_first());
        }
        if seg_matches(p + q, t) {
            if p[0] == Place::Run {
                if seg_matches(rest + q, t) {
                    let k = choose|k: int|
                        0 <= k <= t.len() && #[trigger] seg_matches(rest, t.take(k)) && seg_matches(
                            q,
                            t.skip(k),
                        );
                    assert(seg_matches(p, t.take(k)));
                } else {
                    lemma_extend(p, q, t);
                }
            } else {
                let u = t.drop_first();
                let k = choose|k: int|
                    0 <= k <= u.len() && #[trigger] seg_matches(rest, u.take(k)) && seg_matches(
                        q,
                        u.skip(k),
                    );
                assert(t.take(k + 1).drop_first() =~= u.take(k));
                assert(t.skip(k + 1) =~= u.skip(k));
                assert(seg_matches(p, t.take(k + 1)));
            }
        }
        if cut_matches(p, q, t) {
            let k = choose|k: int|
                0 <= k <= t.len() && #[trigger] seg_matches(p, t.take(k)) && seg_matches(
                    q,
                    t.skip(k),
                );
            if p[0] == Place::Run {
                if seg_matches(rest, t.take(k)) {
                    assert(cut_matches(rest, q, t));
                } else {
                    assert(k > 0);
                    let u = t.drop_first();
                    assert(t.take(k).drop_first() =~= u.take(k - 1));
                    assert(t.skip(k) =~= u.skip(k - 1));
                    assert(seg_matches(p, u.take(k - 1)));
                    assert(cut_matches(p, q, u));
                }
            } else {
                assert(k > 0);
                let u = t.drop_first();
                assert(t.take(k).drop_first() =~= u.take(k - 1));
                assert(t.skip(k) =~= u.skip(k - 1));
                assert(seg_matches(rest, u.take(k - 1)));
                assert(cut_matches(rest, q, u));
            }
        }
    }
}

/// A run takes one more character.
proof fn lemma_extend(p: Seq<Place>, q: Seq<Place>, t: Seq<char>)
    requires
        p.len() > 0,
        p[0] == Place::Run,
        t.len() > 0,
        cut_matches(p, q, t.drop_first()),
    ensures
        cut_matches(p, q, t),
{
    let u = t.drop_first();
    let k = choose|k: int|
        0 <= k <= u.len() && #[trigger] seg_matches(p, u.take(k)) && seg_matches(q, u.skip(k));
    assert(t.take(k + 1).drop_first() =~= u.take(k));
    assert(t.skip(k + 1) =~= u.skip(k));
    assert(seg_matches(p, t.take(k + 1)));
}

/// What single places match: a run anything, one character any one, and a certain
/// character itself alone; and an empty pattern nothing but the empty text.
pub proof fn law_single_places(t: Seq<char>, c: u32)
    ensures
        seg_matches(Seq::empty(), t) <==> t.len() == 0,
        seg_matches(seq![Place::Run], t),
        seg_matches(seq![Place::One], t) <==> t.len() == 1,
        seg_matches(seq![Place::Just(c)], t) <==> t.len() == 1 && t[0] as u32 == c,
    decreases t.len(),
{
    let run = seq![Place::Run];
    let one = seq![Place::One];
    let just = seq![Place::Just(c)];
    assert(run.drop_first() =~= Seq::<Place>::empty());
    assert(one.drop_first() =~= Seq::<Place>::empty());
    assert(just.drop_first() =~= Seq::<Place>::empty());
    if t.len() > 0 {
        law_single_places(t.drop_first(), c);
    }
}

/// How the characters of a glob are read: a star is a run, a question mark any one
/// character, and any other character itself; a glob of two parts is read part by
/// part.
pub proof fn law_glob_is_read_by_character(a: Seq<char>, b: Seq<char>)
    ensures
        glob_places(a + b) == glob_places(a) + glob_places(b),
        glob_places(a).len() == a.len(),
        forall|i: int|
            0 <= i < a.len() ==> #[trigger] glob_places(a)[i] == (if a[i] == '*' {
                Place::Run
            } else if a[i] == '?' {
                Place::One
            } else {
                Place::Just(a[i] as u32)
            }),
{
    assert(glob_places(a + b) =~= glob_places(a) + glob_places(b));
}

/// Whether a list of segments can be cut in two so that each part matches its
/// patterns.
pub open spec fn cut_segs_match(
    p: Seq<Seq<char>>,
    q: Seq<Seq<char>>,
    t: Seq<Seq<char>>,
) -> bool {
    exists|k: int|
        0 <= k <= t.len() && #[trigger] segs_match(p, t.take(k)) && segs_match(q, t.skip(k))
}

/// A list of patterns of two parts matches a path exactly where the path can be cut
/// between segments so that each part matches its piece.
pub proof fn law_path_patterns_join(p: Seq<Seq<char>>, q: Seq<Seq<char>>, t: Seq<Seq<char>>)
    ensures
        segs_match(p + q, t) <==> cut_segs_match(p, q, t),
    decreases p.len() + t.len(),
{
    if p.len() == 0 {
        assert(p + q =~= q);
        assert(t.take(0).len() == 0);
        assert(t.skip(0) =~= t);
        if segs_match(q, t) {
            assert(segs_match(p, t.take(0)) && segs_match(q, t.skip(0)));
        }
        if cut_segs_match(p, q, t) {
            let k = choose|k: int|
                0 <= k <= t.len() && #[trigger] segs_match(p, t.take(k)) && segs_match(
                    q,
                    t.skip(k),
                );
            assert(k == 0);
        }
    } else {
        let rest = p.drop_first();
        assert((p + q).drop_first() =~= rest + q);
        assert((p + q)[0] == p[0]);
        law_path_patterns_join(rest, q, t);
        if t.len() > 0 {
            law_path_patterns_join(p, q, t.drop_first());
            law_path_patterns_join(rest, q, t.drop_first());
        }
        let u = t.drop_first();
        if segs_match(p + q, t) {
            if p[0] == "**"@ {
                if segs_match(rest + q, t) {
                    let k = choose|k: int|
                        0 <= k <= t.len() && #[trigger] segs_match(rest, t.take(k)) && segs_match(
                            q,
                            t.skip(k),
                        );
                    assert(segs_match(p, t.take(k)));
                } else {
                    assert(cut_segs_match(p, q, u));
                    let k = choose|k: int|
                        0 <= k <= u.len() && #[trigger] segs_match(p, u.take(k)) && segs_match(
                            q,
                            u.skip(k),
                        );
                    assert(t.take(k + 1).drop_first() =~= u.take(k));
                    assert(t.skip(k + 1) =~= u.skip(k));
                    assert(segs_match(p, t.take(k + 1)));
                }
            } else {
                let k = choose|k: int|
                    0 <= k <= u.len() && #[trigger] segs_match(rest, u.take(k)) && segs_match(
                        q,
                        u.skip(k),
                    );
                assert(t.take(k + 1).drop_first() =~= u.take(k));
                assert(t.skip(k + 1) =~= u.skip(k));
                assert(segs_match(p, t.take(k + 1)));
            }
        }
        if cut_segs_match(p, q, t) {
            let k = choose|k: int|
                0 <= k <= t.len() && #[trigger] segs_match(p, t.take(k)) && segs_match(
                    q,
                    t.skip(k),
                );
            if p[0] == "**"@ {
                if segs_match(rest, t.take(k)) {
                    assert(cut_segs_match(rest, q, t));
                } else {
                    assert(k > 0);
                    assert(t.take(k).drop_first() =~= u.take(k - 1));
                    assert(t.skip(k) =~= u.skip(k - 1));
                    assert(segs_match(p, u.take(k - 1)));
                    assert(cut_segs_match(p, q, u));
                }
            } else {
                assert(k > 0);
                assert(t.take(k).drop_first() =~= u.take(k - 1));
                assert(t.skip(k) =~= u.skip(k - 1));
                assert(segs_match(rest, u.take(k - 1)));
                assert(cut_segs_match(rest, q, u));
            }
        }
    }
}

/// One pattern of a path matches one segment, as a glob does; two stars match any
/// number of segments.
pub proof fn law_single_path_pattern(p: Seq<char>, t: Seq<Seq<char>>)
    ensures
        segs_match(Seq::empty(), t) <==> t.len() == 0,
        p == "**"@ ==> segs_match(seq![p], t),
        p != "**"@ ==> (segs_match(seq![p], t) <==> t.len() == 1 && seg_matches(
            glob_places(p),
            t[0],
        )),
    decreases t.len(),
{
    let one = seq![p];
    assert(one.drop_first() =~= Seq::<Seq<char>>::empty());
    assert(segs_match(one.drop_first(), t) == (t.len() == 0));
    assert(one[0] == p);
    if t.len() > 0 {
        law_single_path_pattern(p, t.drop_first());
        assert(segs_match(one.drop_first(), t.drop_first()) == (t.drop_first().len() == 0));
    }
}

/// A glob with a slash is matched against the whole path, one without against the
/// last segment alone; a backslash in the path counts as a slash.
pub proof fn law_glob_without_slash_matches_the_name(pattern: Seq<char>, path: Seq<char>)
    ensures
        ({
            let segs = split_on(replaced(path, '\\', "/"@), '/');
            &&& pattern.contains('/') ==> glob_matches(pattern, path) == segs_match(
                split_on(pattern, '/'),
                segs,
            )
            &&& !pattern.contains('/') ==> glob_matches(pattern, path) == seg_matches(
                glob_places(pattern),
                segs.last(),
            )
        }),
{
}

/// A path is excluded where one of the globs matches it; more globs exclude no
/// less.
pub proof fn law_more_globs_match_no_less(a: Seq<Seq<char>>, b: Seq<Seq<char>>, path: Seq<char>)
    ensures
        any_glob(a + b, path) <==> any_glob(a, path) || any_glob(b, path),
        any_glob(seq![a[0]], path) <==> glob_matches(a[0], path),
        !any_glob(Seq::empty(), path),
{
    if any_glob(a + b, path) {
        let i = choose|i: int| 0 <= i < (a + b).len() && glob_matches(#[trigger] (a + b)[i], path);
        if i < a.len() {
            assert(glob_matches(a[i], path));
        } else {
            assert(glob_matches(b[i - a.len()], path));
        }
    }
    if any_glob(a, path) {
        let i = choose|i: int| 0 <= i < a.len() && glob_matches(#[trigger] a[i], path);
        assert(glob_matches((a + b)[i], path));
    }
    if any_glob(b, path) {
        let i = choose|i: int| 0 <= i < b.len() && glob_matches(#[trigger] b[i], path);
        assert(glob_matches((a + b)[a.len() + i], path));
    }
    let one = seq![a[0]];
    assert(one[0] == a[0]);
}

/// A text is like a pattern in whatever case either is written.
pub proof fn law_like_ignores_case(s: Seq<char>, t: Seq<char>, p: Seq<char>, q: Seq<char>)
    requires
        ascii_lower(s) == ascii_lower(t),
        ascii_lower(p) == ascii_lower(q),
    ensures
        is_like(s, p) == is_like(t, q),
{
}

/// How the characters of a pattern of the query language are read: a percent sign
/// is a run, an underscore any one character, any other itself.
pub proof fn law_like_is_read_by_character(p: Seq<char>, i: int)
    requires
        0 <= i < p.len(),
    ensures
        like_places(p).len() == p.len(),
        p[i] == '%' ==> like_places(p)[i] == Place::Run,
        p[i] == '_' ==> like_places(p)[i] == Place::One,
        p[i] != '%' && p[i] != '_' ==> like_places(p)[i] == Place::Just(ascii_lower(p)[i] as u32),
{
    let c = ascii_lower(p)[i];
    if 0x41 <= p[i] as u32 <= 0x5a {
        let n = (p[i] as u32 + 0x20) as u8;
        assert(c as u32 == n as u32);
    }
}

} // verus!
