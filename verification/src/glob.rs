//! Glob matching: `*` is any run of characters within a path segment, `?` one
//! character, `**` any run of segments. A pattern without a slash is matched
//! against the last segment.
use crate::text::{
    ascii_lower, chars_of, replace_char, replaced, split_char, split_on, texts, to_ascii_lower,
};
use vstd::prelude::*;

verus! {

/// One place of a pattern: any run of characters, any one character, or a
/// certain one, given by its code point.
#[derive(Clone, Copy, Debug, PartialEq, Eq, Structural)]
pub enum Place {
    Run,
    One,
    Just(u32),
}

/// The places of a glob within a segment: `*` is a run, `?` one character.
pub open spec fn glob_places(p: Seq<char>) -> Seq<Place> {
    p.map_values(
        |c: char|
            if c == '*' {
                Place::Run
            } else if c == '?' {
                Place::One
            } else {
                Place::Just(c as u32)
            },
    )
}

/// Reads the places of a glob.
fn read_places(p: &Vec<char>) -> (r: Vec<Place>)
    ensures
        r@ == glob_places(p@),
{
    let mut out: Vec<Place> = Vec::new();
    let mut i: usize = 0;
    while i < p.len()
        invariant
            i <= p@.len(),
            out@ == glob_places(p@).take(i as int),
        decreases p@.len() - i,
    {
        let c = p[i];
        out.push(
            if c == '*' {
                Place::Run
            } else if c == '?' {
                Place::One
            } else {
                Place::Just(c as u32)
            },
        );
        i = i + 1;
        assert(out@ =~= glob_places(p@).take(i as int));
    }
    assert(out@ =~= glob_places(p@));
    out
}

/// Whether a segment matches a pattern. A run takes nothing, or one character
/// and then whatever it takes of the rest.
pub open spec fn seg_matches(p: Seq<Place>, t: Seq<char>) -> bool
    decreases p.len() + t.len(),
{
    if p.len() == 0 {
        t.len() == 0
    } else if p[0] == Place::Run {
        seg_matches(p.drop_first(), t) || (t.len() > 0 && seg_matches(p, t.drop_first()))
    } else {
        t.len() > 0 && fits(p[0], t[0]) && seg_matches(p.drop_first(), t.drop_first())
    }
}

/// Whether a list of segments matches a list of patterns. A double star takes
/// nothing, or one segment and then whatever it takes of the rest.
pub open spec fn segs_match(p: Seq<Seq<char>>, t: Seq<Seq<char>>) -> bool
    decreases p.len() + t.len(),
{
    if p.len() == 0 {
        t.len() == 0
    } else if p[0] == "**"@ {
        segs_match(p.drop_first(), t) || (t.len() > 0 && segs_match(p, t.drop_first()))
    } else {
        t.len() > 0 && seg_matches(glob_places(p[0]), t[0]) && segs_match(p.drop_first(), t.drop_first())
    }
}

/// Whether a path matches a glob; a backslash counts as a slash in the path.
pub open spec fn glob_matches(pattern: Seq<char>, path: Seq<char>) -> bool {
    let segs = split_on(replaced(path, '\\', "/"@), '/');
    if pattern.contains('/') {
        segs_match(split_on(pattern, '/'), segs)
    } else {
        seg_matches(glob_places(pattern), segs.last())
    }
}

/// Whether a place that is no run stands for a character.
pub open spec fn fits(p: Place, c: char) -> bool {
    p == Place::One || p == Place::Just(c as u32)
}

/// Places without a run among them take exactly as many characters.
proof fn lemma_plain_run(pat: Seq<Place>, text: Seq<char>, a: int, b: int, m: int)
    requires
        0 <= a <= b <= pat.len(),
        0 <= m <= text.len(),
        forall|i: int| a <= i < b ==> pat[i] != Place::Run,
    ensures
        seg_matches(pat.skip(a), text.skip(m)) <==> m + (b - a) <= text.len() && (forall|i: int|
            a <= i < b ==> fits(#[trigger] pat[i], text[m + (i - a)])) && seg_matches(
            pat.skip(b),
            text.skip(m + (b - a)),
        ),
    decreases b - a,
{
    if a < b {
        let p = pat.skip(a);
        let t = text.skip(m);
        assert(p.drop_first() =~= pat.skip(a + 1));
        assert(p[0] == pat[a]);
        if m < text.len() {
            assert(t.drop_first() =~= text.skip(m + 1));
            assert(t[0] == text[m]);
            lemma_plain_run(pat, text, a + 1, b, m + 1);
            if seg_matches(p, t) {
                assert forall|i: int| a <= i < b implies fits(
                    #[trigger] pat[i],
                    text[m + (i - a)],
                ) by {
                    if i > a {
                        assert(text[(m + 1) + (i - (a + 1))] == text[m + (i - a)]);
                    }
                }
            }
            if m + (b - a) <= text.len() && (forall|i: int|
                a <= i < b ==> fits(#[trigger] pat[i], text[m + (i - a)])) {
                assert forall|i: int| a + 1 <= i < b implies fits(
                    #[trigger] pat[i],
                    text[(m + 1) + (i - (a + 1))],
                ) by {
                    assert(fits(pat[i], text[m + (i - a)]));
                }
                assert(fits(pat[a], text[m + (a - a)]));
            }
        }
    }
}

/// What a pattern that starts with a star matches.
proof fn lemma_star_first(p: Seq<Place>, t: Seq<char>)
    requires
        p.len() > 0,
        p[0] == Place::Run,
    ensures
        seg_matches(p, t) <==> exists|k: int|
            0 <= k <= t.len() && #[trigger] seg_matches(p.drop_first(), t.skip(k)),
    decreases t.len(),
{
    let q = p.drop_first();
    assert(t.skip(0) =~= t);
    if t.len() > 0 {
        let u = t.drop_first();
        lemma_star_first(p, u);
        if seg_matches(p, u) {
            let k = choose|k: int| 0 <= k <= u.len() && #[trigger] seg_matches(q, u.skip(k));
            assert(u.skip(k) =~= t.skip(k + 1));
        }
    }
    if seg_matches(q, t) {
        assert(seg_matches(q, t.skip(0)));
    }
    if exists|k: int| 0 <= k <= t.len() && #[trigger] seg_matches(q, t.skip(k)) {
        let k = choose|k: int| 0 <= k <= t.len() && #[trigger] seg_matches(q, t.skip(k));
        if k > 0 {
            assert(t.drop_first().skip(k - 1) =~= t.skip(k));
            assert(seg_matches(q, t.drop_first().skip(k - 1)));
        }
    }
}

/// What a list of patterns that starts with a double star matches.
proof fn lemma_double_star_first(p: Seq<Seq<char>>, t: Seq<Seq<char>>)
    requires
        p.len() > 0,
        p[0] == "**"@,
    ensures
        segs_match(p, t) <==> exists|k: int|
            0 <= k <= t.len() && #[trigger] segs_match(p.drop_first(), t.skip(k)),
    decreases t.len(),
{
    let q = p.drop_first();
    assert(t.skip(0) =~= t);
    if t.len() > 0 {
        let u = t.drop_first();
        lemma_double_star_first(p, u);
        if segs_match(p, u) {
            let k = choose|k: int| 0 <= k <= u.len() && #[trigger] segs_match(q, u.skip(k));
            assert(u.skip(k) =~= t.skip(k + 1));
        }
    }
    if segs_match(q, t) {
        assert(segs_match(q, t.skip(0)));
    }
    if exists|k: int| 0 <= k <= t.len() && #[trigger] segs_match(q, t.skip(k)) {
        let k = choose|k: int| 0 <= k <= t.len() && #[trigger] segs_match(q, t.skip(k));
        if k > 0 {
            assert(t.drop_first().skip(k - 1) =~= t.skip(k));
            assert(segs_match(q, t.drop_first().skip(k - 1)));
        }
    }
}

/// Whether the places from `a` on match the rest of a text from `from` or from
/// some later position.
spec fn matches_from(pat: Seq<Place>, text: Seq<char>, a: int, from: int) -> bool {
    exists|m: int| from <= m <= text.len() && #[trigger] seg_matches(pat.skip(a), text.skip(m))
}

/// What a star matches, by position.
proof fn lemma_star(pat: Seq<Place>, text: Seq<char>, p: int, t: int)
    requires
        0 <= p < pat.len(),
        0 <= t <= text.len(),
        pat[p] == Place::Run,
    ensures
        seg_matches(pat.skip(p), text.skip(t)) <==> exists|m: int|
            t <= m <= text.len() && #[trigger] seg_matches(pat.skip(p + 1), text.skip(m)),
{
    let rest = pat.skip(p + 1);
    assert(pat.skip(p).drop_first() =~= rest);
    assert(pat.skip(p)[0] == Place::Run);
    let here = text.skip(t);
    lemma_star_first(pat.skip(p), here);
    if seg_matches(pat.skip(p), here) {
        let k = choose|k: int|
            0 <= k <= here.len() && #[trigger] seg_matches(pat.skip(p).drop_first(), here.skip(k));
        assert(here.skip(k) =~= text.skip(t + k));
    }
    if exists|m: int| t <= m <= text.len() && #[trigger] seg_matches(rest, text.skip(m)) {
        let m = choose|m: int| t <= m <= text.len() && #[trigger] seg_matches(rest, text.skip(m));
        assert(here.skip(m - t) =~= text.skip(m));
        assert(seg_matches(pat.skip(p).drop_first(), here.skip(m - t)));
    }
}

/// Only stars match nothing.
proof fn lemma_only_stars(pat: Seq<Place>, text: Seq<char>, p: int)
    requires
        0 <= p <= pat.len(),
    ensures
        seg_matches(pat.skip(p), text.skip(text.len() as int)) <==> forall|i: int|
            p <= i < pat.len() ==> pat[i] == Place::Run,
    decreases pat.len() - p,
{
    let n = text.len() as int;
    if p < pat.len() {
        lemma_only_stars(pat, text, p + 1);
        if pat[p] == Place::Run {
            lemma_star(pat, text, p, n);
            if seg_matches(pat.skip(p), text.skip(n)) {
                let m = choose|m: int|
                    n <= m <= n && #[trigger] seg_matches(pat.skip(p + 1), text.skip(m));
                assert(m == n);
            } else if forall|i: int| p <= i < pat.len() ==> pat[i] == Place::Run {
                assert(seg_matches(pat.skip(p + 1), text.skip(n)));
            }
        } else {
            assert(pat.skip(p)[0] == pat[p]);
        }
    }
}

/// Decides [`seg_matches`], returning to the last star on a mismatch.
pub fn seg_match(pat: &Vec<Place>, text: &Vec<char>) -> (r: bool)
    ensures
        r == seg_matches(pat@, text@),
{
    let ghost goal = seg_matches(pat@, text@);
    let mut p: usize = 0;
    let mut t: usize = 0;
    let mut star: Option<usize> = None;
    let mut mark: usize = 0;
    assert(pat@.skip(0) =~= pat@);
    assert(text@.skip(0) =~= text@);
    while t < text.len()
        invariant
            goal == seg_matches(pat@, text@),
            p <= pat@.len(),
            mark <= t <= text@.len(),
            star is None ==> mark == 0,
            star is None ==> goal == seg_matches(pat@.skip(p as int), text@.skip(t as int)),
            star is Some ==> star->0 < p && p - (star->0 + 1) == t - mark,
            star is Some ==> forall|i: int| star->0 + 1 <= i < p ==> pat@[i] != Place::Run,
            star is Some ==> forall|i: int|
                star->0 + 1 <= i < p ==> fits(
                    #[trigger] pat@[i],
                    text@[mark + (i - (star->0 + 1))],
                ),
            star is Some ==> goal == matches_from(pat@, text@, star->0 + 1, mark as int),
        decreases
                pat@.len() - (match star {
                    None => 0int,
                    Some(sp) => sp + 1,
                }),
                text@.len() - mark,
                text@.len() - t,
    {
        if p < pat.len() && pat[p] == Place::Run {
            proof {
                lemma_star(pat@, text@, p as int, t as int);
                if let Some(sp) = star {
                    if goal {
                        let m = choose|m: int|
                            mark <= m <= text@.len() && #[trigger] seg_matches(
                                pat@.skip(sp + 1),
                                text@.skip(m),
                            );
                        lemma_plain_run(pat@, text@, sp + 1, p as int, m);
                        let m2 = m + (p - (sp + 1));
                        lemma_star(pat@, text@, p as int, m2);
                        let k = choose|k: int|
                            m2 <= k <= text@.len() && #[trigger] seg_matches(
                                pat@.skip(p + 1),
                                text@.skip(k),
                            );
                        assert(seg_matches(pat@.skip(p + 1), text@.skip(k)));
                    }
                    if exists|m: int|
                        t <= m <= text@.len() && #[trigger] seg_matches(
                            pat@.skip(p + 1),
                            text@.skip(m),
                        ) {
                        lemma_plain_run(pat@, text@, sp + 1, p as int, mark as int);
                        assert(seg_matches(pat@.skip(sp + 1), text@.skip(mark as int)));
                    }
                }
            }
            assert(goal == matches_from(pat@, text@, p + 1, t as int));
            star = Some(p);
            mark = t;
            p = p + 1;
        } else if p < pat.len() && (pat[p] == Place::One || pat[p] == Place::Just(text[t] as u32)) {
            proof {
                assert(fits(pat@[p as int], text@[t as int]));
                lemma_plain_run(pat@, text@, p as int, p + 1, t as int);
                assert(seg_matches(pat@.skip(p as int), text@.skip(t as int)) == seg_matches(
                    pat@.skip(p + 1),
                    text@.skip(t + 1),
                ));
                if let Some(sp) = star {
                    assert(mark + (p - (sp + 1)) == t);
                }
            }
            p = p + 1;
            t = t + 1;
        } else {
            assert(!seg_matches(pat@.skip(p as int), text@.skip(t as int))) by {
                if p < pat@.len() {
                    assert(pat@.skip(p as int)[0] == pat@[p as int]);
                    assert(text@.skip(t as int)[0] == text@[t as int]);
                }
            }
            match star {
                Some(sp) => {
                    proof {
                        lemma_plain_run(pat@, text@, sp + 1, p as int, mark as int);
                        assert(!seg_matches(pat@.skip(sp + 1), text@.skip(mark as int)));
                    }
                    p = sp + 1;
                    mark = mark + 1;
                    t = mark;
                    proof {
                        if goal {
                            let m = choose|m: int|
                                mark - 1 <= m <= text@.len() && #[trigger] seg_matches(
                                    pat@.skip(sp + 1),
                                    text@.skip(m),
                                );
                            assert(m != mark - 1);
                        }
                        assert(goal == matches_from(pat@, text@, sp + 1, mark as int));
                    }
                },
                None => {
                    return false;
                },
            }
        }
    }
    proof {
        lemma_only_stars(pat@, text@, p as int);
        if let Some(sp) = star {
            lemma_plain_run(pat@, text@, sp + 1, p as int, mark as int);
            if goal {
                let m = choose|m: int|
                    mark <= m <= text@.len() && #[trigger] seg_matches(
                        pat@.skip(sp + 1),
                        text@.skip(m),
                    );
                lemma_plain_run(pat@, text@, sp + 1, p as int, m);
                assert(m == mark);
            }
            assert(goal == seg_matches(pat@.skip(p as int), text@.skip(t as int)));
        }
    }
    let ghost rest = p;
    while p < pat.len() && pat[p] == Place::Run
        invariant
            rest <= p <= pat@.len(),
            forall|i: int| rest <= i < p ==> pat@[i] == Place::Run,
        decreases pat@.len() - p,
    {
        p = p + 1;
    }
    p == pat.len()
}

/// Decides [`segs_match`] from given positions on.
fn match_segs(pat: &Vec<Vec<char>>, text: &Vec<Vec<char>>, a: usize, b: usize) -> (r: bool)
    requires
        a <= pat@.len(),
        b <= text@.len(),
    ensures
        r == segs_match(segments(pat@).skip(a as int), segments(text@).skip(b as int)),
    decreases pat@.len() - a,
{
    let ghost ps = segments(pat@);
    let ghost ts = segments(text@);
    let ghost p = ps.skip(a as int);
    let ghost t = ts.skip(b as int);
    if a == pat.len() {
        return b == text.len();
    }
    assert(p.drop_first() =~= ps.skip(a as int + 1));
    assert(p[0] == pat@[a as int]@);
    let double = pat[a].len() == 2 && pat[a][0] == '*' && pat[a][1] == '*';
    proof {
        reveal_strlit("**");
        assert(double ==> pat@[a as int]@ =~= "**"@);
    }
    if double {
        let mut k: usize = b;
        let n: usize = pat.len();
        while k < text.len()
            invariant
                n == pat@.len(),
                a < n,
                p.len() == n - a,
                t.len() == text@.len() - b,
                b <= k <= text@.len(),
                ps == segments(pat@),
                ts == segments(text@),
                p == ps.skip(a as int),
                t == ts.skip(b as int),
                p[0] == "**"@,
                p.drop_first() == ps.skip(a as int + 1),
                forall|j: int|
                    b <= j < k ==> !segs_match(ps.skip(a as int + 1), #[trigger] ts.skip(j)),
            decreases text@.len() - k,
        {
            if match_segs(pat, text, a + 1, k) {
                proof {
                    lemma_double_star_first(p, t);
                }
                assert(t.skip(k - b) =~= ts.skip(k as int));
                assert(segs_match(p.drop_first(), t.skip(k - b)));
                return true;
            }
            k = k + 1;
        }
        let last = match_segs(pat, text, a + 1, k);
        proof {
            lemma_double_star_first(p, t);
            assert(t.skip(k - b) =~= ts.skip(k as int));
            if last {
                assert(segs_match(p.drop_first(), t.skip(k - b)));
            } else if segs_match(p, t) {
                let j = choose|j: int|
                    0 <= j <= t.len() && #[trigger] segs_match(p.drop_first(), t.skip(j));
                assert(t.skip(j) =~= ts.skip(b + j));
            }
        }
        return last;
    }
    if b == text.len() {
        return false;
    }
    assert(t.drop_first() =~= ts.skip(b as int + 1));
    assert(t[0] == text@[b as int]@);
    seg_match(&read_places(&pat[a]), &text[b]) && match_segs(pat, text, a + 1, b + 1)
}

/// The contents of a list of segments.
pub open spec fn segments(v: Seq<Vec<char>>) -> Seq<Seq<char>> {
    v.map_values(|s: Vec<char>| s@)
}

/// Splits a path into its segments.
fn split_segments(s: &str) -> (r: Vec<Vec<char>>)
    ensures
        segments(r@) == split_on(s@, '/'),
        r@.len() >= 1,
{
    let pieces = split_char(s, '/');
    let mut out: Vec<Vec<char>> = Vec::new();
    let mut i: usize = 0;
    while i < pieces.len()
        invariant
            i <= pieces@.len(),
            out@.len() == i,
            forall|k: int| 0 <= k < i ==> (#[trigger] out@[k])@ == pieces@[k]@,
        decreases pieces@.len() - i,
    {
        out.push(chars_of(pieces[i].as_str()));
        i = i + 1;
    }
    assert(segments(out@) =~= texts(pieces@));
    out
}

/// Decides [`glob_matches`].
pub fn glob_match(pattern: &str, path: &str) -> (r: bool)
    ensures
        r == glob_matches(pattern@, path@),
{
    let norm = replace_char(path, '\\', "/");
    let text = split_segments(norm.as_str());
    let ghost segs = split_on(norm@, '/');
    let pat = chars_of(pattern);
    let at = crate::text::find_char(&pat, '/');
    if at == pat.len() {
        assert(segs.last() == text@.last()@);
        assert(!pattern@.contains('/'));
        return seg_match(&read_places(&pat), &text[text.len() - 1]);
    }
    assert(pattern@.contains('/')) by {
        assert(pattern@[at as int] == '/');
    }
    let pats = split_segments(pattern);
    assert(segments(pats@).skip(0) =~= segments(pats@));
    assert(segments(text@).skip(0) =~= segments(text@));
    match_segs(&pats, &text, 0, 0)
}

/// Whether some pattern of a list matches a path.
pub open spec fn any_glob(patterns: Seq<Seq<char>>, path: Seq<char>) -> bool {
    exists|i: int| 0 <= i < patterns.len() && glob_matches(#[trigger] patterns[i], path)
}

/// Decides [`any_glob`].
pub fn any_match(patterns: &Vec<String>, path: &str) -> (r: bool)
    ensures
        r == any_glob(texts(patterns@), path@),
{
    let mut i: usize = 0;
    while i < patterns.len()
        invariant
            i <= patterns@.len(),
            forall|k: int| 0 <= k < i ==> !glob_matches(#[trigger] texts(patterns@)[k], path@),
        decreases patterns@.len() - i,
    {
        assert(texts(patterns@)[i as int] == patterns@[i as int]@);
        if glob_match(patterns[i].as_str(), path) {
            return true;
        }
        i = i + 1;
    }
    false
}

/// Places that each ask for a certain character.
pub open spec fn plain_places(p: Seq<char>) -> Seq<Place> {
    p.map_values(|c: char| Place::Just(c as u32))
}

/// Certain characters match themselves and nothing else.
proof fn lemma_plain_places(p: Seq<char>, t: Seq<char>)
    ensures
        seg_matches(plain_places(p), t) == (p == t),
    decreases p.len(),
{
    let pl = plain_places(p);
    if p.len() == 0 {
        assert(t.len() == 0 ==> p =~= t);
    } else {
        assert(pl.drop_first() =~= plain_places(p.drop_first()));
        if t.len() > 0 {
            lemma_plain_places(p.drop_first(), t.drop_first());
            if p[0] as u32 == t[0] as u32 {
                vstd::utf8::char_u32_cast(p[0], p[0] as u32);
                vstd::utf8::char_u32_cast(t[0], p[0] as u32);
            }
            if p[0] == t[0] && p.drop_first() == t.drop_first() {
                assert(p =~= seq![p[0]] + p.drop_first());
                assert(t =~= seq![t[0]] + t.drop_first());
            }
        }
    }
}

/// A text without wildcards matches itself and nothing else.
pub proof fn law_plain_pattern_is_equality(p: Seq<char>, t: Seq<char>)
    requires
        !p.contains('*') && !p.contains('?'),
    ensures
        seg_matches(glob_places(p), t) == (p == t),
{
    assert forall|i: int| 0 <= i < p.len() implies p[i] != '*' && p[i] != '?' by {
        assert(p.contains(p[i]));
    }
    assert(glob_places(p) =~= plain_places(p));
    lemma_plain_places(p, t);
}

/// A lone star matches every segment.
pub proof fn law_star_matches_everything(t: Seq<char>)
    ensures
        seg_matches(glob_places(seq!['*']), t),
{
    let p = glob_places(seq!['*']);
    assert(p.len() == 1 && p[0] == Place::Run);
    lemma_star_first(p, t);
    assert(p.drop_first().len() == 0);
    assert(t.skip(t.len() as int).len() == 0);
    assert(seg_matches(p.drop_first(), t.skip(t.len() as int)));
}

/// A lone double star matches every path.
pub proof fn law_double_star_matches_everything(t: Seq<Seq<char>>)
    ensures
        segs_match(seq!["**"@], t),
{
    let p = seq!["**"@];
    assert(p.len() == 1 && p[0] == "**"@);
    lemma_double_star_first(p, t);
    assert(p.drop_first().len() == 0);
    assert(t.skip(t.len() as int).len() == 0);
    assert(segs_match(p.drop_first(), t.skip(t.len() as int)));
}

/// The places of a pattern of the query language: `%` is a run, `_` one
/// character; ASCII letters stand for either case.
pub open spec fn like_places(p: Seq<char>) -> Seq<Place> {
    ascii_lower(p).map_values(
        |c: char|
            if c == '%' {
                Place::Run
            } else if c == '_' {
                Place::One
            } else {
                Place::Just(c as u32)
            },
    )
}

/// Whether a text is like a pattern of the query language.
pub open spec fn is_like(s: Seq<char>, pattern: Seq<char>) -> bool {
    seg_matches(like_places(pattern), ascii_lower(s))
}

/// Decides [`is_like`].
pub fn like_match(s: &str, pattern: &str) -> (r: bool)
    ensures
        r == is_like(s@, pattern@),
{
    let p = chars_of(to_ascii_lower(pattern).as_str());
    let mut places: Vec<Place> = Vec::new();
    let mut i: usize = 0;
    while i < p.len()
        invariant
            i <= p@.len(),
            p@ == ascii_lower(pattern@),
            places@ == like_places(pattern@).take(i as int),
        decreases p@.len() - i,
    {
        let c = p[i];
        places.push(
            if c == '%' {
                Place::Run
            } else if c == '_' {
                Place::One
            } else {
                Place::Just(c as u32)
            },
        );
        i = i + 1;
        assert(places@ =~= like_places(pattern@).take(i as int));
    }
    assert(places@ =~= like_places(pattern@));
    seg_match(&places, &chars_of(to_ascii_lower(s).as_str()))
}

} // verus!
