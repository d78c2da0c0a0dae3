//! What cutting and joining texts mean: how the pieces of two texts make the
//! pieces of one.
use crate::text::{
    after_prefix, blank, byte_len, chomped, clipped, cut, cut_last, drop_any, first_pos, joined,
    last_pos, lemma_split_on_len, lines, padded_left, padded_right, repeated, replaced, skip_any,
    split_on, text_before, trimmed, white, words, words_open,
};
use crate::tokens::{alphanumeric, lowered, passed_over, runs, terms, tokens};
use vstd::prelude::*;

verus! {

/// A text without the separator is one piece, and the pieces of two texts with
/// the separator between are those of the first and then those of the second.
pub proof fn law_split_at_the_separator(a: Seq<char>, b: Seq<char>, sep: char)
    ensures
        !a.contains(sep) ==> split_on(a, sep) == seq![a],
        split_on(a.push(sep) + b, sep) == split_on(a, sep) + split_on(b, sep),
    decreases a.len() + b.len(),
{
    if b.len() == 0 {
        assert(a.push(sep) + b =~= a.push(sep));
        assert(a.push(sep).drop_last() =~= a);
        assert(split_on(b, sep) =~= seq![Seq::<char>::empty()]);
        assert(split_on(a.push(sep), sep) =~= split_on(a, sep) + seq![Seq::<char>::empty()]);
    } else {
        let c = b.drop_last();
        law_split_at_the_separator(a, c, sep);
        let x = a.push(sep) + b;
        assert(x.drop_last() =~= a.push(sep) + c);
        assert(x.last() == b.last());
        let p = split_on(a, sep);
        let q = split_on(c, sep);
        lemma_split_on_len(c, sep);
        assert((p + q).drop_last() =~= p + q.drop_last());
        assert((p + q).last() == q.last());
        assert(split_on(x, sep) =~= p + split_on(b, sep));
    }
    if !a.contains(sep) {
        lemma_one_piece(a, sep);
    }
}

/// A text without the separator is one piece.
proof fn lemma_one_piece(a: Seq<char>, sep: char)
    requires
        !a.contains(sep),
    ensures
        split_on(a, sep) == seq![a],
    decreases a.len(),
{
    if a.len() == 0 {
        assert(a =~= Seq::<char>::empty());
    } else {
        let t = a.drop_last();
        assert(!t.contains(sep)) by {
            if t.contains(sep) {
                let i = choose|i: int| 0 <= i < t.len() && t[i] == sep;
                assert(a[i] == sep);
            }
        }
        lemma_one_piece(t, sep);
        assert(a[a.len() - 1] != sep);
        assert(t.push(a.last()) =~= a);
        assert(split_on(a, sep) =~= seq![a]);
    }
}

/// Joining undoes splitting: the pieces with the separator between are the text.
pub proof fn law_join_undoes_split(s: Seq<char>, sep: char)
    ensures
        joined(split_on(s, sep), seq![sep]) == s,
    decreases s.len(),
{
    if s.len() == 0 {
        assert(s =~= Seq::<char>::empty());
    } else {
        let t = s.drop_last();
        law_join_undoes_split(t, sep);
        lemma_split_on_len(t, sep);
        let p = split_on(t, sep);
        let r = split_on(s, sep);
        if s.last() == sep {
            assert(r.drop_last() =~= p);
            assert(r.last() =~= Seq::<char>::empty());
            assert(joined(r, seq![sep]) =~= t + seq![sep] + Seq::<char>::empty());
            assert(t + seq![sep] + Seq::<char>::empty() =~= s);
        } else {
            assert(r.drop_last() =~= p.drop_last());
            assert(r.last() == p.last().push(s.last()));
            if p.len() == 1 {
                assert(r[0] == p[0].push(s.last()));
                assert(p[0].push(s.last()) =~= s);
            } else {
                assert(joined(r, seq![sep]) =~= joined(p, seq![sep]).push(s.last()));
                assert(t.push(s.last()) =~= s);
            }
        }
    }
}

/// Joining parts to parts puts one separator between; a single part is itself.
pub proof fn law_joining_goes_part_by_part(
    a: Seq<Seq<char>>,
    b: Seq<Seq<char>>,
    x: Seq<char>,
    sep: Seq<char>,
)
    ensures
        joined(Seq::empty(), sep).len() == 0,
        joined(seq![x], sep) == x,
        a.len() > 0 && b.len() > 0 ==> joined(a + b, sep) == joined(a, sep) + sep + joined(b, sep),
    decreases b.len(),
{
    if a.len() > 0 && b.len() > 0 {
        let c = b.drop_last();
        assert((a + b).drop_last() =~= a + c);
        assert((a + b).last() == b.last());
        if c.len() == 0 {
            assert(a + c =~= a);
            assert(b[0] == b.last());
        } else {
            law_joining_goes_part_by_part(a, c, x, sep);
            assert(joined(a, sep) + sep + joined(c, sep) + sep + b.last() =~= joined(a, sep) + sep
                + (joined(c, sep) + sep + b.last()));
        }
    }
}

/// The words of what follows a closed word stand on their own.
proof fn lemma_words_open(x: Seq<char>, b: Seq<char>)
    requires
        words_open(x).1.len() == 0,
    ensures
        words_open(x + b).0 == words_open(x).0 + words_open(b).0,
        words_open(x + b).1 == words_open(b).1,
    decreases b.len(),
{
    if b.len() == 0 {
        assert(x + b =~= x);
        assert(words_open(x).0 + words_open(b).0 =~= words_open(x).0);
        assert(words_open(x).1 =~= words_open(b).1);
    } else {
        let c = b.drop_last();
        lemma_words_open(x, c);
        assert((x + b).drop_last() =~= x + c);
        assert((x + b).last() == b.last());
        assert(words_open(x + b).0 =~= words_open(x).0 + words_open(b).0);
    }
}

/// White space parts words: those of two texts with white space between are those
/// of the first and then those of the second. A text without any is one word.
pub proof fn law_words_part_at_white_space(a: Seq<char>, w: char, b: Seq<char>)
    requires
        white(w),
    ensures
        words(a.push(w) + b) == words(a) + words(b),
        a.len() > 0 && (forall|i: int| 0 <= i < a.len() ==> !white(#[trigger] a[i])) ==> words(a)
            == seq![a],
        words(Seq::empty()).len() == 0,
{
    assert(a.push(w).drop_last() =~= a);
    let x = a.push(w);
    assert(words_open(x).1.len() == 0);
    assert(words_open(x).0 =~= words(a));
    lemma_words_open(x, b);
    assert(words(x + b) =~= words(a) + words(b));
    if a.len() > 0 && (forall|i: int| 0 <= i < a.len() ==> !white(#[trigger] a[i])) {
        lemma_open_word(a);
        assert(words(a) =~= seq![a]);
    }
}

/// A text without white space is one open word.
proof fn lemma_open_word(a: Seq<char>)
    requires
        forall|i: int| 0 <= i < a.len() ==> !white(#[trigger] a[i]),
    ensures
        words_open(a).0.len() == 0,
        words_open(a).1 == a,
    decreases a.len(),
{
    if a.len() == 0 {
        assert(a =~= Seq::<char>::empty());
    } else {
        let t = a.drop_last();
        assert forall|i: int| 0 <= i < t.len() implies !white(#[trigger] t[i]) by {
            assert(t[i] == a[i]);
        }
        lemma_open_word(t);
        assert(!white(a[a.len() - 1]));
        assert(t.push(a.last()) =~= a);
    }
}

/// A newline ends a line: the lines of two texts with one between are the first's,
/// the last of them without a carriage return at its end, and then the second's.
pub proof fn law_lines_end_at_newlines(a: Seq<char>, b: Seq<char>)
    requires
        !a.contains('\n'),
    ensures
        lines(a.push('\n') + b) == seq![chomped(a)] + lines(b),
        a.len() > 0 ==> lines(a) == seq![a],
        lines(Seq::empty()).len() == 0,
{
    law_split_at_the_separator(a, b, '\n');
    lemma_split_on_len(b, '\n');
    let p = split_on(a.push('\n') + b, '\n');
    let q = split_on(b, '\n');
    assert(p =~= seq![a] + q);
    assert(p.drop_last() =~= seq![a] + q.drop_last());
    assert(p.last() == q.last());
    assert(lines(a.push('\n') + b) =~= seq![chomped(a)] + lines(b));
    let one = seq![a];
    assert(one.drop_last() =~= Seq::<Seq<char>>::empty());
    assert(lines(a) =~= (if a.len() > 0 {
        seq![a]
    } else {
        Seq::empty()
    }));
    let e = Seq::<char>::empty();
    assert(split_on(e, '\n') =~= seq![e]);
    assert(split_on(e, '\n').drop_last() =~= Seq::<Seq<char>>::empty());
}

/// A character that is neither letter nor digit parts runs; a text of letters and
/// digits is one run.
pub proof fn law_runs_part_at_other_characters(a: Seq<char>, c: char, b: Seq<char>)
    requires
        !alphanumeric(c),
    ensures
        runs(a.push(c) + b) == runs(a) + runs(b),
        runs(a).len() > 0,
        (forall|i: int| 0 <= i < a.len() ==> alphanumeric(#[trigger] a[i])) ==> runs(a) == seq![a],
    decreases b.len(),
{
    lemma_runs_len(a);
    lemma_runs_len(b);
    if b.len() == 0 {
        assert(a.push(c) + b =~= a.push(c));
        assert(a.push(c).drop_last() =~= a);
        assert(runs(b) =~= seq![Seq::<char>::empty()]);
        assert(runs(a.push(c)) =~= runs(a) + seq![Seq::<char>::empty()]);
    } else {
        let d = b.drop_last();
        law_runs_part_at_other_characters(a, c, d);
        lemma_runs_len(d);
        let x = a.push(c) + b;
        assert(x.drop_last() =~= a.push(c) + d);
        assert(x.last() == b.last());
        let p = runs(a);
        let q = runs(d);
        assert((p + q).drop_last() =~= p + q.drop_last());
        assert((p + q).last() == q.last());
        assert(runs(x) =~= p + runs(b));
    }
    if forall|i: int| 0 <= i < a.len() ==> alphanumeric(#[trigger] a[i]) {
        lemma_one_run(a);
    }
}

/// There is always a last run.
proof fn lemma_runs_len(a: Seq<char>)
    ensures
        runs(a).len() > 0,
    decreases a.len(),
{
    if a.len() > 0 {
        lemma_runs_len(a.drop_last());
    }
}

/// A text of letters and digits is one run.
proof fn lemma_one_run(a: Seq<char>)
    requires
        forall|i: int| 0 <= i < a.len() ==> alphanumeric(#[trigger] a[i]),
    ensures
        runs(a) == seq![a],
    decreases a.len(),
{
    if a.len() == 0 {
        assert(a =~= Seq::<char>::empty());
    } else {
        let t = a.drop_last();
        assert forall|i: int| 0 <= i < t.len() implies alphanumeric(#[trigger] t[i]) by {
            assert(t[i] == a[i]);
        }
        lemma_one_run(t);
        assert(alphanumeric(a[a.len() - 1]));
        assert(t.push(a.last()) =~= a);
        assert(runs(a) =~= seq![a]);
    }
}

/// The terms of two lists of runs are those of the first and then those of the
/// second.
proof fn lemma_terms_add(a: Seq<Seq<char>>, b: Seq<Seq<char>>, in_path: bool)
    ensures
        terms(a + b, in_path) == terms(a, in_path) + terms(b, in_path),
    decreases b.len(),
{
    if b.len() == 0 {
        assert(a + b =~= a);
        assert(terms(a, in_path) + terms(b, in_path) =~= terms(a, in_path));
    } else {
        lemma_terms_add(a, b.drop_last(), in_path);
        assert((a + b).drop_last() =~= a + b.drop_last());
        assert((a + b).last() == b.last());
        assert(terms(a + b, in_path) =~= terms(a, in_path) + terms(b, in_path));
    }
}

/// The terms of a text are those of its parts, in order; a text of letters and
/// digits is one term in lower case where it takes two bytes and says something,
/// and none otherwise.
pub proof fn law_tokens_are_the_words_that_say_something(a: Seq<char>, c: char, b: Seq<char>)
    requires
        !alphanumeric(c),
    ensures
        tokens(a.push(c) + b) == tokens(a) + tokens(b),
        (forall|i: int| 0 <= i < a.len() ==> alphanumeric(#[trigger] a[i])) ==> tokens(a) == (
        if byte_len(a) >= 2 && !passed_over(lowered(a), false) {
            seq![lowered(a)]
        } else {
            Seq::empty()
        }),
{
    law_runs_part_at_other_characters(a, c, b);
    lemma_terms_add(runs(a), runs(b), false);
    if forall|i: int| 0 <= i < a.len() ==> alphanumeric(#[trigger] a[i]) {
        let one = seq![a];
        assert(one.drop_last() =~= Seq::<Seq<char>>::empty());
        assert(terms(one.drop_last(), false) =~= Seq::<Seq<char>>::empty());
        assert(tokens(a) =~= (if byte_len(a) >= 2 && !passed_over(lowered(a), false) {
            seq![lowered(a)]
        } else {
            Seq::empty()
        }));
    }
}

/// In a path the word `src` is kept, and every other word is passed over exactly
/// where it is elsewhere.
pub proof fn law_paths_keep_src(t: Seq<char>)
    ensures
        t == "src"@ ==> !passed_over(t, true),
        t != "src"@ ==> passed_over(t, true) == passed_over(t, false),
{
}

/// What trimming takes off is white space: the text is what is left between two
/// blank parts, and what is left begins and ends otherwise.
pub proof fn law_trimming_takes_white_space_off(a: Seq<char>, s: Seq<char>, b: Seq<char>)
    requires
        blank(a),
        blank(b),
        s.len() > 0,
        !white(s[0]),
        !white(s.last()),
    ensures
        trimmed(a + s + b) == s,
    decreases a.len() + b.len(),
{
    if a.len() > 0 {
        let t = a.drop_first();
        assert forall|i: int| 0 <= i < t.len() implies white(#[trigger] t[i]) by {
            assert(t[i] == a[i + 1]);
        }
        law_trimming_takes_white_space_off(t, s, b);
        let x = a + s + b;
        assert(x.drop_first() =~= t + s + b);
        assert(white(a[0]) && x[0] == a[0]);
    } else {
        let x = a + s + b;
        assert(x =~= s + b);
        assert(!white(x[0]));
        assert(crate::text::skip_white(x) == x);
        lemma_blank_end(s, b);
    }
}

/// Blank text at the end goes.
proof fn lemma_blank_end(s: Seq<char>, b: Seq<char>)
    requires
        blank(b),
        s.len() > 0,
        !white(s.last()),
    ensures
        crate::text::drop_white(s + b) == s,
    decreases b.len(),
{
    if b.len() == 0 {
        assert(s + b =~= s);
    } else {
        let t = b.drop_last();
        assert forall|i: int| 0 <= i < t.len() implies white(#[trigger] t[i]) by {
            assert(t[i] == b[i]);
        }
        lemma_blank_end(s, t);
        assert((s + b).drop_last() =~= s + t);
        assert(white(b[b.len() - 1]));
    }
}

/// What a prefix leaves is the rest: a text has a prefix exactly where it is that
/// prefix and something behind it.
pub proof fn law_prefix_and_rest(s: Seq<char>, p: Seq<char>, r: Seq<char>)
    ensures
        after_prefix(s, p) == Some(r) <==> s == p + r,
{
    if s == p + r {
        assert(s.subrange(0, 0 + p.len() as int) =~= p);
        assert(s.skip(p.len() as int) =~= r);
    }
    if after_prefix(s, p) == Some(r) {
        assert(s.subrange(0, 0 + p.len() as int) == p);
        assert(s =~= p + r);
    }
}

/// The first place of a character is before any other.
proof fn lemma_first_pos(s: Seq<char>, c: char)
    ensures
        0 <= first_pos(s, c) <= s.len(),
        forall|i: int| 0 <= i < first_pos(s, c) ==> #[trigger] s[i] != c,
        first_pos(s, c) < s.len() ==> s[first_pos(s, c)] == c,
    decreases s.len(),
{
    if s.len() > 0 && s[0] != c {
        let t = s.drop_first();
        lemma_first_pos(t, c);
        assert forall|i: int| 0 <= i < first_pos(s, c) implies #[trigger] s[i] != c by {
            if i > 0 {
                assert(t[i - 1] == s[i]);
            }
        }
    }
}

/// The last place of a character is behind any other.
proof fn lemma_last_pos(s: Seq<char>, c: char)
    ensures
        -1 <= last_pos(s, c) < s.len(),
        forall|i: int| last_pos(s, c) < i < s.len() ==> #[trigger] s[i] != c,
        last_pos(s, c) >= 0 ==> s[last_pos(s, c)] == c,
    decreases s.len(),
{
    if s.len() > 0 && s.last() != c {
        let t = s.drop_last();
        lemma_last_pos(t, c);
        assert forall|i: int| last_pos(s, c) < i < s.len() implies #[trigger] s[i] != c by {
            if i < t.len() {
                assert(t[i] == s[i]);
            }
        }
    }
}

/// A text is cut at the first separator, or at the last: the two parts with the
/// separator between are the text, and it does not stand in the part before, or
/// behind. A text without it is not cut.
pub proof fn law_cut_parts_are_the_text(s: Seq<char>, c: char)
    ensures
        match cut(s, c) {
            Some((a, b)) => s == a.push(c) + b && !a.contains(c),
            None => !s.contains(c),
        },
        match cut_last(s, c) {
            Some((a, b)) => s == a.push(c) + b && !b.contains(c),
            None => !s.contains(c),
        },
{
    lemma_first_pos(s, c);
    lemma_last_pos(s, c);
    let i = first_pos(s, c);
    if i < s.len() {
        assert(s =~= s.take(i).push(c) + s.skip(i + 1));
        assert(!s.take(i).contains(c));
    } else {
        assert(!s.contains(c));
    }
    let j = last_pos(s, c);
    if j >= 0 {
        assert(s =~= s.take(j).push(c) + s.skip(j + 1));
        let b = s.skip(j + 1);
        assert(!b.contains(c)) by {
            if b.contains(c) {
                let k = choose|k: int| 0 <= k < b.len() && b[k] == c;
                assert(s[j + 1 + k] == c);
            }
        }
    }
}

/// Replacing goes character by character: in two texts as in each, the one
/// character becomes what stands for it and any other stays.
pub proof fn law_replacing_goes_by_character(
    a: Seq<char>,
    b: Seq<char>,
    x: char,
    c: char,
    to: Seq<char>,
)
    ensures
        replaced(a + b, c, to) == replaced(a, c, to) + replaced(b, c, to),
        replaced(seq![x], c, to) == (if x == c {
            to
        } else {
            seq![x]
        }),
        replaced(Seq::empty(), c, to).len() == 0,
    decreases b.len(),
{
    let one = seq![x];
    assert(one.drop_last() =~= Seq::<char>::empty());
    assert(replaced(one.drop_last(), c, to) =~= Seq::<char>::empty());
    assert(replaced(one, c, to) =~= (if x == c {
        to
    } else {
        seq![x]
    }));
    if b.len() == 0 {
        assert(a + b =~= a);
        assert(replaced(a, c, to) + replaced(b, c, to) =~= replaced(a, c, to));
    } else {
        law_replacing_goes_by_character(a, b.drop_last(), x, c, to);
        assert((a + b).drop_last() =~= a + b.drop_last());
        assert((a + b).last() == b.last());
        assert(replaced(a + b, c, to) =~= replaced(a, c, to) + replaced(b, c, to));
    }
}

/// What is clipped is the start of the text: all of it where it is short enough,
/// otherwise as many characters as are allowed.
pub proof fn law_clipping_keeps_the_start(s: Seq<char>, n: nat)
    ensures
        clipped(s, n).len() == (if s.len() < n {
            s.len()
        } else {
            n
        }),
        forall|i: int| 0 <= i < clipped(s, n).len() ==> #[trigger] clipped(s, n)[i] == s[i],
{
}

/// Copies of one character are that character.
proof fn lemma_repeated(n: nat)
    ensures
        repeated(" "@, n).len() == n,
        forall|i: int| 0 <= i < n ==> #[trigger] repeated(" "@, n)[i] == ' ',
    decreases n,
{
    reveal_strlit(" ");
    if n > 0 {
        lemma_repeated((n - 1) as nat);
    }
}

/// Padding fills with spaces behind or before the text up to the width, and cuts
/// nothing.
pub proof fn law_padding_fills_with_spaces(s: Seq<char>, width: nat)
    ensures
        padded_right(s, width).len() == (if s.len() < width {
            width
        } else {
            s.len()
        }),
        padded_left(s, width).len() == padded_right(s, width).len(),
        padded_right(s, width).take(s.len() as int) == s,
        padded_left(s, width).skip(padded_left(s, width).len() - s.len()) == s,
        forall|i: int|
            s.len() <= i < padded_right(s, width).len() ==> #[trigger] padded_right(s, width)[i]
                == ' ',
{
    let n = (if s.len() < width {
        width - s.len()
    } else {
        0
    }) as nat;
    lemma_repeated(n);
    assert(padded_right(s, width).take(s.len() as int) =~= s);
    assert(padded_left(s, width).skip(padded_left(s, width).len() - s.len()) =~= s);
}

/// Texts are ordered by the first character in which they differ, and a text
/// comes before what it begins.
pub proof fn law_first_difference_orders(
    p: Seq<char>,
    a: char,
    x: Seq<char>,
    b: char,
    y: Seq<char>,
)
    ensures
        a != b ==> text_before(p + seq![a] + x, p + seq![b] + y) == ((a as u32) < (b as u32)),
        text_before(p, p + seq![a] + x),
        !text_before(p + seq![a] + x, p),
        !text_before(p, p),
    decreases p.len(),
{
    let l = p + seq![a] + x;
    let r = p + seq![b] + y;
    if p.len() > 0 {
        law_first_difference_orders(p.drop_first(), a, x, b, y);
        assert(l.drop_first() =~= p.drop_first() + seq![a] + x);
        assert(r.drop_first() =~= p.drop_first() + seq![b] + y);
        assert(l[0] == p[0] && r[0] == p[0]);
    } else {
        assert(l[0] == a && r[0] == b);
    }
}

/// Characters taken off an end are of those named, and what is left ends, or
/// begins, with another.
pub proof fn law_ends_are_taken_off(s: Seq<char>, cs: Seq<char>)
    ensures
        skip_any(s, cs).len() > 0 ==> !cs.contains(skip_any(s, cs)[0]),
        drop_any(s, cs).len() > 0 ==> !cs.contains(drop_any(s, cs).last()),
        s.len() > 0 && !cs.contains(s[0]) ==> skip_any(s, cs) == s,
        s.len() > 0 && !cs.contains(s.last()) ==> drop_any(s, cs) == s,
        skip_any(s, cs).len() <= s.len() && s.skip(s.len() - skip_any(s, cs).len()) == skip_any(
            s,
            cs,
        ),
        drop_any(s, cs).len() <= s.len() && s.take(drop_any(s, cs).len() as int) == drop_any(s, cs),
        forall|i: int| 0 <= i < s.len() - skip_any(s, cs).len() ==> cs.contains(#[trigger] s[i]),
        forall|i: int| drop_any(s, cs).len() <= i < s.len() ==> cs.contains(#[trigger] s[i]),
    decreases s.len(),
{
    if s.len() > 0 {
        let t = s.drop_first();
        let u = s.drop_last();
        law_ends_are_taken_off(t, cs);
        law_ends_are_taken_off(u, cs);
        if cs.contains(s[0]) {
            let k = skip_any(t, cs).len();
            assert(s.skip(s.len() - k) =~= t.skip(t.len() - k));
            assert forall|i: int| 0 <= i < s.len() - k implies cs.contains(#[trigger] s[i]) by {
                if i > 0 {
                    assert(t[i - 1] == s[i]);
                }
            }
        } else {
            assert(s.skip(0) =~= s);
        }
        if cs.contains(s.last()) {
            let k = drop_any(u, cs).len();
            assert(s.take(k as int) =~= u.take(k as int));
            assert forall|i: int| k <= i < s.len() implies cs.contains(#[trigger] s[i]) by {
                if i < u.len() {
                    assert(u[i] == s[i]);
                }
            }
        } else {
            assert(s.take(s.len() as int) =~= s);
        }
    } else {
        assert(s.skip(0) =~= s);
        assert(s.take(0) =~= s);
    }
}

} // verus!
