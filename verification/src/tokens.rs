//! Words of a text: the terms by which memories are indexed and found.
use crate::text::{
    ascii_lower, byte_len, chars_of, clip, clipped, count_fitting, drop_any, is_listed, join,
    joined, lemma_fitting, lemma_texts_push, listed, replace_char, replaced, same, split_char,
    split_on, split_white, texts, trim_end_any, words,
};
use vstd::prelude::*;
use vstd::utf8::is_ascii_chars;

verus! {

/// Whether a character is alphabetic or numeric in Unicode.
pub uninterp spec fn alphanumeric(c: char) -> bool;

/// Whether a character is an ASCII letter or digit.
pub open spec fn ascii_alphanumeric(c: char) -> bool {
    ('a' <= c && c <= 'z') || ('A' <= c && c <= 'Z') || ('0' <= c && c <= '9')
}

/// The lower-case equivalent of a text.
pub uninterp spec fn lowered(s: Seq<char>) -> Seq<char>;

/// `char::is_alphanumeric`; among ASCII characters it holds of the letters and
/// digits.
pub assume_specification[ char::is_alphanumeric ](c: char) -> (r: bool)
    ensures
        r == alphanumeric(c),
        (c as u32) < 128 ==> r == ascii_alphanumeric(c),
;

/// `str::to_lowercase`; an ASCII text has its capitals made small.
pub assume_specification[ str::to_lowercase ](s: &str) -> (r: String)
    ensures
        r@ == lowered(s@),
        is_ascii_chars(s@) ==> r@ == ascii_lower(s@),
;

/// The maximal runs of alphanumeric characters, and empty runs between two
/// neighbouring others: all pieces of a split at the others.
pub open spec fn runs(s: Seq<char>) -> Seq<Seq<char>>
    decreases s.len(),
{
    if s.len() == 0 {
        seq![Seq::<char>::empty()]
    } else {
        let r = runs(s.drop_last());
        if !alphanumeric(s.last()) {
            r.push(Seq::<char>::empty())
        } else {
            r.drop_last().push(r.last().push(s.last()))
        }
    }
}

/// The words that say nothing about a topic.
pub open spec fn stopwords() -> Seq<Seq<char>> {
    words(
        "the and for with from that this have been were they their what when where which will your about into through before after above below between each more also than then some other such only same both over here there just used using use via per can has not all but are was its our you her him his she they who src home tcovert"@,
    )
}

/// Whether a word is passed over. In a path `src` says something: it is a
/// directory like others there.
pub open spec fn passed_over(t: Seq<char>, in_path: bool) -> bool {
    listed(stopwords(), t) && !(in_path && t == "src"@)
}

/// The terms among some runs: those of at least two bytes, in lower case,
/// without the words that are passed over.
pub open spec fn terms(rs: Seq<Seq<char>>, in_path: bool) -> Seq<Seq<char>>
    decreases rs.len(),
{
    if rs.len() == 0 {
        Seq::empty()
    } else {
        let init = terms(rs.drop_last(), in_path);
        let t = lowered(rs.last());
        if byte_len(rs.last()) >= 2 && !passed_over(t, in_path) {
            init.push(t)
        } else {
            init
        }
    }
}

/// The terms of a text.
pub open spec fn tokens(s: Seq<char>) -> Seq<Seq<char>> {
    terms(runs(s), false)
}

/// The terms of the components of a path.
pub open spec fn path_tokens(s: Seq<char>) -> Seq<Seq<char>> {
    terms(runs(s), true)
}

/// The stop words.
fn read_stopwords() -> (r: Vec<String>)
    ensures
        texts(r@) == stopwords(),
{
    split_white(
        "the and for with from that this have been were they their what when where which will your about into through before after above below between each more also than then some other such only same both over here there just used using use via per can has not all but are was its our you her him his she they who src home tcovert",
    )
}

/// Splits a text at the characters that are not alphanumeric.
pub(crate) fn split_runs(s: &str) -> (r: Vec<String>)
    ensures
        texts(r@) == runs(s@),
{
    let v = chars_of(s);
    let mut out: Vec<String> = Vec::new();
    let mut cur = String::new();
    let mut i: usize = 0;
    assert(texts(out@).push(cur@) =~= runs(v@.take(0)));
    while i < v.len()
        invariant
            v@ == s@,
            i <= v@.len(),
            texts(out@).push(cur@) == runs(v@.take(i as int)),
        decreases v@.len() - i,
    {
        let ghost before = texts(out@).push(cur@);
        let c = v[i];
        assert(v@.take(i as int + 1).drop_last() =~= v@.take(i as int));
        assert(v@.take(i as int + 1).last() == c);
        assert(before.drop_last() =~= texts(out@));
        if !c.is_alphanumeric() {
            proof {
                lemma_texts_push(out@, cur);
            }
            out.push(cur);
            cur = String::new();
        } else {
            cur.push(c);
        }
        i = i + 1;
    }
    assert(v@.take(i as int) =~= s@);
    proof {
        lemma_texts_push(out@, cur);
    }
    out.push(cur);
    out
}

/// Whether a text takes at least two bytes.
fn has_two_bytes(s: &str) -> (r: bool)
    ensures
        r == (byte_len(s@) >= 2),
{
    let v = chars_of(s);
    let (k, _) = count_fitting(&v, 1);
    proof {
        lemma_fitting(v@, 1);
    }
    k < v.len()
}

/// The terms of a text, which is of a path or not.
fn take_terms(text: &str, in_path: bool) -> (r: Vec<String>)
    ensures
        texts(r@) == terms(runs(text@), in_path),
{
    let rs = split_runs(text);
    let stop = read_stopwords();
    let ghost all = texts(rs@);
    let mut out: Vec<String> = Vec::new();
    let mut i: usize = 0;
    assert(texts(out@) =~= terms(all.take(0), in_path));
    while i < rs.len()
        invariant
            all == texts(rs@),
            texts(stop@) == stopwords(),
            i <= rs@.len(),
            texts(out@) == terms(all.take(i as int), in_path),
        decreases rs@.len() - i,
    {
        assert(all.take(i as int + 1).drop_last() =~= all.take(i as int));
        assert(all.take(i as int + 1).last() == rs@[i as int]@);
        if has_two_bytes(rs[i].as_str()) {
            let t = rs[i].as_str().to_lowercase();
            if !is_listed(&stop, t.as_str()) || (in_path && same(t.as_str(), "src")) {
                proof {
                    lemma_texts_push(out@, t);
                }
                out.push(t);
            }
        }
        i = i + 1;
    }
    assert(all.take(i as int) =~= all);
    out
}

/// The terms of a text.
pub fn tokenize(text: &str) -> (r: Vec<String>)
    ensures
        texts(r@) == tokens(text@),
{
    take_terms(text, false)
}

/// The last two parts, the last one first, with a dash between.
pub open spec fn tail_parts(parts: Seq<Seq<char>>) -> Seq<char> {
    if parts.len() >= 2 {
        joined(seq![parts.last(), parts[parts.len() - 2]], "-"@)
    } else if parts.len() == 1 {
        joined(seq![parts.last()], "-"@)
    } else {
        Seq::empty()
    }
}

/// The terms of a working directory: those of its last two components.
pub open spec fn cwd_terms(cwd: Seq<char>) -> Seq<Seq<char>> {
    path_tokens(tail_parts(split_on(drop_any(cwd, "/"@), '/')))
}

/// The terms of a working directory.
pub fn signals_from_cwd(cwd: &str) -> (r: Vec<String>)
    ensures
        texts(r@) == cwd_terms(cwd@),
{
    let parts = split_char(trim_end_any(cwd, "/").as_str(), '/');
    let ghost all = texts(parts@);
    let mut tail: Vec<String> = Vec::new();
    let n: usize = parts.len();
    assert(all.last() == parts@[n - 1]@);
    tail.push(parts[n - 1].clone());
    if n >= 2 {
        assert(all[n - 2] == parts@[n - 2]@);
        tail.push(parts[n - 2].clone());
        assert(texts(tail@) =~= seq![all.last(), all[n - 2]]);
    } else {
        assert(texts(tail@) =~= seq![all.last()]);
    }
    let joined_tail = join(&tail, "-");
    take_terms(joined_tail.as_str(), true)
}

/// Whether a text has an alphanumeric character.
pub open spec fn has_word(s: Seq<char>) -> bool {
    exists|i: int| 0 <= i < s.len() && alphanumeric(#[trigger] s[i])
}

/// Decides [`has_word`].
pub fn holds_word(s: &str) -> (r: bool)
    ensures
        r == has_word(s@),
{
    let v = chars_of(s);
    let mut i: usize = 0;
    while i < v.len()
        invariant
            v@ == s@,
            i <= v@.len(),
            forall|k: int| 0 <= k < i ==> !alphanumeric(#[trigger] s@[k]),
        decreases v@.len() - i,
    {
        if v[i].is_alphanumeric() {
            assert(alphanumeric(s@[i as int]));
            return true;
        }
        i = i + 1;
    }
    false
}

/// A word as a quoted phrase, its own quotes doubled.
pub open spec fn phrase(w: Seq<char>) -> Seq<char> {
    "\""@ + replaced(w, '"', "\"\""@) + "\""@
}

/// The phrases of the words that have an alphanumeric character.
pub open spec fn phrases(ws: Seq<Seq<char>>) -> Seq<Seq<char>>
    decreases ws.len(),
{
    if ws.len() == 0 {
        Seq::empty()
    } else if has_word(ws.last()) {
        phrases(ws.drop_last()).push(phrase(ws.last()))
    } else {
        phrases(ws.drop_last())
    }
}

/// The full-text query for a free text: every word as a quoted phrase, all of
/// them required.
pub open spec fn match_query(raw: Seq<char>) -> Seq<char> {
    joined(phrases(words(raw)), " "@)
}

/// Quotes the words of a free text.
pub fn quoted_phrases(raw: &str) -> (r: Vec<String>)
    ensures
        texts(r@) == phrases(words(raw@)),
{
    let ws = split_white(raw);
    let ghost all = texts(ws@);
    let mut out: Vec<String> = Vec::new();
    let mut i: usize = 0;
    assert(texts(out@) =~= phrases(all.take(0)));
    while i < ws.len()
        invariant
            all == texts(ws@),
            i <= ws@.len(),
            texts(out@) == phrases(all.take(i as int)),
        decreases ws@.len() - i,
    {
        assert(all.take(i as int + 1).drop_last() =~= all.take(i as int));
        assert(all.take(i as int + 1).last() == ws@[i as int]@);
        if holds_word(ws[i].as_str()) {
            let mut p = "\"".to_string();
            p.append(replace_char(ws[i].as_str(), '"', "\"\"").as_str());
            p.append("\"");
            proof {
                lemma_texts_push(out@, p);
            }
            out.push(p);
        }
        i = i + 1;
    }
    assert(all.take(i as int) =~= all);
    out
}

/// Builds the full-text query for a free text. Empty where the text has no
/// word: then there is nothing to search for.
pub fn fts5_match_query(raw: &str) -> (r: String)
    ensures
        r@ == match_query(raw@),
{
    join(&quoted_phrases(raw), " ")
}

/// The weighted terms of a memory: each term once, with the sum of its weights
/// in half units, up to the largest number.
pub type Weights = Seq<(Seq<char>, u64)>;

/// One more weight for a term.
pub open spec fn bumped(ws: Weights, term: Seq<char>, w: u64) -> Weights
    decreases ws.len(),
{
    if ws.len() == 0 {
        seq![(term, w)]
    } else if ws.last().0 == term {
        ws.drop_last().push(
            (
                term,
                if ws.last().1 + w > u64::MAX {
                    u64::MAX
                } else {
                    (ws.last().1 + w) as u64
                },
            ),
        )
    } else {
        bumped(ws.drop_last(), term, w).push(ws.last())
    }
}

/// More weights for some terms.
pub open spec fn bumped_all(ws: Weights, ts: Seq<Seq<char>>, w: u64) -> Weights
    decreases ts.len(),
{
    if ts.len() == 0 {
        ws
    } else {
        bumped(bumped_all(ws, ts.drop_last(), w), ts.last(), w)
    }
}

/// The weights of a list of pairs.
pub open spec fn weights_view(v: Seq<(String, u64)>) -> Weights {
    v.map_values(|p: (String, u64)| (p.0@, p.1))
}

/// Adds a weight for a term.
fn bump(ws: &mut Vec<(String, u64)>, term: &str, w: u64)
    ensures
        weights_view(final(ws)@) == bumped(weights_view(old(ws)@), term@, w),
{
    let ghost start = weights_view(ws@);
    let mut n: usize = ws.len();
    assert(start.take(n as int) =~= start);
    assert(start.skip(n as int) =~= Seq::empty());
    assert(bumped(start, term@, w) =~= bumped(start.take(n as int), term@, w) + start.skip(
        n as int,
    ));
    while n > 0
        invariant
            n <= ws@.len(),
            weights_view(ws@) == start,
            start == weights_view(old(ws)@),
            bumped(start, term@, w) == bumped(start.take(n as int), term@, w) + start.skip(
                n as int,
            ),
        decreases n,
    {
        let ghost part = start.take(n as int);
        assert(part.last() == (ws@[n - 1].0@, ws@[n - 1].1));
        assert(part.drop_last() =~= start.take(n - 1));
        if crate::text::same(ws[n - 1].0.as_str(), term) {
            let sum: u64 = if ws[n - 1].1 > u64::MAX - w {
                u64::MAX
            } else {
                ws[n - 1].1 + w
            };
            let t = ws[n - 1].0.clone();
            let ghost before = ws@;
            ws.set(n - 1, (t, sum));
            assert(weights_view(ws@) =~= start.update(n - 1, (term@, sum)));
            assert(start.update(n - 1, (term@, sum)) =~= part.drop_last().push((term@, sum))
                + start.skip(n as int));
            return;
        }
        assert(bumped(part.drop_last(), term@, w).push(part.last()) + start.skip(n as int)
            =~= bumped(start.take(n - 1), term@, w) + start.skip(n - 1)) by {
            assert(start.skip(n - 1) =~= seq![part.last()] + start.skip(n as int));
        }
        n = n - 1;
    }
    // A new term goes first.
    let t = term.to_owned();
    let ghost before = ws@;
    ws.insert(0, (t, w));
    assert(start.take(0) =~= Seq::empty());
    assert(start.skip(0) =~= start);
    assert(weights_view(ws@) =~= seq![(term@, w)] + start);
}

/// Adds a weight for each of some terms.
fn bump_all(ws: &mut Vec<(String, u64)>, ts: &Vec<String>, w: u64)
    ensures
        weights_view(final(ws)@) == bumped_all(weights_view(old(ws)@), texts(ts@), w),
{
    let ghost start = weights_view(ws@);
    let ghost all = texts(ts@);
    let mut i: usize = 0;
    assert(all.take(0).len() == 0);
    while i < ts.len()
        invariant
            all == texts(ts@),
            i <= ts@.len(),
            weights_view(ws@) == bumped_all(start, all.take(i as int), w),
        decreases ts@.len() - i,
    {
        assert(all.take(i as int + 1).drop_last() =~= all.take(i as int));
        assert(all.take(i as int + 1).last() == ts@[i as int]@);
        bump(ws, ts[i].as_str(), w);
        i = i + 1;
    }
    assert(all.take(i as int) =~= all);
}

/// The weighted terms of a memory: tags weigh most, then the name and the
/// working directory, then the description, then the start of the content.
pub open spec fn memory_terms(
    tags: Seq<char>,
    name: Seq<char>,
    description: Seq<char>,
    content: Seq<char>,
    cwd: Seq<char>,
) -> Weights {
    let ws = bumped_all(Seq::empty(), tokens(tags), 6);
    let ws = bumped_all(ws, tokens(name), 4);
    let ws = bumped_all(ws, tokens(description), 3);
    let ws = bumped_all(ws, tokens(clipped(content, 300)), 2);
    if cwd.len() > 0 {
        bumped_all(ws, cwd_terms(cwd), 4)
    } else {
        ws
    }
}

/// Weighs the terms of a memory.
pub fn weigh_terms(tags: &str, name: &str, description: &str, content: &str, cwd: &str) -> (r: Vec<
    (String, u64),
>)
    ensures
        weights_view(r@) == memory_terms(tags@, name@, description@, content@, cwd@),
{
    let mut ws: Vec<(String, u64)> = Vec::new();
    assert(weights_view(ws@) =~= Seq::empty());
    bump_all(&mut ws, &tokenize(tags), 6);
    bump_all(&mut ws, &tokenize(name), 4);
    bump_all(&mut ws, &tokenize(description), 3);
    bump_all(&mut ws, &tokenize(clip(content, 300).as_str()), 2);
    if !cwd.is_empty() {
        bump_all(&mut ws, &signals_from_cwd(cwd), 4);
    }
    ws
}

} // verus!
