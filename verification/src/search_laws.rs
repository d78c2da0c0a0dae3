//! What a search owes: every word is required and none is read as an operator,
//! the best match comes first before the limit cuts, and each filter that is
//! asked for is in the statement with its value.
use crate::kx::{tag_sql, tag_values, KxFiltersV};
use crate::search::{author_part, scope_part, search_bound, search_sql, type_part};
use crate::sql::{placeholders, ScopeV, SqlV, TypeV};
use crate::text::{contains, occurs_at, replaced};
use crate::tokens::{has_word, match_query, phrase, phrases};
use vstd::prelude::*;

verus! {

/// A part of a concatenation occurs in it.
proof fn lemma_part(a: Seq<char>, p: Seq<char>, b: Seq<char>)
    ensures
        contains(a + p + b, p),
{
    assert((a + p + b).subrange(a.len() as int, (a.len() + p.len()) as int) =~= p);
    assert(occurs_at(a + p + b, p, a.len() as int));
}

/// The best match comes first: whatever is asked for, the statement orders by the
/// full-text rank, the smallest and so the best first, and only then cuts to the
/// limit, which is the last value bound.
pub proof fn law_search_is_best_first(
    query: Seq<char>,
    type_: TypeV,
    scope: ScopeV,
    author: Option<Seq<char>>,
    extra: KxFiltersV,
    limit: i64,
)
    ensures
        ({
            let sql = search_sql(type_, scope, author, extra);
            let tail = " ORDER BY rank LIMIT ?"@;
            sql.len() >= tail.len() && sql.skip(sql.len() - tail.len()) == tail
        }),
        search_bound(query, type_, scope, author, extra, limit).last() == SqlV::Integer(
            limit as int,
        ),
{
    let sql = search_sql(type_, scope, author, extra);
    let tail = " ORDER BY rank LIMIT ?"@;
    assert(sql.skip(sql.len() - tail.len()) =~= tail);
}

/// A search looks for the words of the query among active memories: it begins so
/// whatever is asked for beside, and the words are the first value bound.
pub proof fn law_search_reads_active_memories(
    query: Seq<char>,
    type_: TypeV,
    scope: ScopeV,
    author: Option<Seq<char>>,
    extra: KxFiltersV,
    limit: i64,
)
    ensures
        ({
            let sql = search_sql(type_, scope, author, extra);
            let head =
                "SELECT m.id FROM memories_fts fts JOIN memories m ON m.rowid = fts.rowid WHERE memories_fts MATCH ? AND m.is_active = 1"@;
            sql.len() >= head.len() && sql.take(head.len() as int) == head
        }),
        search_bound(query, type_, scope, author, extra, limit)[0] == SqlV::Text(
            match_query(query),
        ),
{
    let sql = search_sql(type_, scope, author, extra);
    let head =
        "SELECT m.id FROM memories_fts fts JOIN memories m ON m.rowid = fts.rowid WHERE memories_fts MATCH ? AND m.is_active = 1"@;
    assert(sql.take(head.len() as int) =~= head);
}

/// What a search statement begins with.
spec fn search_base() -> Seq<char> {
    "SELECT m.id FROM memories_fts fts JOIN memories m ON m.rowid = fts.rowid WHERE memories_fts MATCH ? AND m.is_active = 1"@
}

/// The parts of the texts of type filters.
proof fn lemma_type_texts()
    ensures
        " AND "@ + "m.type"@ + " != 'kx'"@ == " AND m.type != 'kx'"@,
        " AND "@ + "m.type"@ + " = ?"@ == " AND m.type = ?"@,
        " AND "@ + "m.type"@ + " != 'kx' AND "@ + "m.type"@ + " = ?"@ == " AND m.type != 'kx'"@
            + " AND m.type = ?"@,
{
    reveal_strlit(" AND ");
    reveal_strlit("m.type");
    reveal_strlit(" != 'kx'");
    reveal_strlit(" != 'kx' AND ");
    reveal_strlit(" = ?");
    reveal_strlit(" AND m.type != 'kx'");
    reveal_strlit(" AND m.type = ?");
    assert(" AND "@ + "m.type"@ + " != 'kx'"@ =~= " AND m.type != 'kx'"@);
    assert(" AND "@ + "m.type"@ + " = ?"@ =~= " AND m.type = ?"@);
    assert(" AND "@ + "m.type"@ + " != 'kx' AND "@ + "m.type"@ + " = ?"@
        =~= " AND m.type != 'kx'"@ + " AND m.type = ?"@);
}

/// The knowledge index is kept out unless it is asked for, and the type that is
/// asked for is tested and bound.
pub proof fn law_search_tests_the_type(
    query: Seq<char>,
    type_: TypeV,
    scope: ScopeV,
    author: Option<Seq<char>>,
    extra: KxFiltersV,
    limit: i64,
)
    ensures
        ({
            let sql = search_sql(type_, scope, author, extra);
            let bound = search_bound(query, type_, scope, author, extra, limit);
            &&& type_ is ExcludeKx ==> contains(sql, " AND m.type != 'kx'"@)
            &&& type_ is ExcludeKx && type_->ExcludeKx_0 is Some ==> contains(
                sql,
                " AND m.type = ?"@,
            ) && bound.contains(SqlV::Text(type_->ExcludeKx_0->0))
            &&& type_ is Only ==> contains(sql, " AND m.type = ?"@) && bound.contains(
                SqlV::Text(type_->Only_0),
            )
        }),
{
    let sql = search_sql(type_, scope, author, extra);
    let bound = search_bound(query, type_, scope, author, extra, limit);
    let base = search_base();
    let tail = " ORDER BY rank LIMIT ?"@;
    let t = type_part(type_);
    let a = author_part(author);
    let s = scope_part(scope);
    let x = extra.sql("m"@);
    let rest = a.0 + s.0 + x + tail;
    assert(sql =~= base + t.0 + rest);
    lemma_type_texts();
    match type_ {
        TypeV::ExcludeKx(None) => {
            lemma_part(base, t.0, rest);
        },
        TypeV::ExcludeKx(Some(v)) => {
            let p = " AND m.type != 'kx'"@;
            let q = " AND m.type = ?"@;
            assert(t.0 == p + q);
            assert(sql =~= base + p + (q + rest));
            lemma_part(base, p, q + rest);
            assert(sql =~= (base + p) + q + rest);
            lemma_part(base + p, q, rest);
            assert(bound[1] == SqlV::Text(v));
        },
        TypeV::Only(v) => {
            lemma_part(base, t.0, rest);
            assert(bound[1] == SqlV::Text(v));
        },
    }
}

/// The author that is asked for is tested and bound.
pub proof fn law_search_tests_the_author(
    query: Seq<char>,
    type_: TypeV,
    scope: ScopeV,
    author: Option<Seq<char>>,
    extra: KxFiltersV,
    limit: i64,
)
    requires
        author is Some,
    ensures
        contains(search_sql(type_, scope, author, extra), " AND m.author = ?"@),
        search_bound(query, type_, scope, author, extra, limit).contains(SqlV::Text(author->0)),
{
    let sql = search_sql(type_, scope, author, extra);
    let bound = search_bound(query, type_, scope, author, extra, limit);
    let base = search_base();
    let tail = " ORDER BY rank LIMIT ?"@;
    let t = type_part(type_);
    let a = author_part(author);
    let s = scope_part(scope);
    let x = extra.sql("m"@);
    assert(sql =~= (base + t.0) + a.0 + (s.0 + x + tail));
    lemma_part(base + t.0, a.0, s.0 + x + tail);
    assert(bound[(1 + t.1.len()) as int] == SqlV::Text(author->0));
}

/// The scopes that are asked for are tested, and every one of them is bound.
pub proof fn law_search_tests_the_scope(
    query: Seq<char>,
    type_: TypeV,
    scope: ScopeV,
    author: Option<Seq<char>>,
    extra: KxFiltersV,
    limit: i64,
)
    requires
        scope is Only,
    ensures
        contains(search_sql(type_, scope, author, extra), " AND m.scope IN ("@),
        forall|k: int|
            0 <= k < scope->Only_0.len() ==> search_bound(
                query,
                type_,
                scope,
                author,
                extra,
                limit,
            ).contains(SqlV::Text(#[trigger] scope->Only_0[k])),
{
    let sql = search_sql(type_, scope, author, extra);
    let bound = search_bound(query, type_, scope, author, extra, limit);
    let base = search_base();
    let tail = " ORDER BY rank LIMIT ?"@;
    let t = type_part(type_);
    let a = author_part(author);
    let s = scope_part(scope);
    let x = extra.sql("m"@);
    let v = scope->Only_0;
    let p = " AND m.scope IN ("@;
    assert(" AND "@ + "m.scope"@ + " IN ("@ =~= p) by {
        reveal_strlit(" AND ");
        reveal_strlit("m.scope");
        reveal_strlit(" IN (");
        reveal_strlit(" AND m.scope IN (");
    }
    let rest = placeholders(v.len()) + ")"@;
    assert(s.0 =~= p + rest);
    assert(sql =~= (base + t.0 + a.0) + p + (rest + x + tail));
    lemma_part(base + t.0 + a.0, p, rest + x + tail);
    assert forall|k: int| 0 <= k < v.len() implies bound.contains(SqlV::Text(#[trigger] v[k])) by {
        assert(s.1[k] == SqlV::Text(v[k]));
        assert(bound[1 + t.1.len() + a.1.len() + k] == SqlV::Text(v[k]));
    }
}

/// The two ends of the days that are asked for are tested, the later one
/// excluded, and bound.
pub proof fn law_search_tests_the_days(
    query: Seq<char>,
    type_: TypeV,
    scope: ScopeV,
    author: Option<Seq<char>>,
    extra: KxFiltersV,
    limit: i64,
)
    ensures
        extra.from is Some ==> contains(
            search_sql(type_, scope, author, extra),
            " AND m.valid_from >= ?"@,
        ) && search_bound(query, type_, scope, author, extra, limit).contains(
            SqlV::Integer(extra.from->0),
        ),
        extra.to_exclusive is Some ==> contains(
            search_sql(type_, scope, author, extra),
            " AND m.valid_from < ?"@,
        ) && search_bound(query, type_, scope, author, extra, limit).contains(
            SqlV::Integer(extra.to_exclusive->0),
        ),
{
    let sql = search_sql(type_, scope, author, extra);
    let bound = search_bound(query, type_, scope, author, extra, limit);
    let base = search_base();
    let tail = " ORDER BY rank LIMIT ?"@;
    let t = type_part(type_);
    let a = author_part(author);
    let s = scope_part(scope);
    let x = extra.sql("m"@);
    let f = " AND m.valid_from >= ?"@;
    let g = " AND m.valid_from < ?"@;
    assert(" AND "@ + "m"@ + ".valid_from >= ?"@ =~= f) by {
        reveal_strlit(" AND ");
        reveal_strlit("m");
        reveal_strlit(".valid_from >= ?");
        reveal_strlit(" AND m.valid_from >= ?");
    }
    assert(" AND "@ + "m"@ + ".valid_from < ?"@ =~= g) by {
        reveal_strlit(" AND ");
        reveal_strlit("m");
        reveal_strlit(".valid_from < ?");
        reveal_strlit(" AND m.valid_from < ?");
    }
    let front = base + t.0 + a.0 + s.0;
    let tags = tag_sql(extra.tags.len(), "m"@);
    let pre = 1 + t.1.len() + a.1.len() + s.1.len() + tag_values(extra.tags).len();
    if extra.from is Some {
        let after = if extra.to_exclusive is Some {
            g
        } else {
            Seq::empty()
        };
        assert(sql =~= (front + tags) + f + (after + tail));
        lemma_part(front + tags, f, after + tail);
        assert(bound[pre as int] == SqlV::Integer(extra.from->0));
    }
    if extra.to_exclusive is Some {
        let mid = if extra.from is Some {
            f
        } else {
            Seq::empty()
        };
        assert(sql =~= (front + tags + mid) + g + tail);
        lemma_part(front + tags + mid, g, tail);
        let n = if extra.from is Some {
            pre + 1
        } else {
            pre
        };
        assert(bound[n as int] == SqlV::Integer(extra.to_exclusive->0));
    }
}

/// Every word of a query that has a letter or digit is looked for as a phrase of
/// its own, in order, and nothing else is.
pub proof fn law_every_word_is_required(ws: Seq<Seq<char>>)
    ensures
        forall|i: int|
            0 <= i < ws.len() && has_word(#[trigger] ws[i]) ==> phrases(ws).contains(phrase(ws[i])),
        forall|k: int|
            0 <= k < phrases(ws).len() ==> exists|i: int|
                0 <= i < ws.len() && has_word(#[trigger] ws[i]) && #[trigger] phrases(ws)[k]
                    == phrase(ws[i]),
        phrases(ws).len() <= ws.len(),
    decreases ws.len(),
{
    if ws.len() > 0 {
        let prev = ws.drop_last();
        law_every_word_is_required(prev);
        let p = phrases(ws);
        let init = phrases(prev);
        assert forall|i: int| 0 <= i < ws.len() && has_word(#[trigger] ws[i]) implies p.contains(
            phrase(ws[i]),
        ) by {
            if i < prev.len() {
                assert(prev[i] == ws[i]);
                let k = choose|k: int| 0 <= k < init.len() && init[k] == phrase(prev[i]);
                assert(p[k] == phrase(ws[i]));
            } else {
                assert(p[p.len() - 1] == phrase(ws[i]));
            }
        }
        assert forall|k: int| 0 <= k < p.len() implies exists|i: int|
            0 <= i < ws.len() && has_word(#[trigger] ws[i]) && #[trigger] p[k] == phrase(ws[i]) by {
            if k < init.len() {
                assert(p[k] == init[k]);
                let i = choose|i: int|
                    0 <= i < prev.len() && has_word(#[trigger] prev[i]) && #[trigger] init[k]
                        == phrase(prev[i]);
                assert(ws[i] == prev[i]);
            } else {
                assert(ws[ws.len() - 1] == ws.last());
            }
        }
    }
}

/// Text with its quotes doubled tells what it was.
proof fn lemma_doubled_is_injective(a: Seq<char>, b: Seq<char>)
    requires
        replaced(a, '"', "\"\""@) == replaced(b, '"', "\"\""@),
    ensures
        a == b,
    decreases a.len() + b.len(),
{
    reveal_strlit("\"\"");
    let two = "\"\""@;
    assert(two.len() == 2 && two[0] == '"' && two[1] == '"');
    lemma_doubled_last(a);
    lemma_doubled_last(b);
    if a.len() == 0 {
        assert(b.len() == 0);
        assert(a =~= b);
    } else if b.len() == 0 {
        assert(false);
    } else {
        let x = replaced(a, '"', two);
        let y = replaced(b, '"', two);
        assert(x.last() == y.last());
        assert(a.last() == b.last());
        let n = if a.last() == '"' {
            2int
        } else {
            1int
        };
        assert(replaced(a.drop_last(), '"', two) =~= x.take(x.len() - n));
        assert(replaced(b.drop_last(), '"', two) =~= y.take(y.len() - n));
        lemma_doubled_is_injective(a.drop_last(), b.drop_last());
        assert(a =~= a.drop_last().push(a.last()));
        assert(b =~= b.drop_last().push(b.last()));
    }
}

/// Doubling quotes keeps the last character.
proof fn lemma_doubled_last(a: Seq<char>)
    ensures
        a.len() == 0 <==> replaced(a, '"', "\"\""@).len() == 0,
        a.len() > 0 ==> replaced(a, '"', "\"\""@).last() == a.last(),
{
    reveal_strlit("\"\"");
}

/// A phrase stands in quotes and tells the word it was made of: two words never
/// become the same phrase.
pub proof fn law_phrase_quotes_the_word(a: Seq<char>, b: Seq<char>)
    ensures
        phrase(a).len() >= 2 && phrase(a)[0] == '"' && phrase(a).last() == '"',
        phrase(a) == phrase(b) ==> a == b,
{
    reveal_strlit("\"");
    let q = "\""@;
    let x = replaced(a, '"', "\"\""@);
    let y = replaced(b, '"', "\"\""@);
    if phrase(a) == phrase(b) {
        assert(x =~= phrase(a).subrange(1, phrase(a).len() - 1));
        assert(y =~= phrase(b).subrange(1, phrase(b).len() - 1));
        lemma_doubled_is_injective(a, b);
    }
}

} // verus!
