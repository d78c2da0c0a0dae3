//! The statement that finds memories by words.
use crate::kx::{KxFilters, KxFiltersV};
use crate::sql::{
    lemma_values_push, placeholders, text_values, values, ScopeFilter, ScopeV, SqlV, SqlValue,
    TypeFilter, TypeV,
};
use crate::text::opt_text;
use crate::tokens::{fts5_match_query, match_query};
use vstd::prelude::*;

verus! {

/// A statement with its bound values, in order.
#[derive(Debug)]
pub struct Statement {
    pub sql: String,
    pub bound: Vec<SqlValue>,
}

/// The part of the statement that tests the type, and its bound values.
pub open spec fn type_part(t: TypeV) -> (Seq<char>, Seq<SqlV>) {
    match t {
        TypeV::ExcludeKx(None) => (" AND "@ + "m.type"@ + " != 'kx'"@, Seq::empty()),
        TypeV::ExcludeKx(Some(x)) => (
            " AND "@ + "m.type"@ + " != 'kx' AND "@ + "m.type"@ + " = ?"@,
            seq![SqlV::Text(x)],
        ),
        TypeV::Only(x) => (" AND "@ + "m.type"@ + " = ?"@, seq![SqlV::Text(x)]),
    }
}

/// The part of the statement that tests the author.
pub open spec fn author_part(a: Option<Seq<char>>) -> (Seq<char>, Seq<SqlV>) {
    match a {
        Some(x) => (" AND m.author = ?"@, seq![SqlV::Text(x)]),
        None => (Seq::empty(), Seq::empty()),
    }
}

/// The part of the statement that tests the scope.
pub open spec fn scope_part(s: ScopeV) -> (Seq<char>, Seq<SqlV>) {
    match s {
        ScopeV::All => (Seq::empty(), Seq::empty()),
        ScopeV::Only(v) => (
            " AND "@ + "m.scope"@ + " IN ("@ + placeholders(v.len()) + ")"@,
            text_values(v),
        ),
    }
}

/// The statement that finds memories by words, the best first.
pub open spec fn search_sql(
    type_: TypeV,
    scope: ScopeV,
    author: Option<Seq<char>>,
    extra: KxFiltersV,
) -> Seq<char> {
    "SELECT m.id FROM memories_fts fts JOIN memories m ON m.rowid = fts.rowid WHERE memories_fts MATCH ? AND m.is_active = 1"@
        + type_part(type_).0 + author_part(author).0 + scope_part(scope).0 + extra.sql("m"@)
        + " ORDER BY rank LIMIT ?"@
}

/// What is bound to that statement.
pub open spec fn search_bound(
    query: Seq<char>,
    type_: TypeV,
    scope: ScopeV,
    author: Option<Seq<char>>,
    extra: KxFiltersV,
    limit: i64,
) -> Seq<SqlV> {
    (seq![SqlV::Text(match_query(query))] + type_part(type_).1 + author_part(author).1 + scope_part(
        scope,
    ).1 + extra.bound()).push(SqlV::Integer(limit as int))
}

/// Appends bound values.
fn bind_all(out: &mut Vec<SqlValue>, more: Vec<SqlValue>)
    ensures
        values(final(out)@) == values(old(out)@) + values(more@),
{
    let ghost before = out@;
    let ghost all = more@;
    let mut rest = more;
    out.append(&mut rest);
    assert(values(out@) =~= values(before) + values(all));
}

/// Makes the statement for a search; none where no term is left of the query.
/// Every term of the query is bound as a quoted phrase, so that none of it is
/// read as an operator.
pub fn search_statement(
    query: &str,
    type_: &TypeFilter,
    scope: &ScopeFilter,
    author: &Option<String>,
    extra: &KxFilters,
    limit: i64,
) -> (r: Option<Statement>)
    ensures
        match r {
            None => match_query(query@).len() == 0,
            Some(s) => match_query(query@).len() > 0 && s.sql@ == search_sql(
                type_@,
                scope@,
                opt_text(*author),
                extra@,
            ) && values(s.bound@) == search_bound(
                query@,
                type_@,
                scope@,
                opt_text(*author),
                extra@,
                limit,
            ),
        },
{
    let matched = fts5_match_query(query);
    if matched.as_str().is_empty() {
        return None;
    }
    let (type_sql, type_vals) = type_.sql_and("m.type");
    let (scope_sql, scope_vals) = scope.sql_and("m.scope");
    let (extra_sql, extra_vals) = extra.predicates("m");
    assert(type_sql@ =~= type_part(type_@).0 && values(type_vals@) =~= type_part(type_@).1);
    assert(scope_sql@ =~= scope_part(scope@).0 && values(scope_vals@) =~= scope_part(scope@).1);
    let mut author_sql = String::new();
    let mut author_vals: Vec<SqlValue> = Vec::new();
    if let Some(a) = author {
        author_sql = " AND m.author = ?".to_string();
        author_vals.push(SqlValue::Text(a.clone()));
    }
    assert(author_sql@ =~= author_part(opt_text(*author)).0);
    assert(values(author_vals@) =~= author_part(opt_text(*author)).1);
    let mut sql =
        "SELECT m.id FROM memories_fts fts JOIN memories m ON m.rowid = fts.rowid WHERE memories_fts MATCH ? AND m.is_active = 1".to_string();
    sql.append(type_sql.as_str());
    sql.append(author_sql.as_str());
    sql.append(scope_sql.as_str());
    sql.append(extra_sql.as_str());
    sql.append(" ORDER BY rank LIMIT ?");
    let mut bound: Vec<SqlValue> = Vec::new();
    bound.push(SqlValue::Text(matched));
    assert(values(bound@) =~= seq![SqlV::Text(match_query(query@))]);
    bind_all(&mut bound, type_vals);
    bind_all(&mut bound, author_vals);
    bind_all(&mut bound, scope_vals);
    bind_all(&mut bound, extra_vals);
    let last = SqlValue::Integer(limit);
    proof {
        lemma_values_push(bound@, last);
    }
    bound.push(last);
    Some(Statement { sql, bound })
}

} // verus!
