//! Query filters: which rows a read sees, as a test on a row and as a fragment
//! of a statement with its bound values.
use crate::settings::{either, nonempty, Settings, SettingsV};
use crate::text::{is_listed, joined, join, listed, opt_text, same, texts};
use vstd::prelude::*;

verus! {

/// A value bound to a placeholder.
#[derive(Debug)]
pub enum SqlValue {
    Text(String),
    Integer(i64),
}

/// What a bound value is.
pub enum SqlV {
    Text(Seq<char>),
    Integer(int),
}

impl View for SqlValue {
    type V = SqlV;

    open spec fn view(&self) -> SqlV {
        match self {
            SqlValue::Text(s) => SqlV::Text(s@),
            SqlValue::Integer(i) => SqlV::Integer(*i as int),
        }
    }
}

/// What a list of bound values is.
pub open spec fn values(v: Seq<SqlValue>) -> Seq<SqlV> {
    v.map_values(|x: SqlValue| x@)
}

/// One more bound value.
pub proof fn lemma_values_push(v: Seq<SqlValue>, x: SqlValue)
    ensures
        values(v.push(x)) == values(v).push(x@),
{
    assert(values(v.push(x)) =~= values(v).push(x@));
}

/// Texts as bound values.
pub open spec fn text_values(v: Seq<Seq<char>>) -> Seq<SqlV> {
    v.map_values(|s: Seq<char>| SqlV::Text(s))
}

/// `n` placeholders with commas between.
pub open spec fn placeholders(n: nat) -> Seq<char> {
    joined(Seq::new(n, |i: int| "?"@), ", "@)
}

/// Writes `n` placeholders.
pub fn write_placeholders(n: usize) -> (r: String)
    ensures
        r@ == placeholders(n as nat),
{
    let mut marks: Vec<String> = Vec::new();
    let mut i: usize = 0;
    while i < n
        invariant
            i <= n,
            marks@.len() == i,
            forall|k: int| 0 <= k < i ==> (#[trigger] marks@[k])@ == "?"@,
        decreases n - i,
    {
        marks.push("?".to_string());
        i = i + 1;
    }
    assert(texts(marks@) =~= Seq::new(n as nat, |i: int| "?"@));
    join(&marks, ", ")
}

/// Copies texts into bound values.
pub fn bind_texts(v: &Vec<String>) -> (r: Vec<SqlValue>)
    ensures
        values(r@) == text_values(texts(v@)),
{
    let mut out: Vec<SqlValue> = Vec::new();
    let mut i: usize = 0;
    while i < v.len()
        invariant
            i <= v@.len(),
            out@.len() == i,
            forall|k: int| 0 <= k < i ==> (#[trigger] out@[k])@ == SqlV::Text(v@[k]@),
        decreases v@.len() - i,
    {
        out.push(SqlValue::Text(v[i].clone()));
        i = i + 1;
    }
    assert(values(out@) =~= text_values(texts(v@)));
    out
}

/// Which scopes a read sees.
#[derive(Debug)]
pub enum ScopeFilter {
    /// Every scope.
    All,
    /// The listed scopes only.
    Only(Vec<String>),
}

/// What a scope filter is.
pub enum ScopeV {
    All,
    Only(Seq<Seq<char>>),
}

impl View for ScopeFilter {
    type V = ScopeV;

    open spec fn view(&self) -> ScopeV {
        match self {
            ScopeFilter::All => ScopeV::All,
            ScopeFilter::Only(v) => ScopeV::Only(texts(v@)),
        }
    }
}

impl ScopeV {
    /// Whether the filter lets a scope through.
    pub open spec fn admits(self, scope: Seq<char>) -> bool {
        match self {
            ScopeV::All => true,
            ScopeV::Only(v) => listed(v, scope),
        }
    }
}

/// The filter for a scope name: a profile sees itself and what is shared,
/// `shared` only what is shared, `*` and no name everything.
pub open spec fn scope_filter(name: Option<Seq<char>>) -> ScopeV {
    match nonempty(name) {
        None => ScopeV::All,
        Some(s) => if s == "*"@ {
            ScopeV::All
        } else if s == "shared"@ {
            ScopeV::Only(seq!["shared"@])
        } else {
            ScopeV::Only(seq![s, "shared"@])
        },
    }
}

/// The scope that a write goes to: the flag's, else the profile's, else shared.
pub open spec fn write_scope(flag: Option<Seq<char>>, s: SettingsV) -> Seq<char> {
    match either(nonempty(flag), nonempty(s.var("CLAUDE_PROFILE"@))) {
        Some(x) => x,
        None => "shared"@,
    }
}

/// Resolves the scope that a write goes to.
pub fn resolve_write_scope(flag: &Option<String>, s: &Settings) -> (r: String)
    ensures
        r@ == write_scope(opt_text(*flag), s@),
{
    if let Some(f) = flag {
        if !f.as_str().is_empty() {
            return f.clone();
        }
    }
    match s.nonempty_var("CLAUDE_PROFILE") {
        Some(p) => p,
        None => "shared".to_string(),
    }
}

impl ScopeFilter {
    /// The filter for a scope name.
    pub fn from_resolved(resolved: &Option<String>) -> (r: ScopeFilter)
        ensures
            r@ == scope_filter(opt_text(*resolved)),
    {
        match resolved {
            None => ScopeFilter::All,
            Some(s) => {
                if s.as_str().is_empty() || same(s.as_str(), "*") {
                    return ScopeFilter::All;
                }
                let mut v: Vec<String> = Vec::new();
                if !same(s.as_str(), "shared") {
                    v.push(s.clone());
                    v.push("shared".to_string());
                    assert(texts(v@) =~= seq![s@, "shared"@]);
                } else {
                    v.push("shared".to_string());
                    assert(texts(v@) =~= seq!["shared"@]);
                }
                ScopeFilter::Only(v)
            },
        }
    }

    /// The filter at the start of a session: the flag's, else the profile's,
    /// else everything.
    pub fn for_context(flag: &Option<String>, s: &Settings) -> (r: ScopeFilter)
        ensures
            r@ == scope_filter(either(opt_text(*flag), nonempty(s@.var("CLAUDE_PROFILE"@)))),
    {
        match flag {
            Some(f) => ScopeFilter::from_resolved(flag),
            None => ScopeFilter::from_resolved(&s.nonempty_var("CLAUDE_PROFILE")),
        }
    }

    /// The filter of a search: everything unless a scope is given.
    pub fn for_explicit(flag: &Option<String>) -> (r: ScopeFilter)
        ensures
            r@ == scope_filter(opt_text(*flag)),
    {
        ScopeFilter::from_resolved(flag)
    }

    /// Whether the filter lets a scope through.
    pub fn admits(&self, scope: &str) -> (r: bool)
        ensures
            r == self@.admits(scope@),
    {
        match self {
            ScopeFilter::All => true,
            ScopeFilter::Only(v) => is_listed(v, scope),
        }
    }

    /// The fragment that tests a column, with its bound values in order.
    pub fn sql_and(&self, col: &str) -> (r: (String, Vec<SqlValue>))
        ensures
            match self@ {
                ScopeV::All => r.0@.len() == 0 && r.1@.len() == 0,
                ScopeV::Only(v) => r.0@ == " AND "@ + col@ + " IN ("@ + placeholders(v.len()) + ")"@
                    && values(r.1@) == text_values(v),
            },
    {
        match self {
            ScopeFilter::All => (String::new(), Vec::new()),
            ScopeFilter::Only(v) => {
                let mut frag = " AND ".to_string();
                frag.append(col);
                frag.append(" IN (");
                frag.append(write_placeholders(v.len()).as_str());
                frag.append(")");
                (frag, bind_texts(v))
            },
        }
    }
}

/// How a read constrains the type: the knowledge index is kept out of ordinary
/// memory, or a single type is asked for.
#[derive(Debug)]
pub enum TypeFilter {
    /// Everything but the knowledge index, or one type of it.
    ExcludeKx(Option<String>),
    /// Exactly this type.
    Only(String),
}

/// What a type filter is.
pub enum TypeV {
    ExcludeKx(Option<Seq<char>>),
    Only(Seq<char>),
}

impl View for TypeFilter {
    type V = TypeV;

    open spec fn view(&self) -> TypeV {
        match self {
            TypeFilter::ExcludeKx(t) => TypeV::ExcludeKx(opt_text(*t)),
            TypeFilter::Only(t) => TypeV::Only(t@),
        }
    }
}

impl TypeV {
    /// Whether the filter lets a type through.
    pub open spec fn admits(self, t: Seq<char>) -> bool {
        match self {
            TypeV::ExcludeKx(o) => t != "kx"@ && (o is Some ==> o == Some(t)),
            TypeV::Only(x) => x == t,
        }
    }
}

impl TypeFilter {
    /// Whether the filter lets a type through.
    pub fn admits(&self, t: &str) -> (r: bool)
        ensures
            r == self@.admits(t@),
    {
        match self {
            TypeFilter::ExcludeKx(o) => !same(t, "kx") && (match o {
                Some(x) => same(x.as_str(), t),
                None => true,
            }),
            TypeFilter::Only(x) => same(x.as_str(), t),
        }
    }

    /// The fragment that tests a column, with its bound values in order.
    pub fn sql_and(&self, col: &str) -> (r: (String, Vec<SqlValue>))
        ensures
            match self@ {
                TypeV::ExcludeKx(None) => r.0@ == " AND "@ + col@ + " != 'kx'"@ && r.1@.len() == 0,
                TypeV::ExcludeKx(Some(t)) => r.0@ == " AND "@ + col@ + " != 'kx' AND "@ + col@
                    + " = ?"@ && values(r.1@) == seq![SqlV::Text(t)],
                TypeV::Only(t) => r.0@ == " AND "@ + col@ + " = ?"@ && values(r.1@) == seq![
                    SqlV::Text(t),
                ],
            },
    {
        let mut frag = " AND ".to_string();
        frag.append(col);
        let mut vals: Vec<SqlValue> = Vec::new();
        match self {
            TypeFilter::ExcludeKx(None) => {
                frag.append(" != 'kx'");
            },
            TypeFilter::ExcludeKx(Some(t)) => {
                frag.append(" != 'kx' AND ");
                frag.append(col);
                frag.append(" = ?");
                vals.push(SqlValue::Text(t.clone()));
                assert(values(vals@) =~= seq![SqlV::Text(t@)]);
            },
            TypeFilter::Only(t) => {
                frag.append(" = ?");
                vals.push(SqlValue::Text(t.clone()));
                assert(values(vals@) =~= seq![SqlV::Text(t@)]);
            },
        }
        (frag, vals)
    }
}

/// No row is seen both by ordinary memory and by the knowledge index, whatever
/// type the former is narrowed to.
pub proof fn law_corpora_are_disjoint(narrowed: Option<Seq<char>>, t: Seq<char>)
    ensures
        !(TypeV::ExcludeKx(narrowed).admits(t) && TypeV::Only("kx"@).admits(t)),
{
}

/// What is shared is seen under every scope filter that a name makes.
pub proof fn law_shared_is_always_seen(name: Option<Seq<char>>)
    ensures
        scope_filter(name).admits("shared"@),
{
    match nonempty(name) {
        Some(s) => {
            assert(seq![s, "shared"@][1] == "shared"@);
            assert(seq!["shared"@][0] == "shared"@);
        },
        None => {},
    }
}

/// A profile never sees another profile's rows.
pub proof fn law_profiles_are_separate(profile: Seq<char>, other: Seq<char>)
    requires
        profile.len() > 0,
        profile != "*"@,
        profile != other,
        other != "shared"@,
    ensures
        !scope_filter(Some(profile)).admits(other),
{
}

} // verus!
