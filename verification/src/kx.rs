//! The knowledge index: pointers to the documents of configured corpora. What
//! is read of a document, which files of a corpus are taken, and how the index
//! is queried and shown.
use crate::dates::{
    bad_date, day_named, day_start, day_start_epoch, fmt_ts, next_day_epoch, next_day_start,
    parse_ymd, shown_or_empty, ymd_day,
};
use crate::embed::{content_hash, hex, sha256_of};
use crate::glob::{any_glob, any_match};
use crate::json::{trees, unsigned_number, Json, JsonObject, JsonV};
use crate::settings::Settings;
use crate::sql::{lemma_values_push, values, SqlV, SqlValue};
use crate::text::{
    after_prefix, ascii_lower, chars_of, clip, clipped, contains, copy_texts, decimal, digit,
    drop_any, has_prefix, is_digit, join, joined, lemma_texts_push, lines, listed, lower_char,
    opt_text, replace_char, replaced, same, skip_any, slice_text, split_char, split_lines, split_on,
    starts, strip_prefix, texts, to_ascii_lower, trim, trim_end_any, trim_start_any, trimmed,
    usize_text,
};
use vstd::prelude::*;
use vstd::utf8::encode_utf8;

verus! {

/// The type of every row of the knowledge index.
pub const KX_TYPE: &'static str = "kx";

/// The most hits of a query, where none is configured.
pub const BUILTIN_MAX_HITS: usize = 4;

/// How deep a corpus is walked, where nothing is configured.
pub const BUILTIN_MAX_DEPTH: usize = 64;

/// The most rows of a listing, where none are asked for.
pub const LIST_DEFAULT_LIMIT: usize = 20;

/// The most characters of a description.
pub const DESC_MAX_CHARS: usize = 160;

/// One configured corpus.
#[derive(Debug)]
pub struct KxSource {
    /// The directory that is scanned.
    pub path: String,
    /// The extensions to take; none for the defaults.
    pub extensions: Vec<String>,
    /// Globs to leave out, besides the defaults.
    pub exclude_globs: Vec<String>,
    pub scope: Option<String>,
    pub tags: Vec<String>,
    pub category: Option<String>,
}

/// The settings that all corpora share.
#[derive(Debug)]
pub struct KxSection {
    pub default_scope: String,
    pub summarize: bool,
    pub summarize_model: Option<String>,
    pub embed_model: Option<String>,
    pub max_hits: usize,
    pub max_depth: usize,
    pub default_extensions: Vec<String>,
    pub default_exclude: Vec<String>,
    pub sources: Vec<KxSource>,
}

/// The globs that are left out of every corpus by default.
pub open spec fn default_globs() -> Seq<Seq<char>> {
    seq![
        "**/.git/**"@,
        "**/.jj/**"@,
        "**/target/**"@,
        "**/node_modules/**"@,
        "**/.venv/**"@,
        "**/__pycache__/**"@,
        "*.log"@,
        "*.jsonl"@,
        "*.prompt.txt"@,
        "*.lock"@,
    ]
}

/// The globs that are left out of every corpus by default.
pub fn default_exclude_globs() -> (r: Vec<String>)
    ensures
        texts(r@) == default_globs(),
{
    let mut v: Vec<String> = Vec::new();
    v.push("**/.git/**".to_string());
    v.push("**/.jj/**".to_string());
    v.push("**/target/**".to_string());
    v.push("**/node_modules/**".to_string());
    v.push("**/.venv/**".to_string());
    v.push("**/__pycache__/**".to_string());
    v.push("*.log".to_string());
    v.push("*.jsonl".to_string());
    v.push("*.prompt.txt".to_string());
    v.push("*.lock".to_string());
    assert(texts(v@) =~= default_globs());
    v
}

impl Default for KxSection {
    fn default() -> (r: KxSection)
        ensures
            r.default_scope@ == "work"@,
            !r.summarize,
            r.summarize_model is None,
            r.embed_model is None,
            r.max_hits == BUILTIN_MAX_HITS,
            r.max_depth == BUILTIN_MAX_DEPTH,
            texts(r.default_extensions@) == seq!["md"@],
            texts(r.default_exclude@) == default_globs(),
            r.sources@.len() == 0,
    {
        let mut exts: Vec<String> = Vec::new();
        exts.push("md".to_string());
        assert(texts(exts@) =~= seq!["md"@]);
        KxSection {
            default_scope: "work".to_string(),
            summarize: false,
            summarize_model: None,
            embed_model: None,
            max_hits: BUILTIN_MAX_HITS,
            max_depth: BUILTIN_MAX_DEPTH,
            default_extensions: exts,
            default_exclude: default_exclude_globs(),
            sources: Vec::new(),
        }
    }
}

/// Taking corpora into the index.
#[derive(Debug)]
pub struct IngestArgs {
    /// Only this corpus: its path, or the path's last component.
    pub source: Option<String>,
    /// Report what would change, and change nothing.
    pub dry_run: bool,
    /// Take documents again that have not changed.
    pub force: bool,
    /// The configuration file.
    pub config: Option<String>,
    /// Report as JSON.
    pub json: bool,
}

/// Searching the index by words.
#[derive(Debug)]
pub struct KxSearchArgs {
    pub query: String,
    pub scope: Option<String>,
    pub tags: Vec<String>,
    pub from: Option<String>,
    pub to: Option<String>,
    pub limit: Option<usize>,
    pub config: Option<String>,
    pub json: bool,
}

/// Browsing the index.
#[derive(Debug)]
pub struct KxListArgs {
    pub scope: Option<String>,
    pub tags: Vec<String>,
    pub from: Option<String>,
    pub to: Option<String>,
    pub limit: Option<usize>,
    pub json: bool,
}

/// The configuration file: the one given, else the one below the home
/// directory; an error without either.
pub fn config_path(explicit: &Option<String>, s: &Settings) -> (r: Result<String, String>)
    ensures
        match r {
            Ok(p) => match opt_text(*explicit) {
                Some(e) => p@ == e,
                None => s@.var("HOME"@) is Some && p@ == s@.var("HOME"@)->0
                    + "/.config/agent/config.toml"@,
            },
            Err(e) => explicit is None && s@.var("HOME"@) is None && e@
                == "HOME not set; cannot locate ~/.config/agent/config.toml"@,
        },
{
    match explicit {
        Some(p) => Ok(p.clone()),
        None => match s.var("HOME") {
            Some(h) => {
                let mut p = h;
                p.append("/.config/agent/config.toml");
                Ok(p)
            },
            None => Err("HOME not set; cannot locate ~/.config/agent/config.toml".to_string()),
        },
    }
}

/// The message for a configuration that cannot be parsed: the path and the
/// first line of the parser's report, so that nothing of the file is shown.
pub fn redacted_parse_error(path: &str, report: &str) -> (r: String)
    ensures
        r@ == "kx config "@ + path@ + ": "@ + (if lines(report@).len() > 0 {
            lines(report@)[0]
        } else {
            "invalid TOML"@
        }),
{
    let ls = split_lines(report);
    let mut m = "kx config ".to_string();
    m.append(path);
    m.append(": ");
    assert(texts(ls@).len() == ls@.len());
    if ls.len() > 0 {
        assert(texts(ls@)[0] == ls@[0]@);
        m.append(ls[0].as_str());
    } else {
        m.append("invalid TOML");
    }
    m
}

/// The narrowing of a query by tags and days.
#[derive(Debug)]
pub struct KxFilters {
    pub tags: Vec<String>,
    /// The first second that counts.
    pub from: Option<i64>,
    /// The first second that counts no more.
    pub to_exclusive: Option<i64>,
}

/// What such a narrowing is.
pub struct KxFiltersV {
    pub tags: Seq<Seq<char>>,
    pub from: Option<int>,
    pub to_exclusive: Option<int>,
}

impl View for KxFilters {
    type V = KxFiltersV;

    open spec fn view(&self) -> KxFiltersV {
        KxFiltersV {
            tags: texts(self.tags@),
            from: match self.from {
                Some(t) => Some(t as int),
                None => None,
            },
            to_exclusive: match self.to_exclusive {
                Some(t) => Some(t as int),
                None => None,
            },
        }
    }
}

/// The narrowing that dates and tags ask for. Both days count in full.
pub open spec fn filters_of(
    tags: Seq<Seq<char>>,
    from: Option<Seq<char>>,
    to: Option<Seq<char>>,
) -> Result<KxFiltersV, Seq<char>> {
    if from is Some && ymd_day(from->0) is None {
        Err(bad_date(from->0))
    } else if to is Some && ymd_day(to->0) is None {
        Err(bad_date(to->0))
    } else {
        Ok(
            KxFiltersV {
                tags,
                from: match from {
                    Some(d) => Some(day_start(ymd_day(d)->0 as int)),
                    None => None,
                },
                to_exclusive: match to {
                    Some(d) => Some(next_day_start(ymd_day(d)->0 as int)),
                    None => None,
                },
            },
        )
    }
}

/// `s` with the characters that a pattern of the query language treats
/// specially escaped.
pub open spec fn like_escaped(s: Seq<char>) -> Seq<char> {
    replaced(replaced(replaced(s, '\\', "\\\\"@), '%', "\\%"@), '_', "\\_"@)
}

/// Escapes a text for use in a pattern.
pub fn like_escape(s: &str) -> (r: String)
    ensures
        r@ == like_escaped(s@),
{
    replace_char(
        replace_char(replace_char(s, '\\', "\\\\").as_str(), '%', "\\%").as_str(),
        '_',
        "\\_",
    )
}

/// The tests on tags, one for each.
pub open spec fn tag_sql(n: nat, alias: Seq<char>) -> Seq<char>
    decreases n,
{
    if n == 0 {
        Seq::empty()
    } else {
        tag_sql((n - 1) as nat, alias) + " AND (',' || "@ + alias
            + ".tags || ',') LIKE ? ESCAPE '\\'"@
    }
}

/// The values that the tests on tags are bound to: each tag between commas.
pub open spec fn tag_values(tags: Seq<Seq<char>>) -> Seq<SqlV> {
    tags.map_values(|t: Seq<char>| SqlV::Text("%,"@ + like_escaped(t) + ",%"@))
}

/// A bound integer, where there is one.
pub open spec fn int_values(o: Option<int>) -> Seq<SqlV> {
    match o {
        Some(i) => seq![SqlV::Integer(i)],
        None => Seq::empty(),
    }
}

impl KxFiltersV {
    /// The statement fragment for the narrowing.
    pub open spec fn sql(self, alias: Seq<char>) -> Seq<char> {
        tag_sql(self.tags.len(), alias) + (if self.from is Some {
            " AND "@ + alias + ".valid_from >= ?"@
        } else {
            Seq::empty()
        }) + (if self.to_exclusive is Some {
            " AND "@ + alias + ".valid_from < ?"@
        } else {
            Seq::empty()
        })
    }

    /// The values bound in it, in order.
    pub open spec fn bound(self) -> Seq<SqlV> {
        tag_values(self.tags) + int_values(self.from) + int_values(self.to_exclusive)
    }

    /// Whether a time lies within the days.
    pub open spec fn admits_time(self, t: int) -> bool {
        (self.from is Some ==> self.from->0 <= t) && (self.to_exclusive is Some ==> t
            < self.to_exclusive->0)
    }
}

impl KxFilters {
    /// Compiles tags and days; an error for a text that names no day.
    pub fn new(tags: &Vec<String>, from: &Option<String>, to: &Option<String>) -> (r: Result<
        KxFilters,
        String,
    >)
        ensures
            match r {
                Ok(f) => filters_of(texts(tags@), opt_text(*from), opt_text(*to)) == Ok::<
                    KxFiltersV,
                    Seq<char>,
                >(f@),
                Err(e) => filters_of(texts(tags@), opt_text(*from), opt_text(*to)) == Err::<
                    KxFiltersV,
                    Seq<char>,
                >(e@),
            },
    {
        let lower: Option<i64> = match from {
            Some(d) => match parse_ymd(d.as_str()) {
                Ok(n) => Some(day_start_epoch(n)),
                Err(e) => {
                    return Err(e);
                },
            },
            None => None,
        };
        let upper: Option<i64> = match to {
            Some(d) => match parse_ymd(d.as_str()) {
                Ok(n) => Some(next_day_epoch(n)),
                Err(e) => {
                    return Err(e);
                },
            },
            None => None,
        };
        Ok(KxFilters { tags: copy_texts(tags), from: lower, to_exclusive: upper })
    }

    /// The statement fragment and its bound values, for a table alias. A tag
    /// matches only as a whole entry of the comma-separated list.
    pub fn predicates(&self, alias: &str) -> (r: (String, Vec<SqlValue>))
        ensures
            r.0@ == self@.sql(alias@),
            values(r.1@) == self@.bound(),
    {
        let mut sql = String::new();
        let mut vals: Vec<SqlValue> = Vec::new();
        let mut i: usize = 0;
        let ghost tags = texts(self.tags@);
        assert(sql@ =~= tag_sql(0, alias@));
        assert(values(vals@) =~= tag_values(tags.take(0)));
        while i < self.tags.len()
            invariant
                tags == texts(self.tags@),
                i <= self.tags@.len(),
                sql@ == tag_sql(i as nat, alias@),
                values(vals@) == tag_values(tags.take(i as int)),
            decreases self.tags@.len() - i,
        {
            sql.append(" AND (',' || ");
            sql.append(alias);
            sql.append(".tags || ',') LIKE ? ESCAPE '\\'");
            let mut pat = "%,".to_string();
            pat.append(like_escape(self.tags[i].as_str()).as_str());
            pat.append(",%");
            let v = SqlValue::Text(pat);
            proof {
                lemma_values_push(vals@, v);
                assert(tags[i as int] == self.tags@[i as int]@);
                assert(tag_values(tags.take(i as int + 1)) =~= tag_values(
                    tags.take(i as int),
                ).push(v@));
            }
            vals.push(v);
            i = i + 1;
        }
        assert(tags.take(i as int) =~= tags);
        let ghost first = values(vals@);
        if let Some(f) = self.from {
            let mut part = " AND ".to_string();
            part.append(alias);
            part.append(".valid_from >= ?");
            sql.append(part.as_str());
            let v = SqlValue::Integer(f);
            proof {
                lemma_values_push(vals@, v);
            }
            vals.push(v);
        }
        assert(values(vals@) =~= first + int_values(self@.from));
        let ghost second = values(vals@);
        assert(sql@ =~= tag_sql(tags.len(), alias@) + (if self@.from is Some {
            " AND "@ + alias@ + ".valid_from >= ?"@
        } else {
            Seq::empty()
        }));
        if let Some(t) = self.to_exclusive {
            let mut part = " AND ".to_string();
            part.append(alias);
            part.append(".valid_from < ?");
            sql.append(part.as_str());
            let v = SqlValue::Integer(t);
            proof {
                lemma_values_push(vals@, v);
            }
            vals.push(v);
        }
        assert(values(vals@) =~= second + int_values(self@.to_exclusive));
        assert(sql@ =~= self@.sql(alias@));
        (sql, vals)
    }
}

/// Both ends of a range of days count in full: a time is admitted exactly when
/// the day it lies in is one of them.
pub proof fn law_days_count_in_full(from: Seq<char>, to: Seq<char>, t: int)
    requires
        ymd_day(from) is Some,
        ymd_day(to) is Some,
        ymd_day(to)->0 < crate::dates::LAST_DAY,
    ensures
        ({
            let f = filters_of(Seq::empty(), Some(from), Some(to));
            let day = t / 86400 + crate::dates::EPOCH_DAY;
            f is Ok && (f->Ok_0.admits_time(t) <==> ymd_day(from)->0 <= day <= ymd_day(to)->0)
        }),
{
}

/// The first line of an entry's content, which points to the document.
pub open spec fn pointer(content: Seq<char>) -> Seq<char> {
    if lines(content).len() > 0 {
        lines(content)[0]
    } else {
        Seq::empty()
    }
}

/// Reads the pointer of an entry.
pub fn pointer_of(content: &str) -> (r: String)
    ensures
        r@ == pointer(content@),
{
    let ls = split_lines(content);
    assert(texts(ls@).len() == ls@.len());
    if ls.len() > 0 {
        assert(texts(ls@)[0] == ls@[0]@);
        ls[0].clone()
    } else {
        String::new()
    }
}

/// A day, where there is one.
pub open spec fn day_shown(epoch: Option<i64>) -> Seq<char> {
    match epoch {
        Some(ts) => shown_or_empty(ts, "%Y-%m-%d"@),
        None => Seq::empty(),
    }
}

/// Shows a day, where there is one.
pub fn date_str(epoch: Option<i64>) -> (r: String)
    ensures
        r@ == day_shown(epoch),
{
    match epoch {
        Some(ts) => fmt_ts(ts),
        None => String::new(),
    }
}

/// The last component of a path that is not empty.
pub open spec fn last_nonempty(parts: Seq<Seq<char>>) -> Option<Seq<char>>
    decreases parts.len(),
{
    if parts.len() == 0 {
        None
    } else if parts.last().len() > 0 {
        Some(parts.last())
    } else {
        last_nonempty(parts.drop_last())
    }
}

/// The trailing component of a path.
pub open spec fn leaf_of(path: Seq<char>) -> Seq<char> {
    let t = drop_any(path, "/"@);
    match last_nonempty(split_on(t, '/')) {
        Some(c) => c,
        None => t,
    }
}

/// Reads the trailing component of a path.
pub fn leaf_component(path: &str) -> (r: String)
    ensures
        r@ == leaf_of(path@),
{
    let t = trim_end_any(path, "/");
    let parts = split_char(t.as_str(), '/');
    let ghost all = texts(parts@);
    let mut n: usize = parts.len();
    assert(all.take(n as int) =~= all);
    while n > 0
        invariant
            all == texts(parts@),
            all == split_on(t@, '/'),
            t@ == drop_any(path@, "/"@),
            n <= parts@.len(),
            last_nonempty(all) == last_nonempty(all.take(n as int)),
        decreases n,
    {
        assert(all.take(n as int).last() == parts@[n - 1]@);
        assert(all.take(n as int).drop_last() =~= all.take(n - 1));
        if !parts[n - 1].as_str().is_empty() {
            return parts[n - 1].clone();
        }
        n = n - 1;
    }
    t
}

/// The texts without empty ones and without those that stood before.
pub open spec fn deduped(tags: Seq<Seq<char>>) -> Seq<Seq<char>>
    decreases tags.len(),
{
    if tags.len() == 0 {
        Seq::empty()
    } else {
        let init = deduped(tags.drop_last());
        let t = tags.last();
        if t.len() == 0 || listed(init, t) {
            init
        } else {
            init.push(t)
        }
    }
}

/// Keeps the first of equal tags, and no empty one.
pub fn dedup_first_seen(tags: &Vec<String>) -> (r: Vec<String>)
    ensures
        texts(r@) == deduped(texts(tags@)),
{
    let ghost all = texts(tags@);
    let mut out: Vec<String> = Vec::new();
    let mut i: usize = 0;
    assert(texts(out@) =~= deduped(all.take(0)));
    while i < tags.len()
        invariant
            all == texts(tags@),
            i <= tags@.len(),
            texts(out@) == deduped(all.take(i as int)),
        decreases tags@.len() - i,
    {
        assert(all.take(i as int + 1).drop_last() =~= all.take(i as int));
        assert(all.take(i as int + 1).last() == tags@[i as int]@);
        if !tags[i].as_str().is_empty() && !crate::text::is_listed(&out, tags[i].as_str()) {
            let t = tags[i].clone();
            proof {
                lemma_texts_push(out@, t);
            }
            out.push(t);
        }
        i = i + 1;
    }
    assert(all.take(i as int) =~= all);
    out
}

/// Deduplication keeps exactly the tags that are not empty, each once.
pub proof fn law_dedup(tags: Seq<Seq<char>>)
    ensures
        forall|t: Seq<char>|
            #![trigger listed(deduped(tags), t)]
            #![trigger listed(tags, t)]
            listed(deduped(tags), t) <==> listed(tags, t) && t.len() > 0,
        forall|i: int, j: int|
            0 <= i < j < deduped(tags).len() ==> (#[trigger] deduped(tags)[i]) != (
            #[trigger] deduped(tags)[j]),
    decreases tags.len(),
{
    if tags.len() > 0 {
        let init = tags.drop_last();
        let last = tags.last();
        law_dedup(init);
        let d = deduped(tags);
        let e = deduped(init);
        assert forall|t: Seq<char>|
            #![trigger listed(deduped(tags), t)]
            #![trigger listed(tags, t)]
            listed(d, t) <==> listed(tags, t) && t.len() > 0 by {
            if listed(d, t) {
                let i = choose|i: int| 0 <= i < d.len() && #[trigger] d[i] == t;
                if i < e.len() {
                    assert(e[i] == t);
                    assert(listed(e, t));
                    let k = choose|k: int| 0 <= k < init.len() && #[trigger] init[k] == t;
                    assert(tags[k] == t);
                } else {
                    assert(tags[tags.len() - 1] == t);
                }
            }
            if listed(tags, t) && t.len() > 0 {
                let k = choose|k: int| 0 <= k < tags.len() && #[trigger] tags[k] == t;
                if k < init.len() {
                    assert(init[k] == t);
                    assert(listed(init, t));
                }
                if listed(e, t) {
                    let i = choose|i: int| 0 <= i < e.len() && #[trigger] e[i] == t;
                    assert(d[i] == t);
                } else {
                    assert(d[d.len() - 1] == t);
                }
            }
        }
        assert forall|i: int, j: int| 0 <= i < j < d.len() implies (#[trigger] d[i]) != (
        #[trigger] d[j]) by {
            assert(e[i] == d[i]);
            if j < e.len() {
                assert(e[j] == d[j]);
            }
        }
    }
}

/// The corpora to take: all of them, or those whose path, or its trailing
/// component, is the one asked for.
pub open spec fn selected(paths: Seq<Seq<char>>, want: Option<Seq<char>>) -> Seq<int>
    decreases paths.len(),
{
    if paths.len() == 0 {
        Seq::empty()
    } else {
        let init = selected(paths.drop_last(), want);
        let p = paths.last();
        if want is None || p == want->0 || leaf_of(p) == want->0 {
            init.push(paths.len() - 1)
        } else {
            init
        }
    }
}

/// The paths of the configured corpora.
pub open spec fn source_paths(v: Seq<KxSource>) -> Seq<Seq<char>> {
    v.map_values(|s: KxSource| s.path@)
}

/// Picks the corpora to take, by position; an error where one is asked for and
/// none matches.
pub fn select_sources(sources: &Vec<KxSource>, want: &Option<String>) -> (r: Result<
    Vec<usize>,
    String,
>)
    ensures
        ({
            let picked = selected(source_paths(sources@), opt_text(*want));
            match r {
                Ok(v) => v@.map_values(|i: usize| i as int) == picked && (want is None
                    || picked.len() > 0),
                Err(e) => want is Some && picked.len() == 0 && e@ == "--source '"@ + want->0@
                    + "' matches no configured [[kx.sources]]"@,
            }
        }),
{
    let ghost paths = source_paths(sources@);
    let mut out: Vec<usize> = Vec::new();
    let mut i: usize = 0;
    assert(out@.map_values(|i: usize| i as int) =~= selected(paths.take(0), opt_text(*want)));
    while i < sources.len()
        invariant
            paths == source_paths(sources@),
            i <= sources@.len(),
            out@.map_values(|i: usize| i as int) == selected(paths.take(i as int), opt_text(*want)),
        decreases sources@.len() - i,
    {
        assert(paths.take(i as int + 1).drop_last() =~= paths.take(i as int));
        assert(paths.take(i as int + 1).last() == sources@[i as int].path@);
        let take = match want {
            None => true,
            Some(w) => same(sources[i].path.as_str(), w.as_str()) || same(
                leaf_component(sources[i].path.as_str()).as_str(),
                w.as_str(),
            ),
        };
        if take {
            let ghost before = out@;
            out.push(i);
            assert(out@.map_values(|i: usize| i as int) =~= before.map_values(
                |i: usize| i as int,
            ).push(i as int));
        }
        i = i + 1;
    }
    assert(paths.take(i as int) =~= paths);
    let ghost picked = selected(paths, opt_text(*want));
    assert(out@.map_values(|i: usize| i as int).len() == out@.len());
    if let Some(w) = want {
        if out.len() == 0 {
            let mut e = "--source '".to_string();
            e.append(w.as_str());
            e.append("' matches no configured [[kx.sources]]");
            return Err(e);
        }
    }
    Ok(out)
}

/// A configured path with the home directory in place of a leading `~` or
/// `$HOME`; as it is where there is no home directory.
pub open spec fn expanded(raw: Seq<char>, home: Option<Seq<char>>) -> Seq<char> {
    let r = trimmed(raw);
    match home {
        None => r,
        Some(h) => if r == "~"@ {
            h
        } else {
            match after_prefix(r, "~/"@) {
                Some(rest) => under(h, rest),
                None => match after_prefix(r, "$HOME/"@) {
                    Some(rest) => under(h, rest),
                    None => r,
                },
            }
        },
    }
}

/// A path below a directory; an absolute path stands for itself.
pub open spec fn under(dir: Seq<char>, rest: Seq<char>) -> Seq<char> {
    if starts(rest, "/"@) {
        rest
    } else if dir.len() == 0 || dir.last() == '/' {
        dir + rest
    } else {
        dir + "/"@ + rest
    }
}

/// Joins a path below a directory.
pub(crate) fn join_under(dir: &str, rest: &str) -> (r: String)
    ensures
        r@ == under(dir@, rest@),
{
    if has_prefix(rest, "/") {
        return rest.to_owned();
    }
    let d = chars_of(dir);
    let mut out = dir.to_owned();
    if !(d.len() == 0 || d[d.len() - 1] == '/') {
        out.append("/");
    }
    out.append(rest);
    out
}

/// Expands a configured path.
pub fn expand_home(raw: &str, s: &Settings) -> (r: String)
    ensures
        r@ == expanded(raw@, s@.var("HOME"@)),
{
    let t = trim(raw);
    match s.var("HOME") {
        None => t,
        Some(h) => {
            if same(t.as_str(), "~") {
                return h;
            }
            if let Some(rest) = strip_prefix(t.as_str(), "~/") {
                return join_under(h.as_str(), rest.as_str());
            }
            if let Some(rest) = strip_prefix(t.as_str(), "$HOME/") {
                return join_under(h.as_str(), rest.as_str());
            }
            t
        },
    }
}

/// What is the same for every document of a corpus.
#[derive(Debug)]
pub struct SourcePlan {
    pub extensions: Vec<String>,
    pub excludes: Vec<String>,
    pub scope: String,
    pub tags: String,
}

/// The tags of a corpus's documents before duplicates go: its own, the
/// repository's and the category's.
pub open spec fn base_tags(src: KxSource, root: Seq<char>) -> Seq<Seq<char>> {
    let t = texts(src.tags@).push("repo:"@ + leaf_of(root));
    match src.category {
        Some(c) => t.push("cat:"@ + c@),
        None => t,
    }
}

/// Works out what is the same for every document of a corpus found at `root`.
pub fn plan_source(cfg: &KxSection, src: &KxSource, root: &str) -> (r: SourcePlan)
    ensures
        texts(r.extensions@) == (if src.extensions@.len() == 0 {
            texts(cfg.default_extensions@)
        } else {
            texts(src.extensions@)
        }),
        texts(r.excludes@) == texts(cfg.default_exclude@) + texts(src.exclude_globs@),
        r.scope@ == (match src.scope {
            Some(s) => s@,
            None => cfg.default_scope@,
        }),
        r.tags@ == joined(deduped(base_tags(*src, root@)), ","@),
{
    let extensions = if src.extensions.len() == 0 {
        copy_texts(&cfg.default_extensions)
    } else {
        copy_texts(&src.extensions)
    };
    let mut excludes = copy_texts(&cfg.default_exclude);
    let mut more = copy_texts(&src.exclude_globs);
    let ghost e0 = excludes@;
    let ghost m0 = more@;
    excludes.append(&mut more);
    assert(texts(excludes@) =~= texts(e0) + texts(m0));
    let scope = match &src.scope {
        Some(s) => s.clone(),
        None => cfg.default_scope.clone(),
    };
    let mut tags = copy_texts(&src.tags);
    let mut repo = "repo:".to_string();
    repo.append(leaf_component(root).as_str());
    proof {
        lemma_texts_push(tags@, repo);
    }
    tags.push(repo);
    if let Some(c) = &src.category {
        let mut cat = "cat:".to_string();
        cat.append(c.as_str());
        proof {
            lemma_texts_push(tags@, cat);
        }
        tags.push(cat);
    }
    let tags = join(&dedup_first_seen(&tags), ",");
    SourcePlan { extensions, excludes, scope, tags }
}

/// What an entry of a directory is.
#[derive(Clone, Copy, Debug, PartialEq, Eq, Structural)]
pub enum EntryKind {
    Directory,
    File,
    Other,
}

/// What a walk does with an entry.
#[derive(Clone, Copy, Debug, PartialEq, Eq, Structural)]
pub enum WalkStep {
    /// Go into the directory.
    Descend,
    /// The directory lies too deep.
    TooDeep,
    /// Take the file.
    Take,
    /// Pass over.
    Skip,
}

/// Whether an extension is one of those wanted, in whatever case.
pub open spec fn extension_wanted(wanted: Seq<Seq<char>>, ext: Option<Seq<char>>) -> bool {
    ext is Some && exists|i: int|
        0 <= i < wanted.len() && ascii_lower(#[trigger] wanted[i]) == ascii_lower(ext->0)
}

/// Decides what a walk does with an entry at `depth` below the root: excluded
/// entries are passed over, directories are gone into as deep as allowed, files
/// with a wanted extension are taken.
pub fn walk_step(
    kind: EntryKind,
    rel: &str,
    ext: &Option<String>,
    depth: usize,
    max_depth: usize,
    extensions: &Vec<String>,
    excludes: &Vec<String>,
) -> (r: WalkStep)
    ensures
        r == ({
            let path = replaced(rel@, '\\', "/"@);
            let excluded = any_glob(texts(excludes@), path);
            if kind == EntryKind::Directory {
                if excluded {
                    WalkStep::Skip
                } else if depth + 1 > max_depth {
                    WalkStep::TooDeep
                } else {
                    WalkStep::Descend
                }
            } else if kind == EntryKind::File && extension_wanted(
                texts(extensions@),
                opt_text(*ext),
            ) && !excluded {
                WalkStep::Take
            } else {
                WalkStep::Skip
            }
        }),
{
    let path = replace_char(rel, '\\', "/");
    if kind == EntryKind::Directory {
        if any_match(excludes, path.as_str()) {
            return WalkStep::Skip;
        }
        if depth >= max_depth {
            return WalkStep::TooDeep;
        }
        return WalkStep::Descend;
    }
    if kind == EntryKind::File {
        let wanted = match ext {
            Some(e) => {
                let low = to_ascii_lower(e.as_str());
                let mut found = false;
                let mut i: usize = 0;
                while i < extensions.len()
                    invariant
                        i <= extensions@.len(),
                        low@ == ascii_lower(e@),
                        found == exists|k: int|
                            0 <= k < i && ascii_lower(#[trigger] texts(extensions@)[k]) == low@,
                    decreases extensions@.len() - i,
                {
                    assert(texts(extensions@)[i as int] == extensions@[i as int]@);
                    if same(to_ascii_lower(extensions[i].as_str()).as_str(), low.as_str()) {
                        found = true;
                    }
                    i = i + 1;
                }
                found
            },
            None => false,
        };
        if wanted && !any_match(excludes, path.as_str()) {
            return WalkStep::Take;
        }
    }
    WalkStep::Skip
}

/// Whether a character is a small ASCII letter or a digit.
pub open spec fn slug_char(c: char) -> bool {
    0x61 <= c as u32 <= 0x7a || digit(c)
}

/// The slug of a path before dashes at its ends go: small letters and digits
/// stay, every run of other characters becomes one dash.
pub open spec fn slug_raw(s: Seq<char>) -> Seq<char>
    decreases s.len(),
{
    if s.len() == 0 {
        Seq::empty()
    } else {
        let r = slug_raw(s.drop_last());
        let c = lower_char(s.last());
        if slug_char(c) {
            r.push(c)
        } else if r.len() > 0 && r.last() == '-' {
            r
        } else {
            r.push('-')
        }
    }
}

/// The slug of a path.
pub open spec fn slug_of(s: Seq<char>) -> Seq<char> {
    drop_any(skip_any(slug_raw(s), "-"@), "-"@)
}

/// Makes the slug of a path.
pub fn slugify(rel: &str) -> (r: String)
    ensures
        r@ == slug_of(rel@),
{
    let low = to_ascii_lower(rel);
    let v = chars_of(low.as_str());
    let mut out = String::new();
    let mut dashed = false;
    let mut i: usize = 0;
    assert(out@ =~= slug_raw(rel@.take(0)));
    while i < v.len()
        invariant
            v@ == ascii_lower(rel@),
            i <= v@.len(),
            out@ == slug_raw(rel@.take(i as int)),
            dashed == (out@.len() > 0 && out@.last() == '-'),
        decreases v@.len() - i,
    {
        assert(rel@.take(i as int + 1).drop_last() =~= rel@.take(i as int));
        assert(rel@.take(i as int + 1).last() == rel@[i as int]);
        let c = v[i];
        let u: u32 = c as u32;
        if (0x61 <= u && u <= 0x7a) || is_digit(c) {
            out.push(c);
            dashed = false;
        } else if !dashed {
            out.push('-');
            dashed = true;
        }
        i = i + 1;
    }
    assert(rel@.take(i as int) =~= rel@);
    trim_end_any(trim_start_any(out.as_str(), "-").as_str(), "-")
}

/// Whether a text is made of slug characters and single dashes between.
pub open spec fn slug_shaped(s: Seq<char>) -> bool {
    &&& forall|i: int| 0 <= i < s.len() ==> slug_char(#[trigger] s[i]) || s[i] == '-'
    &&& forall|i: int| 0 <= i < s.len() - 1 ==> !((#[trigger] s[i]) == '-' && s[i + 1] == '-')
}

/// The raw slug has the shape.
proof fn lemma_slug_raw(s: Seq<char>)
    ensures
        slug_shaped(slug_raw(s)),
    decreases s.len(),
{
    if s.len() > 0 {
        lemma_slug_raw(s.drop_last());
        let r = slug_raw(s.drop_last());
        let n = slug_raw(s);
        assert forall|i: int| 0 <= i < n.len() implies slug_char(#[trigger] n[i]) || n[i]
            == '-' by {
            if i < r.len() {
                assert(n[i] == r[i]);
            }
        }
        assert forall|i: int| 0 <= i < n.len() - 1 implies !((#[trigger] n[i]) == '-' && n[i + 1]
            == '-') by {
            assert(n[i] == r[i]);
            if i + 1 < r.len() {
                assert(n[i + 1] == r[i + 1]);
            }
        }
    }
}

/// Taking characters off the ends leaves a part.
proof fn lemma_skip_any(s: Seq<char>, cs: Seq<char>)
    ensures
        skip_any(s, cs).len() <= s.len(),
        skip_any(s, cs) == s.skip(s.len() - skip_any(s, cs).len()),
        skip_any(s, cs).len() > 0 ==> !cs.contains(skip_any(s, cs)[0]),
    decreases s.len(),
{
    if s.len() > 0 && cs.contains(s[0]) {
        let t = s.drop_first();
        lemma_skip_any(t, cs);
        assert(t.skip(t.len() - skip_any(t, cs).len()) =~= s.skip(s.len() - skip_any(t, cs).len()));
    } else {
        assert(s.skip(0) =~= s);
    }
}

/// Taking characters off the end leaves a prefix.
proof fn lemma_drop_any(s: Seq<char>, cs: Seq<char>)
    ensures
        drop_any(s, cs).len() <= s.len(),
        drop_any(s, cs) == s.take(drop_any(s, cs).len() as int),
        drop_any(s, cs).len() > 0 ==> !cs.contains(drop_any(s, cs).last()),
    decreases s.len(),
{
    if s.len() > 0 && cs.contains(s.last()) {
        let t = s.drop_last();
        lemma_drop_any(t, cs);
        assert(t.take(drop_any(t, cs).len() as int) =~= s.take(drop_any(t, cs).len() as int));
    } else {
        assert(s.take(s.len() as int) =~= s);
    }
}

/// A slug is made of small letters, digits and single dashes, and neither
/// starts nor ends with a dash.
pub proof fn law_slug_shape(s: Seq<char>)
    ensures
        slug_shaped(slug_of(s)),
        slug_of(s).len() > 0 ==> slug_of(s)[0] != '-' && slug_of(s).last() != '-',
{
    reveal_strlit("-");
    lemma_slug_raw(s);
    let raw = slug_raw(s);
    let a = skip_any(raw, "-"@);
    let b = slug_of(s);
    lemma_skip_any(raw, "-"@);
    lemma_drop_any(a, "-"@);
    assert("-"@.contains('-')) by {
        assert("-"@[0] == '-');
    }
    let k = raw.len() - a.len();
    assert forall|i: int| 0 <= i < b.len() implies b[i] == raw[i + k] by {
        assert(b[i] == a[i]);
    }
    assert forall|i: int| 0 <= i < b.len() implies slug_char(#[trigger] b[i]) || b[i] == '-' by {
        assert(b[i] == raw[i + k]);
    }
    assert forall|i: int| 0 <= i < b.len() - 1 implies !((#[trigger] b[i]) == '-' && b[i + 1]
        == '-') by {
        assert(b[i] == raw[i + k]);
        assert(b[i + 1] == raw[i + k + 1]);
    }
    if b.len() > 0 {
        assert(b[0] == a[0]);
    }
}

/// Whether a line is a heading of the first or second level.
pub open spec fn heading_line(line: Seq<char>) -> bool {
    starts(line, "# "@) || starts(line, "## "@)
}

/// The text of the first heading that has any.
pub open spec fn first_heading(ls: Seq<Seq<char>>) -> Option<Seq<char>>
    decreases ls.len(),
{
    if ls.len() == 0 {
        None
    } else {
        let line = trimmed(ls[0]);
        let h = trimmed(skip_any(line, "#"@));
        if line.len() > 0 && heading_line(line) && h.len() > 0 {
            Some(h)
        } else {
            first_heading(ls.drop_first())
        }
    }
}

/// The first line that is neither empty nor a heading.
pub open spec fn first_paragraph(ls: Seq<Seq<char>>) -> Option<Seq<char>>
    decreases ls.len(),
{
    if ls.len() == 0 {
        None
    } else {
        let line = trimmed(ls[0]);
        if line.len() > 0 && !heading_line(line) && !starts(line, "#"@) {
            Some(line)
        } else {
            first_paragraph(ls.drop_first())
        }
    }
}

/// What is read of a document: its description, the first heading or else the
/// first paragraph line, cut to 160 characters; and the text to embed, both of
/// them.
pub open spec fn entry_of(content: Seq<char>) -> (Seq<char>, Seq<char>) {
    match (first_heading(lines(content)), first_paragraph(lines(content))) {
        (Some(h), Some(p)) => (clipped(h, 160), h + "\n\n"@ + p),
        (Some(h), None) => (clipped(h, 160), h),
        (None, Some(p)) => (clipped(p, 160), p),
        (None, None) => (clipped(Seq::empty(), 160), Seq::empty()),
    }
}

/// A description has at most 160 characters.
pub proof fn law_description_is_short(content: Seq<char>)
    ensures
        entry_of(content).0.len() <= 160,
{
}

/// Keeps at most `n` characters.
pub fn truncate_chars(s: &str, n: usize) -> (r: String)
    ensures
        r@ == clipped(s@, n as nat),
{
    clip(s, n)
}

/// Reads what the index keeps of a document.
pub fn extract_entry(content: &str) -> (r: (String, String))
    ensures
        (r.0@, r.1@) == entry_of(content@),
{
    let ls = split_lines(content);
    let ghost all = texts(ls@);
    let mut heading: Option<String> = None;
    let mut para: Option<String> = None;
    let mut i: usize = 0;
    assert(all.skip(0) =~= all);
    while i < ls.len() && !(heading.is_some() && para.is_some())
        invariant
            all == texts(ls@),
            i <= ls@.len(),
            first_heading(all) == (match heading {
                Some(h) => Some(h@),
                None => first_heading(all.skip(i as int)),
            }),
            first_paragraph(all) == (match para {
                Some(p) => Some(p@),
                None => first_paragraph(all.skip(i as int)),
            }),
        decreases ls@.len() - i,
    {
        assert(all.skip(i as int)[0] == ls@[i as int]@);
        assert(all.skip(i as int).drop_first() =~= all.skip(i as int + 1));
        let line = trim(ls[i].as_str());
        i = i + 1;
        if !line.as_str().is_empty() {
            if has_prefix(line.as_str(), "# ") || has_prefix(line.as_str(), "## ") {
                if heading.is_none() {
                    let h = trim(trim_start_any(line.as_str(), "#").as_str());
                    if !h.as_str().is_empty() {
                        heading = Some(h);
                    }
                }
            } else if !has_prefix(line.as_str(), "#") && para.is_none() {
                para = Some(line);
            }
        }
    }
    assert(i == ls@.len() ==> all.skip(i as int).len() == 0);
    match (heading, para) {
        (Some(h), Some(p)) => {
            let d = truncate_chars(h.as_str(), DESC_MAX_CHARS);
            let mut t = h;
            t.append("\n\n");
            t.append(p.as_str());
            (d, t)
        },
        (Some(h), None) => (truncate_chars(h.as_str(), DESC_MAX_CHARS), h),
        (None, Some(p)) => (truncate_chars(p.as_str(), DESC_MAX_CHARS), p),
        (None, None) => {
            let e = String::new();
            assert(e@ =~= Seq::<char>::empty());
            (truncate_chars(e.as_str(), DESC_MAX_CHARS), String::new())
        },
    }
}

/// Whether ten characters have the shape of a date.
pub open spec fn date_shaped(s: Seq<char>) -> bool {
    s.len() == 10 && digit(s[0]) && digit(s[1]) && digit(s[2]) && digit(s[3]) && s[4] == '-'
        && digit(s[5]) && digit(s[6]) && s[7] == '-' && digit(s[8]) && digit(s[9])
}

/// The first second of the first day that a name holds as `YYYY-MM-DD`.
pub open spec fn date_in(s: Seq<char>) -> Option<int>
    decreases s.len(),
{
    if s.len() < 10 {
        None
    } else {
        let w = s.take(10);
        if date_shaped(w) && ymd_day(w) is Some {
            Some(day_start(ymd_day(w)->0 as int))
        } else {
            date_in(s.drop_first())
        }
    }
}

/// Reads the first day that a file name holds.
pub fn filename_date(name: &str) -> (r: Option<i64>)
    ensures
        match r {
            Some(t) => date_in(name@) == Some(t as int),
            None => date_in(name@) is None,
        },
{
    let v = chars_of(name);
    if v.len() < 10 {
        return None;
    }
    let n: usize = v.len();
    let last: usize = n - 10;
    let mut i: usize = 0;
    assert(v@.skip(0) =~= v@);
    while i <= last
        invariant
            v@ == name@,
            n == v@.len(),
            n == last + 10,
            i <= last + 1,
            date_in(name@) == date_in(v@.skip(i as int)),
        decreases last + 1 - i,
    {
        let ghost here = v@.skip(i as int);
        let ghost w = here.take(10);
        assert(here.drop_first() =~= v@.skip(i as int + 1));
        assert(w =~= v@.subrange(i as int, i + 10));
        let shaped = is_digit(v[i]) && is_digit(v[i + 1]) && is_digit(v[i + 2]) && is_digit(
            v[i + 3],
        ) && v[i + 4] == '-' && is_digit(v[i + 5]) && is_digit(v[i + 6]) && v[i + 7] == '-'
            && is_digit(v[i + 8]) && is_digit(v[i + 9]);
        if shaped {
            let text = slice_text(&v, i, i + 10);
            if let Some(d) = day_named(text.as_str()) {
                return Some(day_start_epoch(d));
            }
        }
        i = i + 1;
    }
    None
}

/// What the index keeps of one document.
#[derive(Debug)]
pub struct KxEntry {
    pub id: String,
    pub name: String,
    pub description: String,
    pub content: String,
    pub source: String,
    pub source_ref: String,
    pub valid_from: i64,
}

/// What such an entry is.
pub struct KxEntryV {
    pub id: Seq<char>,
    pub name: Seq<char>,
    pub description: Seq<char>,
    pub content: Seq<char>,
    pub source: Seq<char>,
    pub source_ref: Seq<char>,
    pub valid_from: int,
}

impl View for KxEntry {
    type V = KxEntryV;

    open spec fn view(&self) -> KxEntryV {
        KxEntryV {
            id: self.id@,
            name: self.name@,
            description: self.description@,
            content: self.content@,
            source: self.source@,
            source_ref: self.source_ref@,
            valid_from: self.valid_from as int,
        }
    }
}

/// The hexadecimal digest of a text.
pub open spec fn hash_of(s: Seq<char>) -> Seq<char> {
    hex(sha256_of(encode_utf8(s)))
}

/// The entry of a document at the absolute path `abs`, which is `rel` below its
/// corpus and called `filename`. It is dated by its name, else by its file.
pub open spec fn entry_view(
    abs: Seq<char>,
    rel: Seq<char>,
    filename: Seq<char>,
    body: Seq<char>,
    mtime: int,
) -> KxEntryV {
    let (description, text) = entry_of(body);
    KxEntryV {
        id: clipped(hash_of(abs), 16),
        name: slug_of(replaced(rel, '\\', "/"@)),
        description,
        content: if text.len() == 0 {
            abs
        } else {
            abs + "\n\n"@ + text
        },
        source: "kxsha:"@ + hash_of(body),
        source_ref: abs,
        valid_from: match date_in(filename) {
            Some(t) => t,
            None => mtime,
        },
    }
}

/// Reads the entry of a document.
pub fn read_entry(abs: &str, rel: &str, filename: &str, body: &str, mtime: i64) -> (r: KxEntry)
    ensures
        r@ == entry_view(abs@, rel@, filename@, body@, mtime as int),
{
    let id = clip(content_hash(abs).as_str(), 16);
    let name = slugify(replace_char(rel, '\\', "/").as_str());
    let mut source = "kxsha:".to_string();
    source.append(content_hash(body).as_str());
    let valid_from: i64 = match filename_date(filename) {
        Some(t) => t,
        None => mtime,
    };
    let (description, text) = extract_entry(body);
    let mut content = abs.to_owned();
    if !text.as_str().is_empty() {
        content.append("\n\n");
        content.append(text.as_str());
    }
    KxEntry { id, name, description, content, source, source_ref: abs.to_owned(), valid_from }
}

/// What taking a document does.
#[derive(Clone, Copy, Debug, PartialEq, Eq, Structural)]
pub enum IngestAction {
    Inserted,
    Updated,
    Skipped,
}

/// What taking a document does, given the source mark of the row that the index
/// has for it: a document whose digest has not changed is passed over unless
/// forced.
pub open spec fn ingest_action(
    existing: Option<Seq<char>>,
    source: Seq<char>,
    force: bool,
) -> IngestAction {
    match existing {
        None => IngestAction::Inserted,
        Some(s) => if s == source && !force {
            IngestAction::Skipped
        } else {
            IngestAction::Updated
        },
    }
}

/// Decides what taking a document does.
pub fn decide_ingest(existing: &Option<String>, entry: &KxEntry, force: bool) -> (r: IngestAction)
    ensures
        r == ingest_action(opt_text(*existing), entry.source@, force),
{
    match existing {
        None => IngestAction::Inserted,
        Some(s) => if same(s.as_str(), entry.source.as_str()) && !force {
            IngestAction::Skipped
        } else {
            IngestAction::Updated
        },
    }
}

/// What was done with one corpus.
#[derive(Debug)]
pub struct SourceReport {
    pub path: String,
    pub scanned: usize,
    pub inserted: usize,
    pub updated: usize,
    pub skipped: usize,
}

impl SourceReport {
    /// The report of a corpus of which nothing has been taken yet.
    pub fn new(path: &str) -> (r: SourceReport)
        ensures
            r.path@ == path@,
            r.scanned == 0 && r.inserted == 0 && r.updated == 0 && r.skipped == 0,
    {
        SourceReport { path: path.to_owned(), scanned: 0, inserted: 0, updated: 0, skipped: 0 }
    }

    /// Counts one document: what was done with it, or that it could not be
    /// taken.
    pub fn count(&mut self, action: Option<IngestAction>)
        requires
            old(self).scanned < usize::MAX,
            old(self).inserted <= old(self).scanned,
            old(self).updated <= old(self).scanned,
            old(self).skipped <= old(self).scanned,
        ensures
            final(self).path == old(self).path,
            final(self).scanned == old(self).scanned + 1,
            final(self).inserted == old(self).inserted + (if action == Some(IngestAction::Inserted) {
                1int
            } else {
                0
            }),
            final(self).updated == old(self).updated + (if action == Some(IngestAction::Updated) {
                1int
            } else {
                0
            }),
            final(self).skipped == old(self).skipped + (if action == Some(IngestAction::Skipped) {
                1int
            } else {
                0
            }),
    {
        self.scanned = self.scanned + 1;
        match action {
            Some(IngestAction::Inserted) => {
                self.inserted = self.inserted + 1;
            },
            Some(IngestAction::Updated) => {
                self.updated = self.updated + 1;
            },
            Some(IngestAction::Skipped) => {
                self.skipped = self.skipped + 1;
            },
            None => {},
        }
    }
}

/// The sums of some reports: scanned, inserted, updated, skipped.
pub open spec fn totals(v: Seq<SourceReport>) -> (nat, nat, nat, nat)
    decreases v.len(),
{
    if v.len() == 0 {
        (0, 0, 0, 0)
    } else {
        let (a, b, c, d) = totals(v.drop_last());
        let r = v.last();
        (a + r.scanned as nat, b + r.inserted as nat, c + r.updated as nat, d + r.skipped as nat)
    }
}

/// Sums only grow.
proof fn lemma_totals_grow(v: Seq<SourceReport>, k: int)
    requires
        0 <= k <= v.len(),
    ensures
        totals(v.take(k)).0 <= totals(v).0,
        totals(v.take(k)).1 <= totals(v).1,
        totals(v.take(k)).2 <= totals(v).2,
        totals(v.take(k)).3 <= totals(v).3,
    decreases v.len() - k,
{
    if k < v.len() {
        lemma_totals_grow(v, k + 1);
        assert(v.take(k + 1).drop_last() =~= v.take(k));
    } else {
        assert(v.take(k) =~= v);
    }
}

/// Four counts as JSON.
pub open spec fn counts_json(
    m: Map<Seq<char>, JsonV>,
    a: u64,
    b: u64,
    c: u64,
    d: u64,
) -> JsonV {
    JsonV::Object(
        m.insert("scanned"@, JsonV::Number(unsigned_number(a))).insert(
            "inserted"@,
            JsonV::Number(unsigned_number(b)),
        ).insert("updated"@, JsonV::Number(unsigned_number(c))).insert(
            "skipped"@,
            JsonV::Number(unsigned_number(d)),
        ),
    )
}

/// A report as JSON.
pub open spec fn report_json(r: SourceReport) -> JsonV {
    counts_json(
        Map::empty().insert("path"@, JsonV::Str(r.path@)),
        r.scanned as u64,
        r.inserted as u64,
        r.updated as u64,
        r.skipped as u64,
    )
}

/// Four counts as text.
pub open spec fn counts_text(a: nat, b: nat, c: nat, d: nat) -> Seq<char> {
    decimal(a) + " scanned, +"@ + decimal(b) + " inserted, ~"@ + decimal(c) + " updated, ="@
        + decimal(d) + " skipped"@
}

/// The mark of a report of what would be done.
pub open spec fn dry_mark(dry_run: bool) -> Seq<char> {
    if dry_run {
        "[dry-run] "@
    } else {
        ""@
    }
}

/// Adds up some reports.
fn sum_reports(reports: &Vec<SourceReport>) -> (r: (usize, usize, usize, usize))
    requires
        totals(reports@).0 <= usize::MAX,
        totals(reports@).1 <= usize::MAX,
        totals(reports@).2 <= usize::MAX,
        totals(reports@).3 <= usize::MAX,
    ensures
        (r.0 as nat, r.1 as nat, r.2 as nat, r.3 as nat) == totals(reports@),
{
    let mut a: usize = 0;
    let mut b: usize = 0;
    let mut c: usize = 0;
    let mut d: usize = 0;
    let mut i: usize = 0;
    assert(reports@.take(0).len() == 0);
    while i < reports.len()
        invariant
            i <= reports@.len(),
            totals(reports@).0 <= usize::MAX,
            totals(reports@).1 <= usize::MAX,
            totals(reports@).2 <= usize::MAX,
            totals(reports@).3 <= usize::MAX,
            (a as nat, b as nat, c as nat, d as nat) == totals(reports@.take(i as int)),
        decreases reports@.len() - i,
    {
        proof {
            lemma_totals_grow(reports@, i as int + 1);
            assert(reports@.take(i as int + 1).drop_last() =~= reports@.take(i as int));
        }
        a = a + reports[i].scanned;
        b = b + reports[i].inserted;
        c = c + reports[i].updated;
        d = d + reports[i].skipped;
        i = i + 1;
    }
    assert(reports@.take(i as int) =~= reports@);
    (a, b, c, d)
}

/// Writes four counts.
fn write_counts(a: usize, b: usize, c: usize, d: usize) -> (r: String)
    ensures
        r@ == counts_text(a as nat, b as nat, c as nat, d as nat),
{
    let mut t = usize_text(a);
    t.append(" scanned, +");
    t.append(usize_text(b).as_str());
    t.append(" inserted, ~");
    t.append(usize_text(c).as_str());
    t.append(" updated, =");
    t.append(usize_text(d).as_str());
    t.append(" skipped");
    t
}

/// The lines of an ingest report: one for each corpus, and the sums.
pub open spec fn ingest_lines(v: Seq<SourceReport>, dry_run: bool) -> Seq<Seq<char>> {
    let (a, b, c, d) = totals(v);
    v.map_values(
        |r: SourceReport|
            dry_mark(dry_run) + r.path@ + ": "@ + counts_text(
                r.scanned as nat,
                r.inserted as nat,
                r.updated as nat,
                r.skipped as nat,
            ),
    ).push(dry_mark(dry_run) + "total: "@ + counts_text(a, b, c, d))
}

/// Writes an ingest report as text.
pub fn report_ingest(reports: &Vec<SourceReport>, dry_run: bool) -> (r: Vec<String>)
    requires
        totals(reports@).0 <= usize::MAX,
        totals(reports@).1 <= usize::MAX,
        totals(reports@).2 <= usize::MAX,
        totals(reports@).3 <= usize::MAX,
    ensures
        texts(r@) == ingest_lines(reports@, dry_run),
{
    let (a, b, c, d) = sum_reports(reports);
    let mark = if dry_run {
        "[dry-run] "
    } else {
        ""
    };
    let mut out: Vec<String> = Vec::new();
    let mut i: usize = 0;
    while i < reports.len()
        invariant
            i <= reports@.len(),
            out@.len() == i,
            mark@ == dry_mark(dry_run),
            forall|k: int|
                0 <= k < i ==> (#[trigger] out@[k])@ == dry_mark(dry_run) + reports@[k].path@
                    + ": "@ + counts_text(
                    reports@[k].scanned as nat,
                    reports@[k].inserted as nat,
                    reports@[k].updated as nat,
                    reports@[k].skipped as nat,
                ),
        decreases reports@.len() - i,
    {
        let r = &reports[i];
        let mut l = mark.to_owned();
        l.append(r.path.as_str());
        l.append(": ");
        l.append(write_counts(r.scanned, r.inserted, r.updated, r.skipped).as_str());
        out.push(l);
        i = i + 1;
    }
    let mut l = mark.to_owned();
    l.append("total: ");
    l.append(write_counts(a, b, c, d).as_str());
    out.push(l);
    assert(texts(out@) =~= ingest_lines(reports@, dry_run));
    out
}

/// Writes an ingest report as JSON.
pub fn report_ingest_json(reports: &Vec<SourceReport>, dry_run: bool) -> (r: Json)
    requires
        totals(reports@).0 <= usize::MAX,
        totals(reports@).1 <= usize::MAX,
        totals(reports@).2 <= usize::MAX,
        totals(reports@).3 <= usize::MAX,
    ensures
        r.tree() == JsonV::Object(
            Map::empty().insert("dry_run"@, JsonV::Bool(dry_run)).insert(
                "sources"@,
                JsonV::Array(reports@.map_values(|r: SourceReport| report_json(r))),
            ).insert(
                "totals"@,
                counts_json(
                    Map::empty(),
                    totals(reports@).0 as u64,
                    totals(reports@).1 as u64,
                    totals(reports@).2 as u64,
                    totals(reports@).3 as u64,
                ),
            ),
        ),
{
    let (a, b, c, d) = sum_reports(reports);
    let mut items: Vec<Json> = Vec::new();
    let mut i: usize = 0;
    while i < reports.len()
        invariant
            i <= reports@.len(),
            items@.len() == i,
            forall|k: int| 0 <= k < i ==> (#[trigger] items@[k]).tree() == report_json(reports@[k]),
        decreases reports@.len() - i,
    {
        let r = &reports[i];
        let mut o = JsonObject::new();
        o.insert_str("path", r.path.as_str());
        o.insert_unsigned("scanned", r.scanned as u64);
        o.insert_unsigned("inserted", r.inserted as u64);
        o.insert_unsigned("updated", r.updated as u64);
        o.insert_unsigned("skipped", r.skipped as u64);
        items.push(o.done());
        i = i + 1;
    }
    assert(trees(items@) =~= reports@.map_values(|r: SourceReport| report_json(r)));
    let mut t = JsonObject::new();
    t.insert_unsigned("scanned", a as u64);
    t.insert_unsigned("inserted", b as u64);
    t.insert_unsigned("updated", c as u64);
    t.insert_unsigned("skipped", d as u64);
    let mut o = JsonObject::new();
    o.insert_bool("dry_run", dry_run);
    o.insert("sources", Json::Array(items));
    o.insert("totals", t.done());
    o.done()
}

} // verus!
