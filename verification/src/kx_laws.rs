//! What the knowledge index owes its documents: where an entry points, what
//! describes it, when it dates from, and which corpora are taken.
use crate::dates::{day_start, ymd_day};
use crate::kx::{
    base_tags, date_in, date_shaped, entry_of, entry_view, expanded, extension_wanted, filters_of,
    first_heading, first_paragraph, hash_of, ingest_action, leaf_of, pointer, selected, totals,
    IngestAction, KxSource, SourceReport,
};
use crate::text::{
    after_prefix, ascii_lower, clipped, drop_any, lines, skip_any, split_on, starts, texts, trimmed,
};
use crate::text_laws::{
    law_ends_are_taken_off, law_lines_end_at_newlines, law_prefix_and_rest,
    law_split_at_the_separator,
};
use vstd::prelude::*;

verus! {

/// An entry points to its document: the first line of its content is the path.
pub proof fn law_entry_points_to_its_document(
    abs: Seq<char>,
    rel: Seq<char>,
    filename: Seq<char>,
    body: Seq<char>,
    mtime: int,
)
    requires
        abs.len() > 0,
        !abs.contains('\n'),
        abs.last() != '\r',
    ensures
        pointer(entry_view(abs, rel, filename, body, mtime).content) == abs,
        entry_view(abs, rel, filename, body, mtime).source_ref == abs,
{
    let e = entry_view(abs, rel, filename, body, mtime);
    let text = entry_of(body).1;
    reveal_strlit("\n\n");
    if text.len() == 0 {
        law_lines_end_at_newlines(abs, Seq::empty());
    } else {
        let rest = seq!['\n'] + text;
        assert(e.content =~= abs.push('\n') + rest);
        law_lines_end_at_newlines(abs, rest);
        assert(lines(e.content)[0] == abs);
    }
}

/// An entry is known by the path of its document and by nothing else, its mark
/// changes with the document's text alone, and its date comes from the file's
/// name where that has one and from the file otherwise.
pub proof fn law_entry_is_known_by_its_path(
    abs: Seq<char>,
    rel: Seq<char>,
    filename: Seq<char>,
    body: Seq<char>,
    mtime: int,
    body2: Seq<char>,
    mtime2: int,
)
    ensures
        ({
            let a = entry_view(abs, rel, filename, body, mtime);
            let b = entry_view(abs, rel, filename, body2, mtime2);
            &&& a.id == b.id && a.name == b.name && a.source_ref == b.source_ref
            &&& a.id == clipped(hash_of(abs), 16)
            &&& a.source == "kxsha:"@ + hash_of(body)
            &&& date_in(filename) is Some ==> a.valid_from == b.valid_from && Some(a.valid_from)
                == date_in(filename)
            &&& date_in(filename) is None ==> a.valid_from == mtime
            &&& a.description == entry_of(body).0
        }),
{
}

/// Whether a line is a heading of the first or second level that says something.
pub open spec fn titled(line: Seq<char>) -> bool {
    let l = trimmed(line);
    (starts(l, "# "@) || starts(l, "## "@)) && trimmed(skip_any(l, "#"@)).len() > 0 && l.len() > 0
}

/// Whether a line is one of a paragraph: it says something and is no heading.
pub open spec fn plain(line: Seq<char>) -> bool {
    let l = trimmed(line);
    l.len() > 0 && !starts(l, "#"@) && !starts(l, "# "@) && !starts(l, "## "@)
}

/// The heading of a document is its first, without the marks, and its paragraph
/// the first line that is none; neither is missed where it is there.
pub proof fn law_first_heading_and_paragraph(ls: Seq<Seq<char>>)
    ensures
        match first_heading(ls) {
            Some(h) => exists|i: int|
                0 <= i < ls.len() && titled(#[trigger] ls[i]) && h == trimmed(
                    skip_any(trimmed(ls[i]), "#"@),
                ) && forall|k: int| 0 <= k < i ==> !titled(#[trigger] ls[k]),
            None => forall|k: int| 0 <= k < ls.len() ==> !titled(#[trigger] ls[k]),
        },
        match first_paragraph(ls) {
            Some(p) => exists|i: int|
                0 <= i < ls.len() && plain(#[trigger] ls[i]) && p == trimmed(ls[i]) && forall|
                    k: int,
                |
                    0 <= k < i ==> !plain(#[trigger] ls[k]),
            None => forall|k: int| 0 <= k < ls.len() ==> !plain(#[trigger] ls[k]),
        },
    decreases ls.len(),
{
    if ls.len() > 0 {
        let t = ls.drop_first();
        law_first_heading_and_paragraph(t);
        assert forall|k: int| 0 <= k < t.len() implies t[k] == #[trigger] ls[k + 1] by {}
        if titled(ls[0]) {
            assert(first_heading(ls) == Some(trimmed(skip_any(trimmed(ls[0]), "#"@))));
        } else {
            match first_heading(t) {
                Some(h) => {
                    let i = choose|i: int|
                        0 <= i < t.len() && titled(#[trigger] t[i]) && h == trimmed(
                            skip_any(trimmed(t[i]), "#"@),
                        ) && forall|k: int| 0 <= k < i ==> !titled(#[trigger] t[k]);
                    assert(titled(ls[i + 1]));
                    assert forall|k: int| 0 <= k < i + 1 implies !titled(#[trigger] ls[k]) by {
                        if k > 0 {
                            assert(t[k - 1] == ls[k]);
                        }
                    }
                },
                None => {
                    assert forall|k: int| 0 <= k < ls.len() implies !titled(#[trigger] ls[k]) by {
                        if k > 0 {
                            assert(t[k - 1] == ls[k]);
                        }
                    }
                },
            }
        }
        if plain(ls[0]) {
            assert(first_paragraph(ls) == Some(trimmed(ls[0])));
        } else {
            match first_paragraph(t) {
                Some(p) => {
                    let i = choose|i: int|
                        0 <= i < t.len() && plain(#[trigger] t[i]) && p == trimmed(t[i]) && forall|
                            k: int,
                        |
                            0 <= k < i ==> !plain(#[trigger] t[k]);
                    assert(plain(ls[i + 1]));
                    assert forall|k: int| 0 <= k < i + 1 implies !plain(#[trigger] ls[k]) by {
                        if k > 0 {
                            assert(t[k - 1] == ls[k]);
                        }
                    }
                },
                None => {
                    assert forall|k: int| 0 <= k < ls.len() implies !plain(#[trigger] ls[k]) by {
                        if k > 0 {
                            assert(t[k - 1] == ls[k]);
                        }
                    }
                },
            }
        }
    }
}

/// A document is described by its heading, by its paragraph where it has none;
/// what is embedded is both.
pub proof fn law_description_is_the_heading(content: Seq<char>)
    ensures
        ({
            let h = first_heading(lines(content));
            let p = first_paragraph(lines(content));
            let (d, t) = entry_of(content);
            &&& h is Some ==> d == clipped(h->0, 160)
            &&& h is None && p is Some ==> d == clipped(p->0, 160) && t == p->0
            &&& h is None && p is None ==> d.len() == 0 && t.len() == 0
            &&& h is Some && p is Some ==> t == h->0 + "\n\n"@ + p->0
            &&& h is Some && p is None ==> t == h->0
        }),
{
}

/// The ten characters at a place.
pub open spec fn ten_at(s: Seq<char>, i: int) -> Seq<char> {
    s.subrange(i, i + 10)
}

/// The day in a file's name is the first ten characters that have the shape of a
/// date and name a day; none is found only where there are none.
pub proof fn law_day_in_a_name(s: Seq<char>)
    ensures
        match date_in(s) {
            Some(t) => exists|i: int|
                0 <= i && i + 10 <= s.len() && dated(#[trigger] ten_at(s, i)) && t == day_start(
                    ymd_day(ten_at(s, i))->0 as int,
                ) && forall|k: int| 0 <= k < i ==> !dated(#[trigger] ten_at(s, k)),
            None => forall|k: int| 0 <= k && k + 10 <= s.len() ==> !dated(#[trigger] ten_at(s, k)),
        },
    decreases s.len(),
{
    if s.len() >= 10 {
        assert(ten_at(s, 0) =~= s.take(10));
        if !dated(s.take(10)) {
            let t = s.drop_first();
            law_day_in_a_name(t);
            assert forall|k: int| 0 < k && k + 10 <= s.len() implies #[trigger] ten_at(s, k)
                == ten_at(t, k - 1) by {
                assert(ten_at(s, k) =~= ten_at(t, k - 1));
            }
            match date_in(t) {
                Some(d) => {
                    let i = choose|i: int|
                        0 <= i && i + 10 <= t.len() && dated(#[trigger] ten_at(t, i)) && d
                            == day_start(ymd_day(ten_at(t, i))->0 as int) && forall|k: int|
                            0 <= k < i ==> !dated(#[trigger] ten_at(t, k));
                    assert(ten_at(s, i + 1) == ten_at(t, i));
                    assert forall|k: int| 0 <= k < i + 1 implies !dated(#[trigger] ten_at(s, k)) by {
                        if k > 0 {
                            assert(ten_at(s, k) == ten_at(t, k - 1));
                        }
                    }
                },
                None => {
                    assert forall|k: int| 0 <= k && k + 10 <= s.len() implies !dated(
                        #[trigger] ten_at(s, k),
                    ) by {
                        if k > 0 {
                            assert(ten_at(s, k) == ten_at(t, k - 1));
                        }
                    }
                },
            }
        } else {
            assert(dated(ten_at(s, 0)));
        }
    }
}

/// Whether ten characters name a day.
pub open spec fn dated(s: Seq<char>) -> bool {
    date_shaped(s) && ymd_day(s) is Some
}

/// A document is taken where the index has none for it, passed over where its
/// mark is the same and nothing forces it, and taken again otherwise.
pub proof fn law_ingest_decides_by_the_mark(
    existing: Option<Seq<char>>,
    source: Seq<char>,
    force: bool,
)
    ensures
        ingest_action(existing, source, force) == IngestAction::Inserted <==> existing is None,
        ingest_action(existing, source, force) == IngestAction::Skipped <==> existing == Some(
            source,
        ) && !force,
        ingest_action(existing, source, force) == IngestAction::Updated <==> existing is Some && (
        force || existing->0 != source),
{
}

/// Whether a path is asked for: by nothing being asked, by the path itself or by
/// its last component.
pub open spec fn path_asked(path: Seq<char>, want: Option<Seq<char>>) -> bool {
    match want {
        None => true,
        Some(w) => path == w || leaf_of(path) == w,
    }
}

/// The corpora that are taken are all of them where none is asked for, and
/// otherwise those with the path or the last component that is asked for.
pub proof fn law_corpora_are_selected_by_path(paths: Seq<Seq<char>>, want: Option<Seq<char>>)
    ensures
        forall|k: int|
            0 <= k < selected(paths, want).len() ==> {
                let p = #[trigger] selected(paths, want)[k];
                &&& 0 <= p < paths.len()
                &&& path_asked(paths[p], want)
            },
        forall|x: int|
            0 <= x < paths.len() && path_asked(#[trigger] paths[x], want) ==> selected(paths, want).contains(x),
    decreases paths.len(),
{
    if paths.len() > 0 {
        let prev = paths.drop_last();
        law_corpora_are_selected_by_path(prev, want);
        let init = selected(prev, want);
        let r = selected(paths, want);
        assert forall|k: int| 0 <= k < r.len() implies {
            let p = #[trigger] r[k];
            &&& 0 <= p < paths.len()
            &&& path_asked(paths[p], want)
        } by {
            if k < init.len() {
                assert(r[k] == init[k]);
                assert(prev[init[k]] == paths[init[k]]);
            }
        }
        assert forall|x: int|
            0 <= x < paths.len() && path_asked(#[trigger] paths[x], want) implies r.contains(x) by {
            if x < prev.len() {
                assert(prev[x] == paths[x]);
                let k = choose|k: int| 0 <= k < init.len() && init[k] == x;
                assert(r[k] == x);
            } else {
                assert(r[r.len() - 1] == x);
            }
        }
    }
}

/// The last component of a path below a directory is the name there, with or
/// without a slash behind it.
pub proof fn law_leaf_is_the_last_component(dir: Seq<char>, name: Seq<char>)
    requires
        name.len() > 0,
        !name.contains('/'),
    ensures
        leaf_of(dir.push('/') + name) == name,
        leaf_of((dir.push('/') + name).push('/')) == name,
        leaf_of(name) == name,
{
    reveal_strlit("/");
    assert("/"@ =~= seq!['/']);
    assert(name[name.len() - 1] != '/');
    let p = dir.push('/') + name;
    assert(p.last() == name.last());
    assert(!"/"@.contains(name.last()));
    law_ends_are_taken_off(p, "/"@);
    law_ends_are_taken_off(name, "/"@);
    let q = p.push('/');
    assert(q.drop_last() =~= p);
    assert("/"@.contains(q.last())) by {
        assert("/"@[0] == '/');
    }
    assert(drop_any(q, "/"@) == p);
    law_split_at_the_separator(dir, name, '/');
    law_split_at_the_separator(name, name, '/');
    let parts = split_on(p, '/');
    assert(parts == split_on(dir, '/') + seq![name]);
    assert(parts.last() == name);
    let one = seq![name];
    assert(one.last() == name);
}

/// The home directory stands for a tilde, alone or before a path, and for its
/// variable; another path is as it is, and so is every path without a home.
pub proof fn law_home_is_put_in(home: Seq<char>, rest: Seq<char>)
    requires
        home.len() > 0,
        home.last() != '/',
        rest.len() > 0,
        rest[0] != '/',
        trimmed(rest) == rest,
        trimmed("~/"@ + rest) == "~/"@ + rest,
        trimmed("$HOME/"@ + rest) == "$HOME/"@ + rest,
        rest[0] != '~',
        rest[0] != '$',
    ensures
        expanded("~/"@ + rest, Some(home)) == home + "/"@ + rest,
        expanded("$HOME/"@ + rest, Some(home)) == home + "/"@ + rest,
        expanded(rest, Some(home)) == rest,
        expanded("~/"@ + rest, None) == "~/"@ + rest,
{
    reveal_strlit("~");
    reveal_strlit("~/");
    reveal_strlit("$HOME/");
    reveal_strlit("/");
    let a = "~/"@ + rest;
    let b = "$HOME/"@ + rest;
    law_prefix_and_rest(a, "~/"@, rest);
    law_prefix_and_rest(b, "$HOME/"@, rest);
    assert(a.len() > 1 && b.len() > 1);
    assert(b[0] == '$');
    assert(after_prefix(b, "~/"@) is None) by {
        if starts(b, "~/"@) {
            assert(b.subrange(0, 0 + "~/"@.len() as int)[0] == b[0]);
        }
    }
    assert(!starts(rest, "/"@)) by {
        if starts(rest, "/"@) {
            assert(rest.subrange(0, 0 + "/"@.len() as int)[0] == rest[0]);
        }
    }
    assert(after_prefix(rest, "~/"@) is None) by {
        if starts(rest, "~/"@) {
            assert(rest.subrange(0, 0 + "~/"@.len() as int)[0] == rest[0]);
        }
    }
    assert(after_prefix(rest, "$HOME/"@) is None) by {
        if starts(rest, "$HOME/"@) {
            assert(rest.subrange(0, 0 + "$HOME/"@.len() as int)[0] == rest[0]);
        }
    }
    assert(rest != "~"@) by {
        assert("~"@[0] == '~');
    }
}

/// An extension is wanted where it is one of those listed, in whatever case; a
/// file without one never is.
pub proof fn law_extension_in_whatever_case(wanted: Seq<Seq<char>>, ext: Seq<char>)
    ensures
        !extension_wanted(wanted, None),
        wanted.contains(ext) ==> extension_wanted(wanted, Some(ext)),
        extension_wanted(wanted, Some(ext)) ==> exists|i: int|
            0 <= i < wanted.len() && ascii_lower(#[trigger] wanted[i]) == ascii_lower(ext),
{
    if wanted.contains(ext) {
        let i = choose|i: int| 0 <= i < wanted.len() && wanted[i] == ext;
        assert(ascii_lower(wanted[i]) == ascii_lower(ext));
    }
}

/// The documents of a corpus carry its own tags, the repository's and the
/// category's where it has one.
pub proof fn law_corpus_tags(src: KxSource, root: Seq<char>)
    ensures
        forall|k: int|
            0 <= k < src.tags@.len() ==> base_tags(src, root).contains(
                #[trigger] texts(src.tags@)[k],
            ),
        base_tags(src, root).contains("repo:"@ + leaf_of(root)),
        src.category is Some ==> base_tags(src, root).contains("cat:"@ + src.category->0@),
        base_tags(src, root).len() == src.tags@.len() + 1 + (if src.category is Some {
            1nat
        } else {
            0nat
        }),
{
    let r = base_tags(src, root);
    let t = texts(src.tags@);
    assert forall|k: int| 0 <= k < src.tags@.len() implies r.contains(#[trigger] t[k]) by {
        assert(r[k] == t[k]);
    }
    assert(r[t.len() as int] == "repo:"@ + leaf_of(root));
    if src.category is Some {
        assert(r[t.len() as int + 1] == "cat:"@ + src.category->0@);
    }
}

/// The sums of a report are the sums of its parts: one more corpus adds its own
/// counts.
pub proof fn law_totals_add_up(v: Seq<SourceReport>, r: SourceReport)
    ensures
        totals(Seq::empty()) == (0nat, 0nat, 0nat, 0nat),
        ({
            let (a, b, c, d) = totals(v);
            totals(v.push(r)) == (
                a + r.scanned as nat,
                b + r.inserted as nat,
                c + r.updated as nat,
                d + r.skipped as nat,
            )
        }),
{
    assert(v.push(r).drop_last() =~= v);
    assert(v.push(r).last() == r);
}

/// A range of days is refused exactly where an end names no day; it begins with
/// the first second of its first day and ends with that of the day behind its
/// last, and the tags are as they were given.
pub proof fn law_range_of_days(
    tags: Seq<Seq<char>>,
    from: Option<Seq<char>>,
    to: Option<Seq<char>>,
)
    ensures
        filters_of(tags, from, to) is Err <==> (from is Some && ymd_day(from->0) is None) || (
        to is Some && ymd_day(to->0) is None),
        filters_of(tags, from, to) is Ok ==> ({
            let f = filters_of(tags, from, to)->Ok_0;
            &&& f.tags == tags
            &&& from is None ==> f.from is None
            &&& from is Some ==> f.from == Some((ymd_day(from->0)->0 - 719163) * 86400)
            &&& to is None ==> f.to_exclusive is None
            &&& to is Some && ymd_day(to->0)->0 < crate::dates::LAST_DAY ==> f.to_exclusive == Some(
                (ymd_day(to->0)->0 + 1 - 719163) * 86400,
            )
        }),
{
}

} // verus!
