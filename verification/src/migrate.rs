//! Importing memories from a directory of markdown files.
use crate::edit::{front_matter, imported, parse_frontmatter, FrontMatterV};
use crate::kx::{join_under, under};
use crate::settings::{Settings, SettingsV};
use crate::store::{position, Store, StoreV};
use crate::text::{chars_of, decimal, ends, same, strip_suffix, usize_text};
use vstd::prelude::*;

verus! {

/// The arguments of an import.
#[derive(Debug)]
pub struct MigrateArgs {
    /// The directory with the files.
    pub dir: Option<String>,
    /// Say what would be imported, and import nothing.
    pub dry_run: bool,
}

/// The directory of an import: the one given, else the usual one below the home
/// directory.
pub open spec fn import_dir(given: Option<Seq<char>>, usual: Seq<char>, s: SettingsV) -> Seq<char> {
    match given {
        Some(d) => d,
        None => under(
            match s.var("HOME"@) {
                Some(h) => h,
                None => ""@,
            },
            usual,
        ),
    }
}

/// The directory of an import, given the usual place below the home directory.
pub fn migrate_dir(args: &MigrateArgs, usual: &str, s: &Settings) -> (r: String)
    ensures
        r@ == import_dir(crate::text::opt_text(args.dir), usual@, s@),
{
    match &args.dir {
        Some(d) => d.clone(),
        None => {
            let home = match s.var("HOME") {
                Some(h) => h,
                None => "".to_string(),
            };
            join_under(home.as_str(), usual)
        },
    }
}

/// The id under which a file is imported: its name without the extension; `None`
/// for a file that holds no memory.
pub open spec fn import_id(name: Seq<char>) -> Option<Seq<char>> {
    if ends(name, ".md"@) && name.len() > 3 && name != "MEMORY.md"@ {
        Some(name.take(name.len() - 3))
    } else {
        None
    }
}

/// The id under which a file is imported.
pub fn file_id(name: &str) -> (r: Option<String>)
    ensures
        crate::text::opt_text(r) == import_id(name@),
{
    proof {
        reveal_strlit(".md");
    }
    if chars_of(name).len() <= 3 || same(name, "MEMORY.md") {
        return None;
    }
    match strip_suffix(name, ".md") {
        Some(stem) => Some(stem),
        None => None,
    }
}

/// What became of a file.
#[derive(Clone, Copy, Debug, PartialEq, Eq, Structural)]
pub enum Import {
    /// A memory was imported, or would be.
    Imported,
    /// The id was taken.
    Taken,
    /// The file has no heading of fields.
    Unreadable,
}

/// What becomes of a file.
pub open spec fn import_outcome(s: StoreV, id: Seq<char>, raw: Seq<char>, dry_run: bool) -> Import {
    if front_matter(raw) is None {
        Import::Unreadable
    } else if !dry_run && position(s.memories, id) is Some {
        Import::Taken
    } else {
        Import::Imported
    }
}

/// The line for an imported memory.
pub open spec fn import_line(id: Seq<char>, f: FrontMatterV, dry_run: bool) -> Seq<char> {
    (if dry_run {
        "would import: ["@
    } else {
        "imported: ["@
    }) + id + "] ("@ + f.type_ + ") "@ + f.name
}

/// The store after a file was imported.
pub open spec fn with_import(s: StoreV, id: Seq<char>, f: FrontMatterV, ts: i64) -> StoreV {
    let m = imported(id, f.type_, f.name, f.description, f.body, ts);
    (StoreV { memories: s.memories.push(m), ..s }).reindexed(m)
}

impl Store {
    /// Imports one file, and says so; a dry run only says so.
    pub fn migrate_file(&mut self, id: &str, raw: &str, dry_run: bool, ts: i64) -> (r: (
        Import,
        Option<String>,
    ))
        ensures
            r.0 == import_outcome(old(self)@, id@, raw@, dry_run),
            match r.1 {
                Some(l) => r.0 is Imported && l@ == import_line(
                    id@,
                    front_matter(raw@)->0,
                    dry_run,
                ),
                None => !(r.0 is Imported),
            },
            final(self)@ == (if r.0 is Imported && !dry_run {
                with_import(old(self)@, id@, front_matter(raw@)->0, ts)
            } else {
                old(self)@
            }),
    {
        let f = match parse_frontmatter(raw) {
            Some(f) => f,
            None => {
                return (Import::Unreadable, None);
            },
        };
        if !dry_run && !self.import_memory(
            id,
            f.type_.as_str(),
            f.name.as_str(),
            f.description.as_str(),
            f.body.as_str(),
            ts,
        ) {
            return (Import::Taken, None);
        }
        let mut l = if dry_run {
            "would import: [".to_string()
        } else {
            "imported: [".to_string()
        };
        l.append(id);
        l.append("] (");
        l.append(f.type_.as_str());
        l.append(") ");
        l.append(f.name.as_str());
        (Import::Imported, Some(l))
    }
}

/// What an import says at its end.
pub fn migrate_last_line(count: usize, skipped: usize) -> (r: String)
    ensures
        r@ == "done: "@ + decimal(count as nat) + " imported, "@ + decimal(skipped as nat)
            + " skipped"@,
{
    let mut l = "done: ".to_string();
    l.append(usize_text(count).as_str());
    l.append(" imported, ");
    l.append(usize_text(skipped).as_str());
    l.append(" skipped");
    l
}

/// Importing a file again changes nothing: its id is taken by then.
pub proof fn law_import_is_idempotent(s: StoreV, id: Seq<char>, raw: Seq<char>, ts: i64)
    requires
        import_outcome(s, id, raw, false) is Imported,
    ensures
        ({
            let t = with_import(s, id, front_matter(raw)->0, ts);
            &&& import_outcome(t, id, raw, false) is Taken
            &&& t.memories.len() == s.memories.len() + 1
            &&& forall|i: int| 0 <= i < s.memories.len() ==> t.memories[i] == #[trigger] s.memories[i]
        }),
{
    let f = front_matter(raw)->0;
    let m = imported(id, f.type_, f.name, f.description, f.body, ts);
    let t = with_import(s, id, f, ts);
    assert(t.memories == s.memories.push(m));
    crate::store::lemma_position(t.memories, id);
    assert(t.memories[s.memories.len() as int].id == id);
}

} // verus!
