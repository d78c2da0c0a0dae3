//! What is shown of memories: a superseded one never without the one in force and
//! never in full, and a key finds what has it.
use crate::query::selected;
use crate::render::{
    current_block, full_block, heading, hit_block, hit_blocks, indented, label_of, leads_to_index,
    list_query, listable, memory_lines, recent_query, show_query, shown, standing_part,
    verified_part, ListArgs,
};
use crate::resolve::{reached, resolved};
use crate::rows::MemoryV;
use crate::store::StoreV;
use crate::text::joined;
use vstd::prelude::*;

verus! {

/// A hit in force is shown with its heading, its label and its whole content.
pub proof fn law_hit_in_force_is_shown_in_full(s: StoreV, m: MemoryV)
    requires
        m.lifecycle != "superseded"@,
    ensures
        ({
            let b = hit_block(s, m);
            &&& b.error is None
            &&& b.lines.len() >= 4
            &&& b.lines[0] == heading(m, crate::render::day(m.updated_at))
            &&& b.lines[1] == "  "@ + label_of(m)
            &&& b.lines[b.lines.len() - 2] == indented(m.content, "  "@)
        }),
{
}

/// A superseded hit is never shown in full: whatever its content, tags and source
/// are, the same is shown.
pub proof fn law_superseded_hit_hides_its_content(
    s: StoreV,
    m: MemoryV,
    content: Seq<char>,
    tags: Seq<char>,
    source: Seq<char>,
)
    requires
        m.lifecycle == "superseded"@,
    ensures
        hit_block(s, MemoryV { content, tags, source, ..m }) == hit_block(s, m),
{
    let n = MemoryV { content, tags, source, ..m };
    assert(leads_to_index(s, n) == leads_to_index(s, m));
    assert(heading(n, crate::render::day(n.updated_at)) == heading(
        m,
        crate::render::day(m.updated_at),
    ));
    assert(label_of(n) == label_of(m));
}

/// A superseded hit is shown below the memory in force that its chain ends at,
/// with that memory's content; where the chain cannot be followed, that is the
/// error.
pub proof fn law_superseded_hit_shows_what_is_in_force(
    s: StoreV,
    m: MemoryV,
    succ: Seq<char>,
)
    requires
        m.lifecycle == "superseded"@,
        m.superseded_by == Some(succ),
    ensures
        match resolved(s, succ) {
            Err(e) => hit_block(s, m).error == Some(e) && hit_block(s, m).lines.len() == 0,
            Ok(hops) => match s.get(reached(succ, hops)) {
                Some(head) => if head.type_ == "kx"@ {
                    hit_block(s, m).lines.len() == 0 && hit_block(s, m).error is None
                } else {
                    let b = hit_block(s, m);
                    &&& b.error is None && b.lines.len() >= 6
                    &&& b.lines[0] == heading(head, "CURRENT — supersedes the entry below"@)
                    &&& b.lines[2] == indented(head.content, "  "@)
                    &&& b.lines[b.lines.len() - 2] == heading(m, crate::render::day(m.updated_at))
                        + "\n  "@ + label_of(m)
                },
                None => hit_block(s, m).error is None && hit_block(s, m).lines[0] == "  (successor "@
                    + reached(succ, hops) + " not found — ORPHANED supersession)"@,
            },
        },
{
}

/// The hits of a search are shown one behind the other, up to the first error.
pub proof fn law_hits_are_shown_in_order(s: StoreV, ms: Seq<MemoryV>, m: MemoryV)
    ensures
        hit_blocks(s, Seq::empty()).lines.len() == 0 && hit_blocks(s, Seq::empty()).error is None,
        hit_blocks(s, ms).error is Some ==> hit_blocks(s, ms.push(m)) == hit_blocks(s, ms),
        hit_blocks(s, ms).error is None ==> hit_blocks(s, ms.push(m)).lines == hit_blocks(
            s,
            ms,
        ).lines + hit_block(s, m).lines && hit_blocks(s, ms.push(m)).error == hit_block(
            s,
            m,
        ).error,
{
    assert(ms.push(m).drop_last() =~= ms);
    assert(ms.push(m).last() == m);
}

/// A memory in full shows its heading, its activity, its lifecycle and its whole
/// content; one that was replaced shows the memory in force behind it.
pub proof fn law_full_memory_shows_everything(s: StoreV, m: MemoryV)
    ensures
        ({
            let b = full_block(s, m);
            let n = memory_lines(m).len();
            &&& b.lines.len() > n + 1
            &&& b.lines[0] == heading(m, crate::render::day(m.updated_at))
            &&& b.lines[1] == "  source: "@ + m.source
            &&& b.lines[n - 1] == m.content
            &&& b.lines[n - 6] == "  active: "@ + (if m.is_active {
                "true"@
            } else {
                "false"@
            })
            &&& b.lines[n - 5] == "  lifecycle: "@ + m.lifecycle
            &&& b.lines[n + 1int] == "trust: "@ + label_of(m)
            &&& m.superseded_by is None ==> b.error is None
            &&& m.superseded_by is Some ==> b.error == current_block(s, m.superseded_by->0).error
                && b.lines.skip(
                b.lines.len() - current_block(s, m.superseded_by->0).lines.len(),
            ) == current_block(s, m.superseded_by->0).lines
        }),
{
    let b = full_block(s, m);
    if m.superseded_by is Some {
        let c = current_block(s, m.superseded_by->0).lines;
        assert(b.lines.skip(b.lines.len() - c.len()) =~= c);
    }
}

/// A key finds nothing exactly where no memory has it as id or name, among active
/// ones unless others are asked for too.
pub proof fn law_key_finds_what_has_it(s: StoreV, key: Seq<char>, inactive: bool, json: bool)
    requires
        s.memories.len() <= usize::MAX,
    ensures
        shown(s, key, inactive, json) is Missing <==> forall|i: int|
            0 <= i < s.memories.len() ==> !(((#[trigger] s.memories[i]).id == key
                || s.memories[i].name == key) && (inactive || s.memories[i].is_active)),
{
    let q = show_query(key, inactive);
    let found = selected(s.memories, q, s.memories.len());
    crate::query::law_selection_admits(s.memories, q, s.memories.len());
    crate::context_laws::law_selection_is_newest_first(s.memories, q, s.memories.len());
    if found.len() == 0 {
        assert forall|i: int| 0 <= i < s.memories.len() implies !(((#[trigger] s.memories[i]).id
            == key || s.memories[i].name == key) && (inactive || s.memories[i].is_active)) by {
            if (s.memories[i].id == key || s.memories[i].name == key) && (inactive
                || s.memories[i].is_active) {
                assert(q.admits(s.memories[i]));
                assert(found.contains(s.memories[i]));
            }
        }
    } else {
        assert(q.admits(found[0]));
        let k = choose|k: int| 0 <= k < s.memories.len() && s.memories[k] == found[0];
        assert(s.memories[k].id == key || s.memories[k].name == key);
    }
}

/// A listing asks for one lifecycle, `active` where none is named, and for the
/// type where one is; what is new asks for what is active.
pub proof fn law_listing_asks_for_a_lifecycle(a: ListArgs, type_: Option<Seq<char>>, m: MemoryV)
    ensures
        list_query(a).admits(m) ==> {
            &&& a.lifecycle is None ==> m.lifecycle == "active"@
            &&& a.lifecycle is Some ==> m.lifecycle == a.lifecycle->0@
            &&& a.type_ is Some ==> m.type_ == a.type_->0@
        },
        a.cwd is None && a.tag is None && (a.type_ is None || m.type_ == a.type_->0@)
            && m.lifecycle == (if a.lifecycle is Some {
            a.lifecycle->0@
        } else {
            "active"@
        }) ==> list_query(a).admits(m),
        recent_query(type_).admits(m) <==> m.is_active && (type_ is None || type_ == Some(
            m.type_,
        )),
        listable("active"@) && listable("archived"@) && listable("trashed"@),
{
}

/// A label says that a memory was never verified exactly where it was not, and
/// names what replaced a superseded one.
pub proof fn law_label_parts(verified_at: Option<i64>, lifecycle: Seq<char>, by: Seq<char>)
    ensures
        verified_at is None ==> verified_part(verified_at) == "never verified"@,
        verified_at is Some ==> verified_part(verified_at) == "verified "@ + crate::render::day(
            verified_at->0,
        ),
        lifecycle == "superseded"@ ==> standing_part(lifecycle, Some(by)) == seq![
            "SUPERSEDED by "@ + by,
        ],
        lifecycle == "active"@ ==> standing_part(lifecycle, Some(by)).len() == 0,
{
    reveal_strlit("active");
    reveal_strlit("superseded");
    reveal_strlit("orphaned");
    assert("active"@.len() == 6 && "superseded"@.len() == 10 && "orphaned"@.len() == 8);
}

/// A label says first when the memory was recorded and whether it was verified,
/// and who wrote it where that is known; whatever it is shown for.
pub proof fn law_label_says_when_and_by_whom(m: MemoryV)
    ensures
        ({
            let when = "recorded "@ + crate::render::day(m.created_at);
            let parts = seq![when, verified_part(m.verified_at)] + (if m.author.len() > 0 {
                seq!["by "@ + m.author]
            } else {
                Seq::empty()
            });
            &&& label_of(m) == joined(
                parts + standing_part(m.lifecycle, m.superseded_by),
                " · "@,
            )
            &&& crate::render::session_label(m) == joined(
                parts + standing_part(m.lifecycle, None),
                " · "@,
            )
            &&& crate::recall::recall_label(m) == crate::render::session_label(m)
        }),
{
}

} // verus!
