//! What applying a plan owes: only what is selected is done, each candidate does
//! what its action says, and nothing is done behind an error.
use crate::edit_laws::{
    law_addition_is_read_back, law_change_sets_what_is_given, law_lifecycle_shows,
};
use crate::plan::{
    applied, candidate_addition, candidate_change, plan_applied, plan_refused, takes,
    unknown_selected, ApplyCandidate,
};
use crate::settings::SettingsV;
use crate::store::StoreV;
use crate::text::{listed, opt_text};
use vstd::prelude::*;

verus! {

/// A candidate that adds leaves the memory that it describes, under the id that
/// was drawn; it needs a type, a name, a description and a body.
pub proof fn law_candidate_adds(
    st: StoreV,
    c: ApplyCandidate,
    id: Seq<char>,
    ts: i64,
    s: SettingsV,
)
    requires
        c.action@ == "add"@,
    ensures
        c.type_ is None || c.name is None || c.description is None || c.content is None ==> applied(
            st,
            c,
            id,
            ts,
            s,
        ) is Err,
        applied(st, c, id, ts, s) is Ok ==> ({
            let t = applied(st, c, id, ts, s)->Ok_0;
            let m = t.get(id)->0;
            &&& st.get(id) is None && t.get(id) is Some
            &&& m.type_ == c.type_->0@ && m.name == c.name->0@ && m.description
                == c.description->0@ && m.content == c.content->0@
            &&& c.tags is Some ==> m.tags == c.tags->0@
            &&& c.tags is None ==> m.tags.len() == 0
            &&& c.cwd is Some ==> m.cwd == c.cwd->0@
            &&& c.source is Some ==> m.source == c.source->0@
            &&& c.source is None ==> m.source == "apply-plan"@
            &&& m.source_ref == opt_text(c.source_report)
            &&& m.is_active && m.lifecycle == "active"@ && m.created_at == ts
            &&& t.memories == st.memories.push(m)
        }),
{
    if applied(st, c, id, ts, s) is Ok {
        law_addition_is_read_back(st, candidate_addition(c), opt_text(c.content), id, ts, s);
    }
}

/// A candidate that changes sets the fields that it gives of the memory that it
/// names, and no others.
pub proof fn law_candidate_changes(
    st: StoreV,
    c: ApplyCandidate,
    id: Seq<char>,
    ts: i64,
    s: SettingsV,
)
    requires
        c.action@ == "update"@,
    ensures
        c.memory_id is None ==> applied(st, c, id, ts, s) is Err,
        applied(st, c, id, ts, s) is Ok ==> ({
            let t = applied(st, c, id, ts, s)->Ok_0;
            let m = st.get(c.memory_id->0@)->0;
            let n = t.get(c.memory_id->0@)->0;
            &&& st.get(c.memory_id->0@) is Some && t.get(c.memory_id->0@) is Some
            &&& n.name == (if c.name is Some {
                c.name->0@
            } else {
                m.name
            })
            &&& n.description == (if c.description is Some {
                c.description->0@
            } else {
                m.description
            })
            &&& n.content == (if c.content is Some {
                c.content->0@
            } else {
                m.content
            })
            &&& n.tags == (if c.tags is Some {
                c.tags->0@
            } else {
                m.tags
            })
            &&& n.is_active == (if c.active is Some {
                c.active->0
            } else {
                m.is_active
            })
            &&& n.scope == (if c.scope is Some {
                c.scope->0@
            } else {
                m.scope
            })
            &&& n.updated_at == ts && n.type_ == m.type_ && n.created_at == m.created_at
        }),
{
    reveal_strlit("add");
    reveal_strlit("update");
    assert("add"@.len() == 3 && "update"@.len() == 6);
    if applied(st, c, id, ts, s) is Ok {
        law_change_sets_what_is_given(st, candidate_change(c), opt_text(c.content), ts);
    }
}

/// A candidate that archives, throws away or restores sets that lifecycle of the
/// memory that it names, and any other action is refused.
pub proof fn law_candidate_sets_a_lifecycle(
    st: StoreV,
    c: ApplyCandidate,
    id: Seq<char>,
    ts: i64,
    s: SettingsV,
)
    requires
        c.action@ != "add"@,
        c.action@ != "update"@,
    ensures
        applied(st, c, id, ts, s) is Ok ==> ({
            let t = applied(st, c, id, ts, s)->Ok_0;
            let n = t.get(c.memory_id->0@)->0;
            &&& c.memory_id is Some && t.get(c.memory_id->0@) is Some
            &&& c.action@ == "archive"@ || c.action@ == "trash"@ || c.action@ == "restore"@
            &&& c.action@ == "archive"@ ==> n.lifecycle == "archived"@ && !n.is_active
            &&& c.action@ == "trash"@ ==> n.lifecycle == "trashed"@ && !n.is_active
            &&& c.action@ == "restore"@ ==> n.lifecycle == "active"@ && n.is_active
            &&& n.content == st.get(c.memory_id->0@)->0.content
            &&& c.reason is Some ==> t.events.last().reason == c.reason->0@
        }),
        (c.action@ == "archive"@ || c.action@ == "trash"@ || c.action@ == "restore"@)
            && c.memory_id is Some && st.get(c.memory_id->0@) is Some ==> applied(
            st,
            c,
            id,
            ts,
            s,
        ) is Ok,
{
    reveal_strlit("archive");
    reveal_strlit("trash");
    reveal_strlit("restore");
    reveal_strlit("active");
    reveal_strlit("archived");
    reveal_strlit("trashed");
    assert("archive"@.len() == 7 && "trash"@.len() == 5 && "restore"@.len() == 7);
    assert("archive"@[0] == 'a' && "restore"@[0] == 'r');
    assert("active"@.len() == 6 && "archived"@.len() == 8 && "trashed"@.len() == 7);
    let l = crate::plan::action_lifecycle(c.action@);
    if c.memory_id is Some && l is Some {
        law_lifecycle_shows(
            st,
            c.memory_id->0@,
            l->0,
            crate::plan::or_empty(c.reason),
            crate::plan::or_empty(c.source_report),
            ts,
        );
        crate::store::lemma_position(st.memories, c.memory_id->0@);
        if st.get(c.memory_id->0@) is Some {
            let i = crate::store::position(st.memories, c.memory_id->0@)->0;
            assert(st.memories[i].id == c.memory_id->0@);
        }
    }
}

/// A text that is selected and unknown is found where there is one, and what is
/// found is one.
proof fn lemma_unknown(select: Seq<Seq<char>>, ids: Seq<Seq<char>>)
    ensures
        match unknown_selected(select, ids) {
            Some(x) => select.contains(x) && !ids.contains(x),
            None => forall|k: int| 0 <= k < select.len() ==> ids.contains(#[trigger] select[k]),
        },
    decreases select.len(),
{
    if select.len() > 0 {
        let prev = select.drop_last();
        let x = select.last();
        lemma_unknown(prev, ids);
        assert(listed(ids, x) == ids.contains(x)) by {
            if ids.contains(x) {
                let k = choose|k: int| 0 <= k < ids.len() && ids[k] == x;
                assert(ids[k] == x);
            }
        }
        match unknown_selected(select, ids) {
            Some(y) => {
                if y == x {
                    assert(select[select.len() - 1] == x);
                } else {
                    let k = choose|k: int| 0 <= k < prev.len() && prev[k] == y;
                    assert(select[k] == y);
                }
            },
            None => {
                assert forall|k: int| 0 <= k < select.len() implies ids.contains(
                    #[trigger] select[k],
                ) by {
                    if k < prev.len() {
                        assert(prev[k] == select[k]);
                    }
                }
            },
        }
    }
}

/// A plan is refused exactly where nothing is selected for a real run, or
/// something is selected that the plan does not hold.
pub proof fn law_plan_is_refused(select: Seq<Seq<char>>, ids: Seq<Seq<char>>, dry_run: bool)
    ensures
        plan_refused(select, ids, dry_run) is Some <==> (!dry_run && select.len() == 0) || exists|
            k: int,
        |
            0 <= k < select.len() && !ids.contains(#[trigger] select[k]),
{
    lemma_unknown(select, ids);
    match unknown_selected(select, ids) {
        Some(x) => {
            let k = choose|k: int| 0 <= k < select.len() && select[k] == x;
            assert(!ids.contains(select[k]));
        },
        None => {},
    }
}

/// A selection takes what it names, and everything where it names nothing.
pub proof fn law_selection_takes_what_it_names(select: Seq<Seq<char>>, id: Seq<char>)
    ensures
        takes(select, id) <==> select.len() == 0 || select.contains(id),
{
    if select.contains(id) {
        let k = choose|k: int| 0 <= k < select.len() && select[k] == id;
        assert(select[k] == id);
    }
}

/// One more candidate in a plan: behind an error nothing is done, a candidate
/// that is not selected does nothing, and another does what it does alone to what
/// the ones before it left; where it fails, the store stays as it was.
pub proof fn law_plan_goes_candidate_by_candidate(
    st: StoreV,
    cs: Seq<ApplyCandidate>,
    c: ApplyCandidate,
    ids: Seq<Seq<char>>,
    id: Seq<char>,
    select: Seq<Seq<char>>,
    ts: i64,
    s: SettingsV,
)
    requires
        ids.len() == cs.len(),
    ensures
        ({
            let (t, err) = plan_applied(st, cs, ids, select, ts, s);
            let (u, err2) = plan_applied(st, cs.push(c), ids.push(id), select, ts, s);
            let taken = select.len() == 0 || select.contains(c.id@);
            &&& err is Some ==> u == t && err2 == err
            &&& err is None && !taken ==> u == t && err2 is None
            &&& err is None && taken ==> match applied(t, c, id, ts, s) {
                Ok(v) => u == v && err2 is None,
                Err(e) => u == t && err2 == Some(e),
            }
        }),
        plan_applied(st, Seq::empty(), Seq::empty(), select, ts, s) == (
            st,
            None::<Seq<char>>,
        ),
{
    let more = cs.push(c);
    assert(more.drop_last() =~= cs);
    assert(more.last() == c);
    lemma_ids_ahead(st, cs, ids, ids.push(id), select, ts, s);
    law_selection_takes_what_it_names(select, c.id@);
}

/// Only the ids of the candidates that are there matter.
proof fn lemma_ids_ahead(
    st: StoreV,
    cs: Seq<ApplyCandidate>,
    a: Seq<Seq<char>>,
    b: Seq<Seq<char>>,
    select: Seq<Seq<char>>,
    ts: i64,
    s: SettingsV,
)
    requires
        forall|k: int| 0 <= k < cs.len() ==> #[trigger] a[k] == b[k],
    ensures
        plan_applied(st, cs, a, select, ts, s) == plan_applied(st, cs, b, select, ts, s),
    decreases cs.len(),
{
    if cs.len() > 0 {
        lemma_ids_ahead(st, cs.drop_last(), a, b, select, ts, s);
        assert(a[cs.len() - 1] == b[cs.len() - 1]);
    }
}

/// What is told of a plan goes candidate by candidate: only of one that was
/// selected and applied anything is told.
pub proof fn law_plan_is_told_candidate_by_candidate(
    st: StoreV,
    cs: Seq<ApplyCandidate>,
    c: ApplyCandidate,
    ids: Seq<Seq<char>>,
    select: Seq<Seq<char>>,
    ts: i64,
    s: SettingsV,
)
    requires
        ids.len() > cs.len(),
    ensures
        ({
            let before = crate::plan::plan_told(st, cs, ids, select, ts, s);
            let after = crate::plan::plan_told(st, cs.push(c), ids, select, ts, s);
            let (t, err) = plan_applied(st, cs, ids, select, ts, s);
            let id = ids[cs.len() as int];
            let taken = select.len() == 0 || select.contains(c.id@);
            let line = crate::plan::told(c, id);
            &&& err is Some || !taken ==> after == before
            &&& err is None && taken && applied(t, c, id, ts, s) is Err ==> after == before
            &&& err is None && taken && applied(t, c, id, ts, s) is Ok && line is Some ==> after
                == before.push(line->0)
            &&& err is None && taken && applied(t, c, id, ts, s) is Ok && line is None ==> after
                == before
        }),
        crate::plan::plan_told(st, Seq::empty(), ids, select, ts, s).len() == 0,
{
    let more = cs.push(c);
    assert(more.drop_last() =~= cs);
    assert(more.last() == c);
    assert(crate::text::listed(select, c.id@) == select.contains(c.id@)) by {
        if select.contains(c.id@) {
            let k = choose|k: int| 0 <= k < select.len() && select[k] == c.id@;
            assert(select[k] == c.id@);
        }
    }
}

} // verus!
