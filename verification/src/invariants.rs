//! What stays true of the collection however it is used.
//!
//! Each fact is proved for one request and then for every series of
//! requests. The operations of the store are proved to compute `step`, so
//! these facts hold of the store itself.

use crate::model::{
    all_consistent, all_ordered, first_at, holds_id, ids_unique, lemma_first_is_position,
    lemma_position, lemma_removed_absent, lemma_update_present, position, relisted, removed,
    restored, run, soft_deleted, step, Op,
};
use crate::note::NoteView;
use vstd::prelude::*;

verus! {

/// Every request of `ops` is `allowed` in the collection that it meets when
/// the requests are served in order, starting from `s`.
pub open spec fn every_step(
    s: Seq<NoteView>,
    ops: Seq<Op>,
    allowed: spec_fn(Seq<NoteView>, Op) -> bool,
) -> bool
    decreases ops.len(),
{
    ops.len() == 0 || (every_step(s, ops.drop_last(), allowed) && allowed(
        run(s, ops.drop_last()),
        ops.last(),
    ))
}

/// A create request brings an id that no note of the collection carries.
pub open spec fn draws_fresh(s: Seq<NoteView>, op: Op) -> bool {
    op matches Op::Create { id, .. } ==> !holds_id(s, id)
}

/// An edit is not stamped with a time before the creation of the note that
/// it changes.
pub open spec fn keeps_time(s: Seq<NoteView>, op: Op) -> bool {
    op matches Op::Edit { id, now, .. } ==> (holds_id(s, id) ==> s[position(s, id)].created_at
        <= now)
}

/// Every note that removing by id leaves was in the collection before.
pub proof fn lemma_removed_from(s: Seq<NoteView>, id: Seq<char>, k: int)
    requires
        0 <= k < removed(s, id).len(),
    ensures
        exists|j: int| 0 <= j < s.len() && #[trigger] s[j] == removed(s, id)[k],
    decreases s.len(),
{
    reveal(Seq::filter);
    if s.len() > 0 {
        let front = s.drop_last();
        if k < removed(front, id).len() {
            lemma_removed_from(front, id, k);
            let j = choose|j: int| 0 <= j < front.len() && #[trigger] front[j] == removed(
                front,
                id,
            )[k];
            assert(s[j] == removed(s, id)[k]);
        } else {
            assert(s[s.len() - 1] == removed(s, id)[k]);
        }
    }
}

/// Removing by id keeps ids distinct.
pub proof fn lemma_removed_unique(s: Seq<NoteView>, id: Seq<char>)
    requires
        ids_unique(s),
    ensures
        ids_unique(removed(s, id)),
    decreases s.len(),
{
    reveal(Seq::filter);
    if s.len() > 0 {
        let front = s.drop_last();
        let last = s.last();
        assert(ids_unique(front)) by {
            assert forall|i: int, j: int| 0 <= i < j < front.len() implies (#[trigger] front[i]).id
                != (#[trigger] front[j]).id by {
                assert(front[i] == s[i] && front[j] == s[j]);
            }
        }
        lemma_removed_unique(front, id);
        let kept = removed(front, id);
        if last.id != id {
            let all = kept.push(last);
            assert forall|i: int, j: int| 0 <= i < j < all.len() implies (#[trigger] all[i]).id != (
            #[trigger] all[j]).id by {
                if j == kept.len() {
                    lemma_removed_from(front, id, i);
                    let k = choose|k: int| 0 <= k < front.len() && #[trigger] front[k] == kept[i];
                    assert(s[k] == front[k]);
                    assert(s[s.len() - 1] == last);
                } else {
                    assert(all[i] == kept[i] && all[j] == kept[j]);
                }
            }
        }
    }
}

/// One request leaves the tombstone flag and the deletion time of every note
/// in agreement.
pub proof fn lemma_step_consistent(s: Seq<NoteView>, op: Op)
    requires
        all_consistent(s),
    ensures
        all_consistent(step(s, op)),
{
    let t = step(s, op);
    assert forall|i: int| 0 <= i < t.len() implies (#[trigger] t[i]).consistent() by {
        match op {
            Op::HardDelete { id } => {
                lemma_removed_from(s, id, i);
            },
            Op::Create { id, list, now } => {
                if i < s.len() {
                    assert(t[i] == s[i]);
                }
            },
            _ => {
                assert(s[i].consistent());
            },
        }
    }
}

/// However the store is used, the tombstone flag and the deletion time of
/// every note agree: a collection in which they do stays so through any
/// series of requests. The empty collection is such a collection.
pub proof fn lemma_run_consistent(s: Seq<NoteView>, ops: Seq<Op>)
    requires
        all_consistent(s),
    ensures
        all_consistent(run(s, ops)),
    decreases ops.len(),
{
    if ops.len() > 0 {
        lemma_run_consistent(s, ops.drop_last());
        lemma_step_consistent(run(s, ops.drop_last()), ops.last());
    }
}

/// A request that neither creates nor removes a note leaves every note in
/// its place and with its id: the order of the collection is the order of
/// insertion, and an id never changes.
pub proof fn lemma_step_keeps_places(s: Seq<NoteView>, op: Op)
    requires
        !(op is Create),
        !(op is HardDelete),
    ensures
        step(s, op).len() == s.len(),
        forall|i: int| 0 <= i < s.len() ==> (#[trigger] step(s, op)[i]).id == s[i].id,
{
}

/// In a store that starts empty, the tombstone flag and the deletion time of
/// every note agree after every request, whatever the requests are.
pub proof fn lemma_always_consistent(ops: Seq<Op>)
    ensures
        all_consistent(run(Seq::empty(), ops)),
{
    lemma_run_consistent(Seq::empty(), ops);
}

/// One request keeps ids distinct, provided that a create request brings an
/// id that is not in use.
pub proof fn lemma_step_unique(s: Seq<NoteView>, op: Op)
    requires
        ids_unique(s),
        draws_fresh(s, op),
    ensures
        ids_unique(step(s, op)),
{
    let t = step(s, op);
    match op {
        Op::HardDelete { id } => {
            lemma_removed_unique(s, id);
        },
        Op::Create { id, list, now } => {
            assert forall|i: int, j: int| 0 <= i < j < t.len() implies (#[trigger] t[i]).id != (
            #[trigger] t[j]).id by {
                assert(t[i] == s[i]);
                if j < s.len() {
                    assert(t[j] == s[j]);
                }
            }
        },
        _ => {
            lemma_step_keeps_places(s, op);
            assert forall|i: int, j: int| 0 <= i < j < t.len() implies (#[trigger] t[i]).id != (
            #[trigger] t[j]).id by {
                assert(t[i].id == s[i].id && t[j].id == s[j].id);
            }
        },
    }
}

/// No two notes ever share an id: a collection with distinct ids keeps them
/// distinct through any series of requests in which every create request
/// brings an id that is not in use at that moment.
pub proof fn lemma_run_unique(s: Seq<NoteView>, ops: Seq<Op>)
    requires
        ids_unique(s),
        every_step(s, ops, |c: Seq<NoteView>, op: Op| draws_fresh(c, op)),
    ensures
        ids_unique(run(s, ops)),
    decreases ops.len(),
{
    if ops.len() > 0 {
        lemma_run_unique(s, ops.drop_last());
        lemma_step_unique(run(s, ops.drop_last()), ops.last());
    }
}

/// One request leaves no note updated before its creation, provided that an
/// edit is not stamped with a time before the creation of its note.
pub proof fn lemma_step_ordered(s: Seq<NoteView>, op: Op)
    requires
        all_ordered(s),
        keeps_time(s, op),
    ensures
        all_ordered(step(s, op)),
{
    let t = step(s, op);
    assert forall|i: int| 0 <= i < t.len() implies (#[trigger] t[i]).ordered() by {
        match op {
            Op::HardDelete { id } => {
                lemma_removed_from(s, id, i);
            },
            Op::Create { id, list, now } => {
                if i < s.len() {
                    assert(t[i] == s[i]);
                }
            },
            Op::Edit { id, content, now } => {
                assert(s[i].ordered());
                if first_at(s, id, i) {
                    lemma_first_is_position(s, id, i);
                }
            },
            _ => {
                assert(s[i].ordered());
            },
        }
    }
}

/// No note is ever updated before its creation, through any series of
/// requests whose edits are stamped by a clock that does not run behind the
/// creation of the note they change.
pub proof fn lemma_run_ordered(s: Seq<NoteView>, ops: Seq<Op>)
    requires
        all_ordered(s),
        every_step(s, ops, |c: Seq<NoteView>, op: Op| keeps_time(c, op)),
    ensures
        all_ordered(run(s, ops)),
    decreases ops.len(),
{
    if ops.len() > 0 {
        lemma_run_ordered(s, ops.drop_last());
        lemma_step_ordered(run(s, ops.drop_last()), ops.last());
    }
}

/// What a change from `before` to `after` keeps of the collection: the
/// agreement of tombstone flag and deletion time, the distinctness of ids,
/// and the order of creation and update times, each where it held before.
pub open spec fn upholds(before: Seq<NoteView>, after: Seq<NoteView>) -> bool {
    &&& all_consistent(before) ==> all_consistent(after)
    &&& ids_unique(before) ==> ids_unique(after)
    &&& all_ordered(before) ==> all_ordered(after)
}

/// One request upholds all of this, provided that a create request brings an
/// id that is not in use and an edit is not stamped before the creation of
/// its note.
pub proof fn lemma_step_upholds(s: Seq<NoteView>, op: Op)
    ensures
        all_consistent(s) ==> all_consistent(step(s, op)),
        ids_unique(s) && draws_fresh(s, op) ==> ids_unique(step(s, op)),
        all_ordered(s) && keeps_time(s, op) ==> all_ordered(step(s, op)),
        draws_fresh(s, op) && keeps_time(s, op) ==> upholds(s, step(s, op)),
{
    if all_consistent(s) {
        lemma_step_consistent(s, op);
    }
    if ids_unique(s) && draws_fresh(s, op) {
        lemma_step_unique(s, op);
    }
    if all_ordered(s) && keeps_time(s, op) {
        lemma_step_ordered(s, op);
    }
}

/// Soft-deleting a note leaves it unpinned, marked deleted and stamped,
/// whether or not it was pinned before; no other note changes.
pub proof fn lemma_soft_delete_unpins(s: Seq<NoteView>, id: Seq<char>, now: u64)
    requires
        holds_id(s, id),
    ensures
        soft_deleted(s, id, now).len() == s.len(),
        !soft_deleted(s, id, now)[position(s, id)].pinned,
        soft_deleted(s, id, now)[position(s, id)].deleted,
        soft_deleted(s, id, now)[position(s, id)].deleted_at == Some(now),
        forall|i: int|
            0 <= i < s.len() && i != position(s, id) ==> #[trigger] soft_deleted(s, id, now)[i]
                == s[i],
{
    lemma_position(s, id);
    lemma_update_present(s, id, |n: NoteView| n.soft_deleted(now));
}

/// Restoring a note that is not deleted changes nothing.
pub proof fn lemma_restore_active(s: Seq<NoteView>, id: Seq<char>)
    requires
        holds_id(s, id),
        !s[position(s, id)].deleted,
        s[position(s, id)].consistent(),
    ensures
        restored(s, id) == s,
        s[position(s, id)].restored() == s[position(s, id)],
{
    lemma_position(s, id);
    lemma_update_present(s, id, |n: NoteView| n.restored());
    assert(restored(s, id) =~= s);
}

/// Restoring twice is restoring once.
pub proof fn lemma_restore_twice(s: Seq<NoteView>, id: Seq<char>)
    ensures
        restored(restored(s, id), id) == restored(s, id),
{
    let once = restored(s, id);
    assert forall|i: int| 0 <= i < s.len() implies (first_at(once, id, i) <==> first_at(s, id, i)) by {
        assert forall|j: int| 0 <= j < s.len() implies (#[trigger] once[j]).id == s[j].id by {}
        if first_at(s, id, i) {
            assert forall|j: int| 0 <= j < i implies (#[trigger] once[j]).id != id by {
                assert(s[j].id != id);
            }
        }
        if first_at(once, id, i) {
            assert forall|j: int| 0 <= j < i implies (#[trigger] s[j]).id != id by {
                assert(once[j].id != id);
            }
        }
    }
    assert(restored(once, id) =~= once);
}

/// Removing by id leaves no note that carries the id.
pub proof fn lemma_removed_clears(s: Seq<NoteView>, id: Seq<char>)
    ensures
        !holds_id(removed(s, id), id),
{
    let keep = |n: NoteView| n.id != id;
    assert forall|i: int| 0 <= i < removed(s, id).len() implies (#[trigger] removed(s, id)[i]).id
        != id by {
        s.lemma_filter_pred(keep, i);
    }
}

/// Removing twice is removing once.
pub proof fn lemma_remove_twice(s: Seq<NoteView>, id: Seq<char>)
    ensures
        removed(removed(s, id), id) == removed(s, id),
{
    lemma_removed_clears(s, id);
    lemma_removed_absent(removed(s, id), id);
}

/// Renaming a list that no note belongs to changes nothing.
pub proof fn lemma_relist_unused(s: Seq<NoteView>, from: Seq<char>, to: Seq<char>)
    requires
        forall|i: int| 0 <= i < s.len() ==> (#[trigger] s[i]).list != from,
    ensures
        relisted(s, from, to) == s,
{
    assert(relisted(s, from, to) =~= s);
}

} // verus!
