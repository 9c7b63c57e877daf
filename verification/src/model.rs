//! The collection as a mathematical value: a sequence of notes in insertion
//! order, and what each operation of the store makes of it.

use crate::note::NoteView;
use vstd::prelude::*;

verus! {

/// Some note of `s` carries `id`.
pub open spec fn holds_id(s: Seq<NoteView>, id: Seq<char>) -> bool {
    exists|i: int| 0 <= i < s.len() && (#[trigger] s[i]).id == id
}

/// `i` is the place of the first note of `s` that carries `id`.
pub open spec fn first_at(s: Seq<NoteView>, id: Seq<char>, i: int) -> bool {
    &&& 0 <= i < s.len()
    &&& s[i].id == id
    &&& forall|j: int| 0 <= j < i ==> (#[trigger] s[j]).id != id
}

/// The place of the first note of `s` that carries `id`, where there is one.
pub open spec fn position(s: Seq<NoteView>, id: Seq<char>) -> int {
    choose|i: int| first_at(s, id, i)
}

/// No two notes of `s` carry the same id.
pub open spec fn ids_unique(s: Seq<NoteView>) -> bool {
    forall|i: int, j: int| 0 <= i < j < s.len() ==> (#[trigger] s[i]).id != (#[trigger] s[j]).id
}

/// Every note of `s` has its tombstone flag and deletion time in agreement.
pub open spec fn all_consistent(s: Seq<NoteView>) -> bool {
    forall|i: int| 0 <= i < s.len() ==> (#[trigger] s[i]).consistent()
}

/// No note of `s` was updated before it was created.
pub open spec fn all_ordered(s: Seq<NoteView>) -> bool {
    forall|i: int| 0 <= i < s.len() ==> (#[trigger] s[i]).ordered()
}

/// `s` with `change` applied to the first note that carries `id`; every other
/// note, and the order, stay. Where no note carries `id`, this is `s`.
pub open spec fn update_first(
    s: Seq<NoteView>,
    id: Seq<char>,
    change: spec_fn(NoteView) -> NoteView,
) -> Seq<NoteView> {
    Seq::new(
        s.len(),
        |i: int|
            if first_at(s, id, i) {
                change(s[i])
            } else {
                s[i]
            },
    )
}

/// `s` with a new, empty note at its end.
pub open spec fn created(s: Seq<NoteView>, id: Seq<char>, list: Seq<char>, now: u64) -> Seq<
    NoteView,
> {
    s.push(NoteView::fresh(id, list, now))
}

/// `s` after the content of the note `id` was replaced at time `now`.
pub open spec fn edited(s: Seq<NoteView>, id: Seq<char>, content: Seq<char>, now: u64) -> Seq<
    NoteView,
> {
    update_first(s, id, |n: NoteView| n.with_content(content, now))
}

/// `s` after the pinned flag of the note `id` was set.
pub open spec fn pinned_set(s: Seq<NoteView>, id: Seq<char>, pinned: bool) -> Seq<NoteView> {
    update_first(s, id, |n: NoteView| n.with_pinned(pinned))
}

/// `s` after the note `id` was soft-deleted at time `now`.
pub open spec fn soft_deleted(s: Seq<NoteView>, id: Seq<char>, now: u64) -> Seq<NoteView> {
    update_first(s, id, |n: NoteView| n.soft_deleted(now))
}

/// `s` after the note `id` was restored from deletion.
pub open spec fn restored(s: Seq<NoteView>, id: Seq<char>) -> Seq<NoteView> {
    update_first(s, id, |n: NoteView| n.restored())
}

/// `s` after every note of the list `from` was moved to the list `to`.
pub open spec fn relisted(s: Seq<NoteView>, from: Seq<char>, to: Seq<char>) -> Seq<NoteView> {
    s.map_values(|n: NoteView| n.relabelled(from, to))
}

/// `s` without the notes that carry `id`; the others keep their order.
pub open spec fn removed(s: Seq<NoteView>, id: Seq<char>) -> Seq<NoteView> {
    s.filter(|n: NoteView| n.id != id)
}

/// One request to the store, with everything that decides its outcome.
pub enum Op {
    List,
    Create { id: Seq<char>, list: Seq<char>, now: u64 },
    Edit { id: Seq<char>, content: Seq<char>, now: u64 },
    RenameList { from: Seq<char>, to: Seq<char> },
    SetPinned { id: Seq<char>, pinned: bool },
    SoftDelete { id: Seq<char>, now: u64 },
    Restore { id: Seq<char> },
    HardDelete { id: Seq<char> },
}

/// The collection after one request.
pub open spec fn step(s: Seq<NoteView>, op: Op) -> Seq<NoteView> {
    match op {
        Op::List => s,
        Op::Create { id, list, now } => created(s, id, list, now),
        Op::Edit { id, content, now } => edited(s, id, content, now),
        Op::RenameList { from, to } => relisted(s, from, to),
        Op::SetPinned { id, pinned } => pinned_set(s, id, pinned),
        Op::SoftDelete { id, now } => soft_deleted(s, id, now),
        Op::Restore { id } => restored(s, id),
        Op::HardDelete { id } => removed(s, id),
    }
}

/// The collection after a series of requests, served in order.
pub open spec fn run(s: Seq<NoteView>, ops: Seq<Op>) -> Seq<NoteView>
    decreases ops.len(),
{
    if ops.len() == 0 {
        s
    } else {
        step(run(s, ops.drop_last()), ops.last())
    }
}

/// Where a note carries `id`, `position` names the first such place.
pub proof fn lemma_position(s: Seq<NoteView>, id: Seq<char>)
    requires
        holds_id(s, id),
    ensures
        first_at(s, id, position(s, id)),
{
    let k = choose|i: int| 0 <= i < s.len() && (#[trigger] s[i]).id == id;
    lemma_first_below(s, id, k);
}

/// Below any place that carries `id` lies the first one.
proof fn lemma_first_below(s: Seq<NoteView>, id: Seq<char>, k: int)
    requires
        0 <= k < s.len(),
        s[k].id == id,
    ensures
        exists|i: int| first_at(s, id, i),
    decreases k,
{
    if exists|j: int| 0 <= j < k && (#[trigger] s[j]).id == id {
        let j = choose|j: int| 0 <= j < k && (#[trigger] s[j]).id == id;
        lemma_first_below(s, id, j);
    } else {
        assert(first_at(s, id, k));
    }
}

/// The first place that carries `id` is the only one that `first_at` accepts.
pub proof fn lemma_first_is_position(s: Seq<NoteView>, id: Seq<char>, i: int)
    requires
        first_at(s, id, i),
    ensures
        holds_id(s, id),
        position(s, id) == i,
{
    let p = position(s, id);
    assert(first_at(s, id, p));
    if p < i {
        assert(s[p].id != id);
    } else if i < p {
        assert(s[i].id != id);
    }
}

/// Where no note carries `id`, a change to the note `id` changes nothing.
pub proof fn lemma_update_absent(
    s: Seq<NoteView>,
    id: Seq<char>,
    change: spec_fn(NoteView) -> NoteView,
)
    requires
        !holds_id(s, id),
    ensures
        update_first(s, id, change) == s,
{
    assert(update_first(s, id, change) =~= s);
}

/// A change to the note `id` replaces the note at its first place and
/// nothing else.
pub proof fn lemma_update_present(
    s: Seq<NoteView>,
    id: Seq<char>,
    change: spec_fn(NoteView) -> NoteView,
)
    requires
        holds_id(s, id),
    ensures
        update_first(s, id, change) == s.update(position(s, id), change(s[position(s, id)])),
{
    lemma_position(s, id);
    let p = position(s, id);
    assert forall|j: int| 0 <= j < s.len() && j != p implies !first_at(s, id, j) by {
        if first_at(s, id, j) {
            lemma_first_is_position(s, id, j);
        }
    }
    assert(update_first(s, id, change) =~= s.update(p, change(s[p])));
}

/// Removing by id leaves alone a collection in which no note carries the id.
pub proof fn lemma_removed_absent(s: Seq<NoteView>, id: Seq<char>)
    requires
        !holds_id(s, id),
    ensures
        removed(s, id) == s,
    decreases s.len(),
{
    reveal(Seq::filter);
    if s.len() > 0 {
        let front = s.drop_last();
        assert forall|i: int| 0 <= i < front.len() implies (#[trigger] front[i]).id != id by {
            assert(front[i] == s[i]);
        }
        lemma_removed_absent(front, id);
        assert(s.last() == s[s.len() - 1]);
        assert(front.push(s.last()) =~= s);
    }
}

/// Taking one note that carries `id` out of the collection does not change
/// what removing by id leaves.
pub proof fn lemma_removed_skips(s: Seq<NoteView>, id: Seq<char>, i: int)
    requires
        0 <= i < s.len(),
        s[i].id == id,
    ensures
        removed(s.remove(i), id) == removed(s, id),
{
    let keep = |n: NoteView| n.id != id;
    let front = s.take(i);
    let one = seq![s[i]];
    let back = s.skip(i + 1);
    assert(s =~= front + (one + back));
    assert(s.remove(i) =~= front + back);
    Seq::filter_distributes_over_add(front, one + back, keep);
    Seq::filter_distributes_over_add(one, back, keep);
    Seq::filter_distributes_over_add(front, back, keep);
    assert(one.filter(keep) =~= Seq::<NoteView>::empty()) by {
        reveal_with_fuel(Seq::filter, 2);
    }
    assert(Seq::<NoteView>::empty() + back.filter(keep) =~= back.filter(keep));
}

} // verus!
