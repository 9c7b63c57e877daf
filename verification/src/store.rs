//! The store: the one owner of the note collection, and its operations.
//!
//! Every operation that needs the time or a new id comes in two forms. The
//! form whose name ends in `_at` takes them as arguments and is specified
//! exactly; the other reads the clock or draws the id itself and then does
//! the same.

use crate::clock::now_unix;
use crate::ident::{fresh_id, is_uuid_v4_text};
use crate::invariants::{lemma_relist_unused, lemma_restore_active, lemma_step_upholds, upholds};
use crate::model::{
    all_consistent, all_ordered, created, edited, first_at, holds_id, ids_unique,
    lemma_first_is_position, lemma_removed_absent, lemma_removed_skips, lemma_update_absent,
    lemma_update_present, pinned_set, position, relisted, removed, restored, soft_deleted, Op,
};
use crate::note::{Note, NoteView};
use std::path::PathBuf;
use vstd::prelude::*;
use vstd::string::*;

verus! {

/// `std::path::PathBuf`, which the store carries and never looks into.
#[verifier::external_type_specification]
#[verifier::external_body]
pub struct ExPathBuf(PathBuf);

/// The values of a run of notes, in order.
pub open spec fn values(notes: Seq<Note>) -> Seq<NoteView> {
    notes.map_values(|n: Note| n@)
}

/// The note collection in insertion order, together with the place where it
/// is kept on disk. The store only carries that place; it never changes it.
///
/// Every operation that changes the collection takes the store by exclusive
/// reference, so no two of them overlap and none sees a half-made change.
pub struct AppState {
    pub notes: Vec<Note>,
    pub file_path: PathBuf,
}

/// The failure of an operation that must find its note: no note of the
/// collection carries the id that was asked for.
#[derive(Debug)]
pub struct NotFound {
    pub id: String,
}

impl NotFound {
    /// The text that describes the failure for the note `id`.
    pub open spec fn message_text(id: Seq<char>) -> Seq<char> {
        "Note "@ + id + " not found"@
    }

    /// Describes the failure in words.
    pub fn message(&self) -> (text: String)
        ensures
            text@ == Self::message_text(self.id@),
    {
        let mut text = "Note ".to_owned();
        text.append(self.id.as_str());
        text.append(" not found");
        text
    }
}

/// The collection to start from, given what was read from disk: the notes
/// that were read, or no notes at all where the file was missing, unreadable
/// or not a note collection.
pub fn load_notes(read: Option<Vec<Note>>) -> (notes: Vec<Note>)
    ensures
        (match read {
            Some(found) => notes == found,
            None => notes@ == Seq::<Note>::empty(),
        }),
{
    match read {
        Some(found) => found,
        None => Vec::new(),
    }
}

impl View for AppState {
    type V = Seq<NoteView>;

    open spec fn view(&self) -> Seq<NoteView> {
        values(self.notes@)
    }
}

impl AppState {
    /// A store over `notes`, kept at `file_path`.
    pub fn new(file_path: PathBuf, notes: Vec<Note>) -> (state: AppState)
        ensures
            state.notes == notes,
            state.file_path == file_path,
    {
        AppState { notes, file_path }
    }

    /// The place of the first note that carries `id`.
    fn find(&self, id: &String) -> (place: Option<usize>)
        ensures
            (match place {
                Some(i) => first_at(self@, id@, i as int) && i as int == position(self@, id@),
                None => !holds_id(self@, id@),
            }),
    {
        let mut i: usize = 0;
        while i < self.notes.len()
            invariant
                i <= self.notes.len(),
                forall|j: int| 0 <= j < i ==> (#[trigger] self@[j]).id != id@,
            decreases self.notes.len() - i,
        {
            if self.notes[i].id == *id {
                proof {
                    lemma_first_is_position(self@, id@, i as int);
                }
                return Some(i);
            }
            i += 1;
        }
        None
    }

    /// A copy of the whole collection, in its current order.
    pub fn get_notes(&self) -> (snapshot: Vec<Note>)
        ensures
            snapshot@ == self.notes@,
            values(snapshot@) == self@,
    {
        let snapshot = self.notes.clone();
        assert(snapshot@ =~= self.notes@);
        snapshot
    }

    /// Appends a new, empty note with the given id to the end of the
    /// collection and returns a copy of it.
    pub fn create_note_at(&mut self, id: String, list: String, now: u64) -> (note: Note)
        ensures
            note@ == NoteView::fresh(id@, list@, now),
            final(self)@ == created(old(self)@, id@, list@, now),
            final(self).file_path == old(self).file_path,
            all_consistent(old(self)@) ==> all_consistent(final(self)@),
            all_ordered(old(self)@) ==> all_ordered(final(self)@),
            ids_unique(old(self)@) && !holds_id(old(self)@, id@) ==> ids_unique(final(self)@),
    {
        proof {
            lemma_step_upholds(self@, Op::Create { id: id@, list: list@, now });
        }
        let note = Note::new(id, list, now);
        self.notes.push(note.clone());
        assert(self@ =~= created(old(self)@, id@, list@, now));
        note
    }

    /// Creates a note in `list`: draws a new id, reads the clock, and appends
    /// the new, empty note to the end of the collection.
    pub fn create_note(&mut self, list: String) -> (note: Note)
        ensures
            is_uuid_v4_text(note@.id),
            note@ == NoteView::fresh(note@.id, list@, note@.created_at),
            final(self)@ == created(old(self)@, note@.id, list@, note@.created_at),
            final(self).file_path == old(self).file_path,
            all_consistent(old(self)@) ==> all_consistent(final(self)@),
            all_ordered(old(self)@) ==> all_ordered(final(self)@),
            ids_unique(old(self)@) && !holds_id(old(self)@, note@.id) ==> ids_unique(
                final(self)@,
            ),
    {
        let now = now_unix();
        let id = fresh_id();
        self.create_note_at(id, list, now)
    }

    /// Replaces the content of the first note that carries `id` and stamps
    /// the note as updated at `now`. Fails, and changes nothing, where no
    /// note carries `id`.
    pub fn update_note_at(&mut self, id: String, content: String, now: u64) -> (result: Result<
        Note,
        NotFound,
    >)
        ensures
            final(self).file_path == old(self).file_path,
            final(self)@ == edited(old(self)@, id@, content@, now),
            (match result {
                Ok(note) => {
                    &&& holds_id(old(self)@, id@)
                    &&& note@ == old(self)@[position(old(self)@, id@)].with_content(content@, now)
                },
                Err(e) => {
                    &&& !holds_id(old(self)@, id@)
                    &&& e.id@ == id@
                    &&& final(self)@ == old(self)@
                },
            }),
            all_consistent(old(self)@) ==> all_consistent(final(self)@),
            ids_unique(old(self)@) ==> ids_unique(final(self)@),
            all_ordered(old(self)@) && (holds_id(old(self)@, id@) ==> old(self)@[position(
                old(self)@,
                id@,
            )].created_at <= now) ==> all_ordered(final(self)@),
    {
        proof {
            lemma_step_upholds(self@, Op::Edit { id: id@, content: content@, now });
        }
        match self.find(&id) {
            Some(i) => {
                proof {
                    lemma_update_present(self@, id@, |n: NoteView| n.with_content(content@, now));
                }
                let note = &mut self.notes[i];
                note.content = content;
                note.updated_at = now;
                let copy = note.clone();
                assert(self@ =~= edited(old(self)@, id@, content@, now));
                Ok(copy)
            },
            None => {
                proof {
                    lemma_update_absent(self@, id@, |n: NoteView| n.with_content(content@, now));
                }
                Err(NotFound { id })
            },
        }
    }

    /// Replaces the content of the first note that carries `id` and stamps
    /// the note with the present time.
    pub fn update_note(&mut self, id: String, content: String) -> (result: Result<Note, NotFound>)
        ensures
            final(self).file_path == old(self).file_path,
            (match result {
                Ok(note) => {
                    &&& holds_id(old(self)@, id@)
                    &&& final(self)@ == edited(old(self)@, id@, content@, note@.updated_at)
                    &&& note@ == old(self)@[position(old(self)@, id@)].with_content(
                        content@,
                        note@.updated_at,
                    )
                    &&& all_ordered(old(self)@) && note@.ordered() ==> all_ordered(final(self)@)
                },
                Err(e) => {
                    &&& !holds_id(old(self)@, id@)
                    &&& e.id@ == id@
                    &&& final(self)@ == old(self)@
                },
            }),
            all_consistent(old(self)@) ==> all_consistent(final(self)@),
            ids_unique(old(self)@) ==> ids_unique(final(self)@),
    {
        let now = now_unix();
        self.update_note_at(id, content, now)
    }

    /// Moves every note of the list `old_list` to the list `new_list`. Where
    /// no note belongs to `old_list`, nothing changes.
    pub fn update_note_list(&mut self, old_list: String, new_list: String)
        ensures
            final(self).file_path == old(self).file_path,
            final(self)@ == relisted(old(self)@, old_list@, new_list@),
            (forall|i: int| 0 <= i < old(self)@.len() ==> (#[trigger] old(self)@[i]).list
                != old_list@) ==> final(self)@ == old(self)@,
            upholds(old(self)@, final(self)@),
    {
        proof {
            lemma_step_upholds(self@, Op::RenameList { from: old_list@, to: new_list@ });
            if forall|i: int| 0 <= i < self@.len() ==> (#[trigger] self@[i]).list != old_list@ {
                lemma_relist_unused(self@, old_list@, new_list@);
            }
        }
        let mut i: usize = 0;
        while i < self.notes.len()
            invariant
                i <= self.notes.len(),
                self.notes.len() == old(self).notes.len(),
                self.file_path == old(self).file_path,
                forall|j: int|
                    0 <= j < i ==> #[trigger] self@[j] == old(self)@[j].relabelled(
                        old_list@,
                        new_list@,
                    ),
                forall|j: int| i <= j < self.notes.len() ==> #[trigger] self@[j] == old(self)@[j],
            decreases self.notes.len() - i,
        {
            let ghost before = self@;
            if self.notes[i].list == old_list {
                let note = &mut self.notes[i];
                note.list = new_list.clone();
            }
            assert(self@ =~= before.update(
                i as int,
                before[i as int].relabelled(old_list@, new_list@),
            ));
            i += 1;
        }
        assert(self@ =~= relisted(old(self)@, old_list@, new_list@));
    }

    /// Sets the pinned flag of the first note that carries `id`. Fails, and
    /// changes nothing, where no note carries `id`.
    pub fn pin_note(&mut self, id: String, pinned: bool) -> (result: Result<Note, NotFound>)
        ensures
            final(self).file_path == old(self).file_path,
            final(self)@ == pinned_set(old(self)@, id@, pinned),
            (match result {
                Ok(note) => {
                    &&& holds_id(old(self)@, id@)
                    &&& note@ == old(self)@[position(old(self)@, id@)].with_pinned(pinned)
                },
                Err(e) => {
                    &&& !holds_id(old(self)@, id@)
                    &&& e.id@ == id@
                    &&& final(self)@ == old(self)@
                },
            }),
            upholds(old(self)@, final(self)@),
    {
        proof {
            lemma_step_upholds(self@, Op::SetPinned { id: id@, pinned });
        }
        match self.find(&id) {
            Some(i) => {
                proof {
                    lemma_update_present(self@, id@, |n: NoteView| n.with_pinned(pinned));
                }
                let note = &mut self.notes[i];
                note.pinned = pinned;
                let copy = note.clone();
                assert(self@ =~= pinned_set(old(self)@, id@, pinned));
                Ok(copy)
            },
            None => {
                proof {
                    lemma_update_absent(self@, id@, |n: NoteView| n.with_pinned(pinned));
                }
                Err(NotFound { id })
            },
        }
    }

    /// Marks the first note that carries `id` as deleted at `now` and unpins
    /// it, whatever its state was. Fails, and changes nothing, where no note
    /// carries `id`.
    pub fn soft_delete_note_at(&mut self, id: String, now: u64) -> (result: Result<Note, NotFound>)
        ensures
            final(self).file_path == old(self).file_path,
            final(self)@ == soft_deleted(old(self)@, id@, now),
            (match result {
                Ok(note) => {
                    &&& holds_id(old(self)@, id@)
                    &&& note@ == old(self)@[position(old(self)@, id@)].soft_deleted(now)
                    &&& !note@.pinned
                    &&& note@.consistent()
                },
                Err(e) => {
                    &&& !holds_id(old(self)@, id@)
                    &&& e.id@ == id@
                    &&& final(self)@ == old(self)@
                },
            }),
            upholds(old(self)@, final(self)@),
    {
        proof {
            lemma_step_upholds(self@, Op::SoftDelete { id: id@, now });
        }
        match self.find(&id) {
            Some(i) => {
                proof {
                    lemma_update_present(self@, id@, |n: NoteView| n.soft_deleted(now));
                }
                let note = &mut self.notes[i];
                note.deleted = true;
                note.deleted_at = Some(now);
                note.pinned = false;
                let copy = note.clone();
                assert(self@ =~= soft_deleted(old(self)@, id@, now));
                Ok(copy)
            },
            None => {
                proof {
                    lemma_update_absent(self@, id@, |n: NoteView| n.soft_deleted(now));
                }
                Err(NotFound { id })
            },
        }
    }

    /// Marks the first note that carries `id` as deleted at the present time
    /// and unpins it.
    pub fn soft_delete_note(&mut self, id: String) -> (result: Result<Note, NotFound>)
        ensures
            final(self).file_path == old(self).file_path,
            (match result {
                Ok(note) => {
                    &&& holds_id(old(self)@, id@)
                    &&& note@.deleted_at is Some
                    &&& final(self)@ == soft_deleted(old(self)@, id@, note@.deleted_at->Some_0)
                    &&& note@ == old(self)@[position(old(self)@, id@)].soft_deleted(
                        note@.deleted_at->Some_0,
                    )
                    &&& !note@.pinned
                    &&& note@.consistent()
                },
                Err(e) => {
                    &&& !holds_id(old(self)@, id@)
                    &&& e.id@ == id@
                    &&& final(self)@ == old(self)@
                },
            }),
            upholds(old(self)@, final(self)@),
    {
        let now = now_unix();
        self.soft_delete_note_at(id, now)
    }

    /// Takes the first note that carries `id` back from deletion; a note
    /// that was not deleted stays as it is. Fails, and changes nothing, where
    /// no note carries `id`.
    pub fn restore_note(&mut self, id: String) -> (result: Result<Note, NotFound>)
        ensures
            final(self).file_path == old(self).file_path,
            final(self)@ == restored(old(self)@, id@),
            (match result {
                Ok(note) => {
                    &&& holds_id(old(self)@, id@)
                    &&& note@ == old(self)@[position(old(self)@, id@)].restored()
                    &&& note@.consistent()
                    &&& !old(self)@[position(old(self)@, id@)].deleted && old(self)@[position(
                        old(self)@,
                        id@,
                    )].consistent() ==> final(self)@ == old(self)@
                },
                Err(e) => {
                    &&& !holds_id(old(self)@, id@)
                    &&& e.id@ == id@
                    &&& final(self)@ == old(self)@
                },
            }),
            upholds(old(self)@, final(self)@),
    {
        proof {
            lemma_step_upholds(self@, Op::Restore { id: id@ });
            if holds_id(self@, id@) && !self@[position(self@, id@)].deleted && self@[position(
                self@,
                id@,
            )].consistent() {
                lemma_restore_active(self@, id@);
            }
        }
        match self.find(&id) {
            Some(i) => {
                proof {
                    lemma_update_present(self@, id@, |n: NoteView| n.restored());
                }
                let note = &mut self.notes[i];
                note.deleted = false;
                note.deleted_at = None;
                let copy = note.clone();
                assert(self@ =~= restored(old(self)@, id@));
                Ok(copy)
            },
            None => {
                proof {
                    lemma_update_absent(self@, id@, |n: NoteView| n.restored());
                }
                Err(NotFound { id })
            },
        }
    }

    /// Removes every note that carries `id` from the collection for good; the
    /// other notes keep their order. Where no note carries `id`, nothing
    /// changes.
    pub fn delete_note(&mut self, id: String)
        ensures
            final(self).file_path == old(self).file_path,
            final(self)@ == removed(old(self)@, id@),
            !holds_id(final(self)@, id@),
            !holds_id(old(self)@, id@) ==> final(self)@ == old(self)@,
            upholds(old(self)@, final(self)@),
    {
        proof {
            lemma_step_upholds(self@, Op::HardDelete { id: id@ });
            if !holds_id(self@, id@) {
                lemma_removed_absent(self@, id@);
            }
        }
        let mut i: usize = 0;
        while i < self.notes.len()
            invariant
                i <= self.notes.len(),
                self.file_path == old(self).file_path,
                removed(self@, id@) == removed(old(self)@, id@),
                forall|j: int| 0 <= j < i ==> (#[trigger] self@[j]).id != id@,
            decreases self.notes.len() - i,
        {
            if self.notes[i].id == id {
                proof {
                    lemma_removed_skips(self@, id@, i as int);
                    assert(values(self.notes@.remove(i as int)) =~= self@.remove(i as int));
                }
                self.notes.remove(i);
            } else {
                i += 1;
            }
        }
        proof {
            lemma_removed_absent(self@, id@);
        }
    }
}

} // verus!
