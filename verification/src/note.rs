//! The note itself: its fields, its mathematical value, and the changes a
//! single note can undergo.

use vstd::prelude::*;

verus! {

/// The mathematical value of a note. Text is a sequence of characters;
/// timestamps are whole seconds since the Unix epoch.
pub struct NoteView {
    pub id: Seq<char>,
    pub content: Seq<char>,
    pub created_at: u64,
    pub updated_at: u64,
    pub pinned: bool,
    pub list: Seq<char>,
    pub deleted: bool,
    pub deleted_at: Option<u64>,
}

impl NoteView {
    /// The tombstone flag and the deletion time agree: a note carries a
    /// deletion time exactly when it is marked deleted.
    pub open spec fn consistent(self) -> bool {
        self.deleted <==> self.deleted_at is Some
    }

    /// A note was never updated before it was created.
    pub open spec fn ordered(self) -> bool {
        self.created_at <= self.updated_at
    }

    /// A note as it is at the moment of its creation.
    pub open spec fn fresh(id: Seq<char>, list: Seq<char>, now: u64) -> NoteView {
        NoteView {
            id,
            content: Seq::empty(),
            created_at: now,
            updated_at: now,
            pinned: false,
            list,
            deleted: false,
            deleted_at: None,
        }
    }

    /// The note after its content was replaced at time `now`.
    pub open spec fn with_content(self, content: Seq<char>, now: u64) -> NoteView {
        NoteView { content, updated_at: now, ..self }
    }

    /// The note after its pinned flag was set.
    pub open spec fn with_pinned(self, pinned: bool) -> NoteView {
        NoteView { pinned, ..self }
    }

    /// The note after it was moved to another list.
    pub open spec fn with_list(self, list: Seq<char>) -> NoteView {
        NoteView { list, ..self }
    }

    /// The note after every note of the list `from` was moved to `to`: moved
    /// if it belonged to `from`, untouched otherwise.
    pub open spec fn relabelled(self, from: Seq<char>, to: Seq<char>) -> NoteView {
        if self.list == from {
            self.with_list(to)
        } else {
            self
        }
    }

    /// The note after it was soft-deleted at time `now`: marked deleted,
    /// stamped, and no longer pinned.
    pub open spec fn soft_deleted(self, now: u64) -> NoteView {
        NoteView { deleted: true, deleted_at: Some(now), pinned: false, ..self }
    }

    /// The note after it was restored from deletion.
    pub open spec fn restored(self) -> NoteView {
        NoteView { deleted: false, deleted_at: None, ..self }
    }
}

/// A note as the application holds it.
#[derive(Debug)]
pub struct Note {
    pub id: String,
    pub content: String,
    pub created_at: u64,
    pub updated_at: u64,
    pub pinned: bool,
    pub list: String,
    pub deleted: bool,
    pub deleted_at: Option<u64>,
}

impl View for Note {
    type V = NoteView;

    open spec fn view(&self) -> NoteView {
        NoteView {
            id: self.id@,
            content: self.content@,
            created_at: self.created_at,
            updated_at: self.updated_at,
            pinned: self.pinned,
            list: self.list@,
            deleted: self.deleted,
            deleted_at: self.deleted_at,
        }
    }
}

impl Clone for Note {
    fn clone(&self) -> (copy: Self)
        ensures
            copy == *self,
    {
        Note {
            id: self.id.clone(),
            content: self.content.clone(),
            created_at: self.created_at,
            updated_at: self.updated_at,
            pinned: self.pinned,
            list: self.list.clone(),
            deleted: self.deleted,
            deleted_at: self.deleted_at,
        }
    }
}

impl Note {
    /// Makes the note that a create operation adds: empty, unpinned, not
    /// deleted, created and last updated at `now`.
    pub fn new(id: String, list: String, now: u64) -> (note: Note)
        ensures
            note@ == NoteView::fresh(id@, list@, now),
    {
        Note {
            id,
            content: String::new(),
            created_at: now,
            updated_at: now,
            pinned: false,
            list,
            deleted: false,
            deleted_at: None,
        }
    }
}

/// The label of the list that a note belongs to when none is given.
pub open spec fn default_list_label() -> Seq<char> {
    "My Notes"@
}

/// Returns the label of the list that a note belongs to when none is given.
pub fn default_list() -> (label: String)
    ensures
        label@ == default_list_label(),
{
    "My Notes".to_owned()
}

} // verus!
