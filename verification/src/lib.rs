//! An in-memory store of notes for a single-user desktop application.
//!
//! The store owns an ordered collection of notes and changes it in discrete
//! operations: create, edit, pin, soft-delete, restore, hard-delete and
//! re-categorise. Every operation is specified against a mathematical model of
//! the collection, a sequence of note values, and proved to refine it.
//!
//! - [`note`]: the note, its value, and the changes one note can undergo.
//! - [`model`]: the collection as a sequence, and what each request makes of it.
//! - [`store`]: the store and its operations.
//! - [`invariants`]: what stays true of the collection through any series of
//!   requests.
//! - [`clock`] and [`ident`]: the two things the store takes from outside,
//!   the time of day and the ids of new notes. What they return is taken on
//!   trust; each operation that uses them has a twin that takes the time or
//!   the id as an argument and is specified exactly.
//!
//! The store keeps nothing on disk itself. It carries the place of its file
//! for the code around it, which writes the collection out after every
//! change and reads it back at the start.

pub mod clock;
pub mod ident;
pub mod invariants;
pub mod model;
pub mod note;
pub mod store;

pub use clock::{epoch_seconds, now_unix};
pub use note::{default_list, Note, NoteView};
pub use store::{load_notes, AppState, NotFound};
