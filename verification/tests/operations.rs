use note_store::{default_list, epoch_seconds, now_unix, AppState, NotFound, Note};
use std::path::PathBuf;

fn store_of_three() -> AppState {
    let mut store = AppState::new(PathBuf::from("data/notes.json"), Vec::new());
    store.create_note_at("a".to_string(), "Work".to_string(), 10);
    store.create_note_at("b".to_string(), "Personal".to_string(), 20);
    store.create_note_at("c".to_string(), "Work".to_string(), 30);
    store
}

fn ids(store: &AppState) -> Vec<String> {
    store.notes.iter().map(|n| n.id.clone()).collect()
}

#[test]
fn default_list_is_my_notes() {
    assert_eq!(default_list(), "My Notes");
}

#[test]
fn clock_reads_a_time_after_the_epoch() {
    let first = now_unix();
    let second = now_unix();
    assert!(first > 1_000_000_000);
    assert!(second >= first);
    assert!(second - first < 60);
}

#[test]
fn a_clock_before_the_epoch_reads_zero() {
    assert_eq!(epoch_seconds(None), 0);
    assert_eq!(epoch_seconds(Some(0)), 0);
    assert_eq!(epoch_seconds(Some(1_700_000_000)), 1_700_000_000);
    assert_eq!(epoch_seconds(Some(u64::MAX)), u64::MAX);
}

#[test]
fn new_note_is_empty_and_active() {
    let note = Note::new("id-1".to_string(), "Work".to_string(), 42);
    assert_eq!(note.id, "id-1");
    assert_eq!(note.content, "");
    assert_eq!(note.created_at, 42);
    assert_eq!(note.updated_at, 42);
    assert!(!note.pinned);
    assert_eq!(note.list, "Work");
    assert!(!note.deleted);
    assert_eq!(note.deleted_at, None);
}

#[test]
fn clone_keeps_every_field() {
    let mut note = Note::new("id-1".to_string(), "Work".to_string(), 42);
    note.content = "text".to_string();
    note.updated_at = 50;
    note.pinned = true;
    note.deleted = true;
    note.deleted_at = Some(60);
    let copy = note.clone();
    assert_eq!(copy.id, "id-1");
    assert_eq!(copy.content, "text");
    assert_eq!(copy.created_at, 42);
    assert_eq!(copy.updated_at, 50);
    assert!(copy.pinned);
    assert_eq!(copy.list, "Work");
    assert!(copy.deleted);
    assert_eq!(copy.deleted_at, Some(60));
}

#[test]
fn new_store_keeps_notes_and_path() {
    let notes = vec![Note::new("a".to_string(), "Work".to_string(), 1)];
    let store = AppState::new(PathBuf::from("/tmp/x/notes.json"), notes);
    assert_eq!(store.file_path, PathBuf::from("/tmp/x/notes.json"));
    assert_eq!(store.notes.len(), 1);
    assert_eq!(store.notes[0].id, "a");
}

#[test]
fn get_notes_is_a_copy_in_insertion_order() {
    let mut store = store_of_three();
    let snapshot = store.get_notes();
    assert_eq!(snapshot.len(), 3);
    assert_eq!(snapshot[0].id, "a");
    assert_eq!(snapshot[1].id, "b");
    assert_eq!(snapshot[2].id, "c");
    store.delete_note("a".to_string());
    assert_eq!(snapshot.len(), 3);
    assert_eq!(store.notes.len(), 2);
}

#[test]
fn create_appends_to_the_end() {
    let mut store = store_of_three();
    let note = store.create_note_at("d".to_string(), "Later".to_string(), 40);
    assert_eq!(note.id, "d");
    assert_eq!(note.list, "Later");
    assert_eq!(note.created_at, 40);
    assert_eq!(note.updated_at, 40);
    assert_eq!(ids(&store), vec!["a", "b", "c", "d"]);
}

#[test]
fn create_leaves_the_path_alone() {
    let mut store = store_of_three();
    store.create_note("Work".to_string());
    assert_eq!(store.file_path, PathBuf::from("data/notes.json"));
}

#[test]
fn edit_touches_only_its_note() {
    let mut store = store_of_three();
    let edited = store
        .update_note_at("b".to_string(), "body".to_string(), 99)
        .expect("the note exists");
    assert_eq!(edited.id, "b");
    assert_eq!(edited.content, "body");
    assert_eq!(edited.updated_at, 99);
    assert_eq!(edited.created_at, 20);
    assert_eq!(store.notes[0].content, "");
    assert_eq!(store.notes[0].updated_at, 10);
    assert_eq!(store.notes[1].content, "body");
    assert_eq!(store.notes[1].updated_at, 99);
    assert_eq!(store.notes[2].content, "");
    assert_eq!(store.notes[2].updated_at, 30);
    assert_eq!(ids(&store), vec!["a", "b", "c"]);
}

#[test]
fn edit_of_a_missing_note_fails_and_changes_nothing() {
    let mut store = store_of_three();
    let failure: NotFound = store
        .update_note_at("zz".to_string(), "body".to_string(), 99)
        .expect_err("no such note");
    assert_eq!(failure.id, "zz");
    assert_eq!(failure.message(), "Note zz not found");
    assert_eq!(store.notes.len(), 3);
    assert!(store.notes.iter().all(|n| n.content.is_empty()));
    assert!(store.update_note("zz".to_string(), "body".to_string()).is_err());
}

#[test]
fn pin_sets_and_clears_the_flag_without_a_stamp() {
    let mut store = store_of_three();
    let pinned = store.pin_note("c".to_string(), true).expect("the note exists");
    assert!(pinned.pinned);
    assert_eq!(pinned.updated_at, 30);
    assert!(store.notes[2].pinned);
    assert!(!store.notes[0].pinned);
    assert!(!store.notes[1].pinned);
    let unpinned = store.pin_note("c".to_string(), false).expect("the note exists");
    assert!(!unpinned.pinned);
    assert!(!store.notes[2].pinned);
}

#[test]
fn pin_of_a_missing_note_fails() {
    let mut store = store_of_three();
    let failure = store.pin_note("nope".to_string(), true).expect_err("no such note");
    assert_eq!(failure.message(), "Note nope not found");
    assert!(store.notes.iter().all(|n| !n.pinned));
}

#[test]
fn pinning_a_deleted_note_is_allowed() {
    let mut store = store_of_three();
    store.soft_delete_note_at("a".to_string(), 50).expect("the note exists");
    let pinned = store.pin_note("a".to_string(), true).expect("the note exists");
    assert!(pinned.pinned);
    assert!(pinned.deleted);
    assert_eq!(pinned.deleted_at, Some(50));
}

#[test]
fn soft_delete_marks_stamps_and_unpins() {
    let mut store = store_of_three();
    store.pin_note("a".to_string(), true).expect("the note exists");
    let gone = store.soft_delete_note_at("a".to_string(), 77).expect("the note exists");
    assert!(gone.deleted);
    assert_eq!(gone.deleted_at, Some(77));
    assert!(!gone.pinned);
    assert_eq!(gone.updated_at, 10);
    assert!(store.notes[0].deleted);
    assert_eq!(store.notes[0].deleted_at, Some(77));
    assert!(!store.notes[0].pinned);
    assert!(!store.notes[1].deleted);
    assert!(!store.notes[2].deleted);
    assert_eq!(store.notes.len(), 3);
}

#[test]
fn soft_delete_of_a_missing_note_fails() {
    let mut store = store_of_three();
    let failure = store
        .soft_delete_note_at("q".to_string(), 77)
        .expect_err("no such note");
    assert_eq!(failure.message(), "Note q not found");
    assert!(store.soft_delete_note("q".to_string()).is_err());
    assert!(store.notes.iter().all(|n| !n.deleted && n.deleted_at.is_none()));
}

#[test]
fn restore_clears_flag_and_stamp_and_keeps_the_rest() {
    let mut store = store_of_three();
    store
        .update_note_at("b".to_string(), "kept".to_string(), 25)
        .expect("the note exists");
    store.soft_delete_note_at("b".to_string(), 26).expect("the note exists");
    let back = store.restore_note("b".to_string()).expect("the note exists");
    assert!(!back.deleted);
    assert_eq!(back.deleted_at, None);
    assert_eq!(back.content, "kept");
    assert_eq!(back.updated_at, 25);
    assert_eq!(back.created_at, 20);
    assert_eq!(back.list, "Personal");
}

#[test]
fn restore_of_a_missing_note_fails() {
    let mut store = store_of_three();
    let failure = store.restore_note("gone".to_string()).expect_err("no such note");
    assert_eq!(failure.id, "gone");
    assert_eq!(failure.message(), "Note gone not found");
}

#[test]
fn rename_of_an_unused_list_changes_nothing() {
    let mut store = store_of_three();
    store.update_note_list("Nowhere".to_string(), "Archive".to_string());
    assert_eq!(store.notes[0].list, "Work");
    assert_eq!(store.notes[1].list, "Personal");
    assert_eq!(store.notes[2].list, "Work");
}

#[test]
fn delete_removes_the_note_for_good() {
    let mut store = store_of_three();
    store.delete_note("b".to_string());
    assert_eq!(ids(&store), vec!["a", "c"]);
    assert!(store.restore_note("b".to_string()).is_err());
}

#[test]
fn delete_removes_a_soft_deleted_note_too() {
    let mut store = store_of_three();
    store.soft_delete_note_at("c".to_string(), 31).expect("the note exists");
    store.delete_note("c".to_string());
    assert_eq!(ids(&store), vec!["a", "b"]);
}

#[test]
fn with_a_shared_id_the_first_note_is_changed_and_all_are_removed() {
    let mut store = store_of_three();
    store.create_note_at("a".to_string(), "Twin".to_string(), 40);
    let edited = store
        .update_note_at("a".to_string(), "first".to_string(), 41)
        .expect("the note exists");
    assert_eq!(edited.list, "Work");
    assert_eq!(store.notes[0].content, "first");
    assert_eq!(store.notes[3].content, "");
    store.delete_note("a".to_string());
    assert_eq!(ids(&store), vec!["b", "c"]);
}

#[test]
fn message_names_the_note() {
    let failure = NotFound { id: "0c5b".to_string() };
    assert_eq!(failure.message(), "Note 0c5b not found");
    let blank = NotFound { id: String::new() };
    assert_eq!(blank.message(), "Note  not found");
}
