use sov_core::db::{distinct_texts, NoteRow, SovDb};
use sov_core::error::SovError;
use sov_core::note::{Link, SovNote, YamlMetadata};
use sov_core::path::NotePath;

fn strings(items: &[&str]) -> Vec<String> {
    items.iter().map(|s| s.to_string()).collect()
}

fn link(value: &str, start: usize, end: usize) -> Link {
    Link { value: value.to_string(), alias: None, header: None, start, end }
}

fn note(path: &str, filename: &str, aliases: Option<&[&str]>, tags: &[&str], links: Vec<Link>) -> SovNote {
    SovNote {
        filename: filename.to_string(),
        path: NotePath::Text(path.to_string()),
        yaml: YamlMetadata { aliases: aliases.map(strings), tags: strings(tags) },
        links,
    }
}

fn sample() -> SovDb {
    let mut db = SovDb::new();
    db.insert_notes(&[
        note("/n/a.md", "a", Some(&["first", "alpha"]), &["x", "y"], vec![link("b", 0, 4), link("gone", 6, 13), link("b", 15, 19)]),
        note("/n/b.md", "b", None, &["y"], vec![link("a", 3, 7)]),
        note("/n/c.md", "c", Some(&["third"]), &[], vec![]),
    ])
    .unwrap();
    db
}

#[test]
fn new_store_is_empty() {
    let db = SovDb::new();
    assert_eq!(db.get_all_note_paths().unwrap(), strings(&[]));
    assert_eq!(db.get_unique_tags().unwrap(), strings(&[]));
    assert_eq!(db.rows(), vec![]);
    assert_eq!(db.get_all_dead_links().unwrap(), vec![]);
}

#[test]
fn notes_are_stored_in_order() {
    let db = sample();
    assert_eq!(db.get_all_note_paths().unwrap(), strings(&["/n/a.md", "/n/b.md", "/n/c.md"]));
    assert_eq!(db.get_all_note_names().unwrap(), strings(&["a", "b", "c"]));
    assert_eq!(db.get_unique_tags().unwrap(), strings(&["x", "y"]));
}

#[test]
fn rows_hold_what_the_notes_declare() {
    let db = sample();
    let rows = db.rows();
    assert_eq!(rows.len(), 3);
    assert_eq!(
        rows[0],
        NoteRow {
            filename: "a".to_string(),
            path: "/n/a.md".to_string(),
            aliases: strings(&["first", "alpha"]),
            tags: strings(&["x", "y"]),
            links: vec![link("b", 0, 4), link("gone", 6, 13), link("b", 15, 19)],
        }
    );
    assert_eq!(rows[1].aliases, strings(&[]));
    assert_eq!(rows[0].duplicate(), rows[0]);
}

#[test]
fn storing_again_replaces_what_the_note_owns() {
    let mut db = sample();
    db.insert_notes(&[note("/n/a.md", "a", None, &["z"], vec![link("c", 1, 5)])]).unwrap();
    assert_eq!(db.get_all_note_paths().unwrap(), strings(&["/n/a.md", "/n/b.md", "/n/c.md"]));
    let rows = db.rows();
    assert_eq!(rows[0].aliases, strings(&[]));
    assert_eq!(rows[0].tags, strings(&["z"]));
    assert_eq!(rows[0].links, vec![link("c", 1, 5)]);
    assert_eq!(db.get_unique_tags().unwrap(), strings(&["x", "y", "z"]));
}

#[test]
fn stored_note_keeps_its_filename() {
    let mut db = sample();
    db.insert_notes(&[note("/n/a.md", "renamed", None, &[], vec![])]).unwrap();
    assert_eq!(db.get_all_note_names().unwrap(), strings(&["a", "b", "c"]));
}

#[test]
fn later_note_of_a_batch_wins() {
    let mut db = SovDb::new();
    db.insert_notes(&[
        note("/n/a.md", "a", None, &["one"], vec![]),
        note("/n/a.md", "a", None, &["two"], vec![link("b", 0, 4)]),
    ])
    .unwrap();
    let rows = db.rows();
    assert_eq!(rows.len(), 1);
    assert_eq!(rows[0].tags, strings(&["two"]));
    assert_eq!(db.get_unique_tags().unwrap(), strings(&["one", "two"]));
}

#[test]
fn batch_with_an_unreadable_path_stores_nothing() {
    let mut db = sample();
    let before = db.rows();
    let bad = SovNote {
        filename: "bad".to_string(),
        path: NotePath::Opaque("/n/b\u{fffd}d.md".to_string()),
        yaml: YamlMetadata { aliases: None, tags: strings(&["new"]) },
        links: vec![],
    };
    let worse = SovNote {
        filename: "worse".to_string(),
        path: NotePath::Opaque("/n/w\u{fffd}.md".to_string()),
        yaml: YamlMetadata { aliases: None, tags: vec![] },
        links: vec![],
    };
    let r = db.insert_notes(&[note("/n/d.md", "d", None, &["new"], vec![]), bad, worse]);
    assert_eq!(r, Err(SovError::InvalidPath(NotePath::Opaque("/n/b\u{fffd}d.md".to_string()))));
    assert_eq!(db.rows(), before);
    assert_eq!(db.get_unique_tags().unwrap(), strings(&["x", "y"]));
}

#[test]
fn note_by_filename() {
    let db = sample();
    assert_eq!(db.get_note_by_filename("b").unwrap(), Some("/n/b.md".to_string()));
    assert_eq!(db.get_note_by_filename("nope").unwrap(), None);
    assert_eq!(db.get_note_id_by_filename("a").unwrap(), Some(0));
    assert_eq!(db.get_note_id_by_filename("c").unwrap(), Some(2));
    assert_eq!(db.get_note_id_by_filename("nope").unwrap(), None);
}

#[test]
fn first_note_of_a_shared_filename_is_found() {
    let mut db = SovDb::new();
    db.insert_notes(&[
        note("/n/one/a.md", "a", None, &[], vec![link("x", 0, 4)]),
        note("/n/two/a.md", "a", None, &[], vec![link("y", 0, 4)]),
    ])
    .unwrap();
    assert_eq!(db.get_note_by_filename("a").unwrap(), Some("/n/one/a.md".to_string()));
    assert_eq!(db.get_links("a").unwrap(), vec![link("x", 0, 4)]);
}

#[test]
fn aliases_with_their_notes() {
    let db = sample();
    assert_eq!(
        db.get_all_note_aliases().unwrap(),
        vec![
            ("a".to_string(), "first".to_string()),
            ("a".to_string(), "alpha".to_string()),
            ("c".to_string(), "third".to_string()),
        ]
    );
}

#[test]
fn orphans_are_the_notes_without_incoming_links() {
    let db = sample();
    assert_eq!(db.get_all_orphaned_notes().unwrap(), strings(&["/n/c.md"]));
}

#[test]
fn orphan_is_none_once_it_is_linked() {
    let mut db = sample();
    db.insert_notes(&[note("/n/d.md", "d", None, &[], vec![link("c", 0, 4)])]).unwrap();
    assert_eq!(db.get_all_orphaned_notes().unwrap(), strings(&["/n/d.md"]));
}

#[test]
fn dead_links_point_at_no_note() {
    let db = sample();
    assert_eq!(db.get_all_dead_links().unwrap(), vec![("/n/a.md".to_string(), "gone".to_string())]);
    assert_eq!(db.get_dead_links("a").unwrap(), vec![link("gone", 6, 13)]);
    assert_eq!(db.get_dead_links("b").unwrap(), vec![]);
    assert_eq!(db.get_dead_links("nope").unwrap(), vec![]);
}

#[test]
fn links_of_a_note() {
    let db = sample();
    assert_eq!(db.get_links("a").unwrap(), vec![link("b", 0, 4), link("gone", 6, 13), link("b", 15, 19)]);
    assert_eq!(db.get_links("c").unwrap(), vec![]);
    assert_eq!(db.get_links("nope").unwrap(), vec![]);
}

#[test]
fn backlinks_carry_the_link_as_it_stands() {
    let db = sample();
    assert_eq!(
        db.get_backlinks("b").unwrap(),
        vec![("/n/a.md".to_string(), link("b", 0, 4)), ("/n/a.md".to_string(), link("b", 15, 19))]
    );
    assert_eq!(db.get_backlinks("a").unwrap(), vec![("/n/b.md".to_string(), link("a", 3, 7))]);
    assert_eq!(db.get_backlinks("gone").unwrap(), vec![("/n/a.md".to_string(), link("gone", 6, 13))]);
    assert_eq!(db.get_backlinks("c").unwrap(), vec![]);
}

#[test]
fn backlinks_keep_header_and_alias() {
    let mut db = SovDb::new();
    let full = Link {
        value: "b".to_string(),
        alias: Some("shown".to_string()),
        header: Some("part".to_string()),
        start: 2,
        end: 17,
    };
    db.insert_notes(&[note("/n/a.md", "a", None, &[], vec![full.duplicate()])]).unwrap();
    assert_eq!(db.get_backlinks("b").unwrap(), vec![("/n/a.md".to_string(), full)]);
}

#[test]
fn notes_by_tag() {
    let db = sample();
    assert_eq!(db.find_notes_by_tag("y").unwrap(), strings(&["/n/a.md", "/n/b.md"]));
    assert_eq!(db.find_notes_by_tag("x").unwrap(), strings(&["/n/a.md"]));
    assert_eq!(db.find_notes_by_tag("nope").unwrap(), strings(&[]));
}

#[test]
fn note_with_a_tag_twice_is_found_once() {
    let mut db = SovDb::new();
    db.insert_notes(&[note("/n/a.md", "a", None, &["t", "t"], vec![])]).unwrap();
    assert_eq!(db.find_notes_by_tag("t").unwrap(), strings(&["/n/a.md"]));
    assert_eq!(db.get_unique_tags().unwrap(), strings(&["t"]));
    assert_eq!(db.rows()[0].tags, strings(&["t", "t"]));
}

#[test]
fn membership_tests() {
    let db = sample();
    assert!(db.is_note("a"));
    assert!(!db.is_note("gone"));
    assert!(db.is_target("gone"));
    assert!(db.is_target("b"));
    assert!(!db.is_target("c"));
    assert!(db.carries("x"));
    assert!(!db.carries("z"));
}

#[test]
fn deleting_a_note_takes_what_it_owns() {
    let mut db = sample();
    db.delete_note_by_path(&NotePath::Text("/n/b.md".to_string())).unwrap();
    assert_eq!(db.get_all_note_paths().unwrap(), strings(&["/n/a.md", "/n/c.md"]));
    assert_eq!(db.get_backlinks("a").unwrap(), vec![]);
    assert_eq!(
        db.get_all_dead_links().unwrap(),
        vec![
            ("/n/a.md".to_string(), "b".to_string()),
            ("/n/a.md".to_string(), "gone".to_string()),
            ("/n/a.md".to_string(), "b".to_string()),
        ]
    );
    // The tags stay known until they are collected.
    assert_eq!(db.get_unique_tags().unwrap(), strings(&["x", "y"]));
}

#[test]
fn deleting_an_unknown_path_changes_nothing() {
    let mut db = sample();
    let before = db.rows();
    db.delete_note_by_path(&NotePath::Text("/n/zzz.md".to_string())).unwrap();
    assert_eq!(db.rows(), before);
}

#[test]
fn deleting_by_an_unreadable_path_is_an_error() {
    let mut db = sample();
    let before = db.rows();
    let path = NotePath::Opaque("/n/\u{fffd}.md".to_string());
    assert_eq!(db.delete_note_by_path(&path), Err(SovError::InvalidPath(path.duplicate())));
    assert_eq!(db.rows(), before);
}

#[test]
fn unused_tags_are_collected() {
    let mut db = sample();
    db.insert_notes(&[note("/n/a.md", "a", None, &["y"], vec![])]).unwrap();
    assert_eq!(db.get_unique_tags().unwrap(), strings(&["x", "y"]));
    db.clean_dead_tags().unwrap();
    assert_eq!(db.get_unique_tags().unwrap(), strings(&["y"]));
    db.clean_dead_tags().unwrap();
    assert_eq!(db.get_unique_tags().unwrap(), strings(&["y"]));
}

fn row(path: &str, filename: &str, tags: &[&str]) -> NoteRow {
    NoteRow {
        filename: filename.to_string(),
        path: path.to_string(),
        aliases: vec![],
        tags: strings(tags),
        links: vec![],
    }
}

#[test]
fn store_is_restored_from_its_rows_and_tags() {
    let db = sample();
    let restored = SovDb::restore(db.rows(), db.get_unique_tags().unwrap());
    assert_eq!(restored, Some(db));
    assert_eq!(SovDb::restore(vec![], vec![]), Some(SovDb::new()));
}

#[test]
fn restored_store_keeps_the_order_of_rows_and_tags() {
    let db = SovDb::restore(
        vec![row("/n/b.md", "b", &["y"]), row("/n/a.md", "a", &["x", "y"])],
        strings(&["x", "unused", "y"]),
    )
    .unwrap();
    assert_eq!(db.get_all_note_paths().unwrap(), strings(&["/n/b.md", "/n/a.md"]));
    assert_eq!(db.get_unique_tags().unwrap(), strings(&["x", "unused", "y"]));
}

#[test]
fn rows_that_break_the_invariant_are_not_restored() {
    // Two notes at one path.
    assert_eq!(SovDb::restore(vec![row("/n/a.md", "a", &[]), row("/n/a.md", "b", &[])], vec![]), None);
    // A tag that is known twice.
    assert_eq!(SovDb::restore(vec![], strings(&["x", "x"])), None);
    // A note with a tag that is not known.
    assert_eq!(SovDb::restore(vec![row("/n/a.md", "a", &["x"])], strings(&["y"])), None);
}

#[test]
fn texts_without_repetition() {
    assert!(distinct_texts(&strings(&[])));
    assert!(distinct_texts(&strings(&["a", "b", "c"])));
    assert!(!distinct_texts(&strings(&["a", "b", "a"])));
    assert!(!distinct_texts(&strings(&["a", "a"])));
}
