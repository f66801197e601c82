use sov_core::args::SovFeature;
use sov_core::lsp::{
    closest_link, command_feature, completion_kind, definition_target, link_completions,
    link_under_cursor, offset_to_position, reference_target, tag_completions, Completion,
    CompletionKind, Definition, Position,
};
use sov_core::note::{Link, SovNote};

fn strings(items: &[&str]) -> Vec<String> {
    items.iter().map(|s| s.to_string()).collect()
}

#[test]
fn place_of_an_offset() {
    let text = "one\ntwo [[x]]\n\nlast";
    assert_eq!(offset_to_position(0, text), Some(Position { line: 0, ch: 0 }));
    assert_eq!(offset_to_position(3, text), Some(Position { line: 0, ch: 3 }));
    assert_eq!(offset_to_position(4, text), Some(Position { line: 1, ch: 0 }));
    assert_eq!(offset_to_position(8, text), Some(Position { line: 1, ch: 4 }));
    assert_eq!(offset_to_position(14, text), Some(Position { line: 2, ch: 0 }));
    assert_eq!(offset_to_position(19, text), Some(Position { line: 3, ch: 4 }));
    assert_eq!(offset_to_position(20, text), None);
    assert_eq!(offset_to_position(0, ""), Some(Position { line: 0, ch: 0 }));
    assert_eq!(offset_to_position(1, ""), None);
}

#[test]
fn place_of_an_offset_counts_characters() {
    let text = "é\n→x";
    assert_eq!(offset_to_position(3, text), Some(Position { line: 1, ch: 1 }));
    assert_eq!(offset_to_position(5, text), None);
}

#[test]
fn place_of_a_link() {
    let text = "intro\nsee [[target]] here\n";
    let links = SovNote::parse_links(text).unwrap();
    assert_eq!(offset_to_position(links[0].start, text), Some(Position { line: 1, ch: 4 }));
    assert_eq!(offset_to_position(links[0].end, text), Some(Position { line: 1, ch: 13 }));
}

#[test]
fn link_under_the_cursor() {
    let line = "a [[x]] b [[y|z]]";
    assert_eq!(link_under_cursor(1, line), None);
    assert_eq!(link_under_cursor(2, line).unwrap().value, "x");
    assert_eq!(link_under_cursor(6, line).unwrap().value, "x");
    assert_eq!(link_under_cursor(7, line), None);
    let y = link_under_cursor(12, line).unwrap();
    assert_eq!(y, Link { value: "y".to_string(), alias: Some("z".to_string()), header: None, start: 10, end: 16 });
    assert_eq!(link_under_cursor(17, line), None);
    assert_eq!(link_under_cursor(0, "no link"), None);
}

#[test]
fn nearest_link() {
    let links = SovNote::parse_links("[[a]] and [[b]] or [[c]]").unwrap();
    assert_eq!((links[0].start, links[0].end), (0, 4));
    assert_eq!((links[1].start, links[1].end), (10, 14));
    assert_eq!((links[2].start, links[2].end), (19, 23));
    assert_eq!(closest_link(&links, 0), Some(0));
    assert_eq!(closest_link(&links, 6), Some(0));
    assert_eq!(closest_link(&links, 7), Some(0));
    assert_eq!(closest_link(&links, 8), Some(1));
    assert_eq!(closest_link(&links, 12), Some(1));
    assert_eq!(closest_link(&links, 17), Some(2));
    assert_eq!(closest_link(&links, 500), Some(2));
    assert_eq!(closest_link(&vec![], 3), None);
}

#[test]
fn definition_of_a_link_or_a_url() {
    assert_eq!(definition_target("see [[a]] or [[b]]", 16), Definition::Note("b".to_string()));
    assert_eq!(definition_target("see [[a]] or https://example.org", 30), Definition::Note("a".to_string()));
    assert_eq!(
        definition_target("read https://example.org/page?x=1 now", 0),
        Definition::Url("https://example.org/page?x=1".to_string())
    );
    assert_eq!(definition_target("mail me@example.org or https://example.org", 0), Definition::Nothing);
    assert_eq!(definition_target("nothing here", 3), Definition::Nothing);
    assert_eq!(definition_target("", 0), Definition::Nothing);
}

#[test]
fn what_to_complete() {
    assert_eq!(completion_kind("see [[", 6), Some(CompletionKind::Links));
    assert_eq!(completion_kind("see [[ab", 6), Some(CompletionKind::Links));
    assert_eq!(completion_kind("see [[ab", 8), None);
    assert_eq!(completion_kind("a #", 3), Some(CompletionKind::Tags));
    assert_eq!(completion_kind("#", 1), Some(CompletionKind::Tags));
    assert_eq!(completion_kind("[", 1), None);
    assert_eq!(completion_kind("[[", 1), None);
    assert_eq!(completion_kind("[[", 2), Some(CompletionKind::Links));
    assert_eq!(completion_kind("[[", 0), None);
    assert_eq!(completion_kind("[[", 3), None);
    assert_eq!(completion_kind("", 0), None);
    // The cursor is counted in bytes: `é` takes two.
    assert_eq!(completion_kind("é[[", 4), Some(CompletionKind::Links));
    assert_eq!(completion_kind("é[[", 3), None);
}

#[test]
fn completions_for_links() {
    let items = link_completions(
        &strings(&["note", "other"]),
        &vec![("note".to_string(), "alias".to_string())],
    );
    assert_eq!(
        items,
        vec![
            Completion {
                label: "note".to_string(),
                insert_text: Some("note]]".to_string()),
                kind: CompletionKind::Links
            },
            Completion {
                label: "other".to_string(),
                insert_text: Some("other]]".to_string()),
                kind: CompletionKind::Links
            },
            Completion {
                label: "alias".to_string(),
                insert_text: Some("note|alias]]".to_string()),
                kind: CompletionKind::Links
            },
        ]
    );
    assert_eq!(link_completions(&vec![], &vec![]), vec![]);
}

#[test]
fn completions_for_tags() {
    assert_eq!(
        tag_completions(&strings(&["a", "b c"])),
        vec![
            Completion { label: "#a".to_string(), insert_text: None, kind: CompletionKind::Tags },
            Completion { label: "#b c".to_string(), insert_text: None, kind: CompletionKind::Tags },
        ]
    );
}

#[test]
fn name_that_a_request_is_about() {
    assert_eq!(reference_target(5, "see [[x#h]]", Some("here".to_string())), Some("x".to_string()));
    assert_eq!(reference_target(0, "see [[x#h]]", Some("here".to_string())), Some("here".to_string()));
    assert_eq!(reference_target(0, "see [[x#h]]", None), None);
}

#[test]
fn commands_of_the_editor() {
    let s = |text: &str| Some(text.to_string());
    assert_eq!(command_feature("sov.index", &vec![]), Some(SovFeature::Index));
    assert_eq!(command_feature("sov.index", &vec![s("extra")]), Some(SovFeature::Index));
    assert_eq!(command_feature("sov.daily", &vec![]), Some(SovFeature::Daily));
    assert_eq!(command_feature("sov.list.tags", &vec![]), Some(SovFeature::ListTags));
    assert_eq!(command_feature("sov.list", &vec![]), None);
    assert_eq!(command_feature("", &vec![]), None);
    assert_eq!(
        command_feature("sov.script.run", &vec![s("new.sh"), s("a"), None, s("b")]),
        Some(SovFeature::ScriptRun { script_name: "new.sh".to_string(), args: strings(&["a", "b"]) })
    );
    assert_eq!(
        command_feature("sov.script.run", &vec![s("new.sh")]),
        Some(SovFeature::ScriptRun { script_name: "new.sh".to_string(), args: vec![] })
    );
    assert_eq!(command_feature("sov.script.run", &vec![]), None);
    assert_eq!(command_feature("sov.script.run", &vec![None, s("a")]), None);
    assert_eq!(
        command_feature("sov.script.create", &vec![s("idea"), s("new.sh"), None, s("x")]),
        Some(SovFeature::ScriptCreate {
            note_name: "idea".to_string(),
            script_name: "new.sh".to_string(),
            args: strings(&["x"])
        })
    );
    assert_eq!(command_feature("sov.script.create", &vec![s("idea")]), None);
    assert_eq!(command_feature("sov.script.create", &vec![s("idea"), None]), None);
    assert_eq!(command_feature("sov.script.create", &vec![None, s("new.sh")]), None);
}
