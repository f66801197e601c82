use sov_core::error::SovError;
use sov_core::note::{front_matter_block, SovNote, YamlMetadata};
use sov_core::path::NotePath;
use sov_core::yaml::YamlNode;

fn text(s: &str) -> YamlNode {
    YamlNode::Text(s.to_string())
}

fn strings(items: &[&str]) -> Vec<String> {
    items.iter().map(|s| s.to_string()).collect()
}

#[test]
fn text_without_front_matter_declares_nothing() {
    for content in ["", "just text", "a -- b", "one --- delimiter only", "[[link]] and #tag"] {
        let m = SovNote::parse_yaml(content).unwrap();
        assert_eq!(m, YamlMetadata { aliases: None, tags: vec![] });
    }
}

#[test]
fn front_matter_block_stands_between_the_first_two_delimiters() {
    assert_eq!(front_matter_block("---\ntags: [a]\n---\nbody"), Some("\ntags: [a]\n".to_string()));
    assert_eq!(front_matter_block("x---y---z---w"), Some("y".to_string()));
    assert_eq!(front_matter_block("------"), Some("".to_string()));
    assert_eq!(front_matter_block("-----"), None);
    assert_eq!(front_matter_block("---\ntags: [a]\n"), None);
    assert_eq!(front_matter_block("no delimiter"), None);
}

#[test]
fn tags_and_aliases_are_read() {
    let m = SovNote::parse_yaml("---\naliases:\n  - one\n  - two\ntags: [a, b]\n---\nbody").unwrap();
    assert_eq!(m.aliases, Some(strings(&["one", "two"])));
    assert_eq!(m.tags, strings(&["a", "b"]));
}

#[test]
fn missing_aliases_are_none() {
    let m = SovNote::parse_yaml("---\ntags: [a]\n---\n").unwrap();
    assert_eq!(m.aliases, None);
    assert_eq!(m.tags, strings(&["a"]));
}

#[test]
fn missing_tags_are_empty() {
    let m = SovNote::parse_yaml("---\naliases: [x]\n---\n").unwrap();
    assert_eq!(m.aliases, Some(strings(&["x"])));
    assert_eq!(m.tags, strings(&[]));
}

#[test]
fn null_fields_are_missing_fields() {
    let m = SovNote::parse_yaml("---\naliases:\ntags: ~\n---\n").unwrap();
    assert_eq!(m, YamlMetadata { aliases: None, tags: vec![] });
}

#[test]
fn other_keys_are_passed_over() {
    let m = SovNote::parse_yaml("---\ntitle: A note\ntags: [a]\nnested: {k: [1, 2]}\n---\n").unwrap();
    assert_eq!(m, YamlMetadata { aliases: None, tags: strings(&["a"]) });
}

#[test]
fn text_that_is_no_yaml_is_an_error() {
    match SovNote::parse_yaml("---\ntags: [a, b\n---\n") {
        Err(SovError::Yaml(message)) => assert!(!message.is_empty()),
        other => panic!("unexpected {:?}", other),
    }
}

#[test]
fn front_matter_that_is_no_mapping_is_an_error() {
    assert_eq!(
        SovNote::parse_yaml("---\n- a\n- b\n---\n"),
        Err(SovError::Yaml("front matter is not a mapping".to_string()))
    );
    assert_eq!(
        SovNote::parse_yaml("------"),
        Err(SovError::Yaml("front matter is not a mapping".to_string()))
    );
}

#[test]
fn tags_that_are_no_list_of_strings_are_an_error() {
    assert_eq!(
        SovNote::parse_yaml("---\ntags: one\n---\n"),
        Err(SovError::Yaml("`tags` is not a list of strings".to_string()))
    );
    assert_eq!(
        SovNote::parse_yaml("---\ntags: [a, 2]\n---\n"),
        Err(SovError::Yaml("`tags` is not a list of strings".to_string()))
    );
}

#[test]
fn aliases_that_are_no_list_of_strings_are_an_error() {
    assert_eq!(
        SovNote::parse_yaml("---\naliases: {a: b}\ntags: []\n---\n"),
        Err(SovError::Yaml("`aliases` is not a list of strings".to_string()))
    );
}

#[test]
fn metadata_from_a_document() {
    let node = YamlNode::Mapping(vec![
        (text("title"), YamlNode::Number("3".to_string())),
        (text("tags"), YamlNode::Sequence(vec![text("a"), text("b")])),
        (text("aliases"), YamlNode::Null),
        (YamlNode::Bool(true), text("odd key")),
    ]);
    assert_eq!(
        YamlMetadata::from_node(&node),
        Ok(YamlMetadata { aliases: None, tags: strings(&["a", "b"]) })
    );
}

#[test]
fn first_entry_of_a_key_counts() {
    let node = YamlNode::Mapping(vec![
        (text("tags"), YamlNode::Sequence(vec![text("first")])),
        (text("tags"), YamlNode::Sequence(vec![text("second")])),
    ]);
    assert_eq!(YamlMetadata::from_node(&node).unwrap().tags, strings(&["first"]));
}

#[test]
fn metadata_from_documents_of_other_shapes() {
    for node in [
        YamlNode::Null,
        YamlNode::Bool(false),
        text("tags"),
        YamlNode::Sequence(vec![]),
        YamlNode::Tagged("!t".to_string(), Box::new(YamlNode::Mapping(vec![]))),
    ] {
        assert_eq!(
            YamlMetadata::from_node(&node),
            Err(SovError::Yaml("front matter is not a mapping".to_string()))
        );
    }
    let bad_tags = YamlNode::Mapping(vec![(text("tags"), YamlNode::Sequence(vec![YamlNode::Null]))]);
    assert_eq!(
        YamlMetadata::from_node(&bad_tags),
        Err(SovError::Yaml("`tags` is not a list of strings".to_string()))
    );
    let bad_aliases = YamlNode::Mapping(vec![(text("aliases"), text("one"))]);
    assert_eq!(
        YamlMetadata::from_node(&bad_aliases),
        Err(SovError::Yaml("`aliases` is not a list of strings".to_string()))
    );
}

#[test]
fn empty_metadata() {
    assert_eq!(YamlMetadata::empty(), YamlMetadata { aliases: None, tags: vec![] });
}

#[test]
fn note_from_its_text() {
    let note = SovNote::new(
        NotePath::Text("/notes/a.md".to_string()),
        "a".to_string(),
        "---\ntags: [t]\naliases: [first]\n---\nto [[b]] and [[c#h|see c]]\n",
    )
    .unwrap();
    assert_eq!(note.filename, "a");
    assert_eq!(note.path, NotePath::Text("/notes/a.md".to_string()));
    assert_eq!(note.yaml.tags, strings(&["t"]));
    assert_eq!(note.yaml.aliases, Some(strings(&["first"])));
    assert_eq!(note.links.len(), 2);
    assert_eq!(note.links[0].value, "b");
    assert_eq!((note.links[0].start, note.links[0].end), (38, 42));
    assert_eq!(note.links[1].value, "c");
    assert_eq!(note.links[1].header, Some("h".to_string()));
    assert_eq!(note.links[1].alias, Some("see c".to_string()));
}

#[test]
fn note_with_bad_front_matter_is_an_error() {
    let r = SovNote::new(
        NotePath::Text("/notes/a.md".to_string()),
        "a".to_string(),
        "---\ntags: 7\n---\n[[b]]",
    );
    assert_eq!(r, Err(SovError::Yaml("`tags` is not a list of strings".to_string())));
}
