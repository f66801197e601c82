use sov_core::note::{Link, SovNote};

fn link(value: &str, header: Option<&str>, alias: Option<&str>, start: usize, end: usize) -> Link {
    Link {
        value: value.to_string(),
        alias: alias.map(|a| a.to_string()),
        header: header.map(|h| h.to_string()),
        start,
        end,
    }
}

fn links(text: &str) -> Vec<Link> {
    SovNote::parse_links(text).unwrap()
}

#[test]
fn plain_link_is_found() {
    assert_eq!(links("see [[target]] here"), vec![link("target", None, None, 4, 13)]);
}

#[test]
fn link_with_alias() {
    assert_eq!(links("[[target|shown]]"), vec![link("target", None, Some("shown"), 0, 15)]);
}

#[test]
fn link_with_header() {
    assert_eq!(links("[[target#part]]"), vec![link("target", Some("part"), None, 0, 14)]);
}

#[test]
fn link_with_header_and_alias() {
    assert_eq!(
        links("[[target#part|shown]]"),
        vec![link("target", Some("part"), Some("shown"), 0, 20)]
    );
}

#[test]
fn hash_behind_the_bar_belongs_to_the_alias() {
    assert_eq!(links("[[a|b#c]]"), vec![link("a", None, Some("b#c"), 0, 8)]);
}

#[test]
fn second_bar_belongs_to_the_alias() {
    assert_eq!(links("[[a|b|c]]"), vec![link("a", None, Some("b|c"), 0, 8)]);
}

#[test]
fn second_hash_belongs_to_the_header() {
    assert_eq!(links("[[a#b#c]]"), vec![link("a", Some("b#c"), None, 0, 8)]);
}

#[test]
fn empty_link_has_an_empty_target() {
    assert_eq!(links("[[]]"), vec![link("", None, None, 0, 3)]);
}

#[test]
fn empty_header_and_alias_are_kept() {
    assert_eq!(links("[[a#|]]"), vec![link("a", Some(""), Some(""), 0, 6)]);
}

#[test]
fn escaped_link_is_none() {
    assert_eq!(links("\\[[not a link]]"), vec![]);
}

#[test]
fn escaped_link_in_a_sentence_is_none() {
    assert_eq!(links("it says \\[[not a link]] there"), vec![]);
}

#[test]
fn escaped_backslash_escapes_nothing() {
    assert_eq!(links("\\\\[[a]]"), vec![link("a", None, None, 2, 6)]);
}

#[test]
fn backslash_before_other_text_is_forgotten() {
    assert_eq!(links("\\a[[b]]"), vec![link("b", None, None, 2, 6)]);
}

#[test]
fn unterminated_link_is_none() {
    assert_eq!(links("[[target"), vec![]);
}

#[test]
fn unterminated_link_at_line_end_is_none() {
    assert_eq!(links("[[target\nnext line"), vec![]);
}

#[test]
fn link_closed_on_the_next_line_is_none() {
    assert_eq!(links("[[target\n]]"), vec![]);
    assert_eq!(links("[[target\n]"), vec![]);
}

#[test]
fn single_closing_bracket_is_none() {
    assert_eq!(links("[[target] and more"), vec![]);
}

#[test]
fn scan_goes_on_two_characters_after_a_discarded_body() {
    // The body ends at `]`; `x` behind it is passed over, then `[[b]]` is read.
    assert_eq!(links("[[a]x[[b]]"), vec![link("b", None, None, 5, 9)]);
    // After a line break the next character is passed over too.
    assert_eq!(links("[[a\n[[[b]]"), vec![link("b", None, None, 5, 9)]);
}

#[test]
fn single_bracket_opens_nothing() {
    assert_eq!(links("[a[[b]]"), vec![link("b", None, None, 2, 6)]);
    assert_eq!(links("[a] [[b]]"), vec![link("b", None, None, 4, 8)]);
}

#[test]
fn backslash_escapes_wherever_it_stands() {
    // Behind a single bracket.
    assert_eq!(links("[\\[[b]]"), vec![]);
    // Behind a candidate that was discarded.
    assert_eq!(links("[[a]\\[[b]]"), vec![]);
    // Behind a link.
    assert_eq!(links("[[a]]\\[[b]]"), vec![link("a", None, None, 0, 4)]);
    // Inside a body it is a character like any other.
    assert_eq!(links("[[a\\]]"), vec![link("a\\", None, None, 0, 5)]);
    // Three backslashes: the third one escapes.
    assert_eq!(links("\\\\\\[[a]]"), vec![]);
}

#[test]
fn three_opening_brackets() {
    assert_eq!(links("[[[a]]"), vec![link("[a", None, None, 0, 5)]);
}

#[test]
fn several_links_in_order() {
    assert_eq!(
        links("a [[x]] b [[y|z]]\n[[w#h]]"),
        vec![
            link("x", None, None, 2, 6),
            link("y", None, Some("z"), 10, 16),
            link("w", Some("h"), None, 18, 24),
        ]
    );
}

#[test]
fn equal_links_are_all_kept() {
    assert_eq!(
        links("[[x]][[x]]"),
        vec![link("x", None, None, 0, 4), link("x", None, None, 5, 9)]
    );
}

#[test]
fn offsets_count_characters_not_bytes() {
    assert_eq!(links("é→ [[ñ]]"), vec![link("ñ", None, None, 3, 7)]);
}

#[test]
fn text_without_links() {
    assert_eq!(links(""), vec![]);
    assert_eq!(links("no links [ here ] at all"), vec![]);
    assert_eq!(links("["), vec![]);
    assert_eq!(links("[["), vec![]);
    assert_eq!(links("[[a]"), vec![]);
}

#[test]
fn link_is_written_as_it_is_read() {
    assert_eq!(link("t", None, None, 0, 0).to_string(), "[[t]]");
    assert_eq!(link("t", Some("h"), None, 0, 0).to_string(), "[[t#h]]");
    assert_eq!(link("t", None, Some("a"), 0, 0).to_string(), "[[t|a]]");
    assert_eq!(link("t", Some("h"), Some("a"), 0, 0).to_string(), "[[t#h|a]]");
}

#[test]
fn written_link_is_read_back() {
    for written in [
        link("note", None, None, 0, 7),
        link("note", Some("part"), None, 0, 12),
        link("note", None, Some("shown"), 0, 13),
        link("note", Some("part"), Some("shown # here | there"), 0, 33),
    ] {
        let text = written.to_string();
        assert_eq!(text.chars().count(), written.end + 1);
        assert_eq!(links(&text), vec![written]);
    }
}

#[test]
fn duplicate_keeps_every_field() {
    let written = link("note", Some("part"), Some("shown"), 3, 24);
    assert_eq!(written.duplicate(), written);
}
