//! What an editor asks of a text: the link at the cursor, what to complete,
//! where an offset lies, which command to run.

use vstd::prelude::*;
use vstd::string::StringExecFns;
use vstd::string::StringSliceAdditionalSpecFns;
use crate::args::{FeatureView, SovFeature};
use crate::note::{link_views, links_in, Link, LinkView, SovNote};
use crate::text::{opt_text, same_text, text_pairs, texts};

verus! {

/// A place in a text: a line, counted from zero, and a character in it.
#[derive(Clone, Copy, Debug, PartialEq, Eq, Structural)]
pub struct Position {
    pub line: u64,
    pub ch: u64,
}

/// The number of the line that holds the character `offset` of `text`, as
/// `ropey::Rope::try_char_to_line` gives it for a rope made of the text;
/// nothing where it gives an error.
pub uninterp spec fn line_of_char(text: Seq<char>, offset: int) -> Option<int>;

/// The offset of the first character of the line `line` of `text`, as
/// `ropey::Rope::try_line_to_char` gives it for a rope made of the text;
/// nothing where it gives an error.
pub uninterp spec fn char_of_line(text: Seq<char>, line: int) -> Option<int>;

/// The first link that a `linkify::LinkFinder` with its default options
/// finds in `line`: its text, and whether it is a URL.
pub uninterp spec fn first_web_link(line: Seq<char>) -> Option<(Seq<char>, bool)>;

/// Makes a rope of the text and asks `ropey::Rope::try_char_to_line` for
/// the line of a character. The contract claims only that the outcome is
/// the same every time.
#[verifier::external_body]
fn rope_char_to_line(text: &str, offset: usize) -> (r: Option<usize>)
    ensures
        match r {
            Some(line) => line_of_char(text@, offset as int) == Some(line as int),
            None => line_of_char(text@, offset as int) is None,
        },
{
    ropey::Rope::from_str(text).try_char_to_line(offset).ok()
}

/// Makes a rope of the text and asks `ropey::Rope::try_line_to_char` for
/// the offset at which a line starts. The contract claims only that the
/// outcome is the same every time.
#[verifier::external_body]
fn rope_line_to_char(text: &str, line: usize) -> (r: Option<usize>)
    ensures
        match r {
            Some(offset) => char_of_line(text@, line as int) == Some(offset as int),
            None => char_of_line(text@, line as int) is None,
        },
{
    ropey::Rope::from_str(text).try_line_to_char(line).ok()
}

/// Asks a `linkify::LinkFinder` with its default options for the first
/// link of a line. The contract claims only that the outcome is the same
/// every time.
#[verifier::external_body]
fn find_web_link(line: &str) -> (r: Option<(String, bool)>)
    ensures
        match r {
            Some(found) => first_web_link(line@) == Some((found.0@, found.1)),
            None => first_web_link(line@) is None,
        },
{
    match linkify::LinkFinder::new().links(line).next() {
        Some(link) => match link.kind() {
            linkify::LinkKind::Url => Some((link.as_str().to_string(), true)),
            _ => Some((link.as_str().to_string(), false)),
        },
        None => None,
    }
}

/// The place of the character `offset` in `text`, where the text has it.
pub open spec fn place_of(text: Seq<char>, offset: int) -> Option<Position> {
    match line_of_char(text, offset) {
        Some(line) => match char_of_line(text, line) {
            Some(start) => if 0 <= start <= offset && 0 <= line <= u64::MAX && offset - start
                <= u64::MAX {
                Some(Position { line: line as u64, ch: (offset - start) as u64 })
            } else {
                None
            },
            None => None,
        },
        None => None,
    }
}

/// The place of the character `offset` in `text`: its line, and how far
/// into the line it stands. Nothing where the text has no such character.
pub fn offset_to_position(offset: usize, text: &str) -> (r: Option<Position>)
    ensures
        r == place_of(text@, offset as int),
{
    let line = match rope_char_to_line(text, offset) {
        Some(line) => line,
        None => {
            return None;
        },
    };
    let start = match rope_line_to_char(text, line) {
        Some(start) => start,
        None => {
            return None;
        },
    };
    if start > offset {
        return None;
    }
    Some(Position { line: line as u64, ch: (offset - start) as u64 })
}

/// The position of the first link at or after `from` that spans the
/// character `character`, or `links.len()`.
pub open spec fn first_covering(links: Seq<LinkView>, character: int, from: int) -> int
    decreases links.len() - from,
{
    if from < 0 || from >= links.len() {
        links.len() as int
    } else if links[from].start <= character <= links[from].end {
        from
    } else {
        first_covering(links, character, from + 1)
    }
}

/// The first link of `line` that spans the character `character`.
pub open spec fn link_at(line: Seq<char>, character: int) -> Option<LinkView> {
    let links = links_in(line);
    let at = first_covering(links, character, 0);
    if at < links.len() {
        Some(links[at])
    } else {
        None
    }
}

/// The link of `line` under the cursor: the first one that spans the
/// character `character`.
pub fn link_under_cursor(character: usize, line: &str) -> (r: Option<Link>)
    ensures
        match r {
            Some(link) => link_at(line@, character as int) == Some(link@),
            None => link_at(line@, character as int) is None,
        },
{
    let links = match SovNote::parse_links(line) {
        Ok(links) => links,
        Err(_) => {
            return None;
        },
    };
    let ghost views = link_views(links@);
    let mut i: usize = 0;
    while i < links.len()
        invariant
            i <= links.len(),
            views == link_views(links@),
            views == links_in(line@),
            first_covering(views, character as int, 0) == first_covering(
                views,
                character as int,
                i as int,
            ),
        decreases links.len() - i,
    {
        assert(views[i as int] == links@[i as int]@);
        if links[i].start <= character && character <= links[i].end {
            return Some(links[i].duplicate());
        }
        i += 1;
    }
    None
}

/// How far the character `character` is from the nearer end of a link.
pub open spec fn distance(link: LinkView, character: int) -> int {
    let to_start = if link.start <= character {
        character - link.start
    } else {
        link.start - character
    };
    let to_end = if link.end <= character {
        character - link.end
    } else {
        link.end - character
    };
    if to_start <= to_end {
        to_start
    } else {
        to_end
    }
}

/// Whether the link at `at` is the first of `links` that is nearest to the
/// character `character`.
pub open spec fn is_closest(links: Seq<LinkView>, character: int, at: int) -> bool {
    &&& 0 <= at < links.len()
    &&& forall|k: int| 0 <= k < links.len() ==> distance(links[at], character) <= distance(
        #[trigger] links[k],
        character,
    )
    &&& forall|k: int| 0 <= k < at ==> distance(links[at], character) < distance(
        #[trigger] links[k],
        character,
    )
}

/// How far the character `character` is from the nearer end of a link.
fn link_distance(link: &Link, character: usize) -> (d: usize)
    ensures
        d == distance(link@, character as int),
{
    let to_start = if link.start <= character {
        character - link.start
    } else {
        link.start - character
    };
    let to_end = if link.end <= character {
        character - link.end
    } else {
        link.end - character
    };
    if to_start <= to_end {
        to_start
    } else {
        to_end
    }
}

/// The position in `links` of the link nearest to the character
/// `character`, the first of them where several are as near; nothing for
/// an empty list.
pub fn closest_link(links: &Vec<Link>, character: usize) -> (r: Option<usize>)
    ensures
        match r {
            Some(at) => is_closest(link_views(links@), character as int, at as int),
            None => links.len() == 0,
        },
{
    if links.len() == 0 {
        return None;
    }
    let ghost views = link_views(links@);
    let mut best: usize = 0;
    let mut best_distance = link_distance(&links[0], character);
    let mut i: usize = 1;
    assert(views[0] == links@[0]@);
    while i < links.len()
        invariant
            1 <= i <= links.len(),
            best < i,
            views == link_views(links@),
            best_distance == distance(views[best as int], character as int),
            forall|k: int|
                0 <= k < i ==> best_distance <= distance(#[trigger] views[k], character as int),
            forall|k: int|
                0 <= k < best ==> best_distance < distance(#[trigger] views[k], character as int),
        decreases links.len() - i,
    {
        assert(views[i as int] == links@[i as int]@);
        let d = link_distance(&links[i], character);
        if d < best_distance {
            best = i;
            best_distance = d;
        }
        i += 1;
    }
    Some(best)
}

/// What a request for a definition points at.
#[derive(Debug, PartialEq, Eq)]
pub enum Definition {
    /// The note with this name.
    Note(String),
    /// This URL.
    Url(String),
    /// Nothing.
    Nothing,
}

/// What a `Definition` holds, as mathematical values.
pub enum DefinitionView {
    Note(Seq<char>),
    Url(Seq<char>),
    Nothing,
}

impl View for Definition {
    type V = DefinitionView;

    open spec fn view(&self) -> DefinitionView {
        match self {
            Definition::Note(n) => DefinitionView::Note(n@),
            Definition::Url(u) => DefinitionView::Url(u@),
            Definition::Nothing => DefinitionView::Nothing,
        }
    }
}

/// What the first web link of a line, if any, gives to go to.
pub open spec fn web_target(found: Option<(Seq<char>, bool)>) -> DefinitionView {
    match found {
        Some((text, true)) => DefinitionView::Url(text),
        _ => DefinitionView::Nothing,
    }
}

/// What a request for a definition at the character `character` of `line`
/// points at: the target of the link nearest to the cursor; in a line
/// without links, the line's first web link where that is a URL.
pub fn definition_target(line: &str, character: usize) -> (r: Definition)
    ensures
        links_in(line@).len() > 0 ==> exists|at: int|
            is_closest(links_in(line@), character as int, at) && r@ == DefinitionView::Note(
                (#[trigger] links_in(line@)[at]).value,
            ),
        links_in(line@).len() == 0 ==> r@ == web_target(first_web_link(line@)),
{
    let links = match SovNote::parse_links(line) {
        Ok(links) => links,
        Err(_) => {
            return Definition::Nothing;
        },
    };
    match closest_link(&links, character) {
        Some(at) => {
            assert(link_views(links@)[at as int] == links@[at as int]@);
            Definition::Note(links[at].value.clone())
        },
        None => match find_web_link(line) {
            Some((text, true)) => Definition::Url(text),
            _ => Definition::Nothing,
        },
    }
}

/// What to offer for completion.
#[derive(Clone, Copy, Debug, PartialEq, Eq, Structural)]
pub enum CompletionKind {
    /// The names and aliases of the notes.
    Links,
    /// The tags.
    Tags,
}

/// What to offer for completion after the first `n` bytes of a line: the
/// notes after `[[`, the tags after `#`, nothing otherwise, and nothing
/// where the line has fewer bytes.
pub open spec fn completion_of(bytes: Seq<u8>, n: int) -> Option<CompletionKind> {
    if n < 0 || n > bytes.len() {
        None
    } else if n >= 2 && bytes[n - 1] == 0x5b && bytes[n - 2] == 0x5b {
        Some(CompletionKind::Links)
    } else if n >= 1 && bytes[n - 1] == 0x23 {
        Some(CompletionKind::Tags)
    } else {
        None
    }
}

/// What to offer for completion when the cursor stands behind the first
/// `character` bytes of `line`.
pub fn completion_kind(line: &str, character: usize) -> (r: Option<CompletionKind>)
    ensures
        r == completion_of(line.spec_bytes(), character as int),
{
    let bytes = line.as_bytes();
    if character > bytes.len() {
        None
    } else if character >= 2 && bytes[character - 1] == 0x5b && bytes[character - 2] == 0x5b {
        Some(CompletionKind::Links)
    } else if character >= 1 && bytes[character - 1] == 0x23 {
        Some(CompletionKind::Tags)
    } else {
        None
    }
}

/// One thing offered for completion.
#[derive(Debug, PartialEq, Eq)]
pub struct Completion {
    pub label: String,
    pub insert_text: Option<String>,
    pub kind: CompletionKind,
}

/// What a `Completion` holds, as mathematical values.
pub struct CompletionView {
    pub label: Seq<char>,
    pub insert_text: Option<Seq<char>>,
    pub kind: CompletionKind,
}

impl View for Completion {
    type V = CompletionView;

    open spec fn view(&self) -> CompletionView {
        CompletionView {
            label: self.label@,
            insert_text: opt_text(self.insert_text),
            kind: self.kind,
        }
    }
}

/// The views of a list of completions, in order.
pub open spec fn completion_views(items: Seq<Completion>) -> Seq<CompletionView> {
    items.map_values(|c: Completion| c@)
}

/// The completion that offers a note by its name: it closes the link.
pub open spec fn name_completion() -> spec_fn(Seq<char>) -> CompletionView {
    |name: Seq<char>|
        CompletionView {
            label: name,
            insert_text: Some(name + seq![']', ']']),
            kind: CompletionKind::Links,
        }
}

/// The completion that offers a note by an alias: it writes the name, the
/// alias behind `|`, and closes the link.
pub open spec fn alias_completion() -> spec_fn((Seq<char>, Seq<char>)) -> CompletionView {
    |pair: (Seq<char>, Seq<char>)|
        CompletionView {
            label: pair.1,
            insert_text: Some(pair.0 + seq!['|'] + pair.1 + seq![']', ']']),
            kind: CompletionKind::Links,
        }
}

/// The completion that offers a tag: the tag behind `#`.
pub open spec fn tag_completion() -> spec_fn(Seq<char>) -> CompletionView {
    |tag: Seq<char>|
        CompletionView { label: seq!['#'] + tag, insert_text: None, kind: CompletionKind::Tags }
}

/// The completions for a link: one for each name, then one for each alias.
pub fn link_completions(names: &Vec<String>, aliases: &Vec<(String, String)>) -> (r: Vec<Completion>)
    ensures
        completion_views(r@) == texts(names@).map_values(name_completion())
            + text_pairs(aliases@).map_values(alias_completion()),
{
    let mut out: Vec<Completion> = Vec::new();
    let mut i: usize = 0;
    while i < names.len()
        invariant
            i <= names.len(),
            out.len() == i,
            forall|k: int|
                0 <= k < i ==> (#[trigger] out@[k])@ == name_completion()(names@[k]@),
        decreases names.len() - i,
    {
        let mut insert = names[i].clone();
        insert.append("]]");
        proof {
            reveal_strlit("]]");
        }
        assert(insert@ =~= names@[i as int]@ + seq![']', ']']);
        out.push(
            Completion { label: names[i].clone(), insert_text: Some(insert), kind: CompletionKind::Links },
        );
        i += 1;
    }
    let mut j: usize = 0;
    while j < aliases.len()
        invariant
            j <= aliases.len(),
            out.len() == names.len() + j,
            forall|k: int|
                0 <= k < names.len() ==> (#[trigger] out@[k])@ == name_completion()(names@[k]@),
            forall|k: int|
                0 <= k < j ==> (#[trigger] out@[names.len() + k])@ == alias_completion()(
                    (aliases@[k].0@, aliases@[k].1@),
                ),
        decreases aliases.len() - j,
    {
        let mut insert = aliases[j].0.clone();
        insert.append("|");
        insert.append(aliases[j].1.as_str());
        insert.append("]]");
        proof {
            reveal_strlit("]]");
            reveal_strlit("|");
        }
        assert(insert@ =~= aliases@[j as int].0@ + seq!['|'] + aliases@[j as int].1@ + seq![
            ']',
            ']',
        ]);
        out.push(
            Completion {
                label: aliases[j].1.clone(),
                insert_text: Some(insert),
                kind: CompletionKind::Links,
            },
        );
        j += 1;
    }
    proof {
        let by_name = texts(names@).map_values(name_completion());
        let by_alias = text_pairs(aliases@).map_values(alias_completion());
        assert forall|k: int| 0 <= k < out.len() implies completion_views(out@)[k] == (by_name
            + by_alias)[k] by {
            if k >= names.len() {
                let m = k - names.len();
                assert(out@[names.len() + m]@ == alias_completion()(
                    (aliases@[m].0@, aliases@[m].1@),
                ));
            }
        }
        assert(completion_views(out@) =~= by_name + by_alias);
    }
    out
}

/// The completions for a tag: one for each tag.
pub fn tag_completions(tags: &Vec<String>) -> (r: Vec<Completion>)
    ensures
        completion_views(r@) == texts(tags@).map_values(tag_completion()),
{
    let mut out: Vec<Completion> = Vec::new();
    let mut i: usize = 0;
    while i < tags.len()
        invariant
            i <= tags.len(),
            out.len() == i,
            forall|k: int| 0 <= k < i ==> (#[trigger] out@[k])@ == tag_completion()(tags@[k]@),
        decreases tags.len() - i,
    {
        let mut label = String::from_str("#");
        label.append(tags[i].as_str());
        proof {
            reveal_strlit("#");
        }
        assert(label@ =~= seq!['#'] + tags@[i as int]@);
        out.push(Completion { label, insert_text: None, kind: CompletionKind::Tags });
        i += 1;
    }
    assert(completion_views(out@) =~= texts(tags@).map_values(tag_completion()));
    out
}

/// The name that a request for references or for a rename is about: the
/// target of the link under the cursor, or, where there is none, the name
/// of the note that the text belongs to.
pub fn reference_target(character: usize, line: &str, current: Option<String>) -> (r: Option<String>)
    ensures
        match link_at(line@, character as int) {
            Some(link) => r is Some && r->Some_0@ == link.value,
            None => r == current,
        },
{
    match link_under_cursor(character, line) {
        Some(link) => Some(link.value),
        None => current,
    }
}

/// The views of a list of arguments, each a string or something else.
pub open spec fn argument_views(args: Seq<Option<String>>) -> Seq<Option<Seq<char>>> {
    args.map_values(|a: Option<String>| opt_text(a))
}

/// The test whether an argument is a string.
pub open spec fn is_string() -> spec_fn(Option<Seq<char>>) -> bool {
    |a: Option<Seq<char>>| a is Some
}

/// The function that gives the text of an argument that is a string.
pub open spec fn string_of_argument() -> spec_fn(Option<Seq<char>>) -> Seq<char> {
    |a: Option<Seq<char>>| a->Some_0
}

/// The strings among the arguments from position `from` on.
pub open spec fn strings_from(args: Seq<Option<Seq<char>>>, from: int) -> Seq<Seq<char>> {
    args.skip(from).filter(is_string()).map_values(string_of_argument())
}

/// What a command of the editor asks for, given its arguments, each a
/// string or something else: `sov.index`, `sov.daily` and `sov.list.tags`
/// take none; `sov.script.run` takes the script's name and then the
/// script's arguments; `sov.script.create` takes the note's name, the
/// script's name and then the script's arguments. A name has to be a
/// string; among the script's arguments, those that are no strings are
/// dropped. Any other command asks for nothing.
pub open spec fn command_of(command: Seq<char>, args: Seq<Option<Seq<char>>>) -> Option<
    FeatureView,
> {
    if command == "sov.index"@ {
        Some(FeatureView::Index)
    } else if command == "sov.daily"@ {
        Some(FeatureView::Daily)
    } else if command == "sov.list.tags"@ {
        Some(FeatureView::ListTags)
    } else if command == "sov.script.run"@ {
        if args.len() >= 1 && args[0] is Some {
            Some(
                FeatureView::ScriptRun {
                    script_name: args[0]->Some_0,
                    args: strings_from(args, 1),
                },
            )
        } else {
            None
        }
    } else if command == "sov.script.create"@ {
        if args.len() >= 2 && args[0] is Some && args[1] is Some {
            Some(
                FeatureView::ScriptCreate {
                    note_name: args[0]->Some_0,
                    script_name: args[1]->Some_0,
                    args: strings_from(args, 2),
                },
            )
        } else {
            None
        }
    } else {
        None
    }
}

/// The strings among `args[from..]`.
fn collect_strings(args: &Vec<Option<String>>, from: usize) -> (r: Vec<String>)
    requires
        from <= args.len(),
    ensures
        texts(r@) == strings_from(argument_views(args@), from as int),
{
    let ghost rest = argument_views(args@).skip(from as int);
    let mut out: Vec<String> = Vec::new();
    let mut i: usize = from;
    proof {
        assert(rest.take(0) =~= Seq::empty());
        reveal(Seq::filter);
        assert(texts(out@) =~= rest.take(0).filter(is_string()).map_values(string_of_argument()));
    }
    while i < args.len()
        invariant
            from <= i <= args.len(),
            rest == argument_views(args@).skip(from as int),
            texts(out@) == rest.take(i - from).filter(is_string()).map_values(string_of_argument()),
        decreases args.len() - i,
    {
        let ghost before = texts(out@);
        let ghost kept = rest.take(i - from).filter(is_string());
        proof {
            assert(rest[i - from] == opt_text(args@[i as int]));
            assert(rest.take(i - from + 1) =~= rest.take(i - from).push(rest[i - from]));
            rest.take(i - from).lemma_filter_push(rest[i - from], is_string());
        }
        match &args[i] {
            Some(s) => {
                out.push(s.clone());
                proof {
                    assert(texts(out@) =~= before.push(s@));
                    assert(kept.push(rest[i - from]).map_values(string_of_argument())
                        =~= kept.map_values(string_of_argument()).push(s@));
                }
            },
            None => {},
        }
        i += 1;
    }
    assert(rest.take(args.len() - from) =~= rest);
    out
}

/// What a command of the editor asks for.
pub fn command_feature(command: &str, args: &Vec<Option<String>>) -> (r: Option<SovFeature>)
    ensures
        match r {
            Some(feature) => command_of(command@, argument_views(args@)) == Some(feature@),
            None => command_of(command@, argument_views(args@)) is None,
        },
{
    let ghost views = argument_views(args@);
    if same_text(command, "sov.index") {
        Some(SovFeature::Index)
    } else if same_text(command, "sov.daily") {
        Some(SovFeature::Daily)
    } else if same_text(command, "sov.list.tags") {
        Some(SovFeature::ListTags)
    } else if same_text(command, "sov.script.run") {
        if args.len() < 1 {
            return None;
        }
        assert(views[0] == opt_text(args@[0]));
        match &args[0] {
            Some(name) => Some(
                SovFeature::ScriptRun { script_name: name.clone(), args: collect_strings(args, 1) },
            ),
            None => None,
        }
    } else if same_text(command, "sov.script.create") {
        if args.len() < 2 {
            return None;
        }
        assert(views[0] == opt_text(args@[0]));
        assert(views[1] == opt_text(args@[1]));
        match (&args[0], &args[1]) {
            (Some(note), Some(script)) => Some(
                SovFeature::ScriptCreate {
                    note_name: note.clone(),
                    script_name: script.clone(),
                    args: collect_strings(args, 2),
                },
            ),
            _ => None,
        }
    } else {
        None
    }
}

} // verus!
