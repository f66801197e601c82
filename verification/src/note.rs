//! Notes, the links found in them, and the parser that finds them.

use vstd::prelude::*;
use vstd::string::StringExecFns;
use crate::error::{ErrorView, SovError};
use crate::path::{NotePath, PathView};
use crate::text::{find_char, first_at, opt_text, string_of, texts, to_chars};
use crate::yaml::{
    field, load_yaml, lookup, read_string_list, string_list, yaml_document, YamlNode, YamlTree,
};

verus! {

/// One `[[...]]` occurrence in a note.
///
/// `start` is the position of the opening `[` and `end` the position of the
/// last `]`, both counted in characters from the start of the text.
#[derive(Debug, PartialEq, Eq)]
pub struct Link {
    pub value: String,
    pub alias: Option<String>,
    pub header: Option<String>,
    pub start: usize,
    pub end: usize,
}

/// What a `Link` holds, as mathematical values.
pub struct LinkView {
    pub value: Seq<char>,
    pub alias: Option<Seq<char>>,
    pub header: Option<Seq<char>>,
    pub start: nat,
    pub end: nat,
}

impl View for Link {
    type V = LinkView;

    open spec fn view(&self) -> LinkView {
        LinkView {
            value: self.value@,
            alias: opt_text(self.alias),
            header: opt_text(self.header),
            start: self.start as nat,
            end: self.end as nat,
        }
    }
}

/// The views of a list of links, in order.
pub open spec fn link_views(links: Seq<Link>) -> Seq<LinkView> {
    links.map_values(|l: Link| l@)
}

/// Where the text captured from `from` on stops: at the first `]` or line
/// break at or after `from`, or at the end of the text.
pub open spec fn capture_end(s: Seq<char>, from: int) -> int
    decreases s.len() - from,
{
    if from < 0 || from >= s.len() {
        s.len() as int
    } else if s[from] == ']' || s[from] == '\n' {
        from
    } else {
        capture_end(s, from + 1)
    }
}

/// `capture_end` stops on a `]` or a line break, or at the end, and passes
/// neither on its way.
pub proof fn lemma_capture_end(s: Seq<char>, from: int)
    requires
        0 <= from <= s.len(),
    ensures
        from <= capture_end(s, from) <= s.len(),
        capture_end(s, from) < s.len() ==> s[capture_end(s, from)] == ']' || s[capture_end(
            s,
            from,
        )] == '\n',
        forall|k: int| from <= k < capture_end(s, from) ==> s[k] != ']' && s[k] != '\n',
    decreases s.len() - from,
{
    if from < s.len() && s[from] != ']' && s[from] != '\n' {
        lemma_capture_end(s, from + 1);
    }
}

/// The link written by `body` between `[[` and `]]`: what follows the first
/// `|` is the alias; in what stands before it, what follows the first `#` is
/// the header and the rest is the target.
pub open spec fn link_of(body: Seq<char>, start: int, end: int) -> LinkView {
    let bar = first_at(body, '|', 0);
    let reference = body.take(bar);
    let hash = first_at(reference, '#', 0);
    LinkView {
        value: reference.take(hash),
        alias: if bar < body.len() {
            Some(body.skip(bar + 1))
        } else {
            None
        },
        header: if hash < reference.len() {
            Some(reference.skip(hash + 1))
        } else {
            None
        },
        start: start as nat,
        end: end as nat,
    }
}

/// Whether the character at `i` is escaped: it follows a backslash that is
/// not escaped itself.
pub open spec fn escaped_at(s: Seq<char>, i: int) -> bool
    decreases i,
{
    if i <= 0 || i > s.len() {
        false
    } else {
        s[i - 1] == '\\' && !escaped_at(s, i - 1)
    }
}

/// The links found in `s` from position `i` on.
///
/// A `[` that is not escaped and is followed by a second `[` opens a
/// candidate, whose body runs up to the next `]` or line break; the
/// candidate is a link when that character and the one after it are both
/// `]`. Behind a candidate, link or not, the scan goes on two characters
/// after the body's end.
pub open spec fn scan(s: Seq<char>, i: int) -> Seq<LinkView>
    decreases s.len() + 2 - i,
    via scan_decreases
{
    if i < 0 || i >= s.len() {
        Seq::empty()
    } else if s[i] != '[' || escaped_at(s, i) || i + 1 >= s.len() || s[i + 1] != '[' {
        scan(s, i + 1)
    } else {
        let close = capture_end(s, i + 2);
        if close + 1 < s.len() && s[close] == ']' && s[close + 1] == ']' {
            seq![link_of(s.subrange(i + 2, close), i, close + 1)] + scan(s, close + 2)
        } else {
            scan(s, close + 2)
        }
    }
}

#[via_fn]
proof fn scan_decreases(s: Seq<char>, i: int) {
    if 0 <= i && i + 1 < s.len() {
        lemma_capture_end(s, i + 2);
    }
}

/// From the end of the text on there is nothing to find.
pub proof fn lemma_scan_past_end(s: Seq<char>, i: int)
    ensures
        i >= s.len() ==> scan(s, i) == Seq::<LinkView>::empty() && scan(s, i) == scan(
            s,
            s.len() as int,
        ),
{
}

/// The links of a whole text.
pub open spec fn links_in(s: Seq<char>) -> Seq<LinkView> {
    scan(s, 0)
}

/// The link whose body is `cs[from..to]`.
fn make_link(cs: &Vec<char>, from: usize, to: usize, start: usize, end: usize) -> (link: Link)
    requires
        from <= to <= cs.len(),
    ensures
        link@ == link_of(cs@.subrange(from as int, to as int), start as int, end as int),
{
    let ghost body = cs@.subrange(from as int, to as int);
    let bar = find_char(cs, '|', from, to);
    let ghost reference = body.take(bar as int);
    assert(reference =~= cs@.subrange(from as int, from + bar));
    let hash = find_char(cs, '#', from, from + bar);
    let value = string_of(cs, from, from + hash);
    assert(value@ =~= reference.take(hash as int));
    let alias = if bar < to - from {
        let a = string_of(cs, from + bar + 1, to);
        assert(a@ =~= body.skip(bar + 1));
        Some(a)
    } else {
        None
    };
    let header = if hash < bar {
        let h = string_of(cs, from + hash + 1, from + bar);
        assert(h@ =~= reference.skip(hash + 1));
        Some(h)
    } else {
        None
    };
    Link { value, alias, header, start, end }
}

/// The position of the first `]` or line break in `cs` at or after `from`,
/// or the length of `cs`.
fn find_capture_end(cs: &Vec<char>, from: usize) -> (at: usize)
    requires
        from <= cs.len(),
    ensures
        at == capture_end(cs@, from as int),
        from <= at <= cs.len(),
{
    let mut i: usize = from;
    while i < cs.len()
        invariant
            from <= i <= cs.len(),
            capture_end(cs@, from as int) == capture_end(cs@, i as int),
        decreases cs.len() - i,
    {
        if cs[i] == ']' || cs[i] == '\n' {
            return i;
        }
        i += 1;
    }
    i
}

/// The text that writes a link: `[[`, the target, `#` and the header if
/// there is one, `|` and the alias if there is one, `]]`.
pub open spec fn render(link: LinkView) -> Seq<char> {
    seq!['[', '['] + link.value + (match link.header {
        Some(h) => seq!['#'] + h,
        None => Seq::empty(),
    }) + (match link.alias {
        Some(a) => seq!['|'] + a,
        None => Seq::empty(),
    }) + seq![']', ']']
}

impl Link {
    /// A copy of the link.
    pub fn duplicate(&self) -> (copy: Link)
        ensures
            copy@ == self@,
    {
        Link {
            value: self.value.clone(),
            alias: match &self.alias {
                Some(a) => Some(a.clone()),
                None => None,
            },
            header: match &self.header {
                Some(h) => Some(h.clone()),
                None => None,
            },
            start: self.start,
            end: self.end,
        }
    }

    /// The link as it is written in a note.
    pub fn to_string(&self) -> (text: String)
        ensures
            text@ == render(self@),
    {
        proof {
            reveal_strlit("[[");
            reveal_strlit("#");
            reveal_strlit("|");
            reveal_strlit("]]");
        }
        let mut s = String::from_str("[[");
        assert(s@ =~= seq!['[', '[']);
        s.append(self.value.as_str());
        match &self.header {
            Some(header) => {
                s.append("#");
                s.append(header.as_str());
                assert(s@ =~= seq!['[', '['] + self.value@ + (seq!['#'] + header@));
            },
            None => {
                assert(s@ =~= seq!['[', '['] + self.value@ + Seq::<char>::empty());
            },
        }
        let ghost before = s@;
        match &self.alias {
            Some(alias) => {
                s.append("|");
                s.append(alias.as_str());
                assert(s@ =~= before + (seq!['|'] + alias@));
            },
            None => {
                assert(s@ =~= before + Seq::<char>::empty());
            },
        }
        s.append("]]");
        assert("]]"@ =~= seq![']', ']']);
        s
    }
}

/// The fields that a note's front matter declares.
#[derive(Debug, PartialEq, Eq)]
pub struct YamlMetadata {
    pub aliases: Option<Vec<String>>,
    pub tags: Vec<String>,
}

/// What a `YamlMetadata` holds, as mathematical values.
pub struct MetadataView {
    pub aliases: Option<Seq<Seq<char>>>,
    pub tags: Seq<Seq<char>>,
}

impl View for YamlMetadata {
    type V = MetadataView;

    open spec fn view(&self) -> MetadataView {
        MetadataView {
            aliases: match self.aliases {
                Some(list) => Some(texts(list@)),
                None => None,
            },
            tags: texts(self.tags@),
        }
    }
}

/// The metadata of a note without front matter.
pub open spec fn no_metadata() -> MetadataView {
    MetadataView { aliases: None, tags: Seq::empty() }
}

/// Why a YAML document is not a note's front matter.
pub enum MetadataFault {
    NotAMapping,
    Aliases,
    Tags,
}

/// The message of the error that a fault is reported with.
pub open spec fn fault_message(fault: MetadataFault) -> Seq<char> {
    match fault {
        MetadataFault::NotAMapping => "front matter is not a mapping"@,
        MetadataFault::Aliases => "`aliases` is not a list of strings"@,
        MetadataFault::Tags => "`tags` is not a list of strings"@,
    }
}

/// The metadata that a YAML document declares. The document is a mapping;
/// its `aliases` and `tags`, where present and not null, are sequences of
/// strings; its other keys are not looked at. Missing tags are no tags.
pub open spec fn metadata_of(document: YamlTree) -> Result<MetadataView, MetadataFault> {
    match document {
        YamlTree::Mapping(entries) => match string_list(field(entries, "aliases"@)) {
            Err(_) => Err(MetadataFault::Aliases),
            Ok(aliases) => match string_list(field(entries, "tags"@)) {
                Err(_) => Err(MetadataFault::Tags),
                Ok(tags) => Ok(
                    MetadataView {
                        aliases,
                        tags: match tags {
                            Some(list) => list,
                            None => Seq::empty(),
                        },
                    },
                ),
            },
        },
        _ => Err(MetadataFault::NotAMapping),
    }
}

/// Whether `---` stands at position `i` of `s`.
pub open spec fn delimiter_at(s: Seq<char>, i: int) -> bool {
    0 <= i && i + 3 <= s.len() && s[i] == '-' && s[i + 1] == '-' && s[i + 2] == '-'
}

/// The position of the first `---` at or after `from`, or `s.len()` when
/// there is none.
pub open spec fn next_delimiter(s: Seq<char>, from: int) -> int
    decreases s.len() - from,
{
    if from < 0 || from >= s.len() {
        s.len() as int
    } else if delimiter_at(s, from) {
        from
    } else {
        next_delimiter(s, from + 1)
    }
}

/// The front matter block of a text: what stands between its first `---` and
/// the next `---` after that one. A text with fewer than two has none.
pub open spec fn front_matter(s: Seq<char>) -> Option<Seq<char>> {
    let open = next_delimiter(s, 0);
    let close = next_delimiter(s, open + 3);
    if open < s.len() && close < s.len() {
        Some(s.subrange(open + 3, close))
    } else {
        None
    }
}

/// The position of the first `---` in `cs` at or after `from`, or the length
/// of `cs`.
fn find_delimiter(cs: &Vec<char>, from: usize) -> (at: usize)
    requires
        from <= cs.len(),
    ensures
        at == next_delimiter(cs@, from as int),
        from <= at <= cs.len(),
        at < cs.len() ==> at + 3 <= cs.len(),
{
    let mut i: usize = from;
    while i < cs.len()
        invariant
            from <= i <= cs.len(),
            next_delimiter(cs@, from as int) == next_delimiter(cs@, i as int),
        decreases cs.len() - i,
    {
        if cs.len() - i >= 3 && cs[i] == '-' && cs[i + 1] == '-' && cs[i + 2] == '-' {
            return i;
        }
        i += 1;
    }
    i
}

/// The front matter block of a text, if it has one.
pub fn front_matter_block(s: &str) -> (block: Option<String>)
    ensures
        match block {
            Some(b) => front_matter(s@) == Some(b@),
            None => front_matter(s@) is None,
        },
{
    let cs = to_chars(s);
    let open = find_delimiter(&cs, 0);
    if open >= cs.len() {
        return None;
    }
    let close = find_delimiter(&cs, open + 3);
    if close >= cs.len() {
        return None;
    }
    Some(string_of(&cs, open + 3, close))
}

impl YamlMetadata {
    /// The metadata of a note without front matter.
    pub fn empty() -> (m: YamlMetadata)
        ensures
            m@ == no_metadata(),
    {
        let m = YamlMetadata { aliases: None, tags: Vec::new() };
        assert(m@.tags =~= Seq::empty());
        m
    }

    /// Reads the metadata that a YAML document declares.
    pub fn from_node(node: &YamlNode) -> (r: Result<YamlMetadata, SovError>)
        ensures
            match metadata_of(node@) {
                Ok(m) => r is Ok && r->Ok_0@ == m,
                Err(fault) => r is Err && r->Err_0@ == ErrorView::Yaml(fault_message(fault)),
            },
    {
        match node {
            YamlNode::Mapping(entries) => {
                let aliases = match read_string_list(lookup(entries, "aliases")) {
                    Ok(list) => list,
                    Err(_) => {
                        return Err(
                            SovError::Yaml(String::from_str("`aliases` is not a list of strings")),
                        );
                    },
                };
                let tags = match read_string_list(lookup(entries, "tags")) {
                    Ok(Some(list)) => list,
                    Ok(None) => Vec::new(),
                    Err(_) => {
                        return Err(
                            SovError::Yaml(String::from_str("`tags` is not a list of strings")),
                        );
                    },
                };
                let m = YamlMetadata { aliases, tags };
                assert(m@.tags =~= metadata_of(node@)->Ok_0.tags);
                Ok(m)
            },
            _ => Err(SovError::Yaml(String::from_str("front matter is not a mapping"))),
        }
    }
}

/// A note: one file of the tree, with what its text declares.
#[derive(Debug, PartialEq, Eq)]
pub struct SovNote {
    pub filename: String,
    pub path: NotePath,
    pub yaml: YamlMetadata,
    pub links: Vec<Link>,
}

/// What a `SovNote` holds, as mathematical values.
pub struct NoteView {
    pub filename: Seq<char>,
    pub path: PathView,
    pub yaml: MetadataView,
    pub links: Seq<LinkView>,
}

impl View for SovNote {
    type V = NoteView;

    open spec fn view(&self) -> NoteView {
        NoteView {
            filename: self.filename@,
            path: self.path@,
            yaml: self.yaml@,
            links: link_views(self.links@),
        }
    }
}

/// What the front matter of a text declares: nothing when the text has no
/// front matter block, else what the block's YAML document declares, or the
/// message of the error that the block is refused with.
pub open spec fn metadata_in(s: Seq<char>) -> Result<MetadataView, Seq<char>> {
    match front_matter(s) {
        None => Ok(no_metadata()),
        Some(block) => match yaml_document(block) {
            Err(message) => Err(message),
            Ok(node) => match metadata_of(node) {
                Ok(m) => Ok(m),
                Err(fault) => Err(fault_message(fault)),
            },
        },
    }
}

impl SovNote {
    /// The note at `path`, named `filename`, whose text is `content`.
    pub fn new(path: NotePath, filename: String, content: &str) -> (r: Result<SovNote, SovError>)
        ensures
            match metadata_in(content@) {
                Ok(m) => r is Ok && r->Ok_0@ == (NoteView {
                    filename: filename@,
                    path: path@,
                    yaml: m,
                    links: links_in(content@),
                }),
                Err(message) => r is Err && r->Err_0@ == ErrorView::Yaml(message),
            },
    {
        let yaml = match SovNote::parse_yaml(content) {
            Ok(yaml) => yaml,
            Err(e) => {
                return Err(e);
            },
        };
        let links = match SovNote::parse_links(content) {
            Ok(links) => links,
            Err(e) => {
                return Err(e);
            },
        };
        Ok(SovNote { filename, path, yaml, links })
    }

    /// Reads the front matter of a text. A text without a front matter block
    /// declares nothing, and that is no error.
    pub fn parse_yaml(s: &str) -> (r: Result<YamlMetadata, SovError>)
        ensures
            front_matter(s@) is None ==> r is Ok && r->Ok_0@ == no_metadata(),
            match metadata_in(s@) {
                Ok(m) => r is Ok && r->Ok_0@ == m,
                Err(message) => r is Err && r->Err_0@ == ErrorView::Yaml(message),
            },
    {
        match front_matter_block(s) {
            None => Ok(YamlMetadata::empty()),
            Some(block) => match load_yaml(block.as_str()) {
                Err(message) => Err(SovError::Yaml(message)),
                Ok(node) => YamlMetadata::from_node(&node),
            },
        }
    }

    /// Finds the links of a text. Never fails: a `[[` that is not closed by
    /// `]]` on its line is passed over.
    pub fn parse_links(s: &str) -> (r: Result<Vec<Link>, SovError>)
        ensures
            r is Ok,
            link_views(r->Ok_0@) == links_in(s@),
    {
        let cs = to_chars(s);
        let n = cs.len();
        let mut links: Vec<Link> = Vec::new();
        let mut i: usize = 0;
        let mut escaped = false;
        assert(link_views(links@) =~= Seq::empty());
        while i < n
            invariant
                cs@ == s@,
                n == cs.len(),
                i <= n,
                i < n ==> escaped == escaped_at(s@, i as int),
                links_in(s@) == link_views(links@) + scan(s@, i as int),
            decreases n - i,
        {
            let c = cs[i];
            if c != '[' || escaped || n - i < 2 || cs[i + 1] != '[' {
                escaped = c == '\\' && !escaped;
                i += 1;
            } else {
                let close = find_capture_end(&cs, i + 2);
                if n - close >= 2 && cs[close] == ']' && cs[close + 1] == ']' {
                    let link = make_link(&cs, i + 2, close, i, close + 1);
                    let ghost before = link_views(links@);
                    links.push(link);
                    assert(link_views(links@) =~= before.push(link@));
                    assert(before.push(link@) + scan(s@, close + 2) =~= before + (seq![link@]
                        + scan(s@, close + 2)));
                }
                proof {
                    lemma_scan_past_end(s@, close + 2);
                    lemma_capture_end(s@, i + 2);
                    if close + 2 <= n {
                        assert(!escaped_at(s@, close + 1)) by {
                            assert(s@[close as int] != '\\');
                        }
                    }
                }
                if n - close < 2 {
                    i = n;
                    escaped = false;
                } else {
                    escaped = cs[close + 1] == '\\';
                    i = close + 2;
                }
            }
        }
        proof {
            lemma_scan_past_end(s@, n as int);
        }
        assert(links_in(s@) =~= link_views(links@));
        Ok(links)
    }
}

} // verus!
