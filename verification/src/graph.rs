//! The link graph as a mathematical value: what the store holds, how an
//! index pass changes it, and what each query answers.

use vstd::prelude::*;
use crate::note::{LinkView, NoteView};
use crate::path::PathView;
use crate::text::position;

verus! {

/// One stored note with what it owns.
pub struct RowView {
    pub filename: Seq<char>,
    pub path: Seq<char>,
    pub aliases: Seq<Seq<char>>,
    pub tags: Seq<Seq<char>>,
    pub links: Seq<LinkView>,
}

/// The contents of the store: the notes in the order in which they were
/// first stored, and the known tags in the order in which they were first
/// named.
pub struct DbView {
    pub notes: Seq<RowView>,
    pub tags: Seq<Seq<char>>,
}

/// The tags `known`, followed by those of `named` that were not known, each
/// once and in the order of `named`.
pub open spec fn with_tags(known: Seq<Seq<char>>, named: Seq<Seq<char>>) -> Seq<Seq<char>>
    decreases named.len(),
{
    if named.len() == 0 {
        known
    } else {
        let before = with_tags(known, named.drop_last());
        if before.contains(named.last()) {
            before
        } else {
            before.push(named.last())
        }
    }
}

/// The row that stores `note` under `filename`.
pub open spec fn row_of(note: NoteView, filename: Seq<char>) -> RowView {
    RowView {
        filename,
        path: note.path->Text_0,
        aliases: match note.yaml.aliases {
            Some(list) => list,
            None => Seq::empty(),
        },
        tags: note.yaml.tags,
        links: note.links,
    }
}

/// The position of the first note at or after `from` whose path is not
/// text, or `notes.len()` when every path is text.
pub open spec fn first_opaque(notes: Seq<NoteView>, from: int) -> int
    decreases notes.len() - from,
{
    if from < 0 || from >= notes.len() {
        notes.len() as int
    } else if notes[from].path is Opaque {
        from
    } else {
        first_opaque(notes, from + 1)
    }
}

/// The function that gives a row's path.
pub open spec fn row_path() -> spec_fn(RowView) -> Seq<char> {
    |r: RowView| r.path
}

/// The function that gives a row's filename.
pub open spec fn row_filename() -> spec_fn(RowView) -> Seq<char> {
    |r: RowView| r.filename
}

/// The function that gives a link's target.
pub open spec fn link_value() -> spec_fn(LinkView) -> Seq<char> {
    |l: LinkView| l.value
}

/// The test whether a row carries `tag`.
pub open spec fn has_tag(tag: Seq<char>) -> spec_fn(RowView) -> bool {
    |r: RowView| r.tags.contains(tag)
}

/// The test whether a link points at `target`.
pub open spec fn points_at(target: Seq<char>) -> spec_fn(LinkView) -> bool {
    |l: LinkView| l.value == target
}

/// The function that pairs a link's target with the path of its note.
pub open spec fn target_from(path: Seq<char>) -> spec_fn(LinkView) -> (Seq<char>, Seq<char>) {
    |l: LinkView| (path, l.value)
}

/// The function that pairs a link with the path of its note.
pub open spec fn link_from(path: Seq<char>) -> spec_fn(LinkView) -> (Seq<char>, LinkView) {
    |l: LinkView| (path, l)
}

/// The function that pairs an alias with the name of its note.
pub open spec fn alias_of(filename: Seq<char>) -> spec_fn(Seq<char>) -> (Seq<char>, Seq<char>) {
    |a: Seq<char>| (filename, a)
}

/// The test whether a path is among `observed`.
pub open spec fn seen_in(observed: Seq<PathView>) -> spec_fn(RowView) -> bool {
    |r: RowView| observed.contains(PathView::Text(r.path))
}

impl DbView {
    /// The store without notes and tags.
    pub open spec fn empty() -> DbView {
        DbView { notes: Seq::empty(), tags: Seq::empty() }
    }

    /// The paths of the notes, in store order.
    pub open spec fn paths(self) -> Seq<Seq<char>> {
        self.notes.map_values(row_path())
    }

    /// The filenames of the notes, in store order.
    pub open spec fn filenames(self) -> Seq<Seq<char>> {
        self.notes.map_values(row_filename())
    }

    /// Whether some note carries `tag`.
    pub open spec fn carries(self, tag: Seq<char>) -> bool {
        exists|i: int| 0 <= i < self.notes.len() && (#[trigger] self.notes[i]).tags.contains(tag)
    }

    /// Whether a note is named `name`.
    pub open spec fn is_note(self, name: Seq<char>) -> bool {
        self.filenames().contains(name)
    }

    /// Whether some link of some note points at `name`.
    pub open spec fn is_target(self, name: Seq<char>) -> bool {
        exists|i: int, j: int|
            0 <= i < self.notes.len() && 0 <= j < self.notes[i].links.len()
                && (#[trigger] self.notes[i].links[j]).value == name
    }

    /// The store's invariant: no two notes share a path, no tag is known
    /// twice, and every tag that a note carries is known.
    pub open spec fn wf(self) -> bool {
        &&& self.paths().no_duplicates()
        &&& self.tags.no_duplicates()
        &&& forall|i: int, j: int|
            0 <= i < self.notes.len() && 0 <= j < self.notes[i].tags.len()
                ==> self.tags.contains(#[trigger] self.notes[i].tags[j])
    }

    /// The store after one note is stored: its row replaces the one with its
    /// path, which keeps its filename, or comes last; its tags become known.
    pub open spec fn upsert_one(self, note: NoteView) -> DbView
        recommends
            note.path is Text,
    {
        let at = position(self.paths(), note.path->Text_0, 0);
        let tags = with_tags(self.tags, note.yaml.tags);
        if at < self.notes.len() {
            DbView { notes: self.notes.update(at, row_of(note, self.notes[at].filename)), tags }
        } else {
            DbView { notes: self.notes.push(row_of(note, note.filename)), tags }
        }
    }

    /// The store after a batch of notes is stored, one after the other.
    pub open spec fn upsert_all(self, notes: Seq<NoteView>) -> DbView
        decreases notes.len(),
    {
        if notes.len() == 0 {
            self
        } else {
            self.upsert_all(notes.drop_last()).upsert_one(notes.last())
        }
    }

    /// The store without the note at `path`.
    pub open spec fn remove_path(self, path: Seq<char>) -> DbView {
        let at = position(self.paths(), path, 0);
        if at < self.notes.len() {
            DbView { notes: self.notes.remove(at), tags: self.tags }
        } else {
            self
        }
    }

    /// The store with only the notes whose paths are among `observed`.
    pub open spec fn keep_seen(self, observed: Seq<PathView>) -> DbView {
        DbView { notes: self.notes.filter(seen_in(observed)), tags: self.tags }
    }

    /// The test whether a tag is carried by some note of this store.
    pub open spec fn in_use(self) -> spec_fn(Seq<char>) -> bool {
        |t: Seq<char>| self.carries(t)
    }

    /// The store without the tags that no note carries.
    pub open spec fn collect_tags(self) -> DbView {
        DbView { notes: self.notes, tags: self.tags.filter(self.in_use()) }
    }

    /// The path of the first note named `name`.
    pub open spec fn path_of(self, name: Seq<char>) -> Option<Seq<char>> {
        let at = position(self.filenames(), name, 0);
        if at < self.notes.len() {
            Some(self.notes[at].path)
        } else {
            None
        }
    }

    /// Each alias with the name of its note: note by note, alias by alias.
    pub open spec fn aliases(self) -> Seq<(Seq<char>, Seq<char>)> {
        self.notes.flat_map(aliases_of_row())
    }

    /// The test whether no link points at a row's note.
    pub open spec fn unlinked(self) -> spec_fn(RowView) -> bool {
        |r: RowView| !self.is_target(r.filename)
    }

    /// The paths of the notes that no link points at.
    pub open spec fn orphans(self) -> Seq<Seq<char>> {
        self.notes.filter(self.unlinked()).map_values(row_path())
    }

    /// The test whether a link points at no note.
    pub open spec fn dangling(self) -> spec_fn(LinkView) -> bool {
        |l: LinkView| !self.is_note(l.value)
    }

    /// The function that gives the dead links of a row, each as the row's
    /// path and the missing target.
    pub open spec fn dead_of_row(self) -> spec_fn(RowView) -> Seq<(Seq<char>, Seq<char>)> {
        |r: RowView| r.links.filter(self.dangling()).map_values(target_from(r.path))
    }

    /// Every dead link, as the path of its note and the missing target: note
    /// by note, link by link.
    pub open spec fn dead_links(self) -> Seq<(Seq<char>, Seq<char>)> {
        self.notes.flat_map(self.dead_of_row())
    }

    /// The links of the first note named `name`; none when no note is.
    pub open spec fn links_of(self, name: Seq<char>) -> Seq<LinkView> {
        let at = position(self.filenames(), name, 0);
        if at < self.notes.len() {
            self.notes[at].links
        } else {
            Seq::empty()
        }
    }

    /// The dead links among the links of the first note named `name`.
    pub open spec fn dead_links_of(self, name: Seq<char>) -> Seq<LinkView> {
        self.links_of(name).filter(self.dangling())
    }

    /// The links that point at `target`, each with the path of its note:
    /// note by note, link by link.
    pub open spec fn backlinks(self, target: Seq<char>) -> Seq<(Seq<char>, LinkView)> {
        self.notes.flat_map(backlinks_of_row(target))
    }

    /// The paths of the notes that carry `tag`.
    pub open spec fn tagged(self, tag: Seq<char>) -> Seq<Seq<char>> {
        self.notes.filter(has_tag(tag)).map_values(row_path())
    }

    /// The store after an index pass that observed the paths `observed` and
    /// parsed the notes `batch`: the batch is stored, the notes that were
    /// not observed leave, and so do the tags that no note carries any more.
    pub open spec fn index_pass(self, observed: Seq<PathView>, batch: Seq<NoteView>) -> DbView {
        self.upsert_all(batch).keep_seen(observed).collect_tags()
    }
}

/// Whether the store holds `note` just as it would store it now.
pub open spec fn holds(db: DbView, note: NoteView) -> bool {
    note.path is Text && exists|i: int|
        0 <= i < db.notes.len() && #[trigger] db.notes[i] == row_of(note, db.notes[i].filename)
}

/// Whether no two notes of a batch share a path.
pub open spec fn distinct_paths(batch: Seq<NoteView>) -> bool {
    forall|a: int, b: int|
        0 <= a < batch.len() && 0 <= b < batch.len() && a != b ==> (#[trigger] batch[a]).path
            != (#[trigger] batch[b]).path
}

/// The function that gives the aliases of a row, each with the row's
/// filename.
pub open spec fn aliases_of_row() -> spec_fn(RowView) -> Seq<(Seq<char>, Seq<char>)> {
    |r: RowView| r.aliases.map_values(alias_of(r.filename))
}

/// The function that gives the links of a row that point at `target`, each
/// with the row's path.
pub open spec fn backlinks_of_row(target: Seq<char>) -> spec_fn(RowView) -> Seq<
    (Seq<char>, LinkView),
> {
    |r: RowView| r.links.filter(points_at(target)).map_values(link_from(r.path))
}

} // verus!
