//! The graph store: the notes with their aliases, tags and links, and the
//! known tags.

use vstd::prelude::*;
use crate::error::{ErrorView, SovError};
use crate::graph::{
    alias_of, aliases_of_row, backlinks_of_row, first_opaque, has_tag, link_from, points_at,
    row_of, row_path, target_from, with_tags, DbView, RowView,
};
use crate::note::{link_views, Link, LinkView, NoteView, SovNote};
use crate::path::{NotePath, PathView};
use crate::graph_lemmas::{
    lemma_all_text, lemma_collect_tags_wf, lemma_remove_path_wf, lemma_upsert_one_wf,
};
use crate::text::{
    clone_texts, find_text, lemma_position_contains, position, same_text, text_pairs, texts,
};

verus! {

/// One stored note with what it owns.
#[derive(Debug, PartialEq, Eq)]
pub struct NoteRow {
    pub filename: String,
    pub path: String,
    pub aliases: Vec<String>,
    pub tags: Vec<String>,
    pub links: Vec<Link>,
}

impl View for NoteRow {
    type V = RowView;

    open spec fn view(&self) -> RowView {
        RowView {
            filename: self.filename@,
            path: self.path@,
            aliases: texts(self.aliases@),
            tags: texts(self.tags@),
            links: link_views(self.links@),
        }
    }
}

/// The views of a list of rows, in order.
pub open spec fn row_views(rows: Seq<NoteRow>) -> Seq<RowView> {
    rows.map_values(|r: NoteRow| r@)
}

/// The views of a list of notes, in order.
pub open spec fn note_views(notes: Seq<SovNote>) -> Seq<NoteView> {
    notes.map_values(|n: SovNote| n@)
}

/// The store.
#[derive(Debug, PartialEq, Eq)]
pub struct SovDb {
    notes: Vec<NoteRow>,
    tags: Vec<String>,
}

impl View for SovDb {
    type V = DbView;

    closed spec fn view(&self) -> DbView {
        DbView { notes: row_views(self.notes@), tags: texts(self.tags@) }
    }
}

/// A copy of a list of links.
pub fn clone_links(links: &Vec<Link>) -> (copy: Vec<Link>)
    ensures
        link_views(copy@) == link_views(links@),
{
    let mut copy: Vec<Link> = Vec::new();
    let mut i: usize = 0;
    while i < links.len()
        invariant
            i <= links.len(),
            copy.len() == i,
            forall|k: int| 0 <= k < i ==> (#[trigger] copy@[k])@ == links@[k]@,
        decreases links.len() - i,
    {
        copy.push(links[i].duplicate());
        i += 1;
    }
    assert(link_views(copy@) =~= link_views(links@));
    copy
}

impl NoteRow {
    /// A copy of the row.
    pub fn duplicate(&self) -> (copy: NoteRow)
        ensures
            copy@ == self@,
    {
        NoteRow {
            filename: self.filename.clone(),
            path: self.path.clone(),
            aliases: clone_texts(&self.aliases),
            tags: clone_texts(&self.tags),
            links: clone_links(&self.links),
        }
    }
}

/// Whether no text comes twice in `v`.
pub fn distinct_texts(v: &Vec<String>) -> (distinct: bool)
    ensures
        distinct == texts(v@).no_duplicates(),
{
    let ghost s = texts(v@);
    let mut i: usize = 0;
    while i < v.len()
        invariant
            i <= v.len(),
            s == texts(v@),
            forall|a: int, b: int| 0 <= a < b < i ==> s[a] != s[b],
        decreases v.len() - i,
    {
        let mut j: usize = 0;
        while j < i
            invariant
                j <= i < v.len(),
                s == texts(v@),
                forall|a: int| 0 <= a < j ==> s[a] != s[i as int],
            decreases i - j,
        {
            if same_text(v[j].as_str(), v[i].as_str()) {
                assert(s[j as int] == s[i as int]);
                return false;
            }
            j += 1;
        }
        i += 1;
    }
    true
}

impl SovDb {
    /// The store that holds the given rows and knows the given tags, where
    /// these meet the store's invariant.
    pub fn restore(notes: Vec<NoteRow>, tags: Vec<String>) -> (r: Option<SovDb>)
        ensures
            match r {
                Some(db) => db@ == (DbView { notes: row_views(notes@), tags: texts(tags@) })
                    && db@.wf(),
                None => !(DbView { notes: row_views(notes@), tags: texts(tags@) }).wf(),
            },
    {
        let ghost view = DbView { notes: row_views(notes@), tags: texts(tags@) };
        let mut paths: Vec<String> = Vec::new();
        let mut i: usize = 0;
        while i < notes.len()
            invariant
                i <= notes.len(),
                paths.len() == i,
                view == (DbView { notes: row_views(notes@), tags: texts(tags@) }),
                forall|k: int| 0 <= k < i ==> (#[trigger] paths@[k])@ == notes@[k].path@,
                forall|a: int, b: int|
                    0 <= a < i && 0 <= b < view.notes[a].tags.len() ==> view.tags.contains(
                        #[trigger] view.notes[a].tags[b],
                    ),
            decreases notes.len() - i,
        {
            let row = &notes[i];
            assert(view.notes[i as int] == row@);
            let mut j: usize = 0;
            while j < row.tags.len()
                invariant
                    j <= row.tags.len(),
                    i < notes.len(),
                    view == (DbView { notes: row_views(notes@), tags: texts(tags@) }),
                    view.notes[i as int] == row@,
                    forall|b: int| 0 <= b < j ==> view.tags.contains(#[trigger] row@.tags[b]),
                decreases row.tags.len() - j,
            {
                assert(row@.tags[j as int] == row.tags@[j as int]@);
                let at = find_text(&tags, row.tags[j].as_str());
                proof {
                    lemma_position_contains(view.tags, row@.tags[j as int]);
                }
                if at >= tags.len() {
                    return None;
                }
                j += 1;
            }
            paths.push(row.path.clone());
            i += 1;
        }
        assert(texts(paths@) =~= view.paths());
        if !distinct_texts(&paths) || !distinct_texts(&tags) {
            return None;
        }
        Some(SovDb { notes, tags })
    }

    /// A store without notes and tags.
    pub fn new() -> (db: SovDb)
        ensures
            db@ == DbView::empty(),
            db@.wf(),
    {
        let db = SovDb { notes: Vec::new(), tags: Vec::new() };
        assert(db@.notes =~= Seq::empty());
        assert(db@.tags =~= Seq::empty());
        assert(db@.paths() =~= Seq::empty());
        db
    }

    /// The position of the row with the path `path`, or the number of rows.
    fn find_row(&self, path: &str) -> (at: usize)
        ensures
            at == position(self@.paths(), path@, 0),
            at <= self.notes.len(),
            self.notes@.len() == self@.notes.len(),
    {
        let mut i: usize = 0;
        while i < self.notes.len()
            invariant
                i <= self.notes.len(),
                self@.paths().len() == self.notes.len(),
                position(self@.paths(), path@, 0) == position(self@.paths(), path@, i as int),
            decreases self.notes.len() - i,
        {
            assert(self@.paths()[i as int] == self.notes@[i as int].path@);
            if same_text(self.notes[i].path.as_str(), path) {
                return i;
            }
            i += 1;
        }
        i
    }

    /// Makes the tags `named` known.
    fn learn_tags(&mut self, named: &Vec<String>)
        ensures
            final(self)@.notes == old(self)@.notes,
            final(self)@.tags == with_tags(old(self)@.tags, texts(named@)),
    {
        let mut i: usize = 0;
        assert(texts(named@).take(0) =~= Seq::empty());
        while i < named.len()
            invariant
                i <= named.len(),
                self@.notes == old(self)@.notes,
                self@.tags == with_tags(old(self)@.tags, texts(named@).take(i as int)),
            decreases named.len() - i,
        {
            let ghost before = self@.tags;
            let ghost upto = texts(named@).take(i as int);
            let ghost next = texts(named@).take(i + 1);
            assert(next.drop_last() =~= upto);
            assert(next.last() == named@[i as int]@);
            let at = find_text(&self.tags, named[i].as_str());
            proof {
                lemma_position_contains(before, named@[i as int]@);
            }
            if at >= self.tags.len() {
                self.tags.push(named[i].clone());
                assert(self@.tags =~= before.push(named@[i as int]@));
            }
            i += 1;
        }
        assert(texts(named@).take(named.len() as int) =~= texts(named@));
    }

    /// Stores one note.
    fn upsert_note(&mut self, note: &SovNote)
        requires
            old(self)@.wf(),
            note@.path is Text,
        ensures
            final(self)@ == old(self)@.upsert_one(note@),
            final(self)@.wf(),
    {
        let path = match &note.path {
            NotePath::Text(p) => p,
            NotePath::Opaque(p) => p,
        };
        let at = self.find_row(path.as_str());
        let aliases = match &note.yaml.aliases {
            Some(list) => clone_texts(list),
            None => Vec::new(),
        };
        assert(texts(aliases@) =~= row_of(note@, note@.filename).aliases);
        let tags = clone_texts(&note.yaml.tags);
        let links = clone_links(&note.links);
        self.learn_tags(&note.yaml.tags);
        let ghost rows = self@.notes;
        if at < self.notes.len() {
            let filename = self.notes[at].filename.clone();
            let row = NoteRow { filename, path: path.clone(), aliases, tags, links };
            assert(row@ =~= row_of(note@, rows[at as int].filename));
            self.notes.set(at, row);
            assert(self@.notes =~= rows.update(at as int, row@));
        } else {
            let row = NoteRow { filename: note.filename.clone(), path: path.clone(), aliases, tags, links };
            assert(row@ =~= row_of(note@, note@.filename));
            self.notes.push(row);
            assert(self@.notes =~= rows.push(row@));
        }
        proof {
            lemma_upsert_one_wf(old(self)@, note@);
        }
    }

    /// Stores a batch of notes: each one replaces what the store held for
    /// its path, or is added. Either the whole batch is stored, or, when a
    /// note's path is not text, nothing is.
    pub fn insert_notes(&mut self, notes: &[SovNote]) -> (r: Result<(), SovError>)
        requires
            old(self)@.wf(),
        ensures
            final(self)@.wf(),
            match r {
                Ok(_) => {
                    &&& first_opaque(note_views(notes@), 0) == notes@.len()
                    &&& final(self)@ == old(self)@.upsert_all(note_views(notes@))
                },
                Err(e) => {
                    &&& first_opaque(note_views(notes@), 0) < notes@.len()
                    &&& e@ == ErrorView::InvalidPath(
                        note_views(notes@)[first_opaque(note_views(notes@), 0)].path,
                    )
                    &&& final(self)@ == old(self)@
                },
            },
    {
        let ghost views = note_views(notes@);
        let mut k: usize = 0;
        while k < notes.len()
            invariant
                k <= notes.len(),
                views == note_views(notes@),
                first_opaque(views, 0) == first_opaque(views, k as int),
                *self == *old(self),
                self@.wf(),
            decreases notes.len() - k,
        {
            match &notes[k].path {
                NotePath::Opaque(_) => {
                    return Err(SovError::InvalidPath(notes[k].path.duplicate()));
                },
                NotePath::Text(_) => {},
            }
            k += 1;
        }
        let mut i: usize = 0;
        assert(views.take(0) =~= Seq::empty());
        while i < notes.len()
            invariant
                i <= notes.len(),
                views == note_views(notes@),
                first_opaque(views, 0) == views.len(),
                self@.wf(),
                self@ == old(self)@.upsert_all(views.take(i as int)),
            decreases notes.len() - i,
        {
            proof {
                lemma_all_text(views, 0);
                assert(views.take(i + 1).drop_last() =~= views.take(i as int));
                assert(views.take(i + 1).last() == notes@[i as int]@);
            }
            self.upsert_note(&notes[i]);
            i += 1;
        }
        assert(views.take(notes.len() as int) =~= views);
        Ok(())
    }

    /// Whether a note is named `name`.
    pub fn is_note(&self, name: &str) -> (found: bool)
        ensures
            found == self@.is_note(name@),
    {
        let ghost names = self@.filenames();
        let mut i: usize = 0;
        while i < self.notes.len()
            invariant
                i <= self.notes.len(),
                names == self@.filenames(),
                names.len() == self.notes.len(),
                forall|k: int| 0 <= k < i ==> names[k] != name@,
            decreases self.notes.len() - i,
        {
            assert(names[i as int] == self.notes@[i as int].filename@);
            if same_text(self.notes[i].filename.as_str(), name) {
                return true;
            }
            i += 1;
        }
        false
    }

    /// Whether some link of some note points at `name`.
    pub fn is_target(&self, name: &str) -> (found: bool)
        ensures
            found == self@.is_target(name@),
    {
        let ghost rows = self@.notes;
        let mut i: usize = 0;
        while i < self.notes.len()
            invariant
                i <= self.notes.len(),
                rows == self@.notes,
                rows.len() == self.notes.len(),
                forall|a: int, b: int|
                    0 <= a < i && 0 <= b < rows[a].links.len() ==> (#[trigger] rows[a].links[b]).value
                        != name@,
            decreases self.notes.len() - i,
        {
            let links = &self.notes[i].links;
            assert(rows[i as int].links == link_views(links@));
            let mut j: usize = 0;
            while j < links.len()
                invariant
                    j <= links.len(),
                    i < self.notes.len(),
                    rows == self@.notes,
                    rows.len() == self.notes.len(),
                    rows[i as int].links == link_views(links@),
                    forall|b: int| 0 <= b < j ==> (#[trigger] rows[i as int].links[b]).value != name@,
                decreases links.len() - j,
            {
                assert(rows[i as int].links[j as int] == links@[j as int]@);
                if same_text(links[j].value.as_str(), name) {
                    return true;
                }
                j += 1;
            }
            i += 1;
        }
        false
    }

    /// Whether some note carries `tag`.
    pub fn carries(&self, tag: &str) -> (found: bool)
        ensures
            found == self@.carries(tag@),
    {
        let ghost rows = self@.notes;
        let mut i: usize = 0;
        while i < self.notes.len()
            invariant
                i <= self.notes.len(),
                rows == self@.notes,
                rows.len() == self.notes.len(),
                forall|a: int| 0 <= a < i ==> !(#[trigger] rows[a]).tags.contains(tag@),
            decreases self.notes.len() - i,
        {
            assert(rows[i as int].tags == texts(self.notes@[i as int].tags@));
            let at = find_text(&self.notes[i].tags, tag);
            proof {
                lemma_position_contains(rows[i as int].tags, tag@);
            }
            if at < self.notes[i].tags.len() {
                return true;
            }
            i += 1;
        }
        false
    }

    /// The known tags, each once.
    pub fn get_unique_tags(&self) -> (r: Result<Vec<String>, SovError>)
        ensures
            r is Ok,
            texts(r->Ok_0@) == self@.tags,
            self@.wf() ==> texts(r->Ok_0@).no_duplicates(),
    {
        Ok(clone_texts(&self.tags))
    }

    /// The path of the first note named `filename`, if a note is.
    pub fn get_note_by_filename(&self, filename: &str) -> (r: Result<Option<String>, SovError>)
        ensures
            r is Ok,
            match r->Ok_0 {
                Some(path) => self@.path_of(filename@) == Some(path@),
                None => self@.path_of(filename@) is None,
            },
    {
        let at = self.find_name(filename);
        if at < self.notes.len() {
            Ok(Some(self.notes[at].path.clone()))
        } else {
            Ok(None)
        }
    }

    /// The position of the first row named `name`, or the number of rows.
    fn find_name(&self, name: &str) -> (at: usize)
        ensures
            at == position(self@.filenames(), name@, 0),
            at <= self.notes.len(),
            self.notes@.len() == self@.notes.len(),
            at < self.notes.len() ==> self@.notes[at as int] == self.notes@[at as int]@,
    {
        let mut i: usize = 0;
        while i < self.notes.len()
            invariant
                i <= self.notes.len(),
                self@.filenames().len() == self.notes.len(),
                position(self@.filenames(), name@, 0) == position(self@.filenames(), name@, i as int),
            decreases self.notes.len() - i,
        {
            assert(self@.filenames()[i as int] == self.notes@[i as int].filename@);
            if same_text(self.notes[i].filename.as_str(), name) {
                return i;
            }
            i += 1;
        }
        i
    }

    /// The number of the first row named `filename`, counted from zero in
    /// store order, if a note is named so.
    pub fn get_note_id_by_filename(&self, filename: &str) -> (r: Result<Option<u64>, SovError>)
        ensures
            r is Ok,
            match r->Ok_0 {
                Some(id) => id == position(self@.filenames(), filename@, 0) && id
                    < self@.notes.len(),
                None => position(self@.filenames(), filename@, 0) == self@.notes.len(),
            },
    {
        let at = self.find_name(filename);
        if at < self.notes.len() {
            Ok(Some(at as u64))
        } else {
            Ok(None)
        }
    }

    /// The paths of all notes, in store order; no path comes twice.
    pub fn get_all_note_paths(&self) -> (r: Result<Vec<String>, SovError>)
        ensures
            r is Ok,
            texts(r->Ok_0@) == self@.paths(),
            self@.wf() ==> texts(r->Ok_0@).no_duplicates(),
    {
        let mut out: Vec<String> = Vec::new();
        let mut i: usize = 0;
        while i < self.notes.len()
            invariant
                i <= self.notes.len(),
                out.len() == i,
                forall|k: int| 0 <= k < i ==> (#[trigger] out@[k])@ == self.notes@[k].path@,
            decreases self.notes.len() - i,
        {
            out.push(self.notes[i].path.clone());
            i += 1;
        }
        assert(texts(out@) =~= self@.paths());
        Ok(out)
    }

    /// The names of all notes, in store order.
    pub fn get_all_note_names(&self) -> (r: Result<Vec<String>, SovError>)
        ensures
            r is Ok,
            texts(r->Ok_0@) == self@.filenames(),
    {
        let mut out: Vec<String> = Vec::new();
        let mut i: usize = 0;
        while i < self.notes.len()
            invariant
                i <= self.notes.len(),
                out.len() == i,
                forall|k: int| 0 <= k < i ==> (#[trigger] out@[k])@ == self.notes@[k].filename@,
            decreases self.notes.len() - i,
        {
            out.push(self.notes[i].filename.clone());
            i += 1;
        }
        assert(texts(out@) =~= self@.filenames());
        Ok(out)
    }

    /// Each alias with the name of its note.
    pub fn get_all_note_aliases(&self) -> (r: Result<Vec<(String, String)>, SovError>)
        ensures
            r is Ok,
            text_pairs(r->Ok_0@) == self@.aliases(),
    {
        let ghost rows = self@.notes;
        let mut out: Vec<(String, String)> = Vec::new();
        let mut i: usize = 0;
        assert(rows.take(0) =~= Seq::empty());
        assert(text_pairs(out@) =~= Seq::empty());
        while i < self.notes.len()
            invariant
                i <= self.notes.len(),
                rows == self@.notes,
                rows.len() == self.notes.len(),
                text_pairs(out@) == rows.take(i as int).flat_map(aliases_of_row()),
            decreases self.notes.len() - i,
        {
            let row = &self.notes[i];
            let ghost base = text_pairs(out@);
            let ghost name = row.filename@;
            let ghost list = texts(row.aliases@);
            assert(rows[i as int] == row@);
            let mut j: usize = 0;
            assert(list.take(0) =~= Seq::empty());
            while j < row.aliases.len()
                invariant
                    j <= row.aliases.len(),
                    name == row.filename@,
                    list == texts(row.aliases@),
                    text_pairs(out@) == base + list.take(j as int).map_values(alias_of(name)),
                decreases row.aliases.len() - j,
            {
                let ghost before = text_pairs(out@);
                out.push((row.filename.clone(), row.aliases[j].clone()));
                proof {
                    assert(text_pairs(out@) =~= before.push((name, list[j as int])));
                    assert(list.take(j + 1) =~= list.take(j as int).push(list[j as int]));
                    assert(list.take(j + 1).map_values(alias_of(name)) =~= list.take(
                        j as int,
                    ).map_values(alias_of(name)).push((name, list[j as int])));
                }
                j += 1;
            }
            proof {
                assert(list.take(row.aliases.len() as int) =~= list);
                rows.lemma_flat_map_take_append(aliases_of_row(), i as int);
            }
            i += 1;
        }
        assert(rows.take(self.notes.len() as int) =~= rows);
        Ok(out)
    }

    /// The paths of the notes that no link points at.
    pub fn get_all_orphaned_notes(&self) -> (r: Result<Vec<String>, SovError>)
        ensures
            r is Ok,
            texts(r->Ok_0@) == self@.orphans(),
    {
        let ghost rows = self@.notes;
        let ghost keep = self@.unlinked();
        let mut out: Vec<String> = Vec::new();
        let mut i: usize = 0;
        proof {
            assert(rows.take(0) =~= Seq::empty());
            reveal(Seq::filter);
            assert(texts(out@) =~= rows.take(0).filter(keep).map_values(row_path()));
        }
        while i < self.notes.len()
            invariant
                i <= self.notes.len(),
                rows == self@.notes,
                keep == self@.unlinked(),
                rows.len() == self.notes.len(),
                texts(out@) == rows.take(i as int).filter(keep).map_values(row_path()),
            decreases self.notes.len() - i,
        {
            let ghost before = texts(out@);
            assert(rows[i as int] == self.notes@[i as int]@);
            proof {
                assert(rows.take(i + 1) =~= rows.take(i as int).push(rows[i as int]));
                rows.take(i as int).lemma_filter_push(rows[i as int], keep);
            }
            if !self.is_target(self.notes[i].filename.as_str()) {
                out.push(self.notes[i].path.clone());
                assert(texts(out@) =~= before.push(rows[i as int].path));
                assert(rows.take(i as int).filter(keep).push(rows[i as int]).map_values(row_path())
                    =~= rows.take(i as int).filter(keep).map_values(row_path()).push(
                    rows[i as int].path,
                ));
            }
            i += 1;
        }
        assert(rows.take(self.notes.len() as int) =~= rows);
        Ok(out)
    }

    /// The paths of the notes that carry `tag`.
    pub fn find_notes_by_tag(&self, tag: &str) -> (r: Result<Vec<String>, SovError>)
        ensures
            r is Ok,
            texts(r->Ok_0@) == self@.tagged(tag@),
    {
        let ghost rows = self@.notes;
        let ghost keep = has_tag(tag@);
        let mut out: Vec<String> = Vec::new();
        let mut i: usize = 0;
        proof {
            assert(rows.take(0) =~= Seq::empty());
            reveal(Seq::filter);
            assert(texts(out@) =~= rows.take(0).filter(keep).map_values(row_path()));
        }
        while i < self.notes.len()
            invariant
                i <= self.notes.len(),
                rows == self@.notes,
                keep == has_tag(tag@),
                rows.len() == self.notes.len(),
                texts(out@) == rows.take(i as int).filter(keep).map_values(row_path()),
            decreases self.notes.len() - i,
        {
            let ghost before = texts(out@);
            assert(rows[i as int] == self.notes@[i as int]@);
            proof {
                assert(rows.take(i + 1) =~= rows.take(i as int).push(rows[i as int]));
                rows.take(i as int).lemma_filter_push(rows[i as int], keep);
                lemma_position_contains(rows[i as int].tags, tag@);
            }
            let at = find_text(&self.notes[i].tags, tag);
            if at < self.notes[i].tags.len() {
                out.push(self.notes[i].path.clone());
                assert(texts(out@) =~= before.push(rows[i as int].path));
                assert(rows.take(i as int).filter(keep).push(rows[i as int]).map_values(row_path())
                    =~= rows.take(i as int).filter(keep).map_values(row_path()).push(
                    rows[i as int].path,
                ));
            }
            i += 1;
        }
        assert(rows.take(self.notes.len() as int) =~= rows);
        Ok(out)
    }

    /// Every dead link, as the path of its note and the missing target.
    pub fn get_all_dead_links(&self) -> (r: Result<Vec<(String, String)>, SovError>)
        ensures
            r is Ok,
            text_pairs(r->Ok_0@) == self@.dead_links(),
    {
        let ghost rows = self@.notes;
        let ghost dead = self@.dangling();
        let mut out: Vec<(String, String)> = Vec::new();
        let mut i: usize = 0;
        assert(rows.take(0) =~= Seq::empty());
        assert(text_pairs(out@) =~= Seq::empty());
        while i < self.notes.len()
            invariant
                i <= self.notes.len(),
                rows == self@.notes,
                dead == self@.dangling(),
                rows.len() == self.notes.len(),
                text_pairs(out@) == rows.take(i as int).flat_map(self@.dead_of_row()),
            decreases self.notes.len() - i,
        {
            let row = &self.notes[i];
            let ghost base = text_pairs(out@);
            let ghost path = row.path@;
            let ghost list = link_views(row.links@);
            assert(rows[i as int] == row@);
            let mut j: usize = 0;
            proof {
                assert(list.take(0) =~= Seq::empty());
                reveal(Seq::filter);
                assert(list.take(0).filter(dead).map_values(target_from(path)) =~= Seq::empty());
            }
            while j < row.links.len()
                invariant
                    j <= row.links.len(),
                    path == row.path@,
                    list == link_views(row.links@),
                    dead == self@.dangling(),
                    text_pairs(out@) == base + list.take(j as int).filter(dead).map_values(
                        target_from(path),
                    ),
                decreases row.links.len() - j,
            {
                let ghost before = text_pairs(out@);
                let ghost kept = list.take(j as int).filter(dead);
                proof {
                    assert(list[j as int] == row.links@[j as int]@);
                    assert(list.take(j + 1) =~= list.take(j as int).push(list[j as int]));
                    list.take(j as int).lemma_filter_push(list[j as int], dead);
                }
                if !self.is_note(row.links[j].value.as_str()) {
                    out.push((row.path.clone(), row.links[j].value.clone()));
                    proof {
                        assert(text_pairs(out@) =~= before.push((path, list[j as int].value)));
                        assert(kept.push(list[j as int]).map_values(target_from(path))
                            =~= kept.map_values(target_from(path)).push(
                            (path, list[j as int].value),
                        ));
                    }
                }
                j += 1;
            }
            proof {
                assert(list.take(row.links.len() as int) =~= list);
                rows.lemma_flat_map_take_append(self@.dead_of_row(), i as int);
            }
            i += 1;
        }
        assert(rows.take(self.notes.len() as int) =~= rows);
        Ok(out)
    }

    /// The links that point at `link_value`, each with the path of its note.
    pub fn get_backlinks(&self, link_value: &str) -> (r: Result<Vec<(String, Link)>, SovError>)
        ensures
            r is Ok,
            located_links(r->Ok_0@) == self@.backlinks(link_value@),
    {
        let ghost rows = self@.notes;
        let ghost hit = points_at(link_value@);
        let ghost per_row = backlinks_of_row(link_value@);
        let mut out: Vec<(String, Link)> = Vec::new();
        let mut i: usize = 0;
        assert(rows.take(0) =~= Seq::empty());
        assert(located_links(out@) =~= Seq::empty());
        while i < self.notes.len()
            invariant
                i <= self.notes.len(),
                rows == self@.notes,
                hit == points_at(link_value@),
                per_row == backlinks_of_row(link_value@),
                rows.len() == self.notes.len(),
                located_links(out@) == rows.take(i as int).flat_map(per_row),
            decreases self.notes.len() - i,
        {
            let row = &self.notes[i];
            let ghost base = located_links(out@);
            let ghost path = row.path@;
            let ghost list = link_views(row.links@);
            assert(rows[i as int] == row@);
            let mut j: usize = 0;
            proof {
                assert(list.take(0) =~= Seq::empty());
                reveal(Seq::filter);
                assert(list.take(0).filter(hit).map_values(link_from(path)) =~= Seq::empty());
            }
            while j < row.links.len()
                invariant
                    j <= row.links.len(),
                    path == row.path@,
                    list == link_views(row.links@),
                    hit == points_at(link_value@),
                    located_links(out@) == base + list.take(j as int).filter(hit).map_values(
                        link_from(path),
                    ),
                decreases row.links.len() - j,
            {
                let ghost before = located_links(out@);
                let ghost kept = list.take(j as int).filter(hit);
                proof {
                    assert(list[j as int] == row.links@[j as int]@);
                    assert(list.take(j + 1) =~= list.take(j as int).push(list[j as int]));
                    list.take(j as int).lemma_filter_push(list[j as int], hit);
                }
                if same_text(row.links[j].value.as_str(), link_value) {
                    out.push((row.path.clone(), row.links[j].duplicate()));
                    proof {
                        assert(located_links(out@) =~= before.push((path, list[j as int])));
                        assert(kept.push(list[j as int]).map_values(link_from(path))
                            =~= kept.map_values(link_from(path)).push((path, list[j as int])));
                    }
                }
                j += 1;
            }
            proof {
                assert(list.take(row.links.len() as int) =~= list);
                rows.lemma_flat_map_take_append(per_row, i as int);
            }
            i += 1;
        }
        assert(rows.take(self.notes.len() as int) =~= rows);
        Ok(out)
    }

    /// The links of the first note named `filename`; none when no note is
    /// named so.
    pub fn get_links(&self, filename: &str) -> (r: Result<Vec<Link>, SovError>)
        ensures
            r is Ok,
            link_views(r->Ok_0@) == self@.links_of(filename@),
    {
        let at = self.find_name(filename);
        if at < self.notes.len() {
            Ok(clone_links(&self.notes[at].links))
        } else {
            let none: Vec<Link> = Vec::new();
            assert(link_views(none@) =~= Seq::empty());
            Ok(none)
        }
    }

    /// The dead links among the links of the first note named `filename`.
    pub fn get_dead_links(&self, filename: &str) -> (r: Result<Vec<Link>, SovError>)
        ensures
            r is Ok,
            link_views(r->Ok_0@) == self@.dead_links_of(filename@),
    {
        let ghost dead = self@.dangling();
        let mut out: Vec<Link> = Vec::new();
        let at = self.find_name(filename);
        proof {
            reveal(Seq::filter);
            assert(link_views(out@) =~= Seq::<LinkView>::empty().filter(dead));
        }
        if at >= self.notes.len() {
            return Ok(out);
        }
        let row = &self.notes[at];
        let ghost list = link_views(row.links@);
        assert(list == self@.links_of(filename@));
        let mut j: usize = 0;
        assert(list.take(0) =~= Seq::empty());
        while j < row.links.len()
            invariant
                j <= row.links.len(),
                list == link_views(row.links@),
                dead == self@.dangling(),
                link_views(out@) == list.take(j as int).filter(dead),
            decreases row.links.len() - j,
        {
            let ghost before = link_views(out@);
            proof {
                assert(list[j as int] == row.links@[j as int]@);
                assert(list.take(j + 1) =~= list.take(j as int).push(list[j as int]));
                list.take(j as int).lemma_filter_push(list[j as int], dead);
            }
            if !self.is_note(row.links[j].value.as_str()) {
                out.push(row.links[j].duplicate());
                assert(link_views(out@) =~= before.push(list[j as int]));
            }
            j += 1;
        }
        assert(list.take(row.links.len() as int) =~= list);
        Ok(out)
    }

    /// Takes the note at `path` out of the store, with what it owns. A path
    /// that is not text is an error; a path that names no note changes
    /// nothing.
    pub fn delete_note_by_path(&mut self, path: &NotePath) -> (r: Result<(), SovError>)
        requires
            old(self)@.wf(),
        ensures
            final(self)@.wf(),
            match path@ {
                PathView::Text(p) => r is Ok && final(self)@ == old(self)@.remove_path(p),
                PathView::Opaque(_) => r is Err && r->Err_0@ == ErrorView::InvalidPath(path@)
                    && final(self)@ == old(self)@,
            },
    {
        match path {
            NotePath::Opaque(_) => Err(SovError::InvalidPath(path.duplicate())),
            NotePath::Text(p) => {
                let at = self.find_row(p.as_str());
                if at < self.notes.len() {
                    let ghost rows = self@.notes;
                    self.notes.remove(at);
                    assert(self@.notes =~= rows.remove(at as int));
                    proof {
                        lemma_remove_path_wf(old(self)@, p@);
                    }
                }
                Ok(())
            },
        }
    }

    /// Forgets the tags that no note carries.
    pub fn clean_dead_tags(&mut self) -> (r: Result<(), SovError>)
        requires
            old(self)@.wf(),
        ensures
            r is Ok,
            final(self)@ == old(self)@.collect_tags(),
            final(self)@.wf(),
    {
        let ghost known = self@.tags;
        let ghost used = self@.in_use();
        let mut kept: Vec<String> = Vec::new();
        let mut i: usize = 0;
        proof {
            assert(known.take(0) =~= Seq::empty());
            reveal(Seq::filter);
            assert(texts(kept@) =~= known.take(0).filter(used));
        }
        while i < self.tags.len()
            invariant
                i <= self.tags.len(),
                *self == *old(self),
                known == self@.tags,
                used == self@.in_use(),
                known.len() == self.tags.len(),
                texts(kept@) == known.take(i as int).filter(used),
            decreases self.tags.len() - i,
        {
            let ghost before = texts(kept@);
            proof {
                assert(known[i as int] == self.tags@[i as int]@);
                assert(known.take(i + 1) =~= known.take(i as int).push(known[i as int]));
                known.take(i as int).lemma_filter_push(known[i as int], used);
            }
            if self.carries(self.tags[i].as_str()) {
                kept.push(self.tags[i].clone());
                assert(texts(kept@) =~= before.push(known[i as int]));
            }
            i += 1;
        }
        assert(known.take(self.tags.len() as int) =~= known);
        self.tags = kept;
        proof {
            lemma_collect_tags_wf(old(self)@);
        }
        Ok(())
    }

    /// A copy of the rows, in store order.
    pub fn rows(&self) -> (rows: Vec<NoteRow>)
        ensures
            row_views(rows@) == self@.notes,
    {
        let mut rows: Vec<NoteRow> = Vec::new();
        let mut i: usize = 0;
        while i < self.notes.len()
            invariant
                i <= self.notes.len(),
                rows.len() == i,
                forall|k: int| 0 <= k < i ==> (#[trigger] rows@[k])@ == self.notes@[k]@,
            decreases self.notes.len() - i,
        {
            rows.push(self.notes[i].duplicate());
            i += 1;
        }
        assert(row_views(rows@) =~= self@.notes);
        rows
    }
}

/// The views of a list of links, each with the path of its note.
pub open spec fn located_links(v: Seq<(String, Link)>) -> Seq<(Seq<char>, LinkView)> {
    v.map_values(|p: (String, Link)| (p.0@, p.1@))
}

} // verus!
