//! The engine: the store together with the configuration, the index pass
//! over the notes tree, and the queries.

use vstd::prelude::*;
use crate::config::{ConfigView, SovConfig};
use crate::db::{located_links, note_views, SovDb};
use crate::error::{ErrorView, SovError};
use crate::graph::{first_opaque, seen_in, DbView};
use crate::graph_lemmas::lemma_filter_keeps;
use crate::note::{link_views, links_in, metadata_in, Link, NoteView, SovNote};
use crate::path::{
    join_paths, joined, path_with_extension, paths_equal, same_path, with_extension, NotePath,
    PathView,
};
use crate::text::{lemma_position, opt_text, position, same_text, text_pairs, texts};
use crate::time::Timestamp;

verus! {

/// One entry of the notes tree as the walk over it finds it.
#[derive(Debug, PartialEq, Eq)]
pub struct WalkEntry {
    pub path: NotePath,
    /// The file's name without its extension, where it has one that is text.
    pub stem: Option<String>,
    /// The file's extension, where it has one that is text.
    pub extension: Option<String>,
    pub is_file: bool,
    pub is_dir: bool,
}

/// What a `WalkEntry` holds, as mathematical values.
pub struct EntryView {
    pub path: PathView,
    pub stem: Option<Seq<char>>,
    pub extension: Option<Seq<char>>,
    pub is_file: bool,
    pub is_dir: bool,
}

impl View for WalkEntry {
    type V = EntryView;

    open spec fn view(&self) -> EntryView {
        EntryView {
            path: self.path@,
            stem: opt_text(self.stem),
            extension: opt_text(self.extension),
            is_file: self.is_file,
            is_dir: self.is_dir,
        }
    }
}

impl WalkEntry {
    /// Whether the entry is a note: a file whose name has a stem.
    pub fn is_note(&self) -> (note: bool)
        ensures
            note == is_note_file(self@),
    {
        self.is_file && self.stem.is_some()
    }
}

/// What the scan does with an entry.
#[derive(Clone, Copy, Debug, PartialEq, Eq, Structural)]
pub enum ScanStep {
    /// The entry is no note: nothing is recorded.
    Skip,
    /// The note was seen and has not changed since the last pass.
    Unchanged,
    /// The note was seen and has to be read and parsed.
    Read,
}

/// What a scan has found so far: the paths of the notes it saw, and the
/// notes it parsed.
#[derive(Debug, PartialEq, Eq)]
pub struct IndexScan {
    pub observed: Vec<NotePath>,
    pub pending: Vec<SovNote>,
}

/// What an `IndexScan` holds, as mathematical values.
pub struct ScanView {
    pub observed: Seq<PathView>,
    pub pending: Seq<NoteView>,
}

/// The views of a list of paths, in order.
pub open spec fn path_views(paths: Seq<NotePath>) -> Seq<PathView> {
    paths.map_values(|p: NotePath| p@)
}

impl View for IndexScan {
    type V = ScanView;

    open spec fn view(&self) -> ScanView {
        ScanView { observed: path_views(self.observed@), pending: note_views(self.pending@) }
    }
}

/// Whether `path` is one of the paths to pass over.
pub open spec fn ignored(ignore_dirs: Seq<Seq<char>>, path: PathView) -> bool {
    path is Text && exists|i: int|
        0 <= i < ignore_dirs.len() && same_path(#[trigger] ignore_dirs[i], path->Text_0)
}

/// Whether the walk goes on with an entry: it is not to be passed over, and
/// it is a directory or a file with the extension `md`.
pub open spec fn wanted(ignore_dirs: Seq<Seq<char>>, entry: EntryView) -> bool {
    !ignored(ignore_dirs, entry.path) && ((entry.is_file && entry.extension == Some("md"@))
        || entry.is_dir)
}

/// Whether an entry is a note: a file whose name has a stem.
pub open spec fn is_note_file(entry: EntryView) -> bool {
    entry.is_file && entry.stem is Some
}

/// Whether the scan records an entry: the walk goes on with it, and it is
/// a note.
pub open spec fn recorded(ignore_dirs: Seq<Seq<char>>, entry: EntryView) -> bool {
    wanted(ignore_dirs, entry) && is_note_file(entry)
}

/// What the scan does with an entry that changed at `changed`, when the
/// last pass was at `watermark`; nothing where the change time is no date.
pub open spec fn scan_step(
    ignore_dirs: Seq<Seq<char>>,
    watermark: Timestamp,
    entry: EntryView,
    changed: Timestamp,
) -> Option<ScanStep> {
    if !recorded(ignore_dirs, entry) {
        Some(ScanStep::Skip)
    } else if !changed.valid() {
        None
    } else if changed.before(watermark) {
        Some(ScanStep::Unchanged)
    } else {
        Some(ScanStep::Read)
    }
}

/// Whether `path` is among `observed`.
fn was_seen(observed: &Vec<NotePath>, path: &str) -> (seen: bool)
    ensures
        seen == path_views(observed@).contains(PathView::Text(path@)),
{
    let ghost views = path_views(observed@);
    let mut i: usize = 0;
    while i < observed.len()
        invariant
            i <= observed.len(),
            views == path_views(observed@),
            forall|k: int| 0 <= k < i ==> views[k] != PathView::Text(path@),
        decreases observed.len() - i,
    {
        assert(views[i as int] == observed@[i as int]@);
        match &observed[i] {
            NotePath::Text(p) => {
                if same_text(p.as_str(), path) {
                    return true;
                }
            },
            NotePath::Opaque(_) => {},
        }
        i += 1;
    }
    false
}

/// The engine.
#[derive(Debug, PartialEq, Eq)]
pub struct Sov {
    config: SovConfig,
    db: SovDb,
}

impl IndexScan {
    /// A scan that has found nothing yet.
    pub fn new() -> (scan: IndexScan)
        ensures
            scan@.observed == Seq::<PathView>::empty(),
            scan@.pending == Seq::<NoteView>::empty(),
    {
        let scan = IndexScan { observed: Vec::new(), pending: Vec::new() };
        assert(scan@.observed =~= Seq::empty());
        assert(scan@.pending =~= Seq::empty());
        scan
    }

    /// Parses the text of a note that the scan asked to read, and keeps the
    /// note for the store. Front matter that cannot be read is an error,
    /// and the scan keeps nothing of the note.
    pub fn add_note(&mut self, path: NotePath, filename: String, content: &str) -> (r: Result<
        (),
        SovError,
    >)
        ensures
            final(self)@.observed == old(self)@.observed,
            match metadata_in(content@) {
                Ok(m) => {
                    &&& r is Ok
                    &&& final(self)@.pending == old(self)@.pending.push(
                        NoteView {
                            filename: filename@,
                            path: path@,
                            yaml: m,
                            links: links_in(content@),
                        },
                    )
                },
                Err(message) => {
                    &&& r is Err
                    &&& r->Err_0@ == ErrorView::Yaml(message)
                    &&& final(self)@.pending == old(self)@.pending
                },
            },
    {
        match SovNote::new(path, filename, content) {
            Ok(note) => {
                let ghost before = self@.pending;
                self.pending.push(note);
                assert(self@.pending =~= before.push(note@));
                Ok(())
            },
            Err(e) => Err(e),
        }
    }
}

impl Sov {
    /// The contents of the store.
    pub closed spec fn store(&self) -> DbView {
        self.db@
    }

    /// The configuration.
    pub closed spec fn settings(&self) -> ConfigView {
        self.config@
    }

    /// The time of the last index pass.
    pub open spec fn watermark(&self) -> Timestamp {
        self.settings().last_update
    }

    /// The engine's invariant: that of its store.
    pub open spec fn wf(&self) -> bool {
        self.store().wf()
    }

    /// An engine over a configuration and a store.
    pub fn new(config: SovConfig, db: SovDb) -> (sov: Sov)
        requires
            db@.wf(),
        ensures
            sov.store() == db@,
            sov.settings() == config@,
            sov.wf(),
    {
        Sov { config, db }
    }

    /// The configuration.
    pub fn config(&self) -> (config: &SovConfig)
        ensures
            config@ == self.settings(),
    {
        &self.config
    }

    /// The store.
    pub fn db(&self) -> (db: &SovDb)
        ensures
            db@ == self.store(),
    {
        &self.db
    }

    /// Whether the walk over the notes tree goes on with an entry. An entry
    /// that is turned down is not visited, and where it is a directory,
    /// nothing below it is.
    pub fn wants_entry(&self, entry: &WalkEntry) -> (wanted: bool)
        ensures
            wanted == self::wanted(self.settings().toml.ignore_dirs, entry@),
    {
        let ghost dirs = self.settings().toml.ignore_dirs;
        match &entry.path {
            NotePath::Text(p) => {
                let mut i: usize = 0;
                while i < self.config.toml.ignore_dirs.len()
                    invariant
                        i <= self.config.toml.ignore_dirs.len(),
                        dirs == texts(self.config.toml.ignore_dirs@),
                        dirs == self.settings().toml.ignore_dirs,
                        entry@.path == PathView::Text(p@),
                        forall|k: int| 0 <= k < i ==> !same_path(#[trigger] dirs[k], p@),
                    decreases self.config.toml.ignore_dirs.len() - i,
                {
                    assert(dirs[i as int] == self.config.toml.ignore_dirs@[i as int]@);
                    if paths_equal(self.config.toml.ignore_dirs[i].as_str(), p.as_str()) {
                        return false;
                    }
                    i += 1;
                }
            },
            NotePath::Opaque(_) => {},
        }
        let is_md = match &entry.extension {
            Some(e) => same_text(e.as_str(), "md"),
            None => false,
        };
        (entry.is_file && is_md) || entry.is_dir
    }

    /// Decides what the scan does with an entry that the walk visits, given
    /// the time at which the entry last changed. Only a note that the walk
    /// goes on with is looked at. Its path is recorded as seen whether or
    /// not the note has to be read. A change time that is no date is an
    /// error.
    pub fn scan_entry(
        &self,
        scan: &mut IndexScan,
        entry: &WalkEntry,
        changed: Timestamp,
    ) -> (r: Result<ScanStep, SovError>)
        ensures
            final(scan)@.pending == old(scan)@.pending,
            final(scan)@.observed == if recorded(self.settings().toml.ignore_dirs, entry@) {
                old(scan)@.observed.push(entry@.path)
            } else {
                old(scan)@.observed
            },
            match scan_step(self.settings().toml.ignore_dirs, self.watermark(), entry@, changed) {
                Some(step) => r == Ok::<ScanStep, SovError>(step),
                None => r is Err && r->Err_0@ == ErrorView::InvalidTime,
            },
    {
        if !self.wants_entry(entry) || !entry.is_note() {
            return Ok(ScanStep::Skip);
        }
        let ghost before = scan@.observed;
        scan.observed.push(entry.path.duplicate());
        assert(scan@.observed =~= before.push(entry@.path));
        if !changed.is_valid() {
            return Err(SovError::InvalidTime);
        }
        if changed.is_before(&self.config.last_update) {
            Ok(ScanStep::Unchanged)
        } else {
            Ok(ScanStep::Read)
        }
    }

    /// Ends an index pass at the time `now`: stores the notes that the scan
    /// parsed, records `now` as the time of the pass, takes out of the
    /// store the notes that the scan did not see, and forgets the tags that
    /// no note carries any more.
    ///
    /// Where a parsed note's path is not text, nothing is stored, the time
    /// of the last pass stays, and nothing is taken out.
    pub fn index(&mut self, scan: &IndexScan, now: Timestamp) -> (r: Result<(), SovError>)
        requires
            old(self).wf(),
        ensures
            final(self).wf(),
            match r {
                Ok(_) => {
                    &&& first_opaque(scan@.pending, 0) == scan@.pending.len()
                    &&& final(self).store() == old(self).store().index_pass(
                        scan@.observed,
                        scan@.pending,
                    )
                    &&& final(self).settings() == (ConfigView {
                        last_update: now,
                        ..old(self).settings()
                    })
                },
                Err(e) => {
                    &&& first_opaque(scan@.pending, 0) < scan@.pending.len()
                    &&& e@ == ErrorView::InvalidPath(
                        scan@.pending[first_opaque(scan@.pending, 0)].path,
                    )
                    &&& final(self).store() == old(self).store()
                    &&& final(self).settings() == old(self).settings()
                },
            },
    {
        match self.db.insert_notes(scan.pending.as_slice()) {
            Err(e) => {
                return Err(e);
            },
            Ok(_) => {},
        }
        self.config.update_last_update(now);
        let known = match self.db.get_all_note_paths() {
            Ok(paths) => paths,
            Err(e) => {
                return Err(e);
            },
        };
        let ghost stored = self.db@;
        let ghost rows = stored.notes;
        let ghost keep = seen_in(scan@.observed);
        let mut i: usize = 0;
        proof {
            assert(rows.take(0) =~= Seq::empty());
            reveal(Seq::filter);
            assert(rows.take(0).filter(keep) + rows.skip(0) =~= rows);
            assert(stored.paths().len() == rows.len());
        }
        while i < known.len()
            invariant
                i <= known.len(),
                known.len() == rows.len(),
                texts(known@) == stored.paths(),
                stored.wf(),
                rows == stored.notes,
                keep == seen_in(scan@.observed),
                self.db@.wf(),
                self.db@.tags == stored.tags,
                self.db@.notes == rows.take(i as int).filter(keep) + rows.skip(i as int),
                self.config@ == (ConfigView { last_update: now, ..old(self).settings() }),
            decreases known.len() - i,
        {
            let ghost kept = rows.take(i as int).filter(keep);
            let ghost path = rows[i as int].path;
            proof {
                assert(stored.paths()[i as int] == path);
                assert(known@[i as int]@ == path);
                assert(rows.take(i + 1) =~= rows.take(i as int).push(rows[i as int]));
                rows.take(i as int).lemma_filter_push(rows[i as int], keep);
                assert(rows.skip(i as int) =~= seq![rows[i as int]] + rows.skip(i + 1));
            }
            if !was_seen(&scan.observed, known[i].as_str()) {
                proof {
                    lemma_filter_keeps(rows.take(i as int), keep);
                    let now_paths = self.db@.paths();
                    assert(now_paths.len() == self.db@.notes.len());
                    assert forall|k: int| 0 <= k < kept.len() implies now_paths[k] != path by {
                        assert(kept.contains(kept[k]));
                        assert(rows.take(i as int).contains(kept[k]));
                        let j = choose|j: int|
                            0 <= j < rows.take(i as int).len() && rows.take(i as int)[j] == kept[k];
                        assert(stored.paths()[j] == rows[j].path);
                        assert(stored.paths()[j] != stored.paths()[i as int]);
                    }
                    assert(now_paths[kept.len() as int] == path);
                    lemma_position(now_paths, path, 0);
                    assert(position(now_paths, path, 0) == kept.len());
                    assert(self.db@.notes.remove(kept.len() as int) =~= kept + rows.skip(i + 1));
                }
                let target = NotePath::Text(known[i].clone());
                match self.db.delete_note_by_path(&target) {
                    Ok(_) => {},
                    Err(e) => {
                        return Err(e);
                    },
                }
            } else {
                assert(kept.push(rows[i as int]) + rows.skip(i + 1) =~= kept + rows.skip(i as int));
            }
            i += 1;
        }
        proof {
            assert(rows.take(known.len() as int) =~= rows);
            assert(rows.filter(keep) + rows.skip(known.len() as int) =~= rows.filter(keep));
            assert(self.db@ == stored.keep_seen(scan@.observed));
        }
        self.db.clean_dead_tags()
    }

    /// The path of the first note named `filename`, if a note is.
    pub fn resolve_note(&self, filename: &str) -> (r: Result<Option<String>, SovError>)
        ensures
            r is Ok,
            match r->Ok_0 {
                Some(path) => self.store().path_of(filename@) == Some(path@),
                None => self.store().path_of(filename@) is None,
            },
    {
        self.db.get_note_by_filename(filename)
    }

    /// The links that point at `filename`, each with the path of its note.
    pub fn resolve_backlinks(&self, filename: &str) -> (r: Result<Vec<(String, Link)>, SovError>)
        ensures
            r is Ok,
            located_links(r->Ok_0@) == self.store().backlinks(filename@),
    {
        self.db.get_backlinks(filename)
    }

    /// The links of the first note named `filename`.
    pub fn resolve_links(&self, filename: &str) -> (r: Result<Vec<Link>, SovError>)
        ensures
            r is Ok,
            link_views(r->Ok_0@) == self.store().links_of(filename@),
    {
        self.db.get_links(filename)
    }

    /// The dead links among the links of the first note named `filename`.
    pub fn resolve_dead_links(&self, filename: &str) -> (r: Result<Vec<Link>, SovError>)
        ensures
            r is Ok,
            link_views(r->Ok_0@) == self.store().dead_links_of(filename@),
    {
        self.db.get_dead_links(filename)
    }

    /// The names of all notes.
    pub fn list_note_names(&self) -> (r: Result<Vec<String>, SovError>)
        ensures
            r is Ok,
            texts(r->Ok_0@) == self.store().filenames(),
    {
        self.db.get_all_note_names()
    }

    /// Each alias with the name of its note.
    pub fn list_note_aliases(&self) -> (r: Result<Vec<(String, String)>, SovError>)
        ensures
            r is Ok,
            text_pairs(r->Ok_0@) == self.store().aliases(),
    {
        self.db.get_all_note_aliases()
    }

    /// The known tags, each once.
    pub fn list_tags(&self) -> (r: Result<Vec<String>, SovError>)
        ensures
            r is Ok,
            texts(r->Ok_0@) == self.store().tags,
            self.wf() ==> texts(r->Ok_0@).no_duplicates(),
    {
        self.db.get_unique_tags()
    }

    /// The paths of the notes that no link points at.
    pub fn list_orphans(&self) -> (r: Result<Vec<String>, SovError>)
        ensures
            r is Ok,
            texts(r->Ok_0@) == self.store().orphans(),
    {
        self.db.get_all_orphaned_notes()
    }

    /// Every dead link, as the path of its note and the missing target.
    pub fn list_dead_links(&self) -> (r: Result<Vec<(String, String)>, SovError>)
        ensures
            r is Ok,
            text_pairs(r->Ok_0@) == self.store().dead_links(),
    {
        self.db.get_all_dead_links()
    }

    /// The paths of the notes that carry `tag`.
    pub fn search_tag(&self, tag: &str) -> (r: Result<Vec<String>, SovError>)
        ensures
            r is Ok,
            texts(r->Ok_0@) == self.store().tagged(tag@),
    {
        self.db.find_notes_by_tag(tag)
    }

    /// The names of the scripts among the entries of the scripts directory:
    /// those of the entries that could be read, are no directories and have
    /// a name that is text.
    pub fn list_scripts(entries: &Vec<Option<DirItem>>) -> (r: Result<Vec<String>, SovError>)
        ensures
            r is Ok,
            texts(r->Ok_0@) == script_names(item_views(entries@)),
    {
        let ghost items = item_views(entries@);
        let mut out: Vec<String> = Vec::new();
        let mut i: usize = 0;
        proof {
            assert(items.take(0) =~= Seq::empty());
            reveal(Seq::filter);
            assert(texts(out@) =~= script_names(items.take(0)));
        }
        while i < entries.len()
            invariant
                i <= entries.len(),
                items == item_views(entries@),
                texts(out@) == script_names(items.take(i as int)),
            decreases entries.len() - i,
        {
            let ghost before = texts(out@);
            let ghost kept = items.take(i as int).filter(is_script());
            proof {
                assert(items[i as int] == item_view(entries@[i as int]));
                assert(items.take(i + 1) =~= items.take(i as int).push(items[i as int]));
                items.take(i as int).lemma_filter_push(items[i as int], is_script());
            }
            match &entries[i] {
                Some(item) => {
                    if !item.is_dir {
                        match &item.name {
                            Some(name) => {
                                out.push(name.clone());
                                proof {
                                    assert(texts(out@) =~= before.push(name@));
                                    assert(kept.push(items[i as int]).map_values(script_name())
                                        =~= kept.map_values(script_name()).push(name@));
                                }
                            },
                            None => {},
                        }
                    }
                },
                None => {},
            }
            i += 1;
        }
        assert(items.take(entries.len() as int) =~= items);
        Ok(out)
    }

    /// Today's daily note, for the date written as `date`: the note of that
    /// name where the store has one, else the path at which to make it, in
    /// the directory of the daily notes and with the extension `md`.
    pub fn daily(&self, date: &str) -> (r: Result<DailyNote, SovError>)
        ensures
            r is Ok,
            match self.store().path_of(date@) {
                Some(path) => r->Ok_0@ == DailyView::Existing(path),
                None => r->Ok_0@ == DailyView::Create(
                    with_extension(joined(self.settings().toml.daily_notes_dir, date@), "md"@),
                ),
            },
    {
        match self.db.get_note_by_filename(date) {
            Err(e) => Err(e),
            Ok(Some(path)) => Ok(DailyNote::Existing(path)),
            Ok(None) => {
                let base = join_paths(self.config.toml.daily_notes_dir.as_str(), date);
                proof {
                    reveal_strlit("md");
                }
                Ok(DailyNote::Create(path_with_extension(base.as_str(), "md")))
            },
        }
    }

    /// The path of the script named `script_name`.
    pub fn script_path(&self, script_name: &str) -> (path: String)
        ensures
            path@ == joined(self.settings().toml.scripts_dir, script_name@),
    {
        join_paths(self.config.toml.scripts_dir.as_str(), script_name)
    }

    /// What a run of the script named `script_name` comes to: its output,
    /// or the error for a script that is not there or that failed.
    pub fn script_run(script_name: &str, run: ScriptRun) -> (r: Result<String, SovError>)
        ensures
            match run {
                ScriptRun::Missing => r is Err && r->Err_0@ == ErrorView::ScriptNotFound(
                    script_name@,
                ),
                ScriptRun::Failed => r is Err && r->Err_0@ == ErrorView::ScriptFailed(script_name@),
                ScriptRun::Done(output) => r is Ok && r->Ok_0@ == output@,
            },
    {
        match run {
            ScriptRun::Missing => Err(SovError::ScriptNotFound(script_name.to_owned())),
            ScriptRun::Failed => Err(SovError::ScriptFailed(script_name.to_owned())),
            ScriptRun::Done(output) => Ok(output),
        }
    }

    /// The note that a run of the script named `script_name` makes under
    /// the name `note_name`: its path, in the notes directory and with the
    /// extension `md`, and its text, which is the script's output.
    pub fn script_create(&self, note_name: &str, script_name: &str, run: ScriptRun) -> (r: Result<
        (String, String),
        SovError,
    >)
        ensures
            match run {
                ScriptRun::Missing => r is Err && r->Err_0@ == ErrorView::ScriptNotFound(
                    script_name@,
                ),
                ScriptRun::Failed => r is Err && r->Err_0@ == ErrorView::ScriptFailed(script_name@),
                ScriptRun::Done(output) => r is Ok && r->Ok_0.0@ == with_extension(
                    joined(self.settings().toml.notes_dir, note_name@),
                    "md"@,
                ) && r->Ok_0.1@ == output@,
            },
    {
        let base = join_paths(self.config.toml.notes_dir.as_str(), note_name);
        proof {
            reveal_strlit("md");
        }
        let path = path_with_extension(base.as_str(), "md");
        match Sov::script_run(script_name, run) {
            Ok(content) => Ok((path, content)),
            Err(e) => Err(e),
        }
    }
}

/// One entry of a directory.
#[derive(Debug, PartialEq, Eq)]
pub struct DirItem {
    pub is_dir: bool,
    /// The entry's name, where it is text.
    pub name: Option<String>,
}

/// What could be read of a directory entry, as mathematical values: nothing,
/// or whether it is a directory, and its name where that is text.
pub open spec fn item_view(item: Option<DirItem>) -> Option<(bool, Option<Seq<char>>)> {
    match item {
        Some(i) => Some((i.is_dir, opt_text(i.name))),
        None => None,
    }
}

/// The views of a list of directory entries, in order.
pub open spec fn item_views(items: Seq<Option<DirItem>>) -> Seq<Option<(bool, Option<Seq<char>>)>> {
    items.map_values(|i: Option<DirItem>| item_view(i))
}

/// The test whether a directory entry is a script.
pub open spec fn is_script() -> spec_fn(Option<(bool, Option<Seq<char>>)>) -> bool {
    |i: Option<(bool, Option<Seq<char>>)>| i is Some && !i->Some_0.0 && i->Some_0.1 is Some
}

/// The function that gives the name of a script's directory entry.
pub open spec fn script_name() -> spec_fn(Option<(bool, Option<Seq<char>>)>) -> Seq<char> {
    |i: Option<(bool, Option<Seq<char>>)>| i->Some_0.1->Some_0
}

/// The names of the scripts among the entries of a directory.
pub open spec fn script_names(items: Seq<Option<(bool, Option<Seq<char>>)>>) -> Seq<Seq<char>> {
    items.filter(is_script()).map_values(script_name())
}

/// Today's daily note.
#[derive(Debug, PartialEq, Eq)]
pub enum DailyNote {
    /// The note exists, at this path.
    Existing(String),
    /// The note has to be made, at this path.
    Create(String),
}

/// What a `DailyNote` holds, as mathematical values.
pub enum DailyView {
    Existing(Seq<char>),
    Create(Seq<char>),
}

impl View for DailyNote {
    type V = DailyView;

    open spec fn view(&self) -> DailyView {
        match self {
            DailyNote::Existing(p) => DailyView::Existing(p@),
            DailyNote::Create(p) => DailyView::Create(p@),
        }
    }
}

/// How the run of a script ended.
#[derive(Debug, PartialEq, Eq)]
pub enum ScriptRun {
    /// There is no such script.
    Missing,
    /// The script ended with a failure.
    Failed,
    /// The script ended well, with this output.
    Done(String),
}

} // verus!
