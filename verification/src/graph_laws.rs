//! Laws of the link graph: what holds of every store and every index pass.

use vstd::prelude::*;
use crate::graph::{
    backlinks_of_row, distinct_paths, first_opaque, holds, points_at, row_of, seen_in, DbView,
    RowView,
};
use crate::graph_lemmas::{
    lemma_all_text, lemma_collect_tags_wf, lemma_filter_all, lemma_filter_keeps,
    lemma_flat_map_contains, lemma_keep_seen_wf, lemma_upsert_all_frame, lemma_upsert_all_held,
    lemma_upsert_all_holds, lemma_upsert_all_wf, lemma_upsert_one_wf,
};
use crate::note::{LinkView, NoteView};
use crate::path::PathView;
use crate::text::{lemma_position, position};

verus! {

/// An index pass keeps the store's invariant.
pub proof fn lemma_index_pass_wf(db: DbView, observed: Seq<PathView>, batch: Seq<NoteView>)
    requires
        db.wf(),
        first_opaque(batch, 0) == batch.len(),
    ensures
        db.index_pass(observed, batch).wf(),
{
    lemma_upsert_all_wf(db, batch);
    lemma_keep_seen_wf(db.upsert_all(batch), observed);
    lemma_collect_tags_wf(db.upsert_all(batch).keep_seen(observed));
}

/// After an index pass the known tags are those that some note carries.
pub proof fn lemma_tags_are_carried(db: DbView, observed: Seq<PathView>, batch: Seq<NoteView>)
    requires
        db.wf(),
        first_opaque(batch, 0) == batch.len(),
    ensures
        forall|t: Seq<char>| #[trigger]
            db.index_pass(observed, batch).tags.contains(t) <==> db.index_pass(
                observed,
                batch,
            ).carries(t),
{
    lemma_upsert_all_wf(db, batch);
    lemma_keep_seen_wf(db.upsert_all(batch), observed);
    let seen = db.upsert_all(batch).keep_seen(observed);
    lemma_collect_tags_wf(seen);
    let after = db.index_pass(observed, batch);
    assert forall|t: Seq<char>| #[trigger] after.tags.contains(t) <==> after.carries(t) by {
        if seen.carries(t) {
            let k = choose|k: int| 0 <= k < seen.notes.len() && (#[trigger] seen.notes[k]).tags.contains(t);
            assert(after.notes[k].tags.contains(t));
        }
        if after.carries(t) {
            let k = choose|k: int| 0 <= k < after.notes.len() && (#[trigger] after.notes[k]).tags.contains(t);
            assert(seen.notes[k].tags.contains(t));
        }
    }
}

/// Idempotence of indexing. After an index pass, a second pass over the
/// same tree, in which the same paths are seen and every note that is
/// parsed again is held by the store as it is, leaves the store as the
/// first pass left it. In particular this holds when nothing is parsed
/// again.
pub proof fn lemma_second_pass_changes_nothing(
    db: DbView,
    observed: Seq<PathView>,
    first: Seq<NoteView>,
    second: Seq<NoteView>,
)
    requires
        db.wf(),
        first_opaque(first, 0) == first.len(),
        forall|k: int|
            0 <= k < second.len() ==> holds(db.index_pass(observed, first), #[trigger] second[k]),
    ensures
        db.index_pass(observed, first).index_pass(observed, second) == db.index_pass(
            observed,
            first,
        ),
{
    let once = db.index_pass(observed, first);
    lemma_index_pass_wf(db, observed, first);
    lemma_upsert_all_held(once, second);
    let stored = db.upsert_all(first);
    lemma_upsert_all_wf(db, first);
    lemma_keep_seen_wf(stored, observed);
    let seen = stored.keep_seen(observed);
    assert(once.notes == seen.notes);
    assert forall|i: int| 0 <= i < once.notes.len() implies seen_in(observed)(
        #[trigger] once.notes[i],
    ) by {
        assert(seen.notes.contains(once.notes[i]));
    }
    lemma_filter_all(once.notes, seen_in(observed));
    assert(once.keep_seen(observed) == once);
    lemma_collect_tags_wf(seen);
    assert forall|i: int| 0 <= i < once.tags.len() implies once.in_use()(#[trigger] once.tags[i]) by {
        assert(once.tags.contains(once.tags[i]));
        assert(seen.carries(once.tags[i]));
        let k = choose|k: int|
            0 <= k < seen.notes.len() && (#[trigger] seen.notes[k]).tags.contains(once.tags[i]);
        assert(once.notes[k].tags.contains(once.tags[i]));
    }
    lemma_filter_all(once.tags, once.in_use());
    assert(once.collect_tags() == once);
}

/// After an index pass the store holds every note that the pass parsed
/// and saw, where no two of the parsed notes share a path.
pub proof fn lemma_pass_holds_its_batch(
    db: DbView,
    observed: Seq<PathView>,
    batch: Seq<NoteView>,
    k: int,
)
    requires
        db.wf(),
        first_opaque(batch, 0) == batch.len(),
        distinct_paths(batch),
        0 <= k < batch.len(),
        observed.contains(batch[k].path),
    ensures
        holds(db.index_pass(observed, batch), batch[k]),
{
    let stored = db.upsert_all(batch);
    lemma_upsert_all_holds(db, batch, k);
    lemma_upsert_all_wf(db, batch);
    lemma_keep_seen_wf(stored, observed);
    lemma_all_text(batch, 0);
    let i = choose|i: int|
        0 <= i < stored.notes.len() && #[trigger] stored.notes[i] == row_of(
            batch[k],
            stored.notes[i].filename,
        );
    let row = stored.notes[i];
    assert(stored.notes.contains(row));
    assert(PathView::Text(row.path) == batch[k].path);
    let after = db.index_pass(observed, batch);
    assert(after.notes.contains(row));
    let m = choose|m: int| 0 <= m < after.notes.len() && after.notes[m] == row;
    assert(after.notes[m] == row_of(batch[k], after.notes[m].filename));
}

/// Idempotence of indexing, for a pass that is run again as it was: with
/// the same paths seen and the same notes parsed, none of them twice, the
/// second pass leaves the store as the first pass left it.
pub proof fn lemma_index_pass_is_idempotent(
    db: DbView,
    observed: Seq<PathView>,
    batch: Seq<NoteView>,
)
    requires
        db.wf(),
        first_opaque(batch, 0) == batch.len(),
        distinct_paths(batch),
        forall|k: int| 0 <= k < batch.len() ==> observed.contains((#[trigger] batch[k]).path),
    ensures
        db.index_pass(observed, batch).index_pass(observed, batch) == db.index_pass(
            observed,
            batch,
        ),
{
    assert forall|k: int| 0 <= k < batch.len() implies holds(
        db.index_pass(observed, batch),
        #[trigger] batch[k],
    ) by {
        lemma_pass_holds_its_batch(db, observed, batch, k);
    }
    lemma_second_pass_changes_nothing(db, observed, batch, batch);
}

/// The tags after a note is stored again and the unused tags are
/// forgotten: exactly the tags that the note names now and the tags that
/// another note carries. A tag that the note named before and names no
/// more is gone unless another note carries it.
pub proof fn lemma_tags_after_restoring(db: DbView, note: NoteView)
    requires
        db.wf(),
        note.path is Text,
    ensures
        forall|t: Seq<char>| #[trigger]
            db.upsert_one(note).collect_tags().tags.contains(t) <==> note.yaml.tags.contains(t)
                || exists|i: int|
                0 <= i < db.notes.len() && (#[trigger] db.notes[i]).path != note.path->Text_0
                    && db.notes[i].tags.contains(t),
{
    let path = note.path->Text_0;
    let stored = db.upsert_one(note);
    let after = stored.collect_tags();
    lemma_upsert_one_wf(db, note);
    lemma_collect_tags_wf(stored);
    let at = position(db.paths(), path, 0);
    lemma_position(db.paths(), path, 0);
    assert forall|t: Seq<char>| #[trigger]
        after.tags.contains(t) <==> note.yaml.tags.contains(t) || exists|i: int|
            0 <= i < db.notes.len() && (#[trigger] db.notes[i]).path != path
                && db.notes[i].tags.contains(t) by {
        if stored.carries(t) {
            let k = choose|k: int| 0 <= k < stored.notes.len() && (#[trigger] stored.notes[k]).tags.contains(t);
            if k != at {
                assert(stored.notes[k] == db.notes[k]);
                assert(db.paths()[k] == db.notes[k].path);
                if at < db.notes.len() {
                    assert(db.paths()[at] == path);
                }
                assert(db.notes[k].path != path);
            }
        }
        if note.yaml.tags.contains(t) {
            assert(stored.notes[at].tags.contains(t));
        }
        if exists|i: int|
            0 <= i < db.notes.len() && (#[trigger] db.notes[i]).path != path
                && db.notes[i].tags.contains(t) {
            let i = choose|i: int|
                0 <= i < db.notes.len() && (#[trigger] db.notes[i]).path != path
                    && db.notes[i].tags.contains(t);
            assert(db.paths()[i] == db.notes[i].path);
            assert(i != at);
            assert(stored.notes[i] == db.notes[i]);
            assert(stored.notes[i].tags.contains(t));
        }
    }
}

/// A note whose path an index pass did not see is not in the store after
/// the pass.
pub proof fn lemma_unseen_note_leaves(
    db: DbView,
    observed: Seq<PathView>,
    batch: Seq<NoteView>,
    path: Seq<char>,
)
    requires
        db.wf(),
        first_opaque(batch, 0) == batch.len(),
        !observed.contains(PathView::Text(path)),
    ensures
        !db.index_pass(observed, batch).paths().contains(path),
{
    lemma_upsert_all_wf(db, batch);
    let stored = db.upsert_all(batch);
    lemma_keep_seen_wf(stored, observed);
    let after = db.index_pass(observed, batch);
    if after.paths().contains(path) {
        let k = choose|k: int| 0 <= k < after.paths().len() && after.paths()[k] == path;
        assert(after.notes[k].path == path);
        assert(stored.keep_seen(observed).notes.contains(after.notes[k]));
    }
}

/// A note that an index pass saw and did not parse stays in the store as
/// it is.
pub proof fn lemma_untouched_note_stays(
    db: DbView,
    observed: Seq<PathView>,
    batch: Seq<NoteView>,
    row: RowView,
)
    requires
        db.wf(),
        first_opaque(batch, 0) == batch.len(),
        db.notes.contains(row),
        observed.contains(PathView::Text(row.path)),
        forall|k: int| 0 <= k < batch.len() ==> (#[trigger] batch[k]).path != PathView::Text(row.path),
    ensures
        db.index_pass(observed, batch).notes.contains(row),
{
    lemma_upsert_all_frame(db, batch, row);
    lemma_upsert_all_wf(db, batch);
    lemma_keep_seen_wf(db.upsert_all(batch), observed);
}

/// Deletion. Let a note hold a link to the name `target`, and let the next
/// index pass parse nothing, see the note, and see none of the notes
/// named `target`. After the pass no note is named `target`, and the link
/// is among the dead links, with the path of its note.
pub proof fn lemma_link_to_deleted_note_is_dead(
    db: DbView,
    observed: Seq<PathView>,
    i: int,
    j: int,
)
    requires
        db.wf(),
        0 <= i < db.notes.len(),
        0 <= j < db.notes[i].links.len(),
        observed.contains(PathView::Text(db.notes[i].path)),
        forall|k: int|
            0 <= k < db.notes.len() && (#[trigger] db.notes[k]).filename == db.notes[i].links[j].value
                ==> !observed.contains(PathView::Text(db.notes[k].path)),
    ensures
        !db.index_pass(observed, Seq::empty()).is_note(db.notes[i].links[j].value),
        db.index_pass(observed, Seq::empty()).dead_links().contains(
            (db.notes[i].path, db.notes[i].links[j].value),
        ),
{
    let none = Seq::<NoteView>::empty();
    let after = db.index_pass(observed, none);
    let row = db.notes[i];
    let target = row.links[j].value;
    assert(db.notes.contains(row));
    lemma_untouched_note_stays(db, observed, none, row);
    lemma_keep_seen_wf(db, observed);
    assert(db.upsert_all(none) == db);
    if after.is_note(target) {
        let k = choose|k: int| 0 <= k < after.filenames().len() && after.filenames()[k] == target;
        assert(after.notes[k].filename == target);
        assert(db.keep_seen(observed).notes.contains(after.notes[k]));
        let m = choose|m: int| 0 <= m < db.notes.len() && db.notes[m] == after.notes[k];
        assert(!observed.contains(PathView::Text(db.notes[m].path)));
    }
    let a = choose|a: int| 0 <= a < after.notes.len() && after.notes[a] == row;
    lemma_dead_links(after, (row.path, target));
    assert(after.notes[a].links[j].value == target);
}

/// Dead links. A link is among the store's dead links, with the path of
/// its note, exactly when no note has the name it points at; and nothing
/// else is among them.
pub proof fn lemma_dead_links(db: DbView, pair: (Seq<char>, Seq<char>))
    ensures
        db.dead_links().contains(pair) <==> exists|i: int, j: int|
            0 <= i < db.notes.len() && 0 <= j < db.notes[i].links.len() && pair == (
                db.notes[i].path,
                (#[trigger] db.notes[i].links[j]).value,
            ) && !db.is_note(db.notes[i].links[j].value),
{
    let f = db.dead_of_row();
    lemma_flat_map_contains(db.notes, f, pair);
    if db.dead_links().contains(pair) {
        let i = choose|i: int| 0 <= i < db.notes.len() && (#[trigger] f(db.notes[i])).contains(pair);
        let r = db.notes[i];
        let dead = r.links.filter(db.dangling());
        lemma_filter_keeps(r.links, db.dangling());
        let found = f(r);
        let k = choose|k: int| 0 <= k < found.len() && found[k] == pair;
        assert(dead.contains(dead[k]));
        let j = choose|j: int| 0 <= j < r.links.len() && r.links[j] == dead[k];
        assert(pair == (db.notes[i].path, db.notes[i].links[j].value));
    }
    if exists|i: int, j: int|
        0 <= i < db.notes.len() && 0 <= j < db.notes[i].links.len() && pair == (
            db.notes[i].path,
            (#[trigger] db.notes[i].links[j]).value,
        ) && !db.is_note(db.notes[i].links[j].value) {
        let (i, j) = choose|i: int, j: int|
            0 <= i < db.notes.len() && 0 <= j < db.notes[i].links.len() && pair == (
                db.notes[i].path,
                (#[trigger] db.notes[i].links[j]).value,
            ) && !db.is_note(db.notes[i].links[j].value);
        let r = db.notes[i];
        let dead = r.links.filter(db.dangling());
        lemma_filter_keeps(r.links, db.dangling());
        assert(r.links.contains(r.links[j]));
        assert(dead.contains(r.links[j]));
        let k = choose|k: int| 0 <= k < dead.len() && dead[k] == r.links[j];
        assert(f(r)[k] == pair);
        assert(f(db.notes[i]).contains(pair));
    }
}

/// Orphans. With distinct paths, a note's path is among the orphans
/// exactly when no link of any note points at the note's name. So a note
/// that nothing links to is an orphan, and it is one no longer once a link
/// points at its name.
pub proof fn lemma_orphans(db: DbView, i: int)
    requires
        db.wf(),
        0 <= i < db.notes.len(),
    ensures
        db.orphans().contains(db.notes[i].path) <==> !db.is_target(db.notes[i].filename),
{
    let keep = db.unlinked();
    let kept = db.notes.filter(keep);
    lemma_filter_keeps(db.notes, keep);
    let r = db.notes[i];
    assert(db.notes.contains(r));
    if db.orphans().contains(r.path) {
        let k = choose|k: int| 0 <= k < db.orphans().len() && db.orphans()[k] == r.path;
        assert(kept.contains(kept[k]));
        let m = choose|m: int| 0 <= m < db.notes.len() && db.notes[m] == kept[k];
        assert(db.paths()[m] == db.notes[m].path);
        assert(db.paths()[i] == r.path);
        assert(m == i);
    }
    if !db.is_target(r.filename) {
        assert(kept.contains(r));
        let k = choose|k: int| 0 <= k < kept.len() && kept[k] == r;
        assert(db.orphans()[k] == r.path);
    }
}

/// A note is an orphan no longer once a note is stored that links to it.
pub proof fn lemma_linked_note_is_no_orphan(db: DbView, note: NoteView, c: int, j: int)
    requires
        db.wf(),
        note.path is Text,
        0 <= c < db.notes.len(),
        db.notes[c].path != note.path->Text_0,
        0 <= j < note.links.len(),
        note.links[j].value == db.notes[c].filename,
    ensures
        !db.upsert_one(note).orphans().contains(db.notes[c].path),
{
    let path = note.path->Text_0;
    let after = db.upsert_one(note);
    let at = position(db.paths(), path, 0);
    lemma_position(db.paths(), path, 0);
    lemma_upsert_one_wf(db, note);
    if at < db.notes.len() {
        assert(db.paths()[at] == db.notes[at].path);
    }
    assert(after.notes[c] == db.notes[c]);
    assert(after.notes[at].links[j].value == db.notes[c].filename);
    assert(after.is_target(db.notes[c].filename));
    lemma_orphans(after, c);
}

/// Backlinks. Every link of every note is among the backlinks of the name
/// it points at, with the path of its note and as it stands in the note;
/// and the backlinks of a name hold nothing but such links.
pub proof fn lemma_backlinks(db: DbView, target: Seq<char>, pair: (Seq<char>, LinkView))
    ensures
        db.backlinks(target).contains(pair) <==> exists|i: int, j: int|
            0 <= i < db.notes.len() && 0 <= j < db.notes[i].links.len() && pair == (
                db.notes[i].path,
                #[trigger] db.notes[i].links[j],
            ) && db.notes[i].links[j].value == target,
{
    let f = backlinks_of_row(target);
    let hit = points_at(target);
    lemma_flat_map_contains(db.notes, f, pair);
    if db.backlinks(target).contains(pair) {
        let i = choose|i: int| 0 <= i < db.notes.len() && (#[trigger] f(db.notes[i])).contains(pair);
        let r = db.notes[i];
        let hits = r.links.filter(hit);
        lemma_filter_keeps(r.links, hit);
        let found = f(r);
        let k = choose|k: int| 0 <= k < found.len() && found[k] == pair;
        assert(hits.contains(hits[k]));
        let j = choose|j: int| 0 <= j < r.links.len() && r.links[j] == hits[k];
        assert(pair == (db.notes[i].path, db.notes[i].links[j]));
    }
    if exists|i: int, j: int|
        0 <= i < db.notes.len() && 0 <= j < db.notes[i].links.len() && pair == (
            db.notes[i].path,
            #[trigger] db.notes[i].links[j],
        ) && db.notes[i].links[j].value == target {
        let (i, j) = choose|i: int, j: int|
            0 <= i < db.notes.len() && 0 <= j < db.notes[i].links.len() && pair == (
                db.notes[i].path,
                #[trigger] db.notes[i].links[j],
            ) && db.notes[i].links[j].value == target;
        let r = db.notes[i];
        let hits = r.links.filter(hit);
        lemma_filter_keeps(r.links, hit);
        assert(r.links.contains(r.links[j]));
        assert(hits.contains(r.links[j]));
        let k = choose|k: int| 0 <= k < hits.len() && hits[k] == r.links[j];
        assert(f(r)[k] == pair);
        assert(f(db.notes[i]).contains(pair));
    }
}

} // verus!
