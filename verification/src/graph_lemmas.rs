//! Lemmas on the link graph that the store and the laws rest on.

use vstd::prelude::*;
use crate::graph::{
    distinct_paths, first_opaque, holds, row_of, row_path, seen_in, with_tags, DbView, RowView,
};
use crate::note::NoteView;
use crate::path::PathView;
use crate::text::{lemma_position, position};

verus! {

/// A member of a flattened map comes from one of the mapped items, and
/// every member of a mapped item is a member of the whole.
pub proof fn lemma_flat_map_contains<A, B>(s: Seq<A>, f: spec_fn(A) -> Seq<B>, x: B)
    ensures
        s.flat_map(f).contains(x) <==> exists|i: int| 0 <= i < s.len() && (#[trigger] f(s[i])).contains(x),
    decreases s.len(),
{
    if s.len() == 0 {
        assert(s.flat_map(f) =~= Seq::empty());
    } else {
        let rest = s.drop_last();
        let last = s.last();
        assert(s =~= rest.push(last));
        rest.lemma_flat_map_push(f, last);
        lemma_flat_map_contains(rest, f, x);
        let whole = s.flat_map(f);
        let front = rest.flat_map(f);
        assert(whole =~= front + f(last));
        if whole.contains(x) {
            let k = choose|k: int| 0 <= k < whole.len() && whole[k] == x;
            if k < front.len() {
                assert(front[k] == x);
                let i = choose|i: int| 0 <= i < rest.len() && (#[trigger] f(rest[i])).contains(x);
                assert(f(s[i]).contains(x));
            } else {
                assert(f(last)[k - front.len()] == x);
                assert(f(s[s.len() - 1]).contains(x));
            }
        }
        if exists|i: int| 0 <= i < s.len() && (#[trigger] f(s[i])).contains(x) {
            let i = choose|i: int| 0 <= i < s.len() && (#[trigger] f(s[i])).contains(x);
            if i < rest.len() {
                assert(f(rest[i]).contains(x));
                let k = choose|k: int| 0 <= k < front.len() && front[k] == x;
                assert(whole[k] == x);
            } else {
                let tail = f(last);
                let k = choose|k: int| 0 <= k < tail.len() && tail[k] == x;
                assert(whole[front.len() + k] == x);
            }
        }
    }
}

/// Where every member passes the test, the filter keeps all.
pub proof fn lemma_filter_all<A>(s: Seq<A>, keep: spec_fn(A) -> bool)
    requires
        forall|i: int| 0 <= i < s.len() ==> keep(#[trigger] s[i]),
    ensures
        s.filter(keep) == s,
    decreases s.len(),
{
    reveal(Seq::filter);
    if s.len() > 0 {
        lemma_filter_all(s.drop_last(), keep);
        assert(s.drop_last().push(s.last()) =~= s);
    }
}

/// What `with_tags` keeps and adds.
pub proof fn lemma_with_tags(known: Seq<Seq<char>>, named: Seq<Seq<char>>)
    requires
        known.no_duplicates(),
    ensures
        with_tags(known, named).no_duplicates(),
        forall|t: Seq<char>| #[trigger]
            with_tags(known, named).contains(t) <==> known.contains(t) || named.contains(t),
        known.len() <= with_tags(known, named).len(),
        with_tags(known, named).take(known.len() as int) == known,
    decreases named.len(),
{
    let all = with_tags(known, named);
    if named.len() == 0 {
        assert(all.take(known.len() as int) =~= known);
    } else {
        let rest = named.drop_last();
        let before = with_tags(known, rest);
        lemma_with_tags(known, rest);
        assert forall|t: Seq<char>| #[trigger]
            all.contains(t) <==> known.contains(t) || named.contains(t) by {
            if named.contains(t) {
                let k = choose|k: int| 0 <= k < named.len() && named[k] == t;
                if k < named.len() - 1 {
                    assert(rest[k] == t);
                }
            }
            if rest.contains(t) {
                let k = choose|k: int| 0 <= k < rest.len() && rest[k] == t;
                assert(named[k] == t);
            }
            if !before.contains(named.last()) {
                assert(all[all.len() - 1] == named.last());
                if before.contains(t) {
                    let k = choose|k: int| 0 <= k < before.len() && before[k] == t;
                    assert(all[k] == t);
                }
            }
        }
        assert(all.take(known.len() as int) =~= before.take(known.len() as int));
    }
}

/// Storing a note keeps the store's invariant.
pub proof fn lemma_upsert_one_wf(db: DbView, note: NoteView)
    requires
        db.wf(),
        note.path is Text,
    ensures
        db.upsert_one(note).wf(),
{
    let path = note.path->Text_0;
    let after = db.upsert_one(note);
    let at = position(db.paths(), path, 0);
    lemma_position(db.paths(), path, 0);
    lemma_with_tags(db.tags, note.yaml.tags);
    if at < db.notes.len() {
        assert(after.paths() =~= db.paths());
    } else {
        assert(after.paths() =~= db.paths().push(path));
    }
    assert forall|i: int, j: int|
        0 <= i < after.notes.len() && 0 <= j < after.notes[i].tags.len() implies after.tags.contains(
        #[trigger] after.notes[i].tags[j],
    ) by {
        let t = after.notes[i].tags[j];
        if i == at {
            assert(note.yaml.tags[j] == t);
        } else {
            assert(db.notes[i].tags[j] == t);
            assert(db.tags.contains(t));
        }
    }
}

/// Storing a batch of notes keeps the store's invariant.
pub proof fn lemma_upsert_all_wf(db: DbView, notes: Seq<NoteView>)
    requires
        db.wf(),
        first_opaque(notes, 0) == notes.len(),
    ensures
        db.upsert_all(notes).wf(),
    decreases notes.len(),
{
    if notes.len() > 0 {
        lemma_all_text(notes, 0);
        assert forall|k: int| 0 <= k < notes.len() - 1 implies (#[trigger] notes.drop_last()[k]).path is Text by {
            assert(notes.drop_last()[k] == notes[k]);
        }
        lemma_text_is_all(notes.drop_last(), 0);
        lemma_upsert_all_wf(db, notes.drop_last());
        lemma_upsert_one_wf(db.upsert_all(notes.drop_last()), notes.last());
    }
}

/// `first_opaque` lands on the first path that is not text, or on the end.
pub proof fn lemma_all_text(notes: Seq<NoteView>, from: int)
    requires
        0 <= from <= notes.len(),
    ensures
        from <= first_opaque(notes, from) <= notes.len(),
        first_opaque(notes, from) < notes.len() ==> notes[first_opaque(notes, from)].path is Opaque,
        forall|k: int| from <= k < first_opaque(notes, from) ==> (#[trigger] notes[k]).path is Text,
    decreases notes.len() - from,
{
    if from < notes.len() && !(notes[from].path is Opaque) {
        lemma_all_text(notes, from + 1);
    }
}

/// Where every path from `from` on is text, `first_opaque` finds none.
pub proof fn lemma_text_is_all(notes: Seq<NoteView>, from: int)
    requires
        0 <= from <= notes.len(),
        forall|k: int| from <= k < notes.len() ==> (#[trigger] notes[k]).path is Text,
    ensures
        first_opaque(notes, from) == notes.len(),
    decreases notes.len() - from,
{
    if from < notes.len() {
        assert(notes[from].path is Text);
        lemma_text_is_all(notes, from + 1);
    }
}

/// Taking a note out keeps the store's invariant.
pub proof fn lemma_remove_path_wf(db: DbView, path: Seq<char>)
    requires
        db.wf(),
    ensures
        db.remove_path(path).wf(),
{
    let at = position(db.paths(), path, 0);
    lemma_position(db.paths(), path, 0);
    if at < db.notes.len() {
        let after = db.remove_path(path);
        assert(after.paths() =~= db.paths().remove(at));
        assert forall|i: int, j: int|
            0 <= i < after.notes.len() && 0 <= j < after.notes[i].tags.len() implies after.tags.contains(
            #[trigger] after.notes[i].tags[j],
        ) by {
            let k = if i < at { i } else { i + 1 };
            assert(after.notes[i] == db.notes[k]);
            assert(db.tags.contains(db.notes[k].tags[j]));
        }
    }
}

/// Forgetting the unused tags keeps the store's invariant, and the tags
/// left are those that some note carries.
pub proof fn lemma_collect_tags_wf(db: DbView)
    requires
        db.wf(),
    ensures
        db.collect_tags().wf(),
        forall|t: Seq<char>| #[trigger] db.collect_tags().tags.contains(t) <==> db.carries(t),
{
    let after = db.collect_tags();
    let used = db.in_use();
    lemma_filter_keeps(db.tags, used);
    assert forall|t: Seq<char>| #[trigger] after.tags.contains(t) <==> db.carries(t) by {
        if db.carries(t) {
            let i = choose|i: int| 0 <= i < db.notes.len() && (#[trigger] db.notes[i]).tags.contains(t);
            let j = choose|j: int| 0 <= j < db.notes[i].tags.len() && db.notes[i].tags[j] == t;
            assert(db.tags.contains(db.notes[i].tags[j]));
            assert(used(t));
        }
    }
    assert forall|i: int, j: int|
        0 <= i < after.notes.len() && 0 <= j < after.notes[i].tags.len() implies after.tags.contains(
        #[trigger] after.notes[i].tags[j],
    ) by {
        let t = after.notes[i].tags[j];
        assert(db.notes[i].tags.contains(t));
        assert(db.carries(t));
    }
}

/// What a filter keeps: the members that pass the test, each as often as
/// before and in the same order.
pub proof fn lemma_filter_keeps<A>(s: Seq<A>, keep: spec_fn(A) -> bool)
    ensures
        forall|x: A| #[trigger] s.filter(keep).contains(x) <==> s.contains(x) && keep(x),
        s.no_duplicates() ==> s.filter(keep).no_duplicates(),
    decreases s.len(),
{
    reveal(Seq::filter);
    if s.len() > 0 {
        let rest = s.drop_last();
        lemma_filter_keeps(rest, keep);
        let out = s.filter(keep);
        assert forall|x: A| #[trigger] out.contains(x) <==> s.contains(x) && keep(x) by {
            if s.contains(x) {
                let k = choose|k: int| 0 <= k < s.len() && s[k] == x;
                if k < s.len() - 1 {
                    assert(rest[k] == x);
                }
            }
            if rest.contains(x) {
                let k = choose|k: int| 0 <= k < rest.len() && rest[k] == x;
                assert(s[k] == x);
            }
            if keep(s.last()) {
                assert(out[out.len() - 1] == s.last());
                if rest.filter(keep).contains(x) {
                    let k = choose|k: int| 0 <= k < rest.filter(keep).len() && rest.filter(keep)[k] == x;
                    assert(out[k] == x);
                }
            }
        }
        if s.no_duplicates() {
            assert forall|a: int, b: int| 0 <= a < rest.len() && 0 <= b < rest.len() && a != b implies rest[a] != rest[b] by {
                assert(rest[a] == s[a] && rest[b] == s[b]);
            }
            if keep(s.last()) {
                if rest.filter(keep).contains(s.last()) {
                    let k = choose|k: int| 0 <= k < rest.len() && rest[k] == s.last();
                    assert(s[k] == s[s.len() - 1]);
                }
            }
        }
    }
}

/// Keeping the notes that were seen keeps the store's invariant; the notes
/// that stay were there before, and each was seen.
pub proof fn lemma_keep_seen_wf(db: DbView, observed: Seq<PathView>)
    requires
        db.wf(),
    ensures
        db.keep_seen(observed).wf(),
        forall|r: RowView| #[trigger]
            db.keep_seen(observed).notes.contains(r) <==> db.notes.contains(r) && observed.contains(
                PathView::Text(r.path),
            ),
{
    let keep = seen_in(observed);
    let after = db.keep_seen(observed);
    lemma_filter_keeps(db.notes, keep);
    lemma_filter_rows(db.notes, keep);
    assert(after.paths() =~= db.notes.filter(keep).map_values(row_path()));
    assert forall|i: int, j: int|
        0 <= i < after.notes.len() && 0 <= j < after.notes[i].tags.len() implies after.tags.contains(
        #[trigger] after.notes[i].tags[j],
    ) by {
        assert(after.notes.contains(after.notes[i]));
        let k = choose|k: int| 0 <= k < db.notes.len() && db.notes[k] == after.notes[i];
        assert(db.tags.contains(db.notes[k].tags[j]));
    }
}

/// A filter on rows with distinct paths leaves rows with distinct paths.
pub proof fn lemma_filter_rows(rows: Seq<RowView>, keep: spec_fn(RowView) -> bool)
    requires
        rows.map_values(row_path()).no_duplicates(),
    ensures
        rows.filter(keep).map_values(row_path()).no_duplicates(),
    decreases rows.len(),
{
    reveal(Seq::filter);
    if rows.len() > 0 {
        let rest = rows.drop_last();
        let last = rows.last();
        let paths = rows.map_values(row_path());
        assert forall|a: int, b: int|
            0 <= a < rest.len() && 0 <= b < rest.len() && a != b implies rest.map_values(row_path())[a]
            != rest.map_values(row_path())[b] by {
            assert(paths[a] == rest[a].path && paths[b] == rest[b].path);
        }
        lemma_filter_rows(rest, keep);
        lemma_filter_keeps(rest, keep);
        let kept = rest.filter(keep);
        if keep(last) {
            let out = kept.push(last);
            assert forall|a: int, b: int|
                0 <= a < out.len() && 0 <= b < out.len() && a != b implies out.map_values(row_path())[a]
                != out.map_values(row_path())[b] by {
                if a < kept.len() && b < kept.len() {
                    assert(kept.map_values(row_path())[a] != kept.map_values(row_path())[b]);
                } else {
                    let c = if a < kept.len() { a } else { b };
                    assert(kept.contains(kept[c]));
                    let k = choose|k: int| 0 <= k < rest.len() && rest[k] == kept[c];
                    assert(paths[k] == kept[c].path);
                    assert(paths[rows.len() - 1] == last.path);
                }
            }
        }
    }
}

/// Naming tags that are all known changes nothing.
pub proof fn lemma_with_known_tags(known: Seq<Seq<char>>, named: Seq<Seq<char>>)
    requires
        forall|j: int| 0 <= j < named.len() ==> known.contains(#[trigger] named[j]),
    ensures
        with_tags(known, named) == known,
    decreases named.len(),
{
    if named.len() > 0 {
        assert forall|j: int| 0 <= j < named.drop_last().len() implies known.contains(
            #[trigger] named.drop_last()[j],
        ) by {
            assert(named.drop_last()[j] == named[j]);
        }
        lemma_with_known_tags(known, named.drop_last());
        assert(known.contains(named[named.len() - 1]));
    }
}

/// Storing a note that the store holds already changes nothing.
pub proof fn lemma_upsert_held(db: DbView, note: NoteView)
    requires
        db.wf(),
        holds(db, note),
    ensures
        db.upsert_one(note) == db,
{
    let i = choose|i: int|
        0 <= i < db.notes.len() && #[trigger] db.notes[i] == row_of(note, db.notes[i].filename);
    let path = note.path->Text_0;
    let paths = db.paths();
    assert(paths[i] == path);
    lemma_position(paths, path, 0);
    let at = position(paths, path, 0);
    assert(at == i) by {
        if at != i {
            assert(paths[at] == paths[i]);
        }
    }
    assert forall|j: int| 0 <= j < note.yaml.tags.len() implies db.tags.contains(
        #[trigger] note.yaml.tags[j],
    ) by {
        assert(db.notes[i].tags[j] == note.yaml.tags[j]);
    }
    lemma_with_known_tags(db.tags, note.yaml.tags);
    assert(db.notes.update(at, db.notes[i]) =~= db.notes);
}

/// Storing a batch of notes that the store holds already changes nothing.
pub proof fn lemma_upsert_all_held(db: DbView, batch: Seq<NoteView>)
    requires
        db.wf(),
        forall|k: int| 0 <= k < batch.len() ==> holds(db, #[trigger] batch[k]),
    ensures
        db.upsert_all(batch) == db,
    decreases batch.len(),
{
    if batch.len() > 0 {
        assert forall|k: int| 0 <= k < batch.drop_last().len() implies holds(
            db,
            #[trigger] batch.drop_last()[k],
        ) by {
            assert(batch.drop_last()[k] == batch[k]);
        }
        lemma_upsert_all_held(db, batch.drop_last());
        assert(holds(db, batch[batch.len() - 1]));
        lemma_upsert_held(db, batch.last());
    }
}

/// After a note is stored, the store holds it.
pub proof fn lemma_upsert_one_holds(db: DbView, note: NoteView)
    requires
        note.path is Text,
    ensures
        holds(db.upsert_one(note), note),
{
    let path = note.path->Text_0;
    let at = position(db.paths(), path, 0);
    lemma_position(db.paths(), path, 0);
    let after = db.upsert_one(note);
    assert(after.notes[at] == row_of(note, after.notes[at].filename));
}

/// Storing a note at another path leaves a note that the store holds held.
pub proof fn lemma_upsert_one_keeps_held(db: DbView, note: NoteView, held: NoteView)
    requires
        note.path is Text,
        holds(db, held),
        held.path != note.path,
    ensures
        holds(db.upsert_one(note), held),
{
    let i = choose|i: int|
        0 <= i < db.notes.len() && #[trigger] db.notes[i] == row_of(held, db.notes[i].filename);
    let path = note.path->Text_0;
    let at = position(db.paths(), path, 0);
    lemma_position(db.paths(), path, 0);
    if at < db.notes.len() {
        assert(db.paths()[at] == db.notes[at].path);
    }
    let after = db.upsert_one(note);
    assert(after.notes[i] == row_of(held, after.notes[i].filename));
}

/// After a batch of notes with distinct paths is stored, the store holds
/// each of them.
pub proof fn lemma_upsert_all_holds(db: DbView, batch: Seq<NoteView>, k: int)
    requires
        first_opaque(batch, 0) == batch.len(),
        distinct_paths(batch),
        0 <= k < batch.len(),
    ensures
        holds(db.upsert_all(batch), batch[k]),
    decreases batch.len(),
{
    let rest = batch.drop_last();
    lemma_all_text(batch, 0);
    assert(batch[batch.len() - 1].path is Text);
    if k == batch.len() - 1 {
        lemma_upsert_one_holds(db.upsert_all(rest), batch.last());
    } else {
        assert forall|a: int| 0 <= a < rest.len() implies (#[trigger] rest[a]).path is Text by {
            assert(rest[a] == batch[a]);
        }
        lemma_text_is_all(rest, 0);
        assert forall|a: int, b: int|
            0 <= a < rest.len() && 0 <= b < rest.len() && a != b implies (#[trigger] rest[a]).path
            != (#[trigger] rest[b]).path by {
            assert(rest[a] == batch[a] && rest[b] == batch[b]);
        }
        lemma_upsert_all_holds(db, rest, k);
        assert(rest[k] == batch[k]);
        lemma_upsert_one_keeps_held(db.upsert_all(rest), batch.last(), batch[k]);
    }
}

/// Storing a note leaves the rows at other paths as they are.
pub proof fn lemma_upsert_one_frame(db: DbView, note: NoteView, row: RowView)
    requires
        note.path is Text,
        db.notes.contains(row),
        row.path != note.path->Text_0,
    ensures
        db.upsert_one(note).notes.contains(row),
{
    let path = note.path->Text_0;
    let at = position(db.paths(), path, 0);
    lemma_position(db.paths(), path, 0);
    let k = choose|k: int| 0 <= k < db.notes.len() && db.notes[k] == row;
    if at < db.notes.len() {
        assert(db.paths()[at] == db.notes[at].path);
        assert(k != at);
    }
    assert(db.upsert_one(note).notes[k] == row);
}

/// Storing a batch of notes leaves the rows at other paths as they are.
pub proof fn lemma_upsert_all_frame(db: DbView, batch: Seq<NoteView>, row: RowView)
    requires
        first_opaque(batch, 0) == batch.len(),
        db.notes.contains(row),
        forall|k: int| 0 <= k < batch.len() ==> (#[trigger] batch[k]).path != PathView::Text(row.path),
    ensures
        db.upsert_all(batch).notes.contains(row),
    decreases batch.len(),
{
    if batch.len() > 0 {
        let rest = batch.drop_last();
        lemma_all_text(batch, 0);
        assert forall|k: int| 0 <= k < rest.len() implies (#[trigger] rest[k]).path is Text
            && rest[k].path != PathView::Text(row.path) by {
            assert(rest[k] == batch[k]);
        }
        lemma_text_is_all(rest, 0);
        lemma_upsert_all_frame(db, rest, row);
        assert(batch[batch.len() - 1].path is Text);
        lemma_upsert_one_frame(db.upsert_all(rest), batch.last(), row);
    }
}

} // verus!
