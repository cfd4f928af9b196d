//! Properties that hold across several operations of the store and the merge.
use vstd::prelude::*;
use crate::records::NoteRecord;
use crate::server::{
    folder_rows, merge_all, note_row, note_rows, partition_index, server_wf, sync_outcome, workspace_rows,
    PartitionView, SyncRequest,
};
use crate::store::{edit_outcome, incoming_for, local_version, merge_outcome, pushed_note, pushed_notes, DbView};
use crate::table::{
    delete_rows, has_key, index_of, keys_unique, lemma_index_of, lemma_push, lemma_update, local_edit,
    lookup, merge_rows, supersedes, upsert_rows, version_exhausted, Keyed, Versioned,
};
use crate::tree::{in_subtree, note_under};

verus! {

/// One write to a table: a local edit at a clock reading, a record merged in
/// from another replica, or a local deletion at a clock reading.
pub enum Write<R> {
    Edit(R, i64),
    Merge(R),
    Delete(Seq<char>, i64),
}

/// The table after the write `w`; a refused write changes nothing.
pub open spec fn apply_write<R: Versioned>(rows: Seq<R>, w: Write<R>) -> Seq<R> {
    match w {
        Write::Edit(r, now) => if edit_outcome(rows, r.key()) is Ok {
            upsert_rows(rows, r, now)
        } else {
            rows
        },
        Write::Merge(r) => if merge_outcome(r.key()) is Ok {
            merge_rows(rows, r)
        } else {
            rows
        },
        Write::Delete(k, now) => delete_rows(rows, k, now),
    }
}

/// The table after the writes `ws`, in order.
pub open spec fn apply_writes<R: Versioned>(rows: Seq<R>, ws: Seq<Write<R>>) -> Seq<R>
    decreases ws.len(),
{
    if ws.len() == 0 {
        rows
    } else {
        apply_write(apply_writes(rows, ws.drop_last()), ws.last())
    }
}

/// A local write reads a clock that is not behind the stamp of the record it
/// touches.
pub open spec fn clock_not_behind<R: Versioned>(rows: Seq<R>, w: Write<R>) -> bool {
    match w {
        Write::Edit(r, now) => has_key(rows, r.key()) ==> now >= rows[index_of(rows, r.key())].stamp(),
        Write::Merge(_) => true,
        Write::Delete(k, now) => has_key(rows, k) ==> now >= rows[index_of(rows, k)].stamp(),
    }
}

/// Every local write of `ws` reads a clock that is not behind.
pub open spec fn clocks_not_behind<R: Versioned>(rows: Seq<R>, ws: Seq<Write<R>>) -> bool
    decreases ws.len(),
{
    ws.len() == 0 || (clocks_not_behind(rows, ws.drop_last()) && clock_not_behind(
        apply_writes(rows, ws.drop_last()),
        ws.last(),
    ))
}

/// Merging a record keeps identifiers unique and leaves every other
/// identifier's record as it was.
pub proof fn lemma_merge_rows_frame<R: Keyed>(rows: Seq<R>, r: R)
    requires
        keys_unique(rows),
    ensures
        keys_unique(merge_rows(rows, r)),
        has_key(merge_rows(rows, r), r.key()),
        forall|k: Seq<char>| k != r.key() ==> lookup(merge_rows(rows, r), k) == lookup(rows, k),
{
    if has_key(rows, r.key()) {
        let i = index_of(rows, r.key());
        lemma_index_of(rows, i);
        if supersedes(r.stamp(), rows[i].stamp()) {
            r.lemma_with_created(rows[i].created());
            lemma_update(rows, i, r.with_created(rows[i].created()));
        }
    } else {
        lemma_push(rows, r);
    }
    lemma_index_of(merge_rows(rows, r), index_of(merge_rows(rows, r), r.key()));
}

proof fn lemma_write_monotonic<R: Versioned>(rows: Seq<R>, w: Write<R>, k: Seq<char>)
    requires
        keys_unique(rows),
        has_key(rows, k),
        clock_not_behind(rows, w),
    ensures
        keys_unique(apply_write(rows, w)),
        has_key(apply_write(rows, w), k),
        lookup(apply_write(rows, w), k).unwrap().stamp() >= lookup(rows, k).unwrap().stamp(),
{
    let after = apply_write(rows, w);
    let i = index_of(rows, k);
    lemma_index_of(rows, i);
    match w {
        Write::Edit(r, now) => {
            if edit_outcome(rows, r.key()) is Ok {
                if has_key(rows, r.key()) {
                    let j = index_of(rows, r.key());
                    lemma_index_of(rows, j);
                    let e = local_edit(Some(rows[j]), r, now);
                    r.lemma_restamped(rows[j].created(), now, (rows[j].version() + 1) as i32);
                    lemma_update(rows, j, e);
                } else {
                    let e = local_edit(None, r, now);
                    r.lemma_restamped(now, now, 1);
                    lemma_push(rows, e);
                }
            }
        },
        Write::Merge(r) => {
            if merge_outcome(r.key()) is Ok {
                lemma_merge_rows_frame(rows, r);
                if has_key(rows, r.key()) {
                    r.lemma_with_created(rows[index_of(rows, r.key())].created());
                }
            }
        },
        Write::Delete(d, now) => {
            if has_key(rows, d) {
                let j = index_of(rows, d);
                lemma_index_of(rows, j);
                rows[j].lemma_tombstoned(now);
                lemma_update(rows, j, rows[j].tombstoned(now));
            }
        },
    }
    lemma_index_of(after, index_of(after, k));
}

/// Across any sequence of accepted local edits, deletions and merges, the
/// `updated_at` of a stored record never decreases, provided that each local
/// write reads a clock that is not behind the record's stamp (a local write
/// stamps the clock reading as it is).
pub proof fn lemma_updated_at_monotonic<R: Versioned>(rows: Seq<R>, ws: Seq<Write<R>>, k: Seq<char>)
    requires
        keys_unique(rows),
        has_key(rows, k),
        clocks_not_behind(rows, ws),
    ensures
        keys_unique(apply_writes(rows, ws)),
        has_key(apply_writes(rows, ws), k),
        lookup(apply_writes(rows, ws), k).unwrap().stamp() >= lookup(rows, k).unwrap().stamp(),
    decreases ws.len(),
{
    if ws.len() > 0 {
        lemma_updated_at_monotonic(rows, ws.drop_last(), k);
        lemma_write_monotonic(apply_writes(rows, ws.drop_last()), ws.last(), k);
    }
}

/// Once a record is merged, another record with the same identifier and
/// the same stamp changes nothing: the tie keeps what is stored.
pub proof fn lemma_merge_same_stamp_ignored<R: Keyed>(rows: Seq<R>, a: R, b: R)
    requires
        keys_unique(rows),
        a.key() == b.key(),
        a.stamp() == b.stamp(),
    ensures
        merge_rows(merge_rows(rows, a), b) == merge_rows(rows, a),
{
    lemma_merge_rows_frame(rows, a);
    let once = merge_rows(rows, a);
    if has_key(rows, a.key()) {
        let i = index_of(rows, a.key());
        lemma_index_of(rows, i);
        if supersedes(a.stamp(), rows[i].stamp()) {
            a.lemma_with_created(rows[i].created());
            lemma_index_of(once, i);
        }
    } else {
        lemma_index_of(once, rows.len() as int);
    }
}

/// Merging the same record twice leaves the table as merging it once.
pub proof fn lemma_merge_idempotent<R: Keyed>(rows: Seq<R>, r: R)
    requires
        keys_unique(rows),
    ensures
        merge_rows(merge_rows(rows, r), r) == merge_rows(rows, r),
{
    lemma_merge_same_stamp_ignored(rows, r, r);
}

/// Applying the same incoming note to a store twice leaves it as applying it
/// once, whichever version mode the store uses.
pub proof fn lemma_store_merge_idempotent(db: DbView, note: NoteRecord)
    requires
        db.wf(),
    ensures
        db.note_merged(note).note_merged(note) == db.note_merged(note),
{
    let x1 = incoming_for(db.notes, note, db.strict);
    let s1 = merge_rows(db.notes, x1);
    let x2 = incoming_for(s1, note, db.strict);
    note.lemma_restamped(note.created(), note.stamp(), local_version(db.notes, note));
    note.lemma_restamped(note.created(), note.stamp(), local_version(s1, note));
    lemma_merge_same_stamp_ignored(db.notes, x1, x2);
}

/// Merging an older record `a` and then a newer record `b` of the same
/// identifier gives what merging `b` alone gives, and so does merging `b` and
/// then `a`: once `b` is in, `a` is always refused. Without a stored record
/// the first merge fixes `created_at`, so the two must agree on it.
pub proof fn lemma_stale_merge_commutes<R: Keyed>(rows: Seq<R>, a: R, b: R)
    requires
        keys_unique(rows),
        has_key(rows, a.key()) || a.created() == b.created(),
        a.key() == b.key(),
        a.stamp() < b.stamp(),
    ensures
        merge_rows(merge_rows(rows, a), b) == merge_rows(rows, b),
        merge_rows(merge_rows(rows, b), a) == merge_rows(rows, b),
{
    if has_key(rows, a.key()) {
        let i = index_of(rows, a.key());
        lemma_index_of(rows, i);
        let c = rows[i].created();
        a.lemma_with_created(c);
        b.lemma_with_created(c);
        if supersedes(a.stamp(), rows[i].stamp()) {
            let s1 = rows.update(i, a.with_created(c));
            lemma_update(rows, i, a.with_created(c));
            lemma_index_of(s1, i);
            assert(s1.update(i, b.with_created(c)) =~= rows.update(i, b.with_created(c)));
        }
        if supersedes(b.stamp(), rows[i].stamp()) {
            let s2 = rows.update(i, b.with_created(c));
            lemma_update(rows, i, b.with_created(c));
            lemma_index_of(s2, i);
        }
    } else {
        let n = rows.len() as int;
        lemma_push(rows, a);
        lemma_push(rows, b);
        lemma_index_of(rows.push(a), n);
        lemma_index_of(rows.push(b), n);
        b.lemma_with_created(a.created());
        assert(rows.push(a).update(n, b) =~= rows.push(b));
    }
}

/// Merging a record leaves, for its identifier, a stored record at least as
/// new as it, and never makes a stored record older.
pub proof fn lemma_merge_rows_stamps<R: Keyed>(rows: Seq<R>, r: R)
    requires
        keys_unique(rows),
    ensures
        keys_unique(merge_rows(rows, r)),
        has_key(merge_rows(rows, r), r.key()),
        lookup(merge_rows(rows, r), r.key()).unwrap().stamp() >= r.stamp(),
        forall|k: Seq<char>|
            has_key(rows, k) ==> has_key(merge_rows(rows, r), k) && #[trigger] lookup(merge_rows(rows, r), k).unwrap().stamp()
                >= lookup(rows, k).unwrap().stamp(),
{
    lemma_merge_rows_frame(rows, r);
    let after = merge_rows(rows, r);
    if has_key(rows, r.key()) {
        let i = index_of(rows, r.key());
        lemma_index_of(rows, i);
        if supersedes(r.stamp(), rows[i].stamp()) {
            r.lemma_with_created(rows[i].created());
            lemma_update(rows, i, r.with_created(rows[i].created()));
        }
    } else {
        lemma_push(rows, r);
    }
    assert forall|k: Seq<char>| has_key(rows, k) implies has_key(after, k) && #[trigger] lookup(
        after,
        k,
    ).unwrap().stamp() >= lookup(rows, k).unwrap().stamp() by {
        if k != r.key() {
            assert(lookup(after, k) == lookup(rows, k));
        }
    }
}

/// Every record of `inc` has a stored record of its identifier in `rows` that
/// is at least as new.
pub open spec fn covered<R: Keyed>(rows: Seq<R>, inc: Seq<R>) -> bool {
    forall|m: int|
        0 <= m < inc.len() ==> has_key(rows, (#[trigger] inc[m]).key()) && lookup(rows, inc[m].key()).unwrap().stamp()
            >= inc[m].stamp()
}

proof fn lemma_merge_all_covers<R: Keyed>(rows: Seq<R>, inc: Seq<R>)
    requires
        keys_unique(rows),
    ensures
        keys_unique(merge_all(rows, inc)),
        covered(merge_all(rows, inc), inc),
        forall|k: Seq<char>|
            has_key(rows, k) ==> has_key(merge_all(rows, inc), k) && #[trigger] lookup(merge_all(rows, inc), k).unwrap().stamp()
                >= lookup(rows, k).unwrap().stamp(),
    decreases inc.len(),
{
    if inc.len() > 0 {
        let pre = inc.drop_last();
        lemma_merge_all_covers(rows, pre);
        let a = merge_all(rows, pre);
        lemma_merge_rows_stamps(a, inc.last());
        let after = merge_rows(a, inc.last());
        assert forall|m: int| 0 <= m < inc.len() implies has_key(after, (#[trigger] inc[m]).key())
            && lookup(after, inc[m].key()).unwrap().stamp() >= inc[m].stamp() by {
            if m < inc.len() - 1 {
                assert(inc[m] == pre[m]);
                assert(lookup(after, pre[m].key()).unwrap().stamp() >= lookup(a, pre[m].key()).unwrap().stamp());
            }
        }
        assert forall|k: Seq<char>| has_key(rows, k) implies has_key(after, k) && #[trigger] lookup(
            after,
            k,
        ).unwrap().stamp() >= lookup(rows, k).unwrap().stamp() by {
            assert(lookup(a, k).unwrap().stamp() >= lookup(rows, k).unwrap().stamp());
            assert(lookup(after, k).unwrap().stamp() >= lookup(a, k).unwrap().stamp());
        }
    }
}

proof fn lemma_merge_all_covered_noop<R: Keyed>(rows: Seq<R>, inc: Seq<R>)
    requires
        covered(rows, inc),
    ensures
        merge_all(rows, inc) == rows,
    decreases inc.len(),
{
    if inc.len() > 0 {
        let pre = inc.drop_last();
        assert forall|m: int| 0 <= m < pre.len() implies has_key(rows, (#[trigger] pre[m]).key())
            && lookup(rows, pre[m].key()).unwrap().stamp() >= pre[m].stamp() by {
            assert(pre[m] == inc[m]);
        }
        lemma_merge_all_covered_noop(rows, pre);
        assert(has_key(rows, inc[inc.len() - 1].key()));
    }
}

/// Merging the same batch of records a second time changes nothing, also
/// when the batch holds several records of one identifier.
pub proof fn lemma_merge_all_idempotent<R: Keyed>(rows: Seq<R>, inc: Seq<R>)
    requires
        keys_unique(rows),
    ensures
        merge_all(merge_all(rows, inc), inc) == merge_all(rows, inc),
{
    lemma_merge_all_covers(rows, inc);
    lemma_merge_all_covered_noop(merge_all(rows, inc), inc);
}

/// Pushing the same request into a partition twice leaves it as pushing it
/// once.
pub proof fn lemma_push_retransmit(p: PartitionView, request: SyncRequest)
    requires
        p.wf(),
    ensures
        p.pushed(request).pushed(request) == p.pushed(request),
{
    lemma_merge_all_idempotent(p.notes, note_rows(request.notes@));
    lemma_merge_all_idempotent(p.folders, folder_rows(request.folders@));
    lemma_merge_all_idempotent(p.workspaces, workspace_rows(request.workspaces@));
}

/// An exchange that the server accepted, sent again with the same key and
/// request, is accepted again and leaves the server's data as it was after
/// the first: a retransmitted request applies nothing twice. Only the answer
/// may differ, through the server's time.
pub proof fn lemma_sync_retransmit(servers: Seq<PartitionView>, key: String, request: SyncRequest)
    requires
        server_wf(servers),
        sync_outcome(servers, Some(key), request) is Ok,
    ensures
        ({
            let i = partition_index(servers, key@);
            let once = servers.update(i, servers[i].pushed(request));
            &&& server_wf(once)
            &&& sync_outcome(once, Some(key), request) is Ok
            &&& partition_index(once, key@) == i
            &&& once.update(i, once[i].pushed(request)) == once
        }),
{
    let i = partition_index(servers, key@);
    assert(servers[i].key == key@);
    let p1 = servers[i].pushed(request);
    let once = servers.update(i, p1);
    lemma_merge_all_covers(servers[i].notes, note_rows(request.notes@));
    lemma_merge_all_covers(servers[i].folders, folder_rows(request.folders@));
    lemma_merge_all_covers(servers[i].workspaces, workspace_rows(request.workspaces@));
    assert forall|a: int, b: int|
        0 <= a < once.len() && 0 <= b < once.len() && a != b implies #[trigger] once[a].key
            != #[trigger] once[b].key by {
        assert(servers[a].key == once[a].key);
        assert(servers[b].key == once[b].key);
    }
    assert forall|a: int| 0 <= a < once.len() implies (#[trigger] once[a]).wf() by {
        if a != i {
            assert(once[a] == servers[a]);
        }
    }
    assert(once[i].key == key@);
    let j = partition_index(once, key@);
    assert(once[j].key == key@);
    lemma_push_retransmit(servers[i], request);
    assert(once.update(i, once[i].pushed(request)) =~= once);
}

/// A pushed note whose identifier occurs once in the request, and which is
/// newer than the server's copy, is what the server keeps for that
/// identifier: a pushed tombstone leaves the server's copy deleted, with the
/// tombstone's `updated_at`, its row kept.
pub proof fn lemma_push_takes_newer_note(p: PartitionView, request: SyncRequest, j: int)
    requires
        p.wf(),
        0 <= j < request.notes@.len(),
        forall|a: int, b: int|
            0 <= a < request.notes@.len() && 0 <= b < request.notes@.len() && a != b
                ==> #[trigger] request.notes@[a].id@ != #[trigger] request.notes@[b].id@,
        has_key(p.notes, request.notes@[j].id@) ==> p.notes[index_of(p.notes, request.notes@[j].id@)].updated_at
            < request.notes@[j].updated_at,
    ensures
        has_key(p.pushed(request).notes, request.notes@[j].id@),
        lookup(p.pushed(request).notes, request.notes@[j].id@).unwrap().is_deleted == request.notes@[j].is_deleted,
        lookup(p.pushed(request).notes, request.notes@[j].id@).unwrap().updated_at == request.notes@[j].updated_at,
{
    let inc = note_rows(request.notes@);
    assert forall|a: int, b: int|
        0 <= a < inc.len() && 0 <= b < inc.len() && a != b implies #[trigger] inc[a].key()
            != #[trigger] inc[b].key() by {
        assert(inc[a].key() == request.notes@[a].id@);
        assert(inc[b].key() == request.notes@[b].id@);
    }
    assert(inc[j] == note_row(request.notes@[j]));
    lemma_merge_all_takes_newer(p.notes, inc, j);
}

/// With a stored note present, applying an older incoming note `a` and then
/// a newer one `b` leaves a store as applying `b` alone, and so does
/// applying `b` and then `a`, whichever version mode the store uses.
pub proof fn lemma_store_stale_merge_commutes(db: DbView, a: NoteRecord, b: NoteRecord)
    requires
        db.wf(),
        has_key(db.notes, a.id@),
        a.id@ == b.id@,
        a.updated_at < b.updated_at,
    ensures
        db.note_merged(a).note_merged(b) == db.note_merged(b),
        db.note_merged(b).note_merged(a) == db.note_merged(b),
{
    let rows = db.notes;
    let i = index_of(rows, a.id@);
    lemma_index_of(rows, i);
    let v = rows[i].version;
    let a1 = incoming_for(rows, a, db.strict);
    let b1 = incoming_for(rows, b, db.strict);
    a.lemma_restamped(a.created(), a.stamp(), v);
    b.lemma_restamped(b.created(), b.stamp(), v);
    lemma_stale_merge_commutes(rows, a1, b1);
    lemma_merge_rows_frame(rows, a1);
    lemma_merge_rows_frame(rows, b1);
    let ra = merge_rows(rows, a1);
    let rb = merge_rows(rows, b1);
    if supersedes(a1.stamp(), rows[i].stamp()) {
        a1.lemma_with_created(rows[i].created());
        lemma_update(rows, i, a1.with_created(rows[i].created()));
        lemma_index_of(ra, i);
    }
    if supersedes(b1.stamp(), rows[i].stamp()) {
        b1.lemma_with_created(rows[i].created());
        lemma_update(rows, i, b1.with_created(rows[i].created()));
        lemma_index_of(rb, i);
    }
    assert(incoming_for(ra, b, db.strict) == b1);
    assert(incoming_for(rb, a, db.strict) == a1);
}

proof fn lemma_merge_all_split<R: Keyed>(rows: Seq<R>, a: Seq<R>, b: Seq<R>)
    ensures
        merge_all(rows, a + b) == merge_all(merge_all(rows, a), b),
    decreases b.len(),
{
    if b.len() == 0 {
        assert(a + b =~= a);
    } else {
        lemma_merge_all_split(rows, a, b.drop_last());
        assert((a + b).drop_last() =~= a + b.drop_last());
    }
}

proof fn lemma_merge_all_frame<R: Keyed>(rows: Seq<R>, inc: Seq<R>, k: Seq<char>)
    requires
        keys_unique(rows),
        forall|m: int| 0 <= m < inc.len() ==> (#[trigger] inc[m]).key() != k,
    ensures
        keys_unique(merge_all(rows, inc)),
        lookup(merge_all(rows, inc), k) == lookup(rows, k),
    decreases inc.len(),
{
    if inc.len() > 0 {
        lemma_merge_all_frame(rows, inc.drop_last(), k);
        assert(inc[inc.len() - 1].key() != k);
        lemma_merge_rows_frame(merge_all(rows, inc.drop_last()), inc.last());
    }
}

/// When a batch of records with distinct identifiers is merged and the one at
/// `j` is newer than any stored record of its identifier, that record's
/// content is what stays stored for the identifier.
pub proof fn lemma_merge_all_takes_newer<R: Keyed>(rows: Seq<R>, inc: Seq<R>, j: int)
    requires
        keys_unique(rows),
        keys_unique(inc),
        0 <= j < inc.len(),
        has_key(rows, inc[j].key()) ==> rows[index_of(rows, inc[j].key())].stamp() < inc[j].stamp(),
    ensures
        keys_unique(merge_all(rows, inc)),
        has_key(merge_all(rows, inc), inc[j].key()),
        lookup(merge_all(rows, inc), inc[j].key()).unwrap().stamp() == inc[j].stamp(),
        lookup(merge_all(rows, inc), inc[j].key()).unwrap().deleted() == inc[j].deleted(),
{
    let k = inc[j].key();
    let pre = inc.take(j);
    let post = inc.skip(j + 1);
    assert(inc =~= pre + seq![inc[j]] + post);
    lemma_merge_all_split(rows, pre + seq![inc[j]], post);
    lemma_merge_all_split(rows, pre, seq![inc[j]]);
    assert forall|m: int| 0 <= m < pre.len() implies (#[trigger] pre[m]).key() != k by {
        assert(pre[m] == inc[m]);
    }
    assert forall|m: int| 0 <= m < post.len() implies (#[trigger] post[m]).key() != k by {
        assert(post[m] == inc[j + 1 + m]);
    }
    lemma_merge_all_frame(rows, pre, k);
    let s1 = merge_all(rows, pre);
    assert(seq![inc[j]].drop_last() =~= Seq::<R>::empty());
    assert(merge_all(s1, Seq::<R>::empty()) == s1);
    assert(seq![inc[j]].last() == inc[j]);
    assert(merge_all(s1, seq![inc[j]]) == merge_rows(s1, inc[j]));
    lemma_merge_rows_frame(s1, inc[j]);
    let s2 = merge_rows(s1, inc[j]);
    if has_key(rows, k) {
        lemma_index_of(rows, index_of(rows, k));
    }
    if has_key(s1, k) {
        let i = index_of(s1, k);
        lemma_index_of(s1, i);
        if has_key(rows, k) {
            lemma_index_of(rows, index_of(rows, k));
        }
        inc[j].lemma_with_created(s1[i].created());
        lemma_update(s1, i, inc[j].with_created(s1[i].created()));
    } else {
        assert(!has_key(rows, k));
        lemma_push(s1, inc[j]);
    }
    lemma_merge_all_frame(s2, post, k);
}

/// Deleting a note locally and then pushing every local note to the server
/// leaves the server's copy of that note deleted, when the deletion is later
/// than the server's copy; the deletion leaves the local change log as it was.
pub proof fn lemma_tombstone_propagates(
    client: DbView,
    id: Seq<char>,
    now: i64,
    server: PartitionView,
    request: SyncRequest,
)
    requires
        client.wf(),
        server.wf(),
        has_key(client.notes, id),
        has_key(server.notes, id) ==> server.notes[index_of(server.notes, id)].updated_at < now,
        request.notes@ == pushed_notes(client.note_deleted(id, now).notes),
    ensures
        client.note_deleted(id, now).changes == client.changes,
        has_key(server.pushed(request).notes, id),
        lookup(server.pushed(request).notes, id).unwrap().is_deleted,
{
    let c2 = client.note_deleted(id, now);
    let j = index_of(client.notes, id);
    lemma_index_of(client.notes, j);
    client.notes[j].lemma_tombstoned(now);
    lemma_update(client.notes, j, client.notes[j].tombstoned(now));
    let inc = note_rows(request.notes@);
    assert forall|a: int, b: int|
        0 <= a < inc.len() && 0 <= b < inc.len() && a != b implies #[trigger] inc[a].key()
            != #[trigger] inc[b].key() by {
        assert(inc[a].key() == c2.notes[a].key());
        assert(inc[b].key() == c2.notes[b].key());
    }
    assert(inc[j].key() == id);
    assert(inc[j] == note_row(pushed_note(c2.notes[j])));
    lemma_merge_all_takes_newer(server.notes, inc, j);
}

/// A local edit of a stored record raises its version by exactly one.
pub proof fn lemma_edit_bumps_version<R: Versioned>(rows: Seq<R>, r: R, now: i64)
    requires
        keys_unique(rows),
        has_key(rows, r.key()),
        !version_exhausted(rows, r.key()),
    ensures
        has_key(upsert_rows(rows, r, now), r.key()),
        lookup(upsert_rows(rows, r, now), r.key()).unwrap().version() == lookup(rows, r.key()).unwrap().version() + 1,
{
    let i = index_of(rows, r.key());
    lemma_index_of(rows, i);
    r.lemma_restamped(rows[i].created(), now, (rows[i].version() + 1) as i32);
    lemma_update(rows, i, local_edit(Some(rows[i]), r, now));
}

/// A local edit of a stored note raises its version by exactly one and
/// appends one change-log entry when the content changed, none otherwise.
pub proof fn lemma_note_edit_versioning(db: DbView, note: NoteRecord, now: i64, change_id: String)
    requires
        db.wf(),
        has_key(db.notes, note.id@),
        edit_outcome(db.notes, note.id@) is Ok,
    ensures
        lookup(db.note_upserted(note, now, change_id).notes, note.id@).unwrap().version == lookup(
            db.notes,
            note.id@,
        ).unwrap().version + 1,
        db.note_upserted(note, now, change_id).changes.len() == db.changes.len() + if lookup(
            db.notes,
            note.id@,
        ).unwrap().content@ != note.content@ {
            1int
        } else {
            0int
        },
{
    lemma_edit_bumps_version(db.notes, note, now);
}

/// Deleting a folder leaves no live note in it or in any folder below it, and
/// every folder of its subtree is a tombstone.
pub proof fn lemma_folder_delete_cascades(db: DbView, id: Seq<char>, now: i64)
    requires
        db.wf(),
        has_key(db.folders, id),
    ensures
        forall|i: int|
            0 <= i < db.notes.len() && note_under(db.folders, id, db.notes[i])
                ==> (#[trigger] db.folder_deleted(id, now).notes[i]).is_deleted,
        forall|j: int|
            0 <= j < db.folders.len() && in_subtree(db.folders, id, j)
                ==> (#[trigger] db.folder_deleted(id, now).folders[j]).is_deleted,
{
}

} // verus!
