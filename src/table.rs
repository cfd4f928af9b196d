//! Tables of records keyed by a string identifier.
use vstd::prelude::*;

verus! {

/// A record that carries a unique string identifier, its creation and update
/// stamps, and a tombstone flag.
pub trait Keyed: Sized {
    /// The record's identifier.
    spec fn key(&self) -> Seq<char>;

    /// The record's `updated_at` stamp.
    spec fn stamp(&self) -> i64;

    /// The record's `created_at` stamp.
    spec fn created(&self) -> i64;

    /// Whether the record is a tombstone.
    spec fn deleted(&self) -> bool;

    /// The record with its `created_at` replaced by `t`.
    spec fn with_created(self, t: i64) -> Self;

    proof fn lemma_with_created(self, t: i64)
        ensures
            self.with_created(t).key() == self.key(),
            self.with_created(t).stamp() == self.stamp(),
            self.with_created(t).created() == t,
            self.with_created(t).deleted() == self.deleted(),
            t == self.created() ==> self.with_created(t) == self,
    ;

    fn id_ref(&self) -> (r: &String)
        ensures
            r@ == self.key(),
    ;

    fn updated_at_of(&self) -> (r: i64)
        ensures
            r == self.stamp(),
    ;

    fn created_at_of(&self) -> (r: i64)
        ensures
            r == self.created(),
    ;

    fn is_deleted_of(&self) -> (r: bool)
        ensures
            r == self.deleted(),
    ;

    fn set_created_at(&mut self, t: i64)
        ensures
            *final(self) == old(self).with_created(t),
    ;

    /// A copy of the record, field for field.
    fn duplicate(&self) -> (r: Self)
        ensures
            r == *self,
    ;
}

/// A record that a replica edits locally: it carries a version counter.
pub trait Versioned: Keyed {
    /// The record's version counter.
    spec fn version(&self) -> i32;

    /// The record with new stamps and version, all other fields kept.
    spec fn restamped(self, created: i64, updated: i64, version: i32) -> Self;

    /// The record marked deleted at `now`, all other fields kept.
    spec fn tombstoned(self, now: i64) -> Self;

    proof fn lemma_restamped(self, created: i64, updated: i64, version: i32)
        ensures
            self.restamped(created, updated, version).key() == self.key(),
            self.restamped(created, updated, version).stamp() == updated,
            self.restamped(created, updated, version).created() == created,
            self.restamped(created, updated, version).version() == version,
            self.restamped(created, updated, version).deleted() == self.deleted(),
    ;

    proof fn lemma_tombstoned(self, now: i64)
        ensures
            self.tombstoned(now).key() == self.key(),
            self.tombstoned(now).stamp() == now,
            self.tombstoned(now).created() == self.created(),
            self.tombstoned(now).version() == self.version(),
            self.tombstoned(now).deleted(),
    ;

    fn version_of(&self) -> (r: i32)
        ensures
            r == self.version(),
    ;

    fn restamp(&mut self, created: i64, updated: i64, version: i32)
        ensures
            *final(self) == old(self).restamped(created, updated, version),
    ;

    fn tombstone(&mut self, now: i64)
        ensures
            *final(self) == old(self).tombstoned(now),
    ;
}

/// Some row of `rows` has identifier `k`.
pub open spec fn has_key<R: Keyed>(rows: Seq<R>, k: Seq<char>) -> bool {
    exists|i: int| 0 <= i < rows.len() && #[trigger] rows[i].key() == k
}

/// No two rows of `rows` share an identifier.
pub open spec fn keys_unique<R: Keyed>(rows: Seq<R>) -> bool {
    forall|i: int, j: int|
        0 <= i < rows.len() && 0 <= j < rows.len() && i != j ==> #[trigger] rows[i].key()
            != #[trigger] rows[j].key()
}

/// The position of the row with identifier `k` (meaningful when `has_key(rows, k)`).
pub open spec fn index_of<R: Keyed>(rows: Seq<R>, k: Seq<char>) -> int {
    choose|i: int| 0 <= i < rows.len() && #[trigger] rows[i].key() == k
}

/// The row with identifier `k`, if there is one.
pub open spec fn lookup<R: Keyed>(rows: Seq<R>, k: Seq<char>) -> Option<R> {
    if has_key(rows, k) {
        Some(rows[index_of(rows, k)])
    } else {
        None
    }
}

/// In a table with unique identifiers, the row at `i` is the one found for its key.
pub proof fn lemma_index_of<R: Keyed>(rows: Seq<R>, i: int)
    requires
        keys_unique(rows),
        0 <= i < rows.len(),
    ensures
        has_key(rows, rows[i].key()),
        index_of(rows, rows[i].key()) == i,
        lookup(rows, rows[i].key()) == Some(rows[i]),
{
    let k = rows[i].key();
    assert(rows[i].key() == k);
    let j = index_of(rows, k);
    assert(0 <= j < rows.len() && rows[j].key() == k);
}

/// Replacing a row by one with the same identifier keeps identifiers unique
/// and changes the lookup of that identifier only.
pub proof fn lemma_update<R: Keyed>(rows: Seq<R>, i: int, r: R)
    requires
        keys_unique(rows),
        0 <= i < rows.len(),
        r.key() == rows[i].key(),
    ensures
        keys_unique(rows.update(i, r)),
        lookup(rows.update(i, r), r.key()) == Some(r),
        forall|k: Seq<char>| k != r.key() ==> lookup(rows.update(i, r), k) == lookup(rows, k),
{
    let s = rows.update(i, r);
    assert forall|a: int, b: int|
        0 <= a < s.len() && 0 <= b < s.len() && a != b implies #[trigger] s[a].key()
            != #[trigger] s[b].key() by {
        assert(s[a].key() == rows[a].key());
        assert(s[b].key() == rows[b].key());
    }
    lemma_index_of(s, i);
    assert forall|k: Seq<char>| k != r.key() implies lookup(s, k) == lookup(rows, k) by {
        if has_key(rows, k) {
            let j = index_of(rows, k);
            assert(j != i);
            assert(s[j] == rows[j]);
            lemma_index_of(rows, j);
            lemma_index_of(s, j);
        } else {
            assert forall|j: int| 0 <= j < s.len() implies #[trigger] s[j].key() != k by {
                if j != i {
                    assert(s[j] == rows[j]);
                }
            }
        }
    }
}

/// Appending a row with a new identifier keeps identifiers unique and changes
/// the lookup of that identifier only.
pub proof fn lemma_push<R: Keyed>(rows: Seq<R>, r: R)
    requires
        keys_unique(rows),
        !has_key(rows, r.key()),
    ensures
        keys_unique(rows.push(r)),
        lookup(rows.push(r), r.key()) == Some(r),
        forall|k: Seq<char>| k != r.key() ==> lookup(rows.push(r), k) == lookup(rows, k),
{
    let s = rows.push(r);
    assert forall|a: int, b: int|
        0 <= a < s.len() && 0 <= b < s.len() && a != b implies #[trigger] s[a].key()
            != #[trigger] s[b].key() by {
        if a < rows.len() && b < rows.len() {
            assert(s[a] == rows[a] && s[b] == rows[b]);
        } else if a < rows.len() {
            assert(s[a] == rows[a]);
            assert(rows[a].key() != r.key());
        } else {
            assert(s[b] == rows[b]);
            assert(rows[b].key() != r.key());
        }
    }
    lemma_index_of(s, rows.len() as int);
    assert forall|k: Seq<char>| k != r.key() implies lookup(s, k) == lookup(rows, k) by {
        if has_key(rows, k) {
            let j = index_of(rows, k);
            assert(s[j] == rows[j]);
            lemma_index_of(rows, j);
            lemma_index_of(s, j);
        } else {
            assert forall|j: int| 0 <= j < s.len() implies #[trigger] s[j].key() != k by {
                if j < rows.len() {
                    assert(s[j] == rows[j]);
                }
            }
        }
    }
}

/// The position of the row whose identifier is `id`, if any.
pub fn find_index<R: Keyed>(rows: &Vec<R>, id: &String) -> (r: Option<usize>)
    ensures
        match r {
            Some(i) => i < rows@.len() && rows@[i as int].key() == id@,
            None => !has_key(rows@, id@),
        },
{
    let mut i: usize = 0;
    while i < rows.len()
        invariant
            i <= rows@.len(),
            forall|j: int| 0 <= j < i ==> #[trigger] rows@[j].key() != id@,
        decreases rows@.len() - i,
    {
        if *rows[i].id_ref() == *id {
            return Some(i);
        }
        i = i + 1;
    }
    None
}

/// The last-write-wins rule: an incoming record replaces the stored one only
/// when its stamp is strictly later; ties keep the stored record.
pub open spec fn supersedes(incoming: i64, stored: i64) -> bool {
    incoming > stored
}

/// The result of merging `incoming` into `rows`: inserted when its identifier
/// is new; when known, it replaces the stored row, keeping that row's
/// `created_at`, if and only if it supersedes it.
pub open spec fn merge_rows<R: Keyed>(rows: Seq<R>, incoming: R) -> Seq<R> {
    if has_key(rows, incoming.key()) {
        let i = index_of(rows, incoming.key());
        if supersedes(incoming.stamp(), rows[i].stamp()) {
            rows.update(i, incoming.with_created(rows[i].created()))
        } else {
            rows
        }
    } else {
        rows.push(incoming)
    }
}

/// Whether a merge of `incoming` into `rows` changes the stored state's row.
pub open spec fn merge_accepts<R: Keyed>(rows: Seq<R>, incoming: R) -> bool {
    !has_key(rows, incoming.key()) || supersedes(
        incoming.stamp(),
        rows[index_of(rows, incoming.key())].stamp(),
    )
}

/// Merges `incoming` into `rows` by the last-write-wins rule; returns whether
/// it was taken.
pub fn merge_row<R: Keyed>(rows: &mut Vec<R>, incoming: R) -> (accepted: bool)
    requires
        keys_unique(old(rows)@),
    ensures
        keys_unique(final(rows)@),
        final(rows)@ == merge_rows(old(rows)@, incoming),
        accepted == merge_accepts(old(rows)@, incoming),
{
    let found = find_index(rows, incoming.id_ref());
    match found {
        Some(i) => {
            proof {
                lemma_index_of(rows@, i as int);
            }
            if incoming.updated_at_of() > rows[i].updated_at_of() {
                let c = rows[i].created_at_of();
                let mut r = incoming;
                proof {
                    r.lemma_with_created(c);
                }
                r.set_created_at(c);
                proof {
                    lemma_update(rows@, i as int, r);
                }
                rows.set(i, r);
                true
            } else {
                false
            }
        },
        None => {
            proof {
                lemma_push(rows@, incoming);
            }
            rows.push(incoming);
            true
        },
    }
}

/// A local edit of `r`: a new record starts at version 1 with both stamps at
/// `now`; an edit of the stored `prev` keeps its `created_at`, takes version
/// `prev.version + 1` and `updated_at == now`.
pub open spec fn local_edit<R: Versioned>(prev: Option<R>, r: R, now: i64) -> R {
    match prev {
        Some(p) => r.restamped(p.created(), now, (p.version() + 1) as i32),
        None => r.restamped(now, now, 1),
    }
}

/// The table after the local edit of `r` at `now`.
pub open spec fn upsert_rows<R: Versioned>(rows: Seq<R>, r: R, now: i64) -> Seq<R> {
    if has_key(rows, r.key()) {
        let i = index_of(rows, r.key());
        rows.update(i, local_edit(Some(rows[i]), r, now))
    } else {
        rows.push(local_edit(None, r, now))
    }
}

/// The stored row with identifier `k` has reached the largest version.
pub open spec fn version_exhausted<R: Versioned>(rows: Seq<R>, k: Seq<char>) -> bool {
    has_key(rows, k) && rows[index_of(rows, k)].version() == i32::MAX
}

/// Records the local edit of `r` at `now`; refused, with `rows` unchanged,
/// when the stored version cannot be incremented.
pub fn upsert_row<R: Versioned>(rows: &mut Vec<R>, r: R, now: i64) -> (ok: bool)
    requires
        keys_unique(old(rows)@),
    ensures
        keys_unique(final(rows)@),
        ok == !version_exhausted(old(rows)@, r.key()),
        ok ==> final(rows)@ == upsert_rows(old(rows)@, r, now),
        !ok ==> final(rows)@ == old(rows)@,
{
    let found = find_index(rows, r.id_ref());
    match found {
        Some(i) => {
            proof {
                lemma_index_of(rows@, i as int);
            }
            let v = rows[i].version_of();
            if v == i32::MAX {
                return false;
            }
            let c = rows[i].created_at_of();
            let mut e = r;
            proof {
                e.lemma_restamped(c, now, (v + 1) as i32);
            }
            e.restamp(c, now, v + 1);
            proof {
                lemma_update(rows@, i as int, e);
            }
            rows.set(i, e);
            true
        },
        None => {
            let mut e = r;
            proof {
                e.lemma_restamped(now, now, 1);
            }
            e.restamp(now, now, 1);
            proof {
                lemma_push(rows@, e);
            }
            rows.push(e);
            true
        },
    }
}

/// The table after the row with identifier `k` is marked deleted at `now`
/// (unchanged when there is none).
pub open spec fn delete_rows<R: Versioned>(rows: Seq<R>, k: Seq<char>, now: i64) -> Seq<R> {
    if has_key(rows, k) {
        let i = index_of(rows, k);
        rows.update(i, rows[i].tombstoned(now))
    } else {
        rows
    }
}

/// Marks the row at `i` deleted at `now`.
pub fn tombstone_at<R: Versioned>(rows: &mut Vec<R>, i: usize, now: i64)
    requires
        i < old(rows)@.len(),
    ensures
        final(rows)@ == old(rows)@.update(i as int, old(rows)@[i as int].tombstoned(now)),
{
    let mut row = rows.remove(i);
    row.tombstone(now);
    rows.insert(i, row);
    assert(rows@ =~= old(rows)@.update(i as int, old(rows)@[i as int].tombstoned(now)));
}

/// Marks the row with identifier `id` deleted at `now`, if there is one.
pub fn delete_row<R: Versioned>(rows: &mut Vec<R>, id: &String, now: i64)
    requires
        keys_unique(old(rows)@),
    ensures
        keys_unique(final(rows)@),
        final(rows)@ == delete_rows(old(rows)@, id@, now),
{
    match find_index(rows, id) {
        Some(i) => {
            proof {
                lemma_index_of(rows@, i as int);
                rows@[i as int].lemma_tombstoned(now);
                lemma_update(rows@, i as int, rows@[i as int].tombstoned(now));
            }
            tombstone_at(rows, i, now);
        },
        None => {},
    }
}

/// The rows that are not tombstones, in table order.
pub open spec fn live_rows<R: Keyed>(rows: Seq<R>) -> Seq<R>
    decreases rows.len(),
{
    if rows.len() == 0 {
        Seq::empty()
    } else {
        let rest = live_rows(rows.drop_last());
        if rows.last().deleted() {
            rest
        } else {
            rest.push(rows.last())
        }
    }
}

/// Copies of the rows that are not tombstones, in table order.
pub fn live<R: Keyed>(rows: &Vec<R>) -> (r: Vec<R>)
    ensures
        r@ == live_rows(rows@),
{
    let mut out: Vec<R> = Vec::new();
    let mut i: usize = 0;
    while i < rows.len()
        invariant
            i <= rows@.len(),
            out@ == live_rows(rows@.subrange(0, i as int)),
        decreases rows@.len() - i,
    {
        assert(rows@.subrange(0, i + 1).drop_last() =~= rows@.subrange(0, i as int));
        if !rows[i].is_deleted_of() {
            out.push(rows[i].duplicate());
        }
        i = i + 1;
    }
    assert(rows@.subrange(0, rows@.len() as int) =~= rows@);
    out
}

/// A copy of every row, in table order.
pub fn copy_rows<R: Keyed>(rows: &Vec<R>) -> (r: Vec<R>)
    ensures
        r@ == rows@,
{
    let mut out: Vec<R> = Vec::new();
    let mut i: usize = 0;
    while i < rows.len()
        invariant
            i <= rows@.len(),
            out@ =~= rows@.subrange(0, i as int),
        decreases rows@.len() - i,
    {
        out.push(rows[i].duplicate());
        i = i + 1;
    }
    assert(out@ =~= rows@);
    out
}

/// The stamp `t` lies strictly between `lo` and `hi`.
pub open spec fn within(t: i64, lo: int, hi: int) -> bool {
    lo < t < hi
}

/// The rows whose `updated_at` lies strictly between `lo` and `hi`, tombstones
/// included, in table order.
pub open spec fn rows_between<R: Keyed>(rows: Seq<R>, lo: int, hi: int) -> Seq<R>
    decreases rows.len(),
{
    if rows.len() == 0 {
        Seq::empty()
    } else {
        let rest = rows_between(rows.drop_last(), lo, hi);
        if within(rows.last().stamp(), lo, hi) {
            rest.push(rows.last())
        } else {
            rest
        }
    }
}

/// The bound that `hi` stands for: no upper bound when `None`.
pub open spec fn upper(hi: Option<i64>) -> int {
    match hi {
        Some(h) => h as int,
        None => i64::MAX as int + 1,
    }
}

/// Copies of the rows with `lo < updated_at`, and `updated_at < hi` when `hi`
/// is given, in table order.
pub fn select_between<R: Keyed>(rows: &Vec<R>, lo: i64, hi: Option<i64>) -> (r: Vec<R>)
    ensures
        r@ == rows_between(rows@, lo as int, upper(hi)),
{
    let mut out: Vec<R> = Vec::new();
    let mut i: usize = 0;
    while i < rows.len()
        invariant
            i <= rows@.len(),
            out@ == rows_between(rows@.subrange(0, i as int), lo as int, upper(hi)),
        decreases rows@.len() - i,
    {
        assert(rows@.subrange(0, i + 1).drop_last() =~= rows@.subrange(0, i as int));
        let t = rows[i].updated_at_of();
        let below = match hi {
            Some(h) => t < h,
            None => true,
        };
        if lo < t && below {
            out.push(rows[i].duplicate());
        }
        i = i + 1;
    }
    assert(rows@.subrange(0, rows@.len() as int) =~= rows@);
    out
}

} // verus!
