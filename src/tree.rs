//! The folder tree: which folders lie below a given folder.
use vstd::prelude::*;
use crate::records::{FolderRecord, NoteRecord};
use crate::table::{has_key, Keyed, Versioned};

verus! {

/// The folder at `i` has the folder `pid` as its parent.
pub open spec fn child_of(folders: Seq<FolderRecord>, i: int, pid: Seq<char>) -> bool {
    match folders[i].parent_id {
        Some(p) => p@ == pid,
        None => false,
    }
}

/// `p` lists positions of folders that lead down from the folder `root`:
/// the first is a child of `root` and each next one a child of the one before.
pub open spec fn is_chain(folders: Seq<FolderRecord>, root: Seq<char>, p: Seq<int>) -> bool {
    &&& p.len() > 0
    &&& forall|k: int| 0 <= k < p.len() ==> 0 <= #[trigger] p[k] < folders.len()
    &&& child_of(folders, p[0], root)
    &&& forall|k: int|
        0 <= k < p.len() - 1 ==> child_of(folders, #[trigger] p[k + 1], folders[p[k]].id@)
}

/// The folder at `i` is the folder `root` or lies below it.
pub open spec fn in_subtree(folders: Seq<FolderRecord>, root: Seq<char>, i: int) -> bool {
    folders[i].id@ == root || exists|p: Seq<int>| #[trigger] is_chain(folders, root, p) && p.last() == i
}

/// The note `n` sits in a folder of the subtree of `root`.
pub open spec fn note_under(folders: Seq<FolderRecord>, root: Seq<char>, n: NoteRecord) -> bool {
    match n.folder_id {
        Some(f) => exists|j: int|
            0 <= j < folders.len() && #[trigger] in_subtree(folders, root, j) && folders[j].id@
                == f@,
        None => false,
    }
}

/// The folders after the subtree of `root` is deleted at `now`.
pub open spec fn cascade_folders(folders: Seq<FolderRecord>, root: Seq<char>, now: i64) -> Seq<
    FolderRecord,
> {
    Seq::new(
        folders.len(),
        |i: int|
            if in_subtree(folders, root, i) {
                folders[i].tombstoned(now)
            } else {
                folders[i]
            },
    )
}

/// The notes after the subtree of `root` is deleted at `now`.
pub open spec fn cascade_notes(
    notes: Seq<NoteRecord>,
    folders: Seq<FolderRecord>,
    root: Seq<char>,
    now: i64,
) -> Seq<NoteRecord> {
    Seq::new(
        notes.len(),
        |i: int|
            if note_under(folders, root, notes[i]) {
                notes[i].tombstoned(now)
            } else {
                notes[i]
            },
    )
}

/// The number of unmarked places.
pub open spec fn unmarked(s: Seq<bool>) -> nat
    decreases s.len(),
{
    if s.len() == 0 {
        0
    } else {
        unmarked(s.drop_last()) + if s.last() {
            0nat
        } else {
            1nat
        }
    }
}

proof fn lemma_mark(s: Seq<bool>, i: int)
    requires
        0 <= i < s.len(),
        !s[i],
    ensures
        unmarked(s.update(i, true)) + 1 == unmarked(s),
    decreases s.len(),
{
    if i == s.len() - 1 {
        assert(s.update(i, true).drop_last() =~= s.drop_last());
    } else {
        lemma_mark(s.drop_last(), i);
        assert(s.update(i, true).drop_last() =~= s.drop_last().update(i, true));
    }
}

/// Some marked folder has identifier `p`.
pub open spec fn marked_id(folders: Seq<FolderRecord>, marked: Seq<bool>, p: Seq<char>) -> bool {
    exists|j: int| 0 <= j < folders.len() && #[trigger] marked[j] && folders[j].id@ == p
}

pub(crate) fn is_marked_id(folders: &Vec<FolderRecord>, marked: &Vec<bool>, p: &String) -> (r: bool)
    requires
        marked@.len() == folders@.len(),
    ensures
        r == marked_id(folders@, marked@, p@),
{
    let mut j: usize = 0;
    while j < folders.len()
        invariant
            j <= folders@.len(),
            marked@.len() == folders@.len(),
            forall|k: int| 0 <= k < j ==> !(#[trigger] marked@[k] && folders@[k].id@ == p@),
        decreases folders@.len() - j,
    {
        if marked[j] && folders[j].id == *p {
            return true;
        }
        j = j + 1;
    }
    false
}

/// A parent of the folder at `i` is marked.
pub open spec fn parent_marked(folders: Seq<FolderRecord>, marked: Seq<bool>, i: int) -> bool {
    match folders[i].parent_id {
        Some(p) => marked_id(folders, marked, p@),
        None => false,
    }
}

proof fn lemma_closed_complete(
    folders: Seq<FolderRecord>,
    marked: Seq<bool>,
    root: Seq<char>,
    p: Seq<int>,
)
    requires
        marked.len() == folders.len(),
        has_key(folders, root),
        forall|k: int| 0 <= k < folders.len() && folders[k].id@ == root ==> #[trigger] marked[k],
        forall|k: int| 0 <= k < folders.len() && parent_marked(folders, marked, k) ==> #[trigger] marked[k],
        is_chain(folders, root, p),
    ensures
        marked[p.last()],
    decreases p.len(),
{
    let i = p.last();
    assert(0 <= p[p.len() - 1] < folders.len());
    if p.len() == 1 {
        let j0 = choose|j: int| 0 <= j < folders.len() && #[trigger] folders[j].key() == root;
        assert(marked[j0]);
        assert(parent_marked(folders, marked, i));
    } else {
        let q = p.drop_last();
        assert forall|k: int| 0 <= k < q.len() - 1 implies child_of(
            folders,
            #[trigger] q[k + 1],
            folders[q[k]].id@,
        ) by {
            assert(q[k + 1] == p[k + 1]);
        }
        assert forall|k: int| 0 <= k < q.len() implies 0 <= #[trigger] q[k] < folders.len() by {
            assert(q[k] == p[k]);
        }
        assert(is_chain(folders, root, q));
        lemma_closed_complete(folders, marked, root, q);
        let j = q.last();
        assert(p[p.len() - 2] == j);
        assert(child_of(folders, p[(p.len() - 2) + 1], folders[p[p.len() - 2]].id@));
        assert(marked[j] && folders[j].id@ == folders[j].id@);
        assert(parent_marked(folders, marked, i));
    }
}

/// Marks, for each folder, whether it lies in the subtree of `root`.
pub fn subtree_marks(folders: &Vec<FolderRecord>, root: &String) -> (marked: Vec<bool>)
    requires
        has_key(folders@, root@),
    ensures
        marked@.len() == folders@.len(),
        forall|i: int| 0 <= i < folders@.len() ==> #[trigger] marked@[i] == in_subtree(folders@, root@, i),
{
    let n = folders.len();
    let mut marked: Vec<bool> = Vec::new();
    let mut i: usize = 0;
    while i < n
        invariant
            n == folders@.len(),
            i <= n,
            marked@.len() == i,
            forall|k: int| 0 <= k < i ==> #[trigger] marked@[k] == (folders@[k].id@ == root@),
        decreases n - i,
    {
        marked.push(folders[i].id == *root);
        i = i + 1;
    }
    loop
        invariant
            n == folders@.len(),
            marked@.len() == n,
            forall|k: int| 0 <= k < n && folders@[k].id@ == root@ ==> #[trigger] marked@[k],
            forall|k: int| 0 <= k < n && #[trigger] marked@[k] ==> in_subtree(folders@, root@, k),
        ensures
            marked@.len() == n,
            forall|k: int| 0 <= k < n && folders@[k].id@ == root@ ==> #[trigger] marked@[k],
            forall|k: int| 0 <= k < n && #[trigger] marked@[k] ==> in_subtree(folders@, root@, k),
            forall|k: int| 0 <= k < n && parent_marked(folders@, marked@, k) ==> #[trigger] marked@[k],
        decreases unmarked(marked@),
    {
        let ghost start = marked@;
        let mut changed = false;
        let mut i: usize = 0;
        while i < n
            invariant
                n == folders@.len(),
                i <= n,
                marked@.len() == n,
                forall|k: int| 0 <= k < n && folders@[k].id@ == root@ ==> #[trigger] marked@[k],
                forall|k: int| 0 <= k < n && #[trigger] marked@[k] ==> in_subtree(folders@, root@, k),
                !changed ==> marked@ == start,
                changed ==> unmarked(marked@) < unmarked(start),
                unmarked(marked@) <= unmarked(start),
                !changed ==> forall|k: int|
                    0 <= k < i && parent_marked(folders@, marked@, k) ==> #[trigger] marked@[k],
            decreases n - i,
        {
            if !marked[i] {
                let hit = match &folders[i].parent_id {
                    Some(p) => is_marked_id(folders, &marked, p),
                    None => false,
                };
                if hit {
                    proof {
                        let p = folders@[i as int].parent_id.unwrap();
                        let j = choose|j: int|
                            0 <= j < folders@.len() && #[trigger] marked@[j] && folders@[j].id@
                                == p@;
                        if folders@[j].id@ == root@ {
                            let c = seq![i as int];
                            assert(is_chain(folders@, root@, c));
                        } else {
                            let q = choose|q: Seq<int>|
                                #[trigger] is_chain(folders@, root@, q) && q.last() == j;
                            let c = q.push(i as int);
                            assert forall|k: int| 0 <= k < c.len() - 1 implies child_of(
                                folders@,
                                #[trigger] c[k + 1],
                                folders@[c[k]].id@,
                            ) by {
                                if k < c.len() - 2 {
                                    assert(c[k + 1] == q[k + 1]);
                                }
                            }
                            assert forall|k: int| 0 <= k < c.len() implies 0 <= #[trigger] c[k]
                                < folders@.len() by {
                                if k < c.len() - 1 {
                                    assert(c[k] == q[k]);
                                }
                            }
                            assert(is_chain(folders@, root@, c));
                        }
                        lemma_mark(marked@, i as int);
                    }
                    marked.set(i, true);
                    changed = true;
                }
            }
            i = i + 1;
        }
        if !changed {
            break;
        }
    }
    proof {
        assert forall|i: int| 0 <= i < folders@.len() implies #[trigger] marked@[i] == in_subtree(
            folders@,
            root@,
            i,
        ) by {
            if in_subtree(folders@, root@, i) && folders@[i].id@ != root@ {
                let p = choose|p: Seq<int>| #[trigger] is_chain(folders@, root@, p) && p.last() == i;
                lemma_closed_complete(folders@, marked@, root@, p);
            }
        }
    }
    marked
}

} // verus!
