//! Turning the entries of an archive of Markdown files into a plan of
//! folders and notes for a new workspace.
use vstd::prelude::*;
use vstd::string::{StrSliceExecFns, StringExecFns};
use crate::store::StoreError;
use crate::text::push_char;

verus! {

/// `s` ends with `suffix`.
pub open spec fn ends_with(s: Seq<char>, suffix: Seq<char>) -> bool {
    s.len() >= suffix.len() && s.subrange(s.len() - suffix.len(), s.len() as int) == suffix
}

/// The suffix of Markdown files.
pub open spec fn md_suffix() -> Seq<char> {
    seq!['.', 'm', 'd']
}

fn has_md_suffix(s: &str) -> (r: bool)
    ensures
        r == ends_with(s@, md_suffix()),
{
    let n = s.unicode_len();
    if n < 3 {
        return false;
    }
    let r = s.get_char(n - 3) == '.' && s.get_char(n - 2) == 'm' && s.get_char(n - 1) == 'd';
    assert(r == (s@.subrange(n - 3, n as int) =~= md_suffix()));
    r
}

/// `s` without its trailing slashes.
pub open spec fn trim_slashes(s: Seq<char>) -> Seq<char>
    decreases s.len(),
{
    if s.len() > 0 && s.last() == '/' {
        trim_slashes(s.drop_last())
    } else {
        s
    }
}

/// `s` without its trailing slashes.
pub fn trim_trailing_slashes(s: &str) -> (r: String)
    ensures
        r@ == trim_slashes(s@),
{
    let n = s.unicode_len();
    let mut end: usize = n;
    assert(s@.subrange(0, n as int) =~= s@);
    while end > 0 && s.get_char(end - 1) == '/'
        invariant
            n == s@.len(),
            end <= n,
            trim_slashes(s@) == trim_slashes(s@.subrange(0, end as int)),
        decreases end,
    {
        assert(s@.subrange(0, end as int).drop_last() =~= s@.subrange(0, end - 1));
        end = end - 1;
    }
    assert(trim_slashes(s@.subrange(0, end as int)) == s@.subrange(0, end as int));
    <String as StringExecFns>::from_str(s.substring_char(0, end))
}

/// The number of slashes in `s`.
pub open spec fn slash_count(s: Seq<char>) -> nat
    decreases s.len(),
{
    if s.len() == 0 {
        0
    } else {
        slash_count(s.drop_last()) + if s.last() == '/' {
            1nat
        } else {
            0nat
        }
    }
}

fn count_slashes(s: &String) -> (r: usize)
    ensures
        r == slash_count(s@),
{
    let n = s.as_str().unicode_len();
    let mut c: usize = 0;
    let mut i: usize = 0;
    while i < n
        invariant
            n == s@.len(),
            i <= n,
            c == slash_count(s@.subrange(0, i as int)),
            c <= i,
        decreases n - i,
    {
        assert(s@.subrange(0, i + 1).drop_last() =~= s@.subrange(0, i as int));
        if s.as_str().get_char(i) == '/' {
            c = c + 1;
        }
        i = i + 1;
    }
    assert(s@.subrange(0, n as int) =~= s@);
    c
}

/// The pieces of `s` finished so far and the piece being read, reading
/// left to right and splitting at slashes; empty pieces are dropped.
pub open spec fn split_state(s: Seq<char>) -> (Seq<Seq<char>>, Seq<char>)
    decreases s.len(),
{
    if s.len() == 0 {
        (Seq::empty(), Seq::empty())
    } else {
        let (done, cur) = split_state(s.drop_last());
        if s.last() == '/' {
            (
                if cur.len() > 0 {
                    done.push(cur)
                } else {
                    done
                },
                Seq::empty(),
            )
        } else {
            (done, cur.push(s.last()))
        }
    }
}

/// The non-empty pieces of `s` between slashes, in order.
pub open spec fn pieces(s: Seq<char>) -> Seq<Seq<char>> {
    let (done, cur) = split_state(s);
    if cur.len() > 0 {
        done.push(cur)
    } else {
        done
    }
}

/// The characters of each string.
pub open spec fn views(v: Seq<String>) -> Seq<Seq<char>> {
    Seq::new(v.len(), |i: int| v[i]@)
}

/// The non-empty pieces of `s` between slashes, in order.
pub fn split_pieces(s: &String) -> (r: Vec<String>)
    ensures
        views(r@) == pieces(s@),
{
    let n = s.as_str().unicode_len();
    let mut done: Vec<String> = Vec::new();
    let mut cur = String::new();
    let mut i: usize = 0;
    while i < n
        invariant
            n == s@.len(),
            i <= n,
            (views(done@), cur@) == split_state(s@.subrange(0, i as int)),
        decreases n - i,
    {
        assert(s@.subrange(0, i + 1).drop_last() =~= s@.subrange(0, i as int));
        let c = s.as_str().get_char(i);
        if c == '/' {
            if !cur.as_str().is_empty() {
                let ghost before = done@;
                done.push(cur);
                assert(views(done@) =~= views(before).push(split_state(s@.subrange(0, i as int)).1));
            }
            cur = String::new();
        } else {
            push_char(&mut cur, c);
        }
        i = i + 1;
    }
    assert(s@.subrange(0, n as int) =~= s@);
    if !cur.as_str().is_empty() {
        let ghost before = done@;
        done.push(cur);
        assert(views(done@) =~= views(before).push(split_state(s@).1));
    }
    done
}

/// The pieces joined with slashes between them.
pub open spec fn join_pieces(ps: Seq<Seq<char>>) -> Seq<char>
    decreases ps.len(),
{
    if ps.len() == 0 {
        Seq::empty()
    } else if ps.len() == 1 {
        ps[0]
    } else {
        join_pieces(ps.drop_last()) + seq!['/'] + ps.last()
    }
}

/// The first `k` pieces joined with slashes between them.
pub fn join_prefix(parts: &Vec<String>, k: usize) -> (r: String)
    requires
        k <= parts@.len(),
    ensures
        r@ == join_pieces(views(parts@).take(k as int)),
{
    let mut out = String::new();
    let mut i: usize = 0;
    while i < k
        invariant
            k <= parts@.len(),
            i <= k,
            out@ == join_pieces(views(parts@).take(i as int)),
        decreases k - i,
    {
        assert(views(parts@).take(i + 1).drop_last() =~= views(parts@).take(i as int));
        if i > 0 {
            push_char(&mut out, '/');
        } else {
            assert(views(parts@).take(0) =~= Seq::<Seq<char>>::empty());
        }
        out.append(parts[i].as_str());
        i = i + 1;
    }
    out
}

/// How an archive entry is read.
#[derive(Debug, Clone, Copy, PartialEq, Eq, Structural)]
pub enum EntryKind {
    /// A directory: it becomes a chain of folders.
    Directory,
    /// A Markdown file: it becomes a note.
    Markdown,
    /// Anything else, which is skipped.
    Other,
}

/// The kind of the entry named `name`, which the archive marks a directory
/// when `is_dir`: a name ending in a slash is a directory too.
pub open spec fn entry_kind(name: Seq<char>, is_dir: bool) -> EntryKind {
    if is_dir || ends_with(name, seq!['/']) {
        EntryKind::Directory
    } else if ends_with(name, md_suffix()) {
        EntryKind::Markdown
    } else {
        EntryKind::Other
    }
}

/// The kind of the entry named `name`, which the archive marks a directory
/// when `is_dir`.
pub fn classify_entry(name: &str, is_dir: bool) -> (r: EntryKind)
    ensures
        r == entry_kind(name@, is_dir),
{
    let n = name.unicode_len();
    let slash = n > 0 && name.get_char(n - 1) == '/';
    proof {
        if n > 0 {
            let sub = name@.subrange(n - 1, n as int);
            if slash {
                assert(sub =~= seq!['/']);
            } else {
                assert(sub[0] != seq!['/'][0]);
            }
        }
    }
    if is_dir || slash {
        EntryKind::Directory
    } else if has_md_suffix(name) {
        EntryKind::Markdown
    } else {
        EntryKind::Other
    }
}

/// One entry of an archive as it was read: its name, whether the archive
/// marks it a directory, and its text when it is a Markdown file.
#[derive(Debug, Clone)]
pub struct ArchiveEntry {
    pub name: String,
    pub is_dir: bool,
    pub content: Option<String>,
}

/// A folder to create: its full path in the archive, its name, and the
/// position of its parent among the planned folders.
#[derive(Debug, Clone)]
pub struct PlannedFolder {
    pub path: String,
    pub name: String,
    pub parent: Option<usize>,
}

/// A note to create: its title, content, and the position of its folder
/// among the planned folders.
#[derive(Debug, Clone)]
pub struct PlannedNote {
    pub title: String,
    pub content: String,
    pub folder: Option<usize>,
}

/// The folders and notes that an archive turns into, in creation order.
#[derive(Debug)]
pub struct ImportPlan {
    pub folders: Vec<PlannedFolder>,
    pub notes: Vec<PlannedNote>,
}

/// Why an archive cannot be imported.
#[derive(Debug, Clone, Copy, PartialEq, Eq, Structural)]
pub enum ImportError {
    /// The archive holds neither a Markdown file nor a directory.
    NothingToImport,
    /// The store refused one of the records.
    Store(StoreError),
}

/// A planned folder as plain values.
pub struct FolderPlan {
    pub path: Seq<char>,
    pub name: Seq<char>,
    pub parent: Option<int>,
}

/// A planned note as plain values.
pub struct NotePlan {
    pub title: Seq<char>,
    pub content: Seq<char>,
    pub folder: Option<int>,
}

pub open spec fn opt_int(o: Option<usize>) -> Option<int> {
    match o {
        Some(p) => Some(p as int),
        None => None,
    }
}

pub open spec fn folder_views(v: Seq<PlannedFolder>) -> Seq<FolderPlan> {
    Seq::new(v.len(), |i: int| FolderPlan { path: v[i].path@, name: v[i].name@, parent: opt_int(v[i].parent) })
}

pub open spec fn note_views(v: Seq<PlannedNote>) -> Seq<NotePlan> {
    Seq::new(v.len(), |i: int| NotePlan { title: v[i].title@, content: v[i].content@, folder: opt_int(v[i].folder) })
}

/// Some planned folder has the path `p`.
pub open spec fn has_path(fs: Seq<FolderPlan>, p: Seq<char>) -> bool {
    exists|i: int| 0 <= i < fs.len() && #[trigger] fs[i].path == p
}

/// The position of the planned folder with path `p`.
pub open spec fn path_index(fs: Seq<FolderPlan>, p: Seq<char>) -> int {
    choose|i: int| 0 <= i < fs.len() && #[trigger] fs[i].path == p
}

/// Planned folders have distinct paths, and each parent comes before its child.
pub open spec fn folders_wf(fs: Seq<FolderPlan>) -> bool {
    &&& forall|i: int, j: int|
        0 <= i < fs.len() && 0 <= j < fs.len() && i != j ==> #[trigger] fs[i].path != #[trigger] fs[j].path
    &&& forall|i: int| 0 <= i < fs.len() && (#[trigger] fs[i]).parent is Some ==> 0 <= fs[i].parent.unwrap() < i
}

/// The planned folders after walking the first `k` pieces of a directory
/// path: each prefix that has no folder yet gets one, a child of the folder
/// of the prefix one piece shorter.
pub open spec fn add_chain(fs: Seq<FolderPlan>, parts: Seq<Seq<char>>, k: nat) -> Seq<FolderPlan>
    decreases k,
{
    if k == 0 {
        fs
    } else {
        let fs1 = add_chain(fs, parts, (k - 1) as nat);
        let p = join_pieces(parts.take(k as int));
        if has_path(fs1, p) {
            fs1
        } else {
            fs1.push(
                FolderPlan {
                    path: p,
                    name: parts[k - 1],
                    parent: if k == 1 {
                        None
                    } else {
                        Some(path_index(fs1, join_pieces(parts.take(k - 1))))
                    },
                },
            )
        }
    }
}

fn find_path(folders: &Vec<PlannedFolder>, p: &String) -> (r: Option<usize>)
    ensures
        match r {
            Some(i) => i < folders@.len() && folder_views(folders@)[i as int].path == p@,
            None => !has_path(folder_views(folders@), p@),
        },
{
    let mut i: usize = 0;
    while i < folders.len()
        invariant
            i <= folders@.len(),
            forall|j: int| 0 <= j < i ==> #[trigger] folder_views(folders@)[j].path != p@,
        decreases folders@.len() - i,
    {
        if folders[i].path == *p {
            return Some(i);
        }
        i = i + 1;
    }
    None
}

proof fn lemma_path_index(fs: Seq<FolderPlan>, i: int)
    requires
        folders_wf(fs),
        0 <= i < fs.len(),
    ensures
        has_path(fs, fs[i].path),
        path_index(fs, fs[i].path) == i,
{
    assert(fs[i].path == fs[i].path);
    let j = path_index(fs, fs[i].path);
    assert(fs[j].path == fs[i].path);
}

fn add_dir_chain(folders: &mut Vec<PlannedFolder>, parts: &Vec<String>)
    requires
        folders_wf(folder_views(old(folders)@)),
    ensures
        folders_wf(folder_views(final(folders)@)),
        folder_views(final(folders)@) == add_chain(folder_views(old(folders)@), views(parts@), parts@.len()),
{
    let ghost start = folder_views(folders@);
    let mut parent: Option<usize> = None;
    let mut k: usize = 0;
    while k < parts.len()
        invariant
            k <= parts@.len(),
            start == folder_views(old(folders)@),
            folders_wf(folder_views(folders@)),
            folder_views(folders@) == add_chain(start, views(parts@), k as nat),
            k == 0 ==> parent is None,
            k > 0 ==> parent is Some && parent.unwrap() < folders@.len() && folder_views(folders@)[parent.unwrap() as int].path
                == join_pieces(views(parts@).take(k as int)),
        decreases parts@.len() - k,
    {
        let p = join_prefix(parts, k + 1);
        let ghost fs1 = folder_views(folders@);
        match find_path(folders, &p) {
            Some(i) => {
                parent = Some(i);
            },
            None => {
                proof {
                    if k > 0 {
                        lemma_path_index(fs1, parent.unwrap() as int);
                    }
                }
                let ghost before = folders@;
                folders.push(PlannedFolder { path: p, name: parts[k].clone(), parent });
                proof {
                    let fs2 = folder_views(folders@);
                    let np = FolderPlan {
                        path: p@,
                        name: views(parts@)[k as int],
                        parent: if k + 1 == 1 {
                            None
                        } else {
                            Some(path_index(fs1, join_pieces(views(parts@).take(k as int))))
                        },
                    };
                    assert(fs2 =~= fs1.push(np));
                    assert forall|a: int, b: int|
                        0 <= a < fs2.len() && 0 <= b < fs2.len() && a != b implies #[trigger] fs2[a].path
                            != #[trigger] fs2[b].path by {
                        if a < fs1.len() && b < fs1.len() {
                            assert(fs2[a] == fs1[a] && fs2[b] == fs1[b]);
                        } else if a < fs1.len() {
                            assert(fs2[a] == fs1[a]);
                            assert(fs1[a].path != p@);
                        } else {
                            assert(fs2[b] == fs1[b]);
                            assert(fs1[b].path != p@);
                        }
                    }
                    assert forall|a: int| 0 <= a < fs2.len() && (#[trigger] fs2[a]).parent is Some implies 0
                        <= fs2[a].parent.unwrap() < a by {
                        if a < fs1.len() {
                            assert(fs2[a] == fs1[a]);
                        }
                    }
                }
                parent = Some(folders.len() - 1);
            },
        }
        k = k + 1;
    }
}

/// The path of an entry: its name without trailing slashes.
pub open spec fn entry_path(e: ArchiveEntry) -> Seq<char> {
    trim_slashes(e.name@)
}

/// The depth of an entry: the number of slashes in its path.
pub open spec fn entry_depth(e: ArchiveEntry) -> nat {
    slash_count(entry_path(e))
}

/// The planned folders after the directory entries of depth `d` among `es`,
/// in order, were walked.
pub open spec fn dirs_at(fs: Seq<FolderPlan>, es: Seq<ArchiveEntry>, d: nat) -> Seq<FolderPlan>
    decreases es.len(),
{
    if es.len() == 0 {
        fs
    } else {
        let fs1 = dirs_at(fs, es.drop_last(), d);
        let e = es.last();
        if entry_kind(e.name@, e.is_dir) == EntryKind::Directory && entry_depth(e) == d {
            let ps = pieces(entry_path(e));
            add_chain(fs1, ps, ps.len())
        } else {
            fs1
        }
    }
}

/// The planned folders after the directory entries of depth at most `d`
/// were walked, shallower ones first and in archive order within a depth.
pub open spec fn dirs_upto(es: Seq<ArchiveEntry>, d: nat) -> Seq<FolderPlan>
    decreases d,
{
    if d == 0 {
        dirs_at(Seq::empty(), es, 0)
    } else {
        dirs_at(dirs_upto(es, (d - 1) as nat), es, d)
    }
}

/// The largest depth among the entries.
pub open spec fn max_depth(es: Seq<ArchiveEntry>) -> nat
    decreases es.len(),
{
    if es.len() == 0 {
        0
    } else {
        let m = max_depth(es.drop_last());
        if entry_depth(es.last()) > m {
            entry_depth(es.last())
        } else {
            m
        }
    }
}

/// The folders that the directory entries of `es` turn into.
pub open spec fn planned_folders(es: Seq<ArchiveEntry>) -> Seq<FolderPlan> {
    dirs_upto(es, max_depth(es))
}

/// `s` without its trailing `.md` suffixes.
pub open spec fn strip_md(s: Seq<char>) -> Seq<char>
    decreases s.len(),
{
    if ends_with(s, md_suffix()) {
        strip_md(s.subrange(0, s.len() - 3))
    } else {
        s
    }
}

/// The last piece of an entry's path.
pub open spec fn file_name(e: ArchiveEntry) -> Seq<char> {
    let ps = pieces(entry_path(e));
    if ps.len() > 0 {
        ps.last()
    } else {
        e.name@
    }
}

/// The title of the note made from a Markdown entry.
pub open spec fn note_title(e: ArchiveEntry) -> Seq<char> {
    if strip_md(file_name(e)).len() == 0 {
        "Untitled"@
    } else {
        strip_md(file_name(e))
    }
}

/// The planned folder of the note made from entry `e`: the folder of the
/// directory that holds it, if that directory has one; the root otherwise.
pub open spec fn note_folder(fs: Seq<FolderPlan>, e: ArchiveEntry) -> Option<int> {
    let ps = pieces(entry_path(e));
    if ps.len() > 1 && has_path(fs, join_pieces(ps.drop_last())) {
        Some(path_index(fs, join_pieces(ps.drop_last())))
    } else {
        None
    }
}

/// The text of an entry; empty when none was read.
pub open spec fn content_of(e: ArchiveEntry) -> Seq<char> {
    match e.content {
        Some(c) => c@,
        None => Seq::empty(),
    }
}

/// The notes that the Markdown entries of `es` turn into, in archive order.
pub open spec fn plan_notes(fs: Seq<FolderPlan>, es: Seq<ArchiveEntry>) -> Seq<NotePlan>
    decreases es.len(),
{
    if es.len() == 0 {
        Seq::empty()
    } else {
        let rest = plan_notes(fs, es.drop_last());
        let e = es.last();
        if entry_kind(e.name@, e.is_dir) == EntryKind::Markdown {
            rest.push(NotePlan { title: note_title(e), content: content_of(e), folder: note_folder(fs, e) })
        } else {
            rest
        }
    }
}

/// Some entry is a directory or a Markdown file.
pub open spec fn importable(es: Seq<ArchiveEntry>) -> bool {
    exists|i: int| 0 <= i < es.len() && entry_kind(#[trigger] es[i].name@, es[i].is_dir) != EntryKind::Other
}

fn strip_md_suffixes(s: &String) -> (r: String)
    ensures
        r@ == strip_md(s@),
{
    let n = s.as_str().unicode_len();
    let mut end: usize = n;
    assert(s@.subrange(0, n as int) =~= s@);
    while end >= 3 && s.as_str().get_char(end - 3) == '.' && s.as_str().get_char(end - 2) == 'm'
        && s.as_str().get_char(end - 1) == 'd'
        invariant
            n == s@.len(),
            end <= n,
            strip_md(s@) == strip_md(s@.subrange(0, end as int)),
        decreases end,
    {
        let ghost t = s@.subrange(0, end as int);
        assert(t.subrange(t.len() - 3, t.len() as int) =~= md_suffix());
        assert(t.subrange(0, t.len() - 3) =~= s@.subrange(0, end - 3));
        end = end - 3;
    }
    proof {
        let t = s@.subrange(0, end as int);
        if end >= 3 {
            let tail = t.subrange(t.len() - 3, t.len() as int);
            if tail =~= md_suffix() {
                assert(tail[0] == t[end - 3] && tail[1] == t[end - 2] && tail[2] == t[end - 1]);
                assert(false);
            }
        }
    }
    <String as StringExecFns>::from_str(s.as_str().substring_char(0, end))
}

fn entry_path_of(e: &ArchiveEntry) -> (r: String)
    ensures
        r@ == entry_path(*e),
{
    trim_trailing_slashes(e.name.as_str())
}

fn is_directory(e: &ArchiveEntry) -> (r: bool)
    ensures
        r == (entry_kind(e.name@, e.is_dir) == EntryKind::Directory),
{
    match classify_entry(e.name.as_str(), e.is_dir) {
        EntryKind::Directory => true,
        _ => false,
    }
}

fn is_markdown(e: &ArchiveEntry) -> (r: bool)
    ensures
        r == (entry_kind(e.name@, e.is_dir) == EntryKind::Markdown),
{
    match classify_entry(e.name.as_str(), e.is_dir) {
        EntryKind::Markdown => true,
        _ => false,
    }
}

fn plan_folders(entries: &Vec<ArchiveEntry>) -> (r: Vec<PlannedFolder>)
    ensures
        folders_wf(folder_views(r@)),
        folder_views(r@) == planned_folders(entries@),
{
    let mut maxd: usize = 0;
    let mut i: usize = 0;
    while i < entries.len()
        invariant
            i <= entries@.len(),
            maxd == max_depth(entries@.take(i as int)),
        decreases entries@.len() - i,
    {
        assert(entries@.take(i + 1).drop_last() =~= entries@.take(i as int));
        let path = entry_path_of(&entries[i]);
        let depth = count_slashes(&path);
        if depth > maxd {
            maxd = depth;
        }
        i = i + 1;
    }
    assert(entries@.take(entries@.len() as int) =~= entries@);
    let mut folders: Vec<PlannedFolder> = Vec::new();
    assert(folder_views(folders@) =~= Seq::<FolderPlan>::empty());
    let mut d: usize = 0;
    loop
        invariant_except_break
            d == 0 ==> folder_views(folders@) == Seq::<FolderPlan>::empty(),
            d > 0 ==> folder_views(folders@) == dirs_upto(entries@, (d - 1) as nat),
        invariant
            d <= maxd,
            maxd == max_depth(entries@),
            folders_wf(folder_views(folders@)),
        ensures
            folders_wf(folder_views(folders@)),
            folder_views(folders@) == dirs_upto(entries@, maxd as nat),
        decreases maxd - d,
    {
        let ghost base = folder_views(folders@);
        let mut i: usize = 0;
        while i < entries.len()
            invariant
                i <= entries@.len(),
                folders_wf(folder_views(folders@)),
                folder_views(folders@) == dirs_at(base, entries@.take(i as int), d as nat),
            decreases entries@.len() - i,
        {
            assert(entries@.take(i + 1).drop_last() =~= entries@.take(i as int));
            let e = &entries[i];
            if is_directory(e) {
                let path = entry_path_of(e);
                if count_slashes(&path) == d {
                    let parts = split_pieces(&path);
                    add_dir_chain(&mut folders, &parts);
                }
            }
            i = i + 1;
        }
        assert(entries@.take(entries@.len() as int) =~= entries@);
        assert(folder_views(folders@) == dirs_upto(entries@, d as nat));
        if d == maxd {
            break;
        }
        d = d + 1;
    }
    folders
}

fn plan_note_list(entries: &Vec<ArchiveEntry>, folders: &Vec<PlannedFolder>) -> (r: Vec<PlannedNote>)
    requires
        folders_wf(folder_views(folders@)),
    ensures
        note_views(r@) == plan_notes(folder_views(folders@), entries@),
        forall|i: int| 0 <= i < r@.len() && (#[trigger] r@[i]).folder is Some ==> r@[i].folder.unwrap() < folders@.len(),
{
    let ghost fs = folder_views(folders@);
    let mut notes: Vec<PlannedNote> = Vec::new();
    let mut i: usize = 0;
    while i < entries.len()
        invariant
            i <= entries@.len(),
            fs == folder_views(folders@),
            folders_wf(fs),
            note_views(notes@) =~= plan_notes(fs, entries@.take(i as int)),
            forall|k: int| 0 <= k < notes@.len() && (#[trigger] notes@[k]).folder is Some ==> notes@[k].folder.unwrap() < folders@.len(),
        decreases entries@.len() - i,
    {
        assert(entries@.take(i + 1).drop_last() =~= entries@.take(i as int));
        let e = &entries[i];
        if is_markdown(e) {
            let path = entry_path_of(e);
            let parts = split_pieces(&path);
            let fname = if parts.len() > 0 {
                parts[parts.len() - 1].clone()
            } else {
                e.name.clone()
            };
            let stripped = strip_md_suffixes(&fname);
            let title = if stripped.as_str().is_empty() {
                <String as StringExecFns>::from_str("Untitled")
            } else {
                stripped
            };
            let folder = if parts.len() > 1 {
                let dir = join_prefix(&parts, parts.len() - 1);
                assert(views(parts@).take(parts@.len() - 1) =~= views(parts@).drop_last());
                match find_path(folders, &dir) {
                    Some(j) => {
                        proof {
                            lemma_path_index(fs, j as int);
                        }
                        Some(j)
                    },
                    None => None,
                }
            } else {
                None
            };
            let content = match &e.content {
                Some(c) => c.clone(),
                None => String::new(),
            };
            let ghost before = notes@;
            notes.push(PlannedNote { title, content, folder });
            assert(note_views(notes@) =~= note_views(before).push(
                NotePlan { title: note_title(*e), content: content_of(*e), folder: note_folder(fs, *e) },
            ));
        }
        i = i + 1;
    }
    assert(entries@.take(entries@.len() as int) =~= entries@);
    notes
}

/// The plan for importing an archive with the given entries: a folder for
/// every directory prefix, created shallow directories first, and a note for
/// every Markdown file, titled after its file name and placed in the folder
/// of its directory. Refused when no entry is a directory or a Markdown file.
pub fn plan_import(entries: &Vec<ArchiveEntry>) -> (r: Result<ImportPlan, ImportError>)
    ensures
        !importable(entries@) ==> r == Err::<ImportPlan, ImportError>(ImportError::NothingToImport),
        importable(entries@) ==> r is Ok && folder_views(r.unwrap().folders@) == planned_folders(entries@)
            && note_views(r.unwrap().notes@) == plan_notes(planned_folders(entries@), entries@)
            && folders_wf(folder_views(r.unwrap().folders@))
            && (forall|i: int| 0 <= i < r.unwrap().notes@.len() && (#[trigger] r.unwrap().notes@[i]).folder is Some
                ==> r.unwrap().notes@[i].folder.unwrap() < r.unwrap().folders@.len()),
{
    let mut any = false;
    let mut i: usize = 0;
    while i < entries.len()
        invariant
            i <= entries@.len(),
            any == exists|k: int| 0 <= k < i && entry_kind(#[trigger] entries@[k].name@, entries@[k].is_dir) != EntryKind::Other,
        decreases entries@.len() - i,
    {
        let kind = classify_entry(entries[i].name.as_str(), entries[i].is_dir);
        match kind {
            EntryKind::Other => {},
            _ => {
                any = true;
            },
        }
        i = i + 1;
    }
    if !any {
        return Err(ImportError::NothingToImport);
    }
    let folders = plan_folders(entries);
    let notes = plan_note_list(entries, &folders);
    Ok(ImportPlan { folders, notes })
}

} // verus!
