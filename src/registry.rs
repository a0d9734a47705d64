use crate::chunk::opt_view;
use crate::text::{is_within, path_within, str_eq};
use vstd::prelude::*;

verus! {

/// Default maximum number of resident projects.
pub const DEFAULT_MAX_PROJECTS: usize = 10;

/// Ledger row of one indexed file.
#[derive(Debug, Clone)]
pub struct FileEntry {
    pub hash: String,
    pub chunk_count: usize,
    pub indexed_at: u64,
}

/// One indexed project: its collection, its file ledger (keyed by file path)
/// and its creation and last-access times in seconds.
#[derive(Debug, Clone)]
pub struct RootInfo {
    pub collection_name: String,
    pub files: Vec<(String, FileEntry)>,
    pub indexed_at: u64,
    pub last_accessed_at: u64,
}

/// The durable state: project root path to project.
#[derive(Debug, Clone)]
pub struct Snapshot {
    pub roots: Vec<(String, RootInfo)>,
}

/// A file ledger row as plain values: hash, chunk count, time indexed.
pub type FileView = (Seq<char>, usize, u64);

pub struct RootView {
    pub collection_name: Seq<char>,
    pub files: Seq<(Seq<char>, FileView)>,
    pub indexed_at: u64,
    pub last_accessed_at: u64,
}

impl View for FileEntry {
    type V = FileView;

    open spec fn view(&self) -> FileView {
        (self.hash@, self.chunk_count, self.indexed_at)
    }
}

pub open spec fn file_row_view(e: (String, FileEntry)) -> (Seq<char>, FileView) {
    (e.0@, e.1@)
}

pub open spec fn ledger_view(fs: Seq<(String, FileEntry)>) -> Seq<(Seq<char>, FileView)> {
    fs.map_values(|e: (String, FileEntry)| file_row_view(e))
}

impl View for RootInfo {
    type V = RootView;

    open spec fn view(&self) -> RootView {
        RootView {
            collection_name: self.collection_name@,
            files: ledger_view(self.files@),
            indexed_at: self.indexed_at,
            last_accessed_at: self.last_accessed_at,
        }
    }
}

pub open spec fn root_row_view(e: (String, RootInfo)) -> (Seq<char>, RootView) {
    (e.0@, e.1@)
}

impl View for Snapshot {
    type V = Seq<(Seq<char>, RootView)>;

    open spec fn view(&self) -> Seq<(Seq<char>, RootView)> {
        self.roots@.map_values(|e: (String, RootInfo)| root_row_view(e))
    }
}

/// No two files of a ledger share a path.
pub open spec fn file_keys_distinct(fs: Seq<(Seq<char>, FileView)>) -> bool {
    forall|i: int, j: int| 0 <= i < j < fs.len() ==> fs[i].0 != fs[j].0
}

/// No two projects share a root path, and each ledger has distinct paths.
pub open spec fn snapshot_wf(v: Seq<(Seq<char>, RootView)>) -> bool {
    &&& forall|i: int, j: int| 0 <= i < j < v.len() ==> v[i].0 != v[j].0
    &&& forall|i: int| 0 <= i < v.len() ==> file_keys_distinct(#[trigger] v[i].1.files)
}

/// Entry `i` of the snapshot is the project rooted at `p`.
pub open spec fn root_at(v: Seq<(Seq<char>, RootView)>, p: Seq<char>, i: int) -> bool {
    0 <= i < v.len() && v[i].0 == p
}

pub open spec fn has_root(v: Seq<(Seq<char>, RootView)>, p: Seq<char>) -> bool {
    exists|i: int| root_at(v, p, i)
}

/// Entry `i` has the smallest last-access time, and is the first entry that
/// has it.
pub open spec fn is_oldest(v: Seq<(Seq<char>, RootView)>, i: int) -> bool {
    &&& 0 <= i < v.len()
    &&& forall|j: int| 0 <= j < v.len() ==> v[i].1.last_accessed_at <= #[trigger] v[j].1.last_accessed_at
    &&& forall|j: int| 0 <= j < i ==> v[i].1.last_accessed_at < #[trigger] v[j].1.last_accessed_at
}

/// Entry `i` of a ledger is the file at `f`.
pub open spec fn file_at(fs: Seq<(Seq<char>, FileView)>, f: Seq<char>, i: int) -> bool {
    0 <= i < fs.len() && fs[i].0 == f
}

/// `b` is `a` with its last-access time possibly changed.
pub open spec fn touched(a: RootView, b: RootView) -> bool {
    b == RootView { last_accessed_at: b.last_accessed_at, ..a }
}

/// `a` with its last-access time set to `now`.
pub open spec fn stamped(a: RootView, now: u64) -> RootView {
    RootView { last_accessed_at: now, ..a }
}

/// `b` is `a` with entry `i`'s last-access time set to `now`.
pub open spec fn stamped_at(a: Seq<(Seq<char>, RootView)>, b: Seq<(Seq<char>, RootView)>, i: int, now: u64) -> bool {
    b == a.update(i, (a[i].0, stamped(a[i].1, now)))
}

/// Relies on `SystemTime::now`: whole seconds since the Unix epoch, or 0 for
/// a clock set before it.
#[verifier::external_body]
pub(crate) fn now_secs() -> (r: u64) {
    std::time::SystemTime::now().duration_since(std::time::UNIX_EPOCH).map(|d| d.as_secs()).unwrap_or(0)
}

impl RootInfo {
    /// A project with an empty ledger, created and accessed now.
    pub fn new(collection_name: String) -> (r: RootInfo)
        ensures
            r@.collection_name == collection_name@,
            r@.files.len() == 0,
            r@.indexed_at == r@.last_accessed_at,
    {
        Self::new_at(collection_name, now_secs())
    }

    /// A project with an empty ledger, created and accessed at `now`.
    pub fn new_at(collection_name: String, now: u64) -> (r: RootInfo)
        ensures
            r@ == (RootView { collection_name: collection_name@, files: Seq::empty(), indexed_at: now, last_accessed_at: now }),
    {
        let r = RootInfo { collection_name, files: Vec::new(), indexed_at: now, last_accessed_at: now };
        assert(r@.files =~= Seq::empty());
        r
    }

    /// Sets the last-access time to now.
    pub fn touch(&mut self)
        ensures
            touched(old(self)@, final(self)@),
    {
        self.touch_at(now_secs());
    }

    /// Sets the last-access time to `now`.
    pub fn touch_at(&mut self, now: u64)
        ensures
            final(self)@ == stamped(old(self)@, now),
    {
        self.last_accessed_at = now;
        assert(final(self)@.files =~= old(self)@.files);
    }

    /// A copy of this project.
    pub fn duplicate(&self) -> (r: RootInfo)
        ensures
            r@ == self@,
    {
        let mut files: Vec<(String, FileEntry)> = Vec::new();
        let mut i: usize = 0;
        while i < self.files.len()
            invariant
                i <= self.files@.len(),
                files@.len() == i,
                forall|k: int| 0 <= k < i ==> file_row_view(#[trigger] files@[k]) == file_row_view(self.files@[k]),
            decreases self.files.len() - i,
        {
            let row = &self.files[i];
            let copy = (
                row.0.clone(),
                FileEntry { hash: row.1.hash.clone(), chunk_count: row.1.chunk_count, indexed_at: row.1.indexed_at },
            );
            files.push(copy);
            i = i + 1;
        }
        assert(ledger_view(files@) =~= ledger_view(self.files@));
        RootInfo {
            collection_name: self.collection_name.clone(),
            files,
            indexed_at: self.indexed_at,
            last_accessed_at: self.last_accessed_at,
        }
    }
}


/// The registry as plain values.
pub struct RegistryView {
    pub roots: Seq<(Seq<char>, RootView)>,
    pub max_projects: usize,
    pub snapshot_path: Seq<char>,
}

/// Owns the snapshot of all indexed projects and keeps at most
/// `max_projects` of them by evicting the least recently accessed.
pub struct SnapshotManager {
    snapshot_path: String,
    snapshot: Snapshot,
    max_projects: usize,
}

impl View for SnapshotManager {
    type V = RegistryView;

    closed spec fn view(&self) -> RegistryView {
        RegistryView {
            roots: self.snapshot@,
            max_projects: self.max_projects,
            snapshot_path: self.snapshot_path@,
        }
    }
}

/// The hash recorded for `file` under project `root`, if any.
pub open spec fn file_hash_in(v: Seq<(Seq<char>, RootView)>, root: Seq<char>, file: Seq<char>) -> Option<
    Seq<char>,
> {
    if exists|i: int, k: int| root_at(v, root, i) && file_at(v[i].1.files, file, k) {
        let (i, k) = choose|i: int, k: int| root_at(v, root, i) && file_at(v[i].1.files, file, k);
        Some(v[i].1.files[k].1.0)
    } else {
        None
    }
}

/// Ledger `b` is `a` with the row of `f` set to hash `h` and `c` chunks
/// (replaced in place, or appended when `a` has no row for `f`).
pub open spec fn ledger_upserted(
    a: Seq<(Seq<char>, FileView)>,
    b: Seq<(Seq<char>, FileView)>,
    f: Seq<char>,
    h: Seq<char>,
    c: usize,
) -> bool {
    if exists|k: int| file_at(a, f, k) {
        forall|k: int|
            file_at(a, f, k) ==> {
                &&& b.len() == a.len()
                &&& forall|m: int| 0 <= m < a.len() && m != k ==> b[m] == a[m]
                &&& b[k].0 == f && b[k].1.0 == h && b[k].1.1 == c
            }
    } else {
        &&& b.len() == a.len() + 1
        &&& b.subrange(0, a.len() as int) == a
        &&& b[a.len() as int].0 == f && b[a.len() as int].1.0 == h && b[a.len() as int].1.1 == c
    }
}

/// Registry `b` is `a` after recording hash `h` and `c` chunks for file `f`
/// of project `root`: only that project's ledger changes, and nothing at
/// all when the project is unknown.
pub open spec fn file_updated(
    a: Seq<(Seq<char>, RootView)>,
    b: Seq<(Seq<char>, RootView)>,
    root: Seq<char>,
    f: Seq<char>,
    h: Seq<char>,
    c: usize,
) -> bool {
    if has_root(a, root) {
        forall|i: int|
            root_at(a, root, i) ==> {
                &&& b.len() == a.len()
                &&& forall|j: int| 0 <= j < a.len() && j != i ==> b[j] == a[j]
                &&& b[i].0 == a[i].0
                &&& b[i].1 == RootView { files: b[i].1.files, ..a[i].1 }
                &&& ledger_upserted(a[i].1.files, b[i].1.files, f, h, c)
            }
    } else {
        b == a
    }
}

impl SnapshotManager {
    /// The registry is well formed: distinct roots, distinct files per root.
    pub open spec fn wf(&self) -> bool {
        snapshot_wf(self@.roots)
    }

    pub fn new(snapshot_path: String) -> (r: SnapshotManager)
        ensures
            r.wf(),
            r@.roots.len() == 0,
            r@.max_projects == DEFAULT_MAX_PROJECTS,
            r@.snapshot_path == snapshot_path@,
    {
        Self::new_with_max_projects(snapshot_path, DEFAULT_MAX_PROJECTS)
    }

    pub fn new_with_max_projects(snapshot_path: String, max_projects: usize) -> (r: SnapshotManager)
        ensures
            r.wf(),
            r@.roots.len() == 0,
            r@.max_projects == max_projects,
            r@.snapshot_path == snapshot_path@,
    {
        let r = SnapshotManager { snapshot_path, snapshot: Snapshot { roots: Vec::new() }, max_projects };
        assert(r@.roots =~= Seq::empty());
        r
    }

    /// Where the snapshot is kept on disk.
    pub fn snapshot_path(&self) -> (r: &str)
        ensures
            r@ == self@.snapshot_path,
    {
        self.snapshot_path.as_str()
    }

    /// The whole snapshot, for persisting it.
    pub fn snapshot(&self) -> (r: &Snapshot)
        ensures
            r@ == self@.roots,
    {
        &self.snapshot
    }

    /// Replaces the whole in-memory state by a loaded snapshot. A snapshot
    /// with a repeated root or a repeated file path is refused and the state
    /// left as it was.
    pub fn load_snapshot(&mut self, snapshot: Snapshot) -> (r: bool)
        requires
            old(self).wf(),
        ensures
            final(self).wf(),
            r == snapshot_wf(snapshot@),
            r ==> final(self)@.roots == snapshot@,
            !r ==> final(self)@.roots == old(self)@.roots,
            final(self)@.max_projects == old(self)@.max_projects,
            final(self)@.snapshot_path == old(self)@.snapshot_path,
    {
        if snapshot_is_wf(&snapshot) {
            self.snapshot = snapshot;
            true
        } else {
            false
        }
    }

    fn position_of(&self, project_root: &str) -> (r: Option<usize>)
        ensures
            r matches Some(i) ==> root_at(self@.roots, project_root@, i as int),
            r is None ==> !has_root(self@.roots, project_root@),
    {
        let mut i: usize = 0;
        while i < self.snapshot.roots.len()
            invariant
                i <= self.snapshot.roots@.len(),
                self@.roots == self.snapshot@,
                forall|j: int| 0 <= j < i ==> !root_at(self@.roots, project_root@, j),
            decreases self.snapshot.roots.len() - i,
        {
            if str_eq(self.snapshot.roots[i].0.as_str(), project_root) {
                return Some(i);
            }
            i = i + 1;
        }
        None
    }

    /// The hash recorded for a file of a project.
    pub fn get_file_hash(&self, project_root: &str, file_path: &str) -> (r: Option<String>)
        requires
            self.wf(),
        ensures
            opt_view(r) == file_hash_in(self@.roots, project_root@, file_path@),
    {
        match self.position_of(project_root) {
            None => None,
            Some(i) => {
                let files = &self.snapshot.roots[i].1.files;
                let ghost fv = self@.roots[i as int].1.files;
                assert(self@.roots[i as int] == root_row_view(self.snapshot.roots@[i as int]));
                assert(forall|m: int| 0 <= m < fv.len() ==> #[trigger] fv[m] == file_row_view(files@[m]));
                let mut k: usize = 0;
                while k < files.len()
                    invariant
                        k <= files@.len(),
                        fv == ledger_view(files@),
                        fv.len() == files@.len(),
                        forall|m: int| 0 <= m < fv.len() ==> #[trigger] fv[m] == file_row_view(files@[m]),
                        forall|m: int| 0 <= m < k ==> !file_at(fv, file_path@, m),
                        root_at(self@.roots, project_root@, i as int),
                        fv == self@.roots[i as int].1.files,
                        snapshot_wf(self@.roots),
                    decreases files.len() - k,
                {
                    if str_eq(files[k].0.as_str(), file_path) {
                        proof {
                            assert(file_at(fv, file_path@, k as int));
                            assert(root_at(self@.roots, project_root@, i as int));
                            let (a, b) = choose|a: int, b: int|
                                root_at(self@.roots, project_root@, a) && file_at(
                                    self@.roots[a].1.files,
                                    file_path@,
                                    b,
                                );
                            assert(a == i);
                            assert(b == k);
                        }
                        return Some(files[k].1.hash.clone());
                    }
                    k = k + 1;
                }
                proof {
                    assert forall|a: int, b: int|
                        root_at(self@.roots, project_root@, a) implies !file_at(
                        self@.roots[a].1.files,
                        file_path@,
                        b,
                    ) by {
                        assert(a == i);
                    }
                }
                None
            },
        }
    }
}

/// When the registry held `v` and was full, the eviction candidate `e` is
/// the root of its oldest entry (none when `v` is empty).
pub open spec fn evicts_oldest(v: Seq<(Seq<char>, RootView)>, e: Option<Seq<char>>) -> bool {
    if v.len() == 0 {
        e is None
    } else {
        exists|i: int| is_oldest(v, i) && e == Some(v[i].0)
    }
}

/// `b` is `a` with entry `i`'s last-access time possibly changed.
pub open spec fn touched_at(a: Seq<(Seq<char>, RootView)>, b: Seq<(Seq<char>, RootView)>, i: int) -> bool {
    &&& b.len() == a.len()
    &&& forall|j: int| 0 <= j < a.len() && j != i ==> b[j] == a[j]
    &&& b[i].0 == a[i].0
    &&& touched(a[i].1, b[i].1)
}

impl SnapshotManager {
    proof fn lemma_view_index(&self, i: int)
        requires
            0 <= i < self.snapshot.roots@.len(),
        ensures
            self@.roots.len() == self.snapshot.roots@.len(),
            self@.roots[i] == root_row_view(self.snapshot.roots@[i]),
    {
    }

    /// Index of the entry with the smallest last-access time (the first such).
    fn oldest_index(&self) -> (r: Option<usize>)
        ensures
            r matches Some(i) ==> is_oldest(self@.roots, i as int),
            r is None ==> self@.roots.len() == 0,
    {
        let n = self.snapshot.roots.len();
        if n == 0 {
            return None;
        }
        let ghost v = self@.roots;
        assert(forall|k: int| 0 <= k < v.len() ==> #[trigger] v[k] == root_row_view(self.snapshot.roots@[k]));
        let mut best: usize = 0;
        let mut i: usize = 1;
        while i < n
            invariant
                n == self.snapshot.roots@.len(),
                v == self@.roots,
                v.len() == n,
                forall|k: int| 0 <= k < v.len() ==> #[trigger] v[k] == root_row_view(self.snapshot.roots@[k]),
                1 <= i <= n,
                best < i,
                forall|j: int| 0 <= j < i ==> v[best as int].1.last_accessed_at <= #[trigger] v[j].1.last_accessed_at,
                forall|j: int| 0 <= j < best ==> v[best as int].1.last_accessed_at < #[trigger] v[j].1.last_accessed_at,
            decreases n - i,
        {
            if self.snapshot.roots[i].1.last_accessed_at < self.snapshot.roots[best].1.last_accessed_at {
                best = i;
            }
            i = i + 1;
        }
        Some(best)
    }

    /// Returns the project at `project_root`, touching it, or creates it. When
    /// the project is new and the registry already holds `max_projects`
    /// entries, also names the least recently accessed root, which the
    /// caller must evict (it is still resident).
    pub fn get_or_create_root(&mut self, project_root: &str, collection_name: &str) -> (r: (
        RootInfo,
        Option<String>,
    ))
        requires
            old(self).wf(),
        ensures
            final(self).wf(),
            final(self)@.max_projects == old(self)@.max_projects,
            final(self)@.snapshot_path == old(self)@.snapshot_path,
            has_root(old(self)@.roots, project_root@) ==> forall|i: int|
                root_at(old(self)@.roots, project_root@, i) ==> {
                    &&& touched_at(old(self)@.roots, final(self)@.roots, i)
                    &&& r.0@ == final(self)@.roots[i].1
                    &&& r.1 is None
                },
            !has_root(old(self)@.roots, project_root@) ==> {
                &&& final(self)@.roots == old(self)@.roots.push((project_root@, r.0@))
                &&& r.0@.collection_name == collection_name@
                &&& r.0@.files.len() == 0
                &&& r.0@.indexed_at == r.0@.last_accessed_at
                &&& old(self)@.roots.len() < old(self)@.max_projects ==> r.1 is None
                &&& old(self)@.roots.len() >= old(self)@.max_projects ==> evicts_oldest(
                    old(self)@.roots,
                    opt_view(r.1),
                )
            },
    {
        self.get_or_create_root_at(project_root, collection_name, now_secs())
    }

    /// As `get_or_create_root`, at time `now`: the project's last-access time
    /// becomes `now`, and a new project is created at `now`.
    pub fn get_or_create_root_at(&mut self, project_root: &str, collection_name: &str, now: u64) -> (r: (
        RootInfo,
        Option<String>,
    ))
        requires
            old(self).wf(),
        ensures
            final(self).wf(),
            final(self)@.max_projects == old(self)@.max_projects,
            final(self)@.snapshot_path == old(self)@.snapshot_path,
            has_root(old(self)@.roots, project_root@) ==> forall|i: int|
                root_at(old(self)@.roots, project_root@, i) ==> {
                    &&& touched_at(old(self)@.roots, final(self)@.roots, i)
                    &&& r.0@ == final(self)@.roots[i].1
                    &&& r.1 is None
                },
            !has_root(old(self)@.roots, project_root@) ==> {
                &&& final(self)@.roots == old(self)@.roots.push((project_root@, r.0@))
                &&& r.0@.collection_name == collection_name@
                &&& r.0@.files.len() == 0
                &&& r.0@.indexed_at == r.0@.last_accessed_at
                &&& old(self)@.roots.len() < old(self)@.max_projects ==> r.1 is None
                &&& old(self)@.roots.len() >= old(self)@.max_projects ==> evicts_oldest(
                    old(self)@.roots,
                    opt_view(r.1),
                )
            },
            has_root(old(self)@.roots, project_root@) ==> forall|i: int|
                root_at(old(self)@.roots, project_root@, i) ==> stamped_at(
                    old(self)@.roots,
                    final(self)@.roots,
                    i,
                    now,
                ),
            !has_root(old(self)@.roots, project_root@) ==> r.0@.indexed_at == now && r.0@.last_accessed_at == now,
    {
        let ghost v0 = self@.roots;
        match self.position_of(project_root) {
            Some(i) => {
                self.snapshot.roots[i].1.touch_at(now);
                let copy = self.snapshot.roots[i].1.duplicate();
                proof {
                    assert(self@.roots =~= v0.update(i as int, self@.roots[i as int]));
                    assert forall|a: int, b: int| 0 <= a < b < self@.roots.len() implies self@.roots[a].0 != self@.roots[b].0 by {
                        assert(v0[a].0 != v0[b].0);
                    }
                    assert forall|a: int| 0 <= a < self@.roots.len() implies file_keys_distinct(#[trigger] self@.roots[a].1.files) by {
                        assert(file_keys_distinct(v0[a].1.files));
                    }
                    assert forall|j: int| root_at(v0, project_root@, j) implies j == i by {
                        if j != i {
                            if j < i {
                                assert(v0[j].0 != v0[i as int].0);
                            } else {
                                assert(v0[i as int].0 != v0[j].0);
                            }
                        }
                    }
                }
                (copy, None)
            },
            None => {
                let mut evict: Option<String> = None;
                if self.snapshot.roots.len() >= self.max_projects {
                    match self.oldest_index() {
                        Some(k) => {
                            proof {
                                self.lemma_view_index(k as int);
                            }
                            evict = Some(self.snapshot.roots[k].0.clone());
                        },
                        None => {},
                    }
                }
                let root = RootInfo::new_at(collection_name.to_owned(), now);
                let copy = root.duplicate();
                self.snapshot.roots.push((project_root.to_owned(), root));
                proof {
                    assert(self@.roots =~= v0.push((project_root@, copy@)));
                    assert(file_keys_distinct(copy@.files));
                    assert forall|a: int, b: int| 0 <= a < b < self@.roots.len() implies self@.roots[a].0 != self@.roots[b].0 by {
                        if b == v0.len() {
                            assert(!root_at(v0, project_root@, a));
                        } else {
                            assert(v0[a].0 != v0[b].0);
                        }
                    }
                    assert forall|a: int| 0 <= a < self@.roots.len() implies file_keys_distinct(#[trigger] self@.roots[a].1.files) by {
                        if a < v0.len() {
                            assert(file_keys_distinct(v0[a].1.files));
                        }
                    }
                }
                (copy, evict)
            },
        }
    }

    /// Sets a project's last-access time to now; no effect on an unknown root.
    pub fn touch_project(&mut self, project_root: &str)
        requires
            old(self).wf(),
        ensures
            final(self).wf(),
            final(self)@.max_projects == old(self)@.max_projects,
            final(self)@.snapshot_path == old(self)@.snapshot_path,
            has_root(old(self)@.roots, project_root@) ==> forall|i: int|
                root_at(old(self)@.roots, project_root@, i) ==> touched_at(
                    old(self)@.roots,
                    final(self)@.roots,
                    i,
                ),
            !has_root(old(self)@.roots, project_root@) ==> final(self)@.roots == old(self)@.roots,
    {
        self.touch_project_at(project_root, now_secs())
    }

    /// Sets a project's last-access time to `now`; no effect on an unknown root.
    pub fn touch_project_at(&mut self, project_root: &str, now: u64)
        requires
            old(self).wf(),
        ensures
            final(self).wf(),
            final(self)@.max_projects == old(self)@.max_projects,
            final(self)@.snapshot_path == old(self)@.snapshot_path,
            has_root(old(self)@.roots, project_root@) ==> forall|i: int|
                root_at(old(self)@.roots, project_root@, i) ==> touched_at(
                    old(self)@.roots,
                    final(self)@.roots,
                    i,
                ),
            !has_root(old(self)@.roots, project_root@) ==> final(self)@.roots == old(self)@.roots,
            has_root(old(self)@.roots, project_root@) ==> forall|i: int|
                root_at(old(self)@.roots, project_root@, i) ==> stamped_at(
                    old(self)@.roots,
                    final(self)@.roots,
                    i,
                    now,
                ),
    {
        let _ = self.get_collection_name_at(project_root, now);
    }

    /// The collection of a project, touching it (a lookup counts as use).
    pub fn get_collection_name(&mut self, project_root: &str) -> (r: Option<String>)
        requires
            old(self).wf(),
        ensures
            final(self).wf(),
            final(self)@.max_projects == old(self)@.max_projects,
            final(self)@.snapshot_path == old(self)@.snapshot_path,
            has_root(old(self)@.roots, project_root@) ==> forall|i: int|
                root_at(old(self)@.roots, project_root@, i) ==> {
                    &&& touched_at(old(self)@.roots, final(self)@.roots, i)
                    &&& opt_view(r) == Some(old(self)@.roots[i].1.collection_name)
                },
            !has_root(old(self)@.roots, project_root@) ==> {
                &&& final(self)@.roots == old(self)@.roots
                &&& r is None
            },
    {
        self.get_collection_name_at(project_root, now_secs())
    }

    /// The collection of a project, setting its last-access time to `now`.
    pub fn get_collection_name_at(&mut self, project_root: &str, now: u64) -> (r: Option<String>)
        requires
            old(self).wf(),
        ensures
            final(self).wf(),
            final(self)@.max_projects == old(self)@.max_projects,
            final(self)@.snapshot_path == old(self)@.snapshot_path,
            has_root(old(self)@.roots, project_root@) ==> forall|i: int|
                root_at(old(self)@.roots, project_root@, i) ==> {
                    &&& touched_at(old(self)@.roots, final(self)@.roots, i)
                    &&& opt_view(r) == Some(old(self)@.roots[i].1.collection_name)
                },
            !has_root(old(self)@.roots, project_root@) ==> {
                &&& final(self)@.roots == old(self)@.roots
                &&& r is None
            },
            has_root(old(self)@.roots, project_root@) ==> forall|i: int|
                root_at(old(self)@.roots, project_root@, i) ==> stamped_at(
                    old(self)@.roots,
                    final(self)@.roots,
                    i,
                    now,
                ),
    {
        let ghost v0 = self@.roots;
        match self.position_of(project_root) {
            Some(i) => {
                self.snapshot.roots[i].1.touch_at(now);
                proof {
                    self.lemma_view_index(i as int);
                    assert(self@.roots =~= v0.update(i as int, self@.roots[i as int]));
                    assert forall|a: int, b: int| 0 <= a < b < self@.roots.len() implies self@.roots[a].0 != self@.roots[b].0 by {
                        assert(v0[a].0 != v0[b].0);
                    }
                    assert forall|a: int| 0 <= a < self@.roots.len() implies file_keys_distinct(#[trigger] self@.roots[a].1.files) by {
                        assert(file_keys_distinct(v0[a].1.files));
                    }
                    assert forall|j: int| root_at(v0, project_root@, j) implies j == i by {
                        if j != i {
                            if j < i {
                                assert(v0[j].0 != v0[i as int].0);
                            } else {
                                assert(v0[i as int].0 != v0[j].0);
                            }
                        }
                    }
                }
                Some(self.snapshot.roots[i].1.collection_name.clone())
            },
            None => None,
        }
    }
}

fn file_position(files: &Vec<(String, FileEntry)>, file_path: &str) -> (r: Option<usize>)
    ensures
        r matches Some(k) ==> file_at(ledger_view(files@), file_path@, k as int),
        r is None ==> forall|k: int| !#[trigger] file_at(ledger_view(files@), file_path@, k),
{
    let ghost fv =ledger_view(files@);
    let mut k: usize = 0;
    while k < files.len()
        invariant
            k <= files@.len(),
            fv == ledger_view(files@),
            forall|m: int| 0 <= m < k ==> !file_at(fv, file_path@, m),
        decreases files.len() - k,
    {
        if str_eq(files[k].0.as_str(), file_path) {
            return Some(k);
        }
        k = k + 1;
    }
    None
}

impl SnapshotManager {
    /// Records a file's hash and chunk count under a project, stamped now;
    /// no effect when the project was never created.
    pub fn update_file(&mut self, project_root: &str, file_path: String, hash: String, chunk_count: usize)
        requires
            old(self).wf(),
        ensures
            final(self).wf(),
            final(self)@.max_projects == old(self)@.max_projects,
            final(self)@.snapshot_path == old(self)@.snapshot_path,
            file_updated(old(self)@.roots, final(self)@.roots, project_root@, file_path@, hash@, chunk_count),
    {
        self.update_file_at(project_root, file_path, hash, chunk_count, now_secs())
    }

    /// As `update_file`, stamping the row with `now`.
    pub fn update_file_at(&mut self, project_root: &str, file_path: String, hash: String, chunk_count: usize, now: u64)
        requires
            old(self).wf(),
        ensures
            final(self).wf(),
            final(self)@.max_projects == old(self)@.max_projects,
            final(self)@.snapshot_path == old(self)@.snapshot_path,
            file_updated(old(self)@.roots, final(self)@.roots, project_root@, file_path@, hash@, chunk_count),
            has_root(old(self)@.roots, project_root@) ==> forall|i: int|
                root_at(old(self)@.roots, project_root@, i) ==> exists|k: int|
                    #[trigger] file_at(final(self)@.roots[i].1.files, file_path@, k)
                        && final(self)@.roots[i].1.files[k].1 == (hash@, chunk_count, now),
    {
        let ghost v0 = self@.roots;
        match self.position_of(project_root) {
            None => {},
            Some(i) => {
                proof {
                    self.lemma_view_index(i as int);
                }
                let ghost f0 = v0[i as int].1.files;
                let ghost fkey = file_path@;
                let ghost hv = hash@;
                let entry = FileEntry { hash, chunk_count, indexed_at: now };
                match file_position(&self.snapshot.roots[i].1.files, file_path.as_str()) {
                    Some(k) => {
                        self.snapshot.roots[i].1.files[k].1 = entry;
                        proof {
                            self.lemma_view_index(i as int);
                            assert(self@.roots[i as int].1.files =~= f0.update(
                                k as int,
                                (fkey, self@.roots[i as int].1.files[k as int].1),
                            ));
                            let nf = self@.roots[i as int].1.files;
                            assert(file_keys_distinct(f0));
                            assert forall|a: int, b: int| 0 <= a < b < nf.len() implies nf[a].0 != nf[b].0 by {
                                assert(f0[a].0 != f0[b].0);
                            }
                            assert(file_at(nf, fkey, k as int) && nf[k as int].1 == (hv, chunk_count, now));
                            assert forall|m: int| file_at(f0, fkey, m) implies m == k by {
                                if m != k {
                                    if m < k {
                                        assert(f0[m].0 != f0[k as int].0);
                                    } else {
                                        assert(f0[k as int].0 != f0[m].0);
                                    }
                                }
                            }
                        }
                    },
                    None => {
                        self.snapshot.roots[i].1.files.push((file_path, entry));
                        proof {
                            self.lemma_view_index(i as int);
                            assert(self@.roots[i as int].1.files =~= f0.push(
                                (fkey, self@.roots[i as int].1.files[f0.len() as int].1),
                            ));
                            assert(self@.roots[i as int].1.files.subrange(0, f0.len() as int) =~= f0);
                            let nf = self@.roots[i as int].1.files;
                            assert(file_keys_distinct(f0));
                            assert forall|a: int, b: int| 0 <= a < b < nf.len() implies nf[a].0 != nf[b].0 by {
                                if b < f0.len() {
                                    assert(f0[a].0 != f0[b].0);
                                } else {
                                    assert(!file_at(f0, fkey, a));
                                }
                            }
                            assert(file_at(nf, fkey, f0.len() as int) && nf[f0.len() as int].1 == (hv, chunk_count, now));
                        }
                    },
                }
                proof {
                    assert(self@.roots =~= v0.update(i as int, self@.roots[i as int]));
                    assert forall|a: int, b: int| 0 <= a < b < self@.roots.len() implies self@.roots[a].0 != self@.roots[b].0 by {
                        assert(v0[a].0 != v0[b].0);
                    }
                    assert forall|a: int| 0 <= a < self@.roots.len() implies file_keys_distinct(#[trigger] self@.roots[a].1.files) by {
                        if a != i {
                            assert(file_keys_distinct(v0[a].1.files));
                        }
                    }
                    assert forall|j: int| root_at(v0, project_root@, j) implies j == i by {
                        if j != i {
                            if j < i {
                                assert(v0[j].0 != v0[i as int].0);
                            } else {
                                assert(v0[i as int].0 != v0[j].0);
                            }
                        }
                    }
                }
            },
        }
    }

    /// Deletes a project and returns its collection; none for an unknown root.
    pub fn remove_root(&mut self, project_root: &str) -> (r: Option<String>)
        requires
            old(self).wf(),
        ensures
            final(self).wf(),
            final(self)@.max_projects == old(self)@.max_projects,
            final(self)@.snapshot_path == old(self)@.snapshot_path,
            has_root(old(self)@.roots, project_root@) ==> forall|i: int|
                root_at(old(self)@.roots, project_root@, i) ==> {
                    &&& final(self)@.roots == old(self)@.roots.remove(i)
                    &&& opt_view(r) == Some(old(self)@.roots[i].1.collection_name)
                },
            !has_root(old(self)@.roots, project_root@) ==> {
                &&& final(self)@.roots == old(self)@.roots
                &&& r is None
            },
    {
        let ghost v0 = self@.roots;
        match self.position_of(project_root) {
            None => None,
            Some(i) => {
                proof {
                    self.lemma_view_index(i as int);
                }
                let removed = self.snapshot.roots.remove(i);
                proof {
                    assert(self@.roots =~= v0.remove(i as int));
                    assert forall|a: int, b: int| 0 <= a < b < self@.roots.len() implies self@.roots[a].0 != self@.roots[b].0 by {
                        let a0 = if a < i { a } else { a + 1 };
                        let b0 = if b < i { b } else { b + 1 };
                        assert(v0[a0].0 != v0[b0].0);
                    }
                    assert forall|a: int| 0 <= a < self@.roots.len() implies file_keys_distinct(#[trigger] self@.roots[a].1.files) by {
                        let a0 = if a < i { a } else { a + 1 };
                        assert(file_keys_distinct(v0[a0].1.files));
                    }
                    assert forall|j: int| root_at(v0, project_root@, j) implies j == i by {
                        if j != i {
                            if j < i {
                                assert(v0[j].0 != v0[i as int].0);
                            } else {
                                assert(v0[i as int].0 != v0[j].0);
                            }
                        }
                    }
                }
                Some(removed.1.collection_name)
            },
        }
    }

    /// Deletes one project; as `remove_root`.
    pub fn clear_project(&mut self, project_root: &str) -> (r: Option<String>)
        requires
            old(self).wf(),
        ensures
            final(self).wf(),
            final(self)@.max_projects == old(self)@.max_projects,
            final(self)@.snapshot_path == old(self)@.snapshot_path,
            has_root(old(self)@.roots, project_root@) ==> forall|i: int|
                root_at(old(self)@.roots, project_root@, i) ==> {
                    &&& final(self)@.roots == old(self)@.roots.remove(i)
                    &&& opt_view(r) == Some(old(self)@.roots[i].1.collection_name)
                },
            !has_root(old(self)@.roots, project_root@) ==> {
                &&& final(self)@.roots == old(self)@.roots
                &&& r is None
            },
    {
        self.remove_root(project_root)
    }

    /// Deletes every project.
    pub fn clear(&mut self)
        ensures
            final(self).wf(),
            final(self)@.roots.len() == 0,
            final(self)@.max_projects == old(self)@.max_projects,
            final(self)@.snapshot_path == old(self)@.snapshot_path,
    {
        self.snapshot.roots.clear();
        assert(self@.roots =~= Seq::empty());
    }

    /// Every project's root and collection, in registry order.
    pub fn get_all_collection_names(&self) -> (r: Vec<(String, String)>)
        ensures
            r@.len() == self@.roots.len(),
            forall|i: int|
                0 <= i < r@.len() ==> (#[trigger] r@[i]).0@ == self@.roots[i].0 && r@[i].1@
                    == self@.roots[i].1.collection_name,
    {
        let mut r: Vec<(String, String)> = Vec::new();
        let mut i: usize = 0;
        while i < self.snapshot.roots.len()
            invariant
                i <= self.snapshot.roots@.len(),
                r@.len() == i,
                forall|k: int|
                    0 <= k < i ==> (#[trigger] r@[k]).0@ == self@.roots[k].0 && r@[k].1@
                        == self@.roots[k].1.collection_name,
            decreases self.snapshot.roots.len() - i,
        {
            proof {
                self.lemma_view_index(i as int);
            }
            let row = &self.snapshot.roots[i];
            r.push((row.0.clone(), row.1.collection_name.clone()));
            i = i + 1;
        }
        proof {
            if self.snapshot.roots@.len() > 0 {
                self.lemma_view_index(0);
            }
        }
        r
    }

    /// Every project root, in registry order.
    pub fn get_all_roots(&self) -> (r: Vec<String>)
        ensures
            r@.len() == self@.roots.len(),
            forall|i: int| 0 <= i < r@.len() ==> (#[trigger] r@[i])@ == self@.roots[i].0,
    {
        let mut r: Vec<String> = Vec::new();
        let mut i: usize = 0;
        while i < self.snapshot.roots.len()
            invariant
                i <= self.snapshot.roots@.len(),
                r@.len() == i,
                forall|k: int| 0 <= k < i ==> (#[trigger] r@[k])@ == self@.roots[k].0,
            decreases self.snapshot.roots.len() - i,
        {
            proof {
                self.lemma_view_index(i as int);
            }
            r.push(self.snapshot.roots[i].0.clone());
            i = i + 1;
        }
        proof {
            if self.snapshot.roots@.len() > 0 {
                self.lemma_view_index(0);
            }
        }
        r
    }

    pub fn get_project_count(&self) -> (r: usize)
        ensures
            r == self@.roots.len(),
    {
        proof {
            if self.snapshot.roots@.len() > 0 {
                self.lemma_view_index(0);
            }
        }
        self.snapshot.roots.len()
    }

    pub fn max_projects(&self) -> (r: usize)
        ensures
            r == self@.max_projects,
    {
        self.max_projects
    }
}

/// Entry `i` is the registered root that encloses `p` with the longest path.
pub open spec fn is_enclosing_root(v: Seq<(Seq<char>, RootView)>, p: Seq<char>, i: int) -> bool {
    &&& 0 <= i < v.len()
    &&& path_within(p, v[i].0)
    &&& forall|j: int| 0 <= j < v.len() && path_within(p, #[trigger] v[j].0) ==> v[j].0.len() <= v[i].0.len()
}

/// `v` lists `roots` with their access times, oldest first, entries of equal
/// time in registry order.
pub open spec fn by_age(roots: Seq<(Seq<char>, RootView)>, v: Seq<(Seq<char>, u64)>) -> bool {
    exists|perm: Seq<int>|
        {
            &&& perm.len() == roots.len()
            &&& v.len() == roots.len()
            &&& forall|a: int| 0 <= a < perm.len() ==> 0 <= #[trigger] perm[a] < roots.len()
            &&& forall|a: int, b: int| 0 <= a < b < perm.len() ==> perm[a] != perm[b]
            &&& forall|a: int|
                0 <= a < v.len() ==> #[trigger] v[a] == (roots[perm[a]].0, roots[perm[a]].1.last_accessed_at)
            &&& forall|a: int, b: int|
                0 <= a < b < v.len() ==> v[a].1 < v[b].1 || (v[a].1 == v[b].1 && perm[a] < perm[b])
        }
}

impl SnapshotManager {
    /// The registered root that encloses `path`; where several do, the
    /// longest (nested projects resolve to the innermost).
    pub fn find_project_root(&self, path: &str) -> (r: Option<String>)
        ensures
            r is None <==> forall|i: int| 0 <= i < self@.roots.len() ==> !path_within(path@, #[trigger] self@.roots[i].0),
            r matches Some(s) ==> exists|i: int| is_enclosing_root(self@.roots, path@, i) && s@ == self@.roots[i].0,
    {
        let ghost v = self@.roots;
        assert(forall|k: int| 0 <= k < v.len() ==> #[trigger] v[k] == root_row_view(self.snapshot.roots@[k]));
        let mut best: Option<usize> = None;
        let mut i: usize = 0;
        while i < self.snapshot.roots.len()
            invariant
                i <= self.snapshot.roots@.len(),
                v == self@.roots,
                v.len() == self.snapshot.roots@.len(),
                forall|k: int| 0 <= k < v.len() ==> #[trigger] v[k] == root_row_view(self.snapshot.roots@[k]),
                best is None ==> forall|j: int| 0 <= j < i ==> !path_within(path@, #[trigger] v[j].0),
                best matches Some(b) ==> {
                    &&& b < i
                    &&& path_within(path@, v[b as int].0)
                    &&& forall|j: int| 0 <= j < i && path_within(path@, #[trigger] v[j].0) ==> v[j].0.len() <= v[b as int].0.len()
                },
            decreases self.snapshot.roots.len() - i,
        {
            let cand = self.snapshot.roots[i].0.as_str();
            if is_within(path, cand) {
                let longer = match best {
                    None => true,
                    Some(b) => cand.unicode_len() > self.snapshot.roots[b].0.as_str().unicode_len(),
                };
                if longer {
                    best = Some(i);
                }
            }
            i = i + 1;
        }
        match best {
            None => None,
            Some(b) => {
                assert(is_enclosing_root(v, path@, b as int));
                Some(self.snapshot.roots[b].0.clone())
            },
        }
    }

    /// Every root with its last-access time, oldest first.
    pub fn get_projects_by_age(&self) -> (r: Vec<(String, u64)>)
        ensures
            by_age(self@.roots, r@.map_values(|e: (String, u64)| (e.0@, e.1))),
    {
        let ghost v = self@.roots;
        assert(forall|k: int| 0 <= k < v.len() ==> #[trigger] v[k] == root_row_view(self.snapshot.roots@[k]));
        let mut r: Vec<(String, u64)> = Vec::new();
        let ghost mut perm: Seq<int> = Seq::empty();
        let mut i: usize = 0;
        while i < self.snapshot.roots.len()
            invariant
                i <= self.snapshot.roots@.len(),
                v == self@.roots,
                v.len() == self.snapshot.roots@.len(),
                forall|k: int| 0 <= k < v.len() ==> #[trigger] v[k] == root_row_view(self.snapshot.roots@[k]),
                perm.len() == i,
                r@.len() == i,
                forall|a: int| 0 <= a < i ==> #[trigger] perm.contains(a),
                forall|a: int| 0 <= a < perm.len() ==> 0 <= #[trigger] perm[a] < i,
                forall|a: int, b: int| 0 <= a < b < perm.len() ==> perm[a] != perm[b],
                forall|a: int|
                    0 <= a < r@.len() ==> (#[trigger] r@[a]).0@ == v[perm[a]].0 && r@[a].1
                        == v[perm[a]].1.last_accessed_at,
                forall|a: int, b: int|
                    0 <= a < b < r@.len() ==> r@[a].1 < r@[b].1 || (r@[a].1 == r@[b].1 && perm[a] < perm[b]),
            decreases self.snapshot.roots.len() - i,
        {
            let t = self.snapshot.roots[i].1.last_accessed_at;
            // insertion point: after every entry not later than t
            let mut pos: usize = r.len();
            while pos > 0 && r[pos - 1].1 > t
                invariant
                    pos <= r@.len(),
                    forall|a: int| pos <= a < r@.len() ==> (#[trigger] r@[a]).1 > t,
                decreases pos,
            {
                pos = pos - 1;
            }
            let ghost r0 = r@;
            let ghost p0 = perm;
            r.insert(pos, (self.snapshot.roots[i].0.clone(), t));
            proof {
                perm = p0.insert(pos as int, i as int);
                assert forall|a: int| 0 <= a < i + 1 implies #[trigger] perm.contains(a) by {
                    if a == i {
                        assert(perm[pos as int] == a);
                    } else {
                        assert(p0.contains(a));
                        let w = choose|w: int| 0 <= w < p0.len() && p0[w] == a;
                        if w < pos {
                            assert(perm[w] == a);
                        } else {
                            assert(perm[w + 1] == a);
                        }
                    }
                }
                assert forall|a: int, b: int| 0 <= a < b < r@.len() implies r@[a].1 < r@[b].1 || (r@[a].1
                    == r@[b].1 && perm[a] < perm[b]) by {
                    if a < pos && b > pos {
                        assert(r@[a] == r0[a] && r@[b] == r0[b - 1]);
                    } else if a < pos && b == pos {
                        if pos > 0 {
                            assert(r0[pos - 1].1 <= t);
                            assert(r0[a].1 < r0[pos - 1].1 || (r0[a].1 == r0[pos - 1].1 && p0[a] < p0[pos - 1]) || a == pos - 1);
                        }
                    } else if a == pos {
                        assert(r@[b] == r0[b - 1]);
                    } else if a > pos {
                        assert(r@[a] == r0[a - 1] && r@[b] == r0[b - 1]);
                    }
                }
            }
            i = i + 1;
        }
        proof {
            let rv = r@.map_values(|e: (String, u64)| (e.0@, e.1));
            assert forall|a: int| 0 <= a < rv.len() implies #[trigger] rv[a] == (v[perm[a]].0, v[perm[a]].1.last_accessed_at) by {
                assert(r@[a].0@ == v[perm[a]].0);
            }
            assert forall|a: int, b: int| 0 <= a < b < rv.len() implies rv[a].1 < rv[b].1 || (rv[a].1 == rv[b].1 && perm[a] < perm[b]) by {
                assert(r@[a].1 < r@[b].1 || (r@[a].1 == r@[b].1 && perm[a] < perm[b]));
            }
        }
        r
    }
}

/// `r` is a project just created in collection `collection`.
pub open spec fn fresh_root(r: RootView, collection: Seq<char>) -> bool {
    r.collection_name == collection && r.files.len() == 0 && r.indexed_at == r.last_accessed_at
}

/// Registry `b` is `a` after admitting project `p` with `collection`, under
/// the limit `max`: a known project is only touched; a new one is appended,
/// and when `a` was full the oldest project of `a` is removed and returned
/// as `evicted` (root, collection).
pub open spec fn admitted(
    a: Seq<(Seq<char>, RootView)>,
    b: Seq<(Seq<char>, RootView)>,
    p: Seq<char>,
    collection: Seq<char>,
    max: usize,
    evicted: Option<(Seq<char>, Seq<char>)>,
) -> bool {
    if has_root(a, p) {
        &&& evicted is None
        &&& forall|i: int| root_at(a, p, i) ==> touched_at(a, b, i)
    } else if a.len() < max || a.len() == 0 {
        &&& evicted is None
        &&& b.len() == a.len() + 1
        &&& b.subrange(0, a.len() as int) == a
        &&& b[a.len() as int].0 == p
        &&& fresh_root(b[a.len() as int].1, collection)
    } else {
        exists|k: int, x: RootView|
            {
                &&& is_oldest(a, k)
                &&& evicted == Some((a[k].0, a[k].1.collection_name))
                &&& fresh_root(x, collection)
                &&& b == a.push((p, x)).remove(k)
            }
    }
}

/// Admitting projects one after another keeps the registry within its
/// limit: if it held at most `max` (at least one) projects before an
/// admission, it holds at most `max` after it, and the project evicted, if
/// any, was the least recently accessed one.
pub proof fn lemma_admission_within_limit(
    a: Seq<(Seq<char>, RootView)>,
    b: Seq<(Seq<char>, RootView)>,
    p: Seq<char>,
    collection: Seq<char>,
    max: usize,
    evicted: Option<(Seq<char>, Seq<char>)>,
)
    requires
        admitted(a, b, p, collection, max, evicted),
        a.len() <= max,
        max >= 1,
    ensures
        b.len() <= max,
        evicted matches Some(e) ==> exists|k: int| is_oldest(a, k) && e.0 == a[k].0,
{
    if !has_root(a, p) && !(a.len() < max || a.len() == 0) {
        let (k, x) = choose|k: int, x: RootView|
            {
                &&& is_oldest(a, k)
                &&& evicted == Some((a[k].0, a[k].1.collection_name))
                &&& fresh_root(x, collection)
                &&& b == a.push((p, x)).remove(k)
            };
        assert(b.len() == a.len());
    }
}

/// A saved snapshot loads back: what `snapshot` hands out for saving is
/// well formed, so `load_snapshot` on a fresh registry accepts it and
/// reproduces the same projects.
pub proof fn lemma_saved_snapshot_loads_back(m: &SnapshotManager, saved: Seq<(Seq<char>, RootView)>)
    requires
        m.wf(),
        saved == m@.roots,
    ensures
        snapshot_wf(saved),
{
}

pub open spec fn pair_view(e: Option<(String, String)>) -> Option<(Seq<char>, Seq<char>)> {
    match e {
        Some((a, b)) => Some((a@, b@)),
        None => None,
    }
}

impl SnapshotManager {
    /// Admits a project: creates or touches its entry and, when that took the
    /// registry over `max_projects`, removes the least recently accessed
    /// other project, returning its root and collection (whose external
    /// collection the caller drops).
    pub fn admit_root(&mut self, project_root: &str, collection_name: &str) -> (r: Option<(String, String)>)
        requires
            old(self).wf(),
        ensures
            final(self).wf(),
            final(self)@.max_projects == old(self)@.max_projects,
            final(self)@.snapshot_path == old(self)@.snapshot_path,
            has_root(final(self)@.roots, project_root@),
            admitted(
                old(self)@.roots,
                final(self)@.roots,
                project_root@,
                collection_name@,
                old(self)@.max_projects,
                pair_view(r),
            ),
            has_root(old(self)@.roots, project_root@) ==> r is None && final(self)@.roots.len() == old(
                self,
            )@.roots.len(),
            old(self)@.roots.len() < old(self)@.max_projects ==> r is None,
            r matches Some(e) ==> {
                &&& exists|i: int| is_oldest(old(self)@.roots, i) && e.0@ == old(self)@.roots[i].0
                    && e.1@ == old(self)@.roots[i].1.collection_name
                &&& !has_root(final(self)@.roots, e.0@)
            },
            old(self)@.roots.len() <= old(self)@.max_projects && old(self)@.max_projects >= 1
                ==> final(self)@.roots.len() <= final(self)@.max_projects,
    {
        self.admit_root_at(project_root, collection_name, now_secs())
    }

    /// As `admit_root`, at time `now`: the admitted project's last-access
    /// time is `now`, and a new project is created at `now`.
    pub fn admit_root_at(&mut self, project_root: &str, collection_name: &str, now: u64) -> (r: Option<(String, String)>)
        requires
            old(self).wf(),
        ensures
            final(self).wf(),
            final(self)@.max_projects == old(self)@.max_projects,
            final(self)@.snapshot_path == old(self)@.snapshot_path,
            has_root(final(self)@.roots, project_root@),
            admitted(
                old(self)@.roots,
                final(self)@.roots,
                project_root@,
                collection_name@,
                old(self)@.max_projects,
                pair_view(r),
            ),
            has_root(old(self)@.roots, project_root@) ==> r is None && final(self)@.roots.len() == old(
                self,
            )@.roots.len(),
            old(self)@.roots.len() < old(self)@.max_projects ==> r is None,
            r matches Some(e) ==> {
                &&& exists|i: int| is_oldest(old(self)@.roots, i) && e.0@ == old(self)@.roots[i].0
                    && e.1@ == old(self)@.roots[i].1.collection_name
                &&& !has_root(final(self)@.roots, e.0@)
            },
            old(self)@.roots.len() <= old(self)@.max_projects && old(self)@.max_projects >= 1
                ==> final(self)@.roots.len() <= final(self)@.max_projects,
            forall|j: int| root_at(final(self)@.roots, project_root@, j) ==> {
                &&& final(self)@.roots[j].1.last_accessed_at == now
                &&& !has_root(old(self)@.roots, project_root@) ==> final(self)@.roots[j].1.indexed_at == now
            },
    {
        let ghost v0 = self@.roots;
        let (root, to_evict) = self.get_or_create_root_at(project_root, collection_name, now);
        let ghost v1 = self@.roots;
        let ghost x = root@;
        proof {
            if has_root(v0, project_root@) {
                let i = choose|i: int| root_at(v0, project_root@, i);
                assert(root_at(v1, project_root@, i));
            } else {
                assert(root_at(v1, project_root@, v0.len() as int));
            }
        }
        match to_evict {
            None => {
                proof {
                    if !has_root(v0, project_root@) {
                        assert(v1 == v0.push((project_root@, x)));
                        assert(v1.subrange(0, v0.len() as int) =~= v0);
                        assert(fresh_root(x, collection_name@));
                    }
                }
                None
            },
            Some(path) => {
                let ghost k = choose|i: int| is_oldest(v0, i) && opt_view(Some(path)) == Some(v0[i].0);
                proof {
                    assert(root_at(v1, path@, k));
                    assert(v0[k].0 != project_root@);
                }
                let removed = self.remove_root(path.as_str());
                match removed {
                    Some(collection) => {
                        proof {
                            assert(self@.roots == v1.remove(k));
                            assert(root_at(self@.roots, project_root@, v0.len() - 1));
                            assert forall|j: int| !root_at(self@.roots, path@, j) by {
                                if 0 <= j < self@.roots.len() {
                                    let j0 = if j < k { j } else { j + 1 };
                                    if j0 < k {
                                        assert(v1[j0].0 != v1[k].0);
                                    } else {
                                        assert(v1[k].0 != v1[j0].0);
                                    }
                                }
                            }
                        }
                        proof {
                            assert(v1 == v0.push((project_root@, x)));
                            assert(fresh_root(x, collection_name@));
                        }
                        Some((path, collection))
                    },
                    None => {
                        proof {
                            assert(root_at(v1, path@, k));
                            assert(has_root(v1, path@));
                        }
                        None
                    },
                }
            },
        }
    }
}

/// Checks `snapshot_wf`.
pub fn snapshot_is_wf(snapshot: &Snapshot) -> (r: bool)
    ensures
        r == snapshot_wf(snapshot@),
{
    let roots = &snapshot.roots;
    let ghost v = snapshot@;
    assert(forall|k: int| 0 <= k < v.len() ==> #[trigger] v[k] == root_row_view(roots@[k]));
    let mut i: usize = 0;
    while i < roots.len()
        invariant
            i <= roots@.len(),
            v == snapshot@,
            v.len() == roots@.len(),
            forall|k: int| 0 <= k < v.len() ==> #[trigger] v[k] == root_row_view(roots@[k]),
            forall|a: int, b: int| 0 <= a < b < v.len() && a < i ==> v[a].0 != v[b].0,
            forall|a: int| 0 <= a < i ==> file_keys_distinct(#[trigger] v[a].1.files),
        decreases roots.len() - i,
    {
        let mut j: usize = i + 1;
        while j < roots.len()
            invariant
                i < roots@.len(),
                i < j <= roots@.len(),
                v == snapshot@,
                v.len() == roots@.len(),
                forall|k: int| 0 <= k < v.len() ==> #[trigger] v[k] == root_row_view(roots@[k]),
                forall|a: int, b: int| 0 <= a < b < v.len() && a < i ==> v[a].0 != v[b].0,
                forall|b: int| i < b < j ==> v[i as int].0 != v[b].0,
            decreases roots.len() - j,
        {
            if str_eq(roots[i].0.as_str(), roots[j].0.as_str()) {
                assert(v[i as int].0 == v[j as int].0);
                return false;
            }
            j = j + 1;
        }
        if !ledger_is_distinct(&roots[i].1.files) {
            assert(v[i as int].1.files == ledger_view(roots@[i as int].1.files@));
            return false;
        }
        i = i + 1;
    }
    assert(snapshot_wf(v));
    true
}

fn ledger_is_distinct(files: &Vec<(String, FileEntry)>) -> (r: bool)
    ensures
        r == file_keys_distinct(ledger_view(files@)),
{
    let ghost v =ledger_view(files@);
    assert(forall|k: int| 0 <= k < v.len() ==> #[trigger] v[k] == file_row_view(files@[k]));
    let mut i: usize = 0;
    while i < files.len()
        invariant
            i <= files@.len(),
            v == ledger_view(files@),
            v.len() == files@.len(),
            forall|k: int| 0 <= k < v.len() ==> #[trigger] v[k] == file_row_view(files@[k]),
            forall|a: int, b: int| 0 <= a < b < v.len() && a < i ==> v[a].0 != v[b].0,
        decreases files.len() - i,
    {
        let mut j: usize = i + 1;
        while j < files.len()
            invariant
                i < files@.len(),
                i < j <= files@.len(),
                v == ledger_view(files@),
                v.len() == files@.len(),
                forall|k: int| 0 <= k < v.len() ==> #[trigger] v[k] == file_row_view(files@[k]),
                forall|a: int, b: int| 0 <= a < b < v.len() && a < i ==> v[a].0 != v[b].0,
                forall|b: int| i < b < j ==> v[i as int].0 != v[b].0,
            decreases files.len() - j,
        {
            if str_eq(files[i].0.as_str(), files[j].0.as_str()) {
                assert(v[i as int].0 == v[j as int].0);
                return false;
            }
            j = j + 1;
        }
        i = i + 1;
    }
    true
}

} // verus!
