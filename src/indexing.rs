use crate::chunk::CodeChunk;
use crate::digest::{collection_name_for, collection_name_of, content_hash, hash_text};
use crate::registry::{
    admitted, file_at, file_hash_in, file_updated, has_root, is_oldest, pair_view, root_at,
    now_secs, snapshot_wf, stamped_at, touched_at, RootView, SnapshotManager,
};
use crate::text::str_eq;
use vstd::prelude::*;

verus! {

/// Files larger than this many bytes (10 MiB) are not indexed.
pub const MAX_FILE_SIZE: u64 = 10 * 1024 * 1024;

pub open spec fn sat_inc(n: usize) -> usize {
    if n < usize::MAX {
        (n + 1) as usize
    } else {
        n
    }
}

pub open spec fn sat_add(a: usize, b: usize) -> usize {
    if a + b <= usize::MAX {
        (a + b) as usize
    } else {
        usize::MAX
    }
}

pub open spec fn sat_add_u64(a: u64, b: u64) -> u64 {
    if a + b <= u64::MAX {
        (a + b) as u64
    } else {
        u64::MAX
    }
}

/// Counts of one indexing pass (saturating).
#[derive(Debug, Clone, Copy, PartialEq, Eq, Structural)]
pub struct IndexTally {
    pub total_files: usize,
    pub total_chunks: usize,
    pub skipped_files: usize,
    pub skipped_size: u64,
    pub skipped_by_size: usize,
}

impl IndexTally {
    pub fn new() -> (r: IndexTally)
        ensures
            r == (IndexTally {
                total_files: 0,
                total_chunks: 0,
                skipped_files: 0,
                skipped_size: 0,
                skipped_by_size: 0,
            }),
    {
        IndexTally { total_files: 0, total_chunks: 0, skipped_files: 0, skipped_size: 0, skipped_by_size: 0 }
    }

    /// Decides on a file by its size: a file over `MAX_FILE_SIZE` is
    /// counted as skipped by size and refused.
    pub fn admit_size(&mut self, len: u64) -> (r: bool)
        ensures
            r == (len <= MAX_FILE_SIZE),
            r ==> *final(self) == *old(self),
            !r ==> *final(self) == (IndexTally {
                skipped_files: sat_inc(old(self).skipped_files),
                skipped_size: sat_add_u64(old(self).skipped_size, len),
                skipped_by_size: sat_inc(old(self).skipped_by_size),
                ..*old(self)
            }),
    {
        if len > MAX_FILE_SIZE {
            self.skip_file();
            self.skipped_size = if self.skipped_size <= u64::MAX - len {
                self.skipped_size + len
            } else {
                u64::MAX
            };
            if self.skipped_by_size < usize::MAX {
                self.skipped_by_size = self.skipped_by_size + 1;
            }
            false
        } else {
            true
        }
    }

    /// Counts a file skipped for another cause (unreadable, outside the root).
    pub fn skip_file(&mut self)
        ensures
            *final(self) == (IndexTally { skipped_files: sat_inc(old(self).skipped_files), ..*old(self) }),
    {
        if self.skipped_files < usize::MAX {
            self.skipped_files = self.skipped_files + 1;
        }
    }

    /// Counts a file indexed with `chunks` chunks.
    pub fn count_indexed(&mut self, chunks: usize)
        ensures
            *final(self) == (IndexTally {
                total_files: sat_inc(old(self).total_files),
                total_chunks: sat_add(old(self).total_chunks, chunks),
                ..*old(self)
            }),
    {
        if self.total_files < usize::MAX {
            self.total_files = self.total_files + 1;
        }
        self.total_chunks = if self.total_chunks <= usize::MAX - chunks {
            self.total_chunks + chunks
        } else {
            usize::MAX
        };
    }
}

/// How an indexing pass begins.
pub enum IndexStart {
    /// The project is indexed under this collection and no re-index was forced.
    AlreadyIndexed { collection_name: String },
    /// The pass goes on into this collection; `evicted` names the project
    /// (root, collection) removed to make room, whose collection the caller drops.
    Started { collection_name: String, evicted: Option<(String, String)> },
}

/// The project at `root` is registered under the collection derived from its path.
pub open spec fn indexed_under_own_collection(v: Seq<(Seq<char>, RootView)>, root: &str) -> bool {
    exists|i: int| root_at(v, root@, i) && v[i].1.collection_name == collection_name_of(root)
}

/// Begins an indexing pass over a project: derives its collection, stops if
/// it is already indexed there and `force` is off, and otherwise admits it
/// to the registry (evicting the least recently accessed project if full).
pub fn begin_index(registry: &mut SnapshotManager, project_root: &str, force: bool) -> (r: IndexStart)
    requires
        old(registry).wf(),
    ensures
        final(registry).wf(),
        final(registry)@.max_projects == old(registry)@.max_projects,
        final(registry)@.snapshot_path == old(registry)@.snapshot_path,
        (r is AlreadyIndexed) == (!force && indexed_under_own_collection(old(registry)@.roots, project_root)),
        r matches IndexStart::AlreadyIndexed { collection_name } ==> {
            &&& collection_name@ == collection_name_of(project_root)
            &&& forall|i: int| root_at(old(registry)@.roots, project_root@, i) ==> touched_at(
                old(registry)@.roots,
                final(registry)@.roots,
                i,
            )
        },
        r matches IndexStart::Started { collection_name, evicted } ==> {
            &&& collection_name@ == collection_name_of(project_root)
            &&& has_root(final(registry)@.roots, project_root@)
            &&& has_root(old(registry)@.roots, project_root@) ==> evicted is None && forall|i: int|
                root_at(old(registry)@.roots, project_root@, i) ==> touched_at(
                    old(registry)@.roots,
                    final(registry)@.roots,
                    i,
                )
            &&& !has_root(old(registry)@.roots, project_root@) ==> admitted(
                old(registry)@.roots,
                final(registry)@.roots,
                project_root@,
                collection_name_of(project_root),
                old(registry)@.max_projects,
                pair_view(evicted),
            )
            &&& evicted matches Some(e) ==> {
                &&& !has_root(old(registry)@.roots, project_root@)
                &&& exists|i: int|
                    is_oldest(old(registry)@.roots, i) && e.0@ == old(registry)@.roots[i].0 && e.1@
                        == old(registry)@.roots[i].1.collection_name
                &&& !has_root(final(registry)@.roots, e.0@)
            }
            &&& old(registry)@.roots.len() < old(registry)@.max_projects ==> evicted is None
            &&& old(registry)@.roots.len() <= old(registry)@.max_projects
                && old(registry)@.max_projects >= 1 ==> final(registry)@.roots.len()
                <= final(registry)@.max_projects
        },
{
    begin_index_at(registry, project_root, force, now_secs())
}

/// As `begin_index`, at time `now`: the project's last-access time becomes
/// `now`, and a new project is created at `now`.
pub fn begin_index_at(registry: &mut SnapshotManager, project_root: &str, force: bool, now: u64) -> (r: IndexStart)
    requires
        old(registry).wf(),
    ensures
        final(registry).wf(),
        final(registry)@.max_projects == old(registry)@.max_projects,
        final(registry)@.snapshot_path == old(registry)@.snapshot_path,
        (r is AlreadyIndexed) == (!force && indexed_under_own_collection(old(registry)@.roots, project_root)),
        r matches IndexStart::AlreadyIndexed { collection_name } ==> {
            &&& collection_name@ == collection_name_of(project_root)
            &&& forall|i: int| root_at(old(registry)@.roots, project_root@, i) ==> touched_at(
                old(registry)@.roots,
                final(registry)@.roots,
                i,
            )
        },
        r matches IndexStart::Started { collection_name, evicted } ==> {
            &&& collection_name@ == collection_name_of(project_root)
            &&& has_root(final(registry)@.roots, project_root@)
            &&& has_root(old(registry)@.roots, project_root@) ==> evicted is None && forall|i: int|
                root_at(old(registry)@.roots, project_root@, i) ==> touched_at(
                    old(registry)@.roots,
                    final(registry)@.roots,
                    i,
                )
            &&& !has_root(old(registry)@.roots, project_root@) ==> admitted(
                old(registry)@.roots,
                final(registry)@.roots,
                project_root@,
                collection_name_of(project_root),
                old(registry)@.max_projects,
                pair_view(evicted),
            )
            &&& evicted matches Some(e) ==> {
                &&& !has_root(old(registry)@.roots, project_root@)
                &&& exists|i: int|
                    is_oldest(old(registry)@.roots, i) && e.0@ == old(registry)@.roots[i].0 && e.1@
                        == old(registry)@.roots[i].1.collection_name
                &&& !has_root(final(registry)@.roots, e.0@)
            }
            &&& old(registry)@.roots.len() < old(registry)@.max_projects ==> evicted is None
            &&& old(registry)@.roots.len() <= old(registry)@.max_projects
                && old(registry)@.max_projects >= 1 ==> final(registry)@.roots.len()
                <= final(registry)@.max_projects
        },
        r is AlreadyIndexed ==> forall|i: int|
            root_at(old(registry)@.roots, project_root@, i) ==> stamped_at(
                old(registry)@.roots,
                final(registry)@.roots,
                i,
                now,
            ),
        r is Started ==> forall|j: int|
            root_at(final(registry)@.roots, project_root@, j) ==> {
                &&& final(registry)@.roots[j].1.last_accessed_at == now
                &&& !has_root(old(registry)@.roots, project_root@) ==> final(registry)@.roots[j].1.indexed_at == now
            },
{
    let ghost v0 = registry@.roots;
    let collection_name = collection_name_for(project_root);
    let existing = registry.get_collection_name_at(project_root, now);
    let ghost v1 = registry@.roots;
    proof {
        if has_root(v0, project_root@) {
            let i = choose|i: int| root_at(v0, project_root@, i);
            assert(root_at(v1, project_root@, i));
        }
    }
    match existing {
        Some(c) => {
            if str_eq(c.as_str(), collection_name.as_str()) && !force {
                return IndexStart::AlreadyIndexed { collection_name };
            }
        },
        None => {},
    }
    let evicted = registry.admit_root_at(project_root, collection_name.as_str(), now);
    proof {
        if has_root(v0, project_root@) {
            let i = choose|i: int| root_at(v0, project_root@, i);
            assert(root_at(v1, project_root@, i));
            assert(v1.len() == v0.len());
            assert forall|j: int| root_at(v0, project_root@, j) implies touched_at(v0, registry@.roots, j) by {
                assert(root_at(v1, project_root@, j));
                assert(touched_at(v0, v1, j));
                assert(touched_at(v1, registry@.roots, j));
            }
        } else {
            assert(v1 == v0);
        }
    }
    IndexStart::Started { collection_name, evicted }
}

/// The change detector: returns the content hash of a file that must be
/// (re)processed, or none when `force` is off and the registry holds that
/// very hash for this file of this project.
pub fn file_changed(registry: &SnapshotManager, project_root: &str, file_path: &str, content: &str, force: bool) -> (r:
    Option<String>)
    requires
        registry.wf(),
    ensures
        r is None <==> (!force && file_hash_in(registry@.roots, project_root@, file_path@) == Some(
            content_hash(content),
        )),
        r matches Some(h) ==> h@ == content_hash(content),
{
    let h = hash_text(content);
    if force {
        return Some(h);
    }
    match registry.get_file_hash(project_root, file_path) {
        Some(e) => {
            if str_eq(e.as_str(), h.as_str()) {
                None
            } else {
                Some(h)
            }
        },
        None => Some(h),
    }
}

/// Once a file of a project has been recorded with the hash of its
/// content, the registry holds exactly that hash for it; so `file_changed`
/// on the same content without `force` reports it unchanged and the file is
/// not processed again.
pub proof fn lemma_recorded_file_unchanged(
    before: Seq<(Seq<char>, RootView)>,
    after: Seq<(Seq<char>, RootView)>,
    root: Seq<char>,
    file: Seq<char>,
    content: &str,
    chunk_count: usize,
)
    requires
        snapshot_wf(before),
        snapshot_wf(after),
        has_root(before, root),
        file_updated(before, after, root, file, content_hash(content), chunk_count),
    ensures
        file_hash_in(after, root, file) == Some(content_hash(content)),
{
    let i = choose|i: int| root_at(before, root, i);
    assert(root_at(after, root, i));
    let a = before[i].1.files;
    let b = after[i].1.files;
    let k = if exists|k: int| file_at(a, file, k) {
        choose|k: int| file_at(a, file, k)
    } else {
        a.len() as int
    };
    assert(file_at(b, file, k));
    let (i2, k2) = choose|i2: int, k2: int| root_at(after, root, i2) && file_at(after[i2].1.files, file, k2);
    if i2 != i {
        if i2 < i {
            assert(after[i2].0 != after[i].0);
        } else {
            assert(after[i].0 != after[i2].0);
        }
    }
    if k2 != k {
        assert(crate::registry::file_keys_distinct(b));
        if k2 < k {
            assert(b[k2].0 != b[k].0);
        } else {
            assert(b[k].0 != b[k2].0);
        }
    }
}

/// The text embedded for a chunk: its content, a line break, then its
/// symbol name (or nothing).
pub open spec fn embedding_text_of(c: CodeChunk) -> Seq<char> {
    c.content@ + "\n"@ + match c.symbol_name {
        Some(n) => n@,
        None => Seq::empty(),
    }
}

pub fn embedding_text(chunk: &CodeChunk) -> (r: String)
    ensures
        r@ == embedding_text_of(*chunk),
{
    let mut t = chunk.content.clone();
    t.append("\n");
    match &chunk.symbol_name {
        Some(n) => t.append(n.as_str()),
        None => {
            assert(t@ =~= t@ + Seq::<char>::empty());
        },
    }
    t
}

/// The embedding texts of chunks, in order.
pub fn embedding_texts(chunks: &Vec<CodeChunk>) -> (r: Vec<String>)
    ensures
        r@.len() == chunks@.len(),
        forall|i: int| 0 <= i < r@.len() ==> (#[trigger] r@[i])@ == embedding_text_of(chunks@[i]),
{
    let mut r: Vec<String> = Vec::new();
    let mut i: usize = 0;
    while i < chunks.len()
        invariant
            i <= chunks@.len(),
            r@.len() == i,
            forall|k: int| 0 <= k < i ==> (#[trigger] r@[k])@ == embedding_text_of(chunks@[k]),
        decreases chunks.len() - i,
    {
        r.push(embedding_text(&chunks[i]));
        i = i + 1;
    }
    r
}

/// Positions, in order, of the entries among the first `n` of `s` that are
/// set.
pub open spec fn set_positions(s: Seq<bool>, n: int) -> Seq<usize>
    decreases n,
{
    if n <= 0 {
        Seq::empty()
    } else if s[n - 1] {
        set_positions(s, n - 1).push((n - 1) as usize)
    } else {
        set_positions(s, n - 1)
    }
}

/// The chunks of a file that can be stored: the positions of those whose
/// embedding succeeded, in order. A failed embedding drops only its chunk;
/// the file is indexed when at least one position remains.
pub fn embedded_chunks(succeeded: &Vec<bool>) -> (r: Vec<usize>)
    ensures
        r@ == set_positions(succeeded@, succeeded@.len() as int),
{
    let mut r: Vec<usize> = Vec::new();
    let mut i: usize = 0;
    while i < succeeded.len()
        invariant
            i <= succeeded@.len(),
            r@ == set_positions(succeeded@, i as int),
        decreases succeeded.len() - i,
    {
        if succeeded[i] {
            r.push(i);
        }
        i = i + 1;
    }
    r
}

/// Clears every project from the registry and returns, once per project,
/// its root and the collection the caller must drop.
pub fn clear_all(registry: &mut SnapshotManager) -> (r: Vec<(String, String)>)
    requires
        old(registry).wf(),
    ensures
        final(registry).wf(),
        final(registry)@.roots.len() == 0,
        final(registry)@.max_projects == old(registry)@.max_projects,
        final(registry)@.snapshot_path == old(registry)@.snapshot_path,
        r@.len() == old(registry)@.roots.len(),
        forall|i: int|
            0 <= i < r@.len() ==> (#[trigger] r@[i]).0@ == old(registry)@.roots[i].0 && r@[i].1@
                == old(registry)@.roots[i].1.collection_name,
        forall|a: int, b: int| 0 <= a < b < r@.len() ==> r@[a].0@ != r@[b].0@,
{
    let drops = registry.get_all_collection_names();
    registry.clear();
    drops
}

} // verus!
