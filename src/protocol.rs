use crate::registry::{now_secs, stamped, stamped_at, touched, SnapshotManager};
use crate::text::{decimal, decimal_of, str_eq};
use vstd::prelude::*;

verus! {

pub const PROTOCOL_VERSION: &'static str = "2024-11-05";

pub const SERVER_NAME: &'static str = "code-context-mcp";

pub const SERVER_VERSION: &'static str = "0.1.0";

/// What a client sends to open a session.
#[derive(Debug, Clone)]
pub struct InitializeRequest {
    pub protocol_version: String,
    pub capabilities: ClientCapabilities,
    pub client_info: ClientInfo,
}

#[derive(Debug, Clone)]
pub struct ClientCapabilities {
    pub roots: Option<RootsCapability>,
}

#[derive(Debug, Clone, Copy)]
pub struct RootsCapability {
    pub list_changed: bool,
}

#[derive(Debug, Clone)]
pub struct ClientInfo {
    pub name: String,
    pub version: String,
}

/// What the server answers to `initialize`.
#[derive(Debug, Clone)]
pub struct InitializeResponse {
    pub protocol_version: String,
    pub capabilities: ServerCapabilities,
    pub server_info: ServerInfo,
}

#[derive(Debug, Clone, Copy)]
pub struct ServerCapabilities {
    pub tools: ToolsCapability,
}

#[derive(Debug, Clone, Copy)]
pub struct ToolsCapability {
    pub list_changed: Option<bool>,
}

#[derive(Debug, Clone)]
pub struct ServerInfo {
    pub name: String,
    pub version: String,
}

/// One piece of a tool's answer.
#[derive(Debug, Clone)]
pub enum Content {
    Text { text: String },
}

/// A tool's answer; a failure is an answer flagged as an error, not a
/// protocol error.
#[derive(Debug, Clone)]
pub struct CallToolResponse {
    pub content: Vec<Content>,
    pub is_error: Option<bool>,
}

impl ClientCapabilities {
    /// Whether the client announces root-list change notifications.
    pub fn supports_roots(&self) -> (r: bool)
        ensures
            r == (self.roots matches Some(c) && c.list_changed),
    {
        match &self.roots {
            Some(c) => c.list_changed,
            None => false,
        }
    }
}

impl InitializeResponse {
    /// This server's answer to `initialize`: its protocol version, name and
    /// version, and tools whose list may change.
    pub fn for_server() -> (r: InitializeResponse)
        ensures
            r.protocol_version@ == PROTOCOL_VERSION@,
            r.server_info.name@ == SERVER_NAME@,
            r.server_info.version@ == SERVER_VERSION@,
            r.capabilities.tools.list_changed == Some(true),
    {
        InitializeResponse {
            protocol_version: PROTOCOL_VERSION.to_owned(),
            capabilities: ServerCapabilities { tools: ToolsCapability { list_changed: Some(true) } },
            server_info: ServerInfo { name: SERVER_NAME.to_owned(), version: SERVER_VERSION.to_owned() },
        }
    }
}

/// The requests the server answers.
#[derive(Debug, Clone, Copy, PartialEq, Eq, Structural)]
pub enum RequestKind {
    Initialize,
    Initialized,
    ToolsList,
    ToolsCall,
    Unknown,
}

pub open spec fn request_kind_of(m: Seq<char>) -> RequestKind {
    if m == "initialize"@ {
        RequestKind::Initialize
    } else if m == "notifications/initialized"@ {
        RequestKind::Initialized
    } else if m == "tools/list"@ {
        RequestKind::ToolsList
    } else if m == "tools/call"@ {
        RequestKind::ToolsCall
    } else {
        RequestKind::Unknown
    }
}

pub fn request_kind(method: &str) -> (r: RequestKind)
    ensures
        r == request_kind_of(method@),
{
    if str_eq(method, "initialize") {
        RequestKind::Initialize
    } else if str_eq(method, "notifications/initialized") {
        RequestKind::Initialized
    } else if str_eq(method, "tools/list") {
        RequestKind::ToolsList
    } else if str_eq(method, "tools/call") {
        RequestKind::ToolsCall
    } else {
        RequestKind::Unknown
    }
}

/// The tools the server offers.
#[derive(Debug, Clone, Copy, PartialEq, Eq, Structural)]
pub enum ToolName {
    IndexCodebase,
    SearchCode,
    ClearIndex,
    GetIndexingStatus,
}

pub open spec fn tool_of(n: Seq<char>) -> Option<ToolName> {
    if n == "index_codebase"@ {
        Some(ToolName::IndexCodebase)
    } else if n == "search_code"@ {
        Some(ToolName::SearchCode)
    } else if n == "clear_index"@ {
        Some(ToolName::ClearIndex)
    } else if n == "get_indexing_status"@ {
        Some(ToolName::GetIndexingStatus)
    } else {
        None
    }
}

impl ToolName {
    pub fn from_name(name: &str) -> (r: Option<ToolName>)
        ensures
            r == tool_of(name@),
    {
        if str_eq(name, "index_codebase") {
            Some(ToolName::IndexCodebase)
        } else if str_eq(name, "search_code") {
            Some(ToolName::SearchCode)
        } else if str_eq(name, "clear_index") {
            Some(ToolName::ClearIndex)
        } else if str_eq(name, "get_indexing_status") {
            Some(ToolName::GetIndexingStatus)
        } else {
            None
        }
    }
}

impl CallToolResponse {
    /// A successful answer made of one text.
    pub fn success(text: String) -> (r: CallToolResponse)
        ensures
            r.is_error is None,
            r.content@.len() == 1,
            r.content@[0] matches Content::Text { text: t } && t@ == text@,
    {
        let mut content: Vec<Content> = Vec::new();
        content.push(Content::Text { text });
        CallToolResponse { content, is_error: None }
    }

    /// A failed answer: the message after "Error: ", flagged as an error.
    pub fn failure(message: &str) -> (r: CallToolResponse)
        ensures
            r.is_error == Some(true),
            r.content@.len() == 1,
            r.content@[0] matches Content::Text { text: t } && t@ == "Error: "@ + message@,
    {
        let mut text = String::from_str("Error: ");
        text.append(message);
        let mut content: Vec<Content> = Vec::new();
        content.push(Content::Text { text });
        CallToolResponse { content, is_error: Some(true) }
    }
}

/// Text of an index request for a project that is already indexed.
pub fn already_indexed_text(project_root: &str, collection_name: &str) -> (r: String)
    ensures
        r@ == "Codebase already indexed. Use force=true to re-index.\nProject: "@ + project_root@
            + "\nCollection: "@ + collection_name@,
{
    let mut t = String::from_str("Codebase already indexed. Use force=true to re-index.\nProject: ");
    t.append(project_root);
    t.append("\nCollection: ");
    t.append(collection_name);
    t
}

/// Status text of one project: indexed under a collection, or not indexed.
pub fn status_text(project_root: &str, collection_name: Option<&str>) -> (r: String)
    ensures
        collection_name matches Some(c) ==> r@ == "Status: Indexed\nProject: "@ + project_root@
            + "\nCollection: "@ + c@,
        collection_name is None ==> r@ == "Status: Not indexed\nProject: "@ + project_root@,
{
    match collection_name {
        Some(c) => {
            let mut t = String::from_str("Status: Indexed\nProject: ");
            t.append(project_root);
            t.append("\nCollection: ");
            t.append(c);
            t
        },
        None => {
            let mut t = String::from_str("Status: Not indexed\nProject: ");
            t.append(project_root);
            t
        },
    }
}

/// One numbered entry of the list of indexed projects (`i` counts from 0).
pub open spec fn status_entry(i: nat, root: Seq<char>, collection: Seq<char>) -> Seq<char> {
    decimal_of(i + 1) + ". "@ + root + "\n   Collection: "@ + collection + "\n\n"@
}

/// The numbered entries of the first `n` projects.
pub open spec fn status_entries(v: Seq<(Seq<char>, crate::registry::RootView)>, n: int) -> Seq<char>
    decreases n,
{
    if n <= 0 {
        Seq::empty()
    } else {
        status_entries(v, n - 1) + status_entry((n - 1) as nat, v[n - 1].0, v[n - 1].1.collection_name)
    }
}

/// Status text of every project, numbered in registry order; reading a
/// project's collection counts as accessing it.
pub fn status_all_text(registry: &mut SnapshotManager) -> (r: String)
    requires
        old(registry).wf(),
    ensures
        final(registry).wf(),
        final(registry)@.max_projects == old(registry)@.max_projects,
        final(registry)@.snapshot_path == old(registry)@.snapshot_path,
        final(registry)@.roots.len() == old(registry)@.roots.len(),
        forall|i: int|
            0 <= i < old(registry)@.roots.len() ==> (#[trigger] final(registry)@.roots[i]).0 == old(
                registry,
            )@.roots[i].0 && touched(old(registry)@.roots[i].1, final(registry)@.roots[i].1),
        old(registry)@.roots.len() == 0 ==> r@ == "No indexed projects found."@,
        old(registry)@.roots.len() > 0 ==> r@ == "Indexed projects:\n\n"@ + status_entries(
            old(registry)@.roots,
            old(registry)@.roots.len() as int,
        ),
{
    status_all_text_at(registry, now_secs())
}

/// As `status_all_text`, at time `now`: every project's last-access time
/// becomes `now`.
pub fn status_all_text_at(registry: &mut SnapshotManager, now: u64) -> (r: String)
    requires
        old(registry).wf(),
    ensures
        final(registry).wf(),
        final(registry)@.max_projects == old(registry)@.max_projects,
        final(registry)@.snapshot_path == old(registry)@.snapshot_path,
        final(registry)@.roots.len() == old(registry)@.roots.len(),
        forall|i: int|
            0 <= i < old(registry)@.roots.len() ==> #[trigger] final(registry)@.roots[i] == (
                old(registry)@.roots[i].0,
                stamped(old(registry)@.roots[i].1, now),
            ),
        old(registry)@.roots.len() == 0 ==> r@ == "No indexed projects found."@,
        old(registry)@.roots.len() > 0 ==> r@ == "Indexed projects:\n\n"@ + status_entries(
            old(registry)@.roots,
            old(registry)@.roots.len() as int,
        ),
{
    let ghost v0 = registry@.roots;
    let roots = registry.get_all_roots();
    if roots.len() == 0 {
        return String::from_str("No indexed projects found.");
    }
    let mut t = String::from_str("Indexed projects:\n\n");
    let mut i: usize = 0;
    while i < roots.len()
        invariant
            registry.wf(),
            registry@.max_projects == old(registry)@.max_projects,
            registry@.snapshot_path == old(registry)@.snapshot_path,
            v0 == old(registry)@.roots,
            roots@.len() == v0.len(),
            forall|k: int| 0 <= k < roots@.len() ==> (#[trigger] roots@[k])@ == v0[k].0,
            i <= roots@.len(),
            registry@.roots.len() == v0.len(),
            forall|k: int|
                0 <= k < i ==> #[trigger] registry@.roots[k] == (v0[k].0, stamped(v0[k].1, now)),
            forall|k: int| i <= k < v0.len() ==> #[trigger] registry@.roots[k] == v0[k],
            t@ == "Indexed projects:\n\n"@ + status_entries(v0, i as int),
        decreases roots.len() - i,
    {
        let ghost before = registry@.roots;
        proof {
            assert(crate::registry::root_at(before, roots@[i as int]@, i as int));
        }
        let c = registry.get_collection_name_at(roots[i].as_str(), now);
        proof {
            assert forall|j: int| crate::registry::root_at(before, roots@[i as int]@, j) implies j == i by {
                if j != i {
                    if j < i {
                        assert(before[j].0 != before[i as int].0);
                    } else {
                        assert(before[i as int].0 != before[j].0);
                    }
                }
            }
            assert(stamped_at(before, registry@.roots, i as int, now));
        }
        match c {
            Some(name) => {
                let n = decimal(i + 1);
                t.append(n.as_str());
                t.append(". ");
                t.append(roots[i].as_str());
                t.append("\n   Collection: ");
                t.append(name.as_str());
                t.append("\n\n");
                proof {
                    assert(name@ == v0[i as int].1.collection_name);
                    assert(t@ =~= "Indexed projects:\n\n"@ + status_entries(v0, i + 1));
                }
            },
            None => {
                proof {
                    // the root was listed by the registry, so it is found
                    assert(crate::registry::has_root(before, roots@[i as int]@));
                }
            },
        }
        i = i + 1;
    }
    t
}

/// Text reporting the projects whose collections were dropped by a clear
/// of every project: their number, then their roots joined by ", ".
pub open spec fn joined(items: Seq<Seq<char>>) -> Seq<char>
    decreases items.len(),
{
    if items.len() == 0 {
        Seq::empty()
    } else if items.len() == 1 {
        items[0]
    } else {
        joined(items.drop_last()) + ", "@ + items.last()
    }
}

pub fn clear_all_text(cleared: &Vec<String>) -> (r: String)
    ensures
        r@ == "Cleared "@ + decimal_of(cleared@.len()) + " projects: "@ + joined(
            cleared@.map_values(|s: String| s@),
        ),
{
    let mut list = String::new();
    let mut i: usize = 0;
    while i < cleared.len()
        invariant
            i <= cleared@.len(),
            list@ == joined(cleared@.subrange(0, i as int).map_values(|s: String| s@)),
        decreases cleared.len() - i,
    {
        let ghost prev = cleared@.subrange(0, i as int).map_values(|s: String| s@);
        if i > 0 {
            list.append(", ");
        }
        list.append(cleared[i].as_str());
        proof {
            let next = cleared@.subrange(0, i + 1).map_values(|s: String| s@);
            assert(next.drop_last() =~= prev);
            if i == 0 {
                assert(list@ =~= next[0]);
            } else {
                assert(list@ =~= joined(prev) + ", "@ + next.last());
            }
        }
        i = i + 1;
    }
    assert(cleared@.subrange(0, cleared@.len() as int) =~= cleared@);
    let mut t = String::from_str("Cleared ");
    t.append(decimal(cleared.len()).as_str());
    t.append(" projects: ");
    t.append(list.as_str());
    t
}

/// Text reporting a finished indexing pass: files and chunks indexed, the
/// project and its collection, and resident projects out of the maximum.
pub fn index_summary_text(
    total_files: usize,
    total_chunks: usize,
    project_root: &str,
    collection_name: &str,
    project_count: usize,
    max_projects: usize,
) -> (r: String)
    ensures
        r@ == "Indexed "@ + decimal_of(total_files as nat) + " files, "@ + decimal_of(total_chunks as nat)
            + " chunks\nProject: "@ + project_root@ + "\nCollection: "@ + collection_name@ + "\nProjects: "@
            + decimal_of(project_count as nat) + "/"@ + decimal_of(max_projects as nat),
{
    let mut t = String::from_str("Indexed ");
    t.append(decimal(total_files).as_str());
    t.append(" files, ");
    t.append(decimal(total_chunks).as_str());
    t.append(" chunks\nProject: ");
    t.append(project_root);
    t.append("\nCollection: ");
    t.append(collection_name);
    t.append("\nProjects: ");
    t.append(decimal(project_count).as_str());
    t.append("/");
    t.append(decimal(max_projects).as_str());
    t
}

/// The line added to an indexing report when a project was evicted.
pub fn eviction_note(evicted_root: &str, evicted_collection: &str) -> (r: String)
    ensures
        r@ == "\n\u{26a0}\u{fe0f}  Evicted oldest project: "@ + evicted_root@ + " (collection: "@
            + evicted_collection@ + ")"@,
{
    let mut t = String::from_str("\n\u{26a0}\u{fe0f}  Evicted oldest project: ");
    t.append(evicted_root);
    t.append(" (collection: ");
    t.append(evicted_collection);
    t.append(")");
    t
}

/// Text reporting the clear of one project.
pub fn clear_project_text(project_root: &str, collection_name: &str) -> (r: String)
    ensures
        r@ == "Cleared index for "@ + project_root@ + "\nCollection: "@ + collection_name@,
{
    let mut t = String::from_str("Cleared index for ");
    t.append(project_root);
    t.append("\nCollection: ");
    t.append(collection_name);
    t
}

} // verus!
