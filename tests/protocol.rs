use code_context::protocol::{
    already_indexed_text, clear_all_text, clear_project_text, eviction_note, index_summary_text,
    request_kind, status_all_text, status_text, CallToolResponse, ClientCapabilities, Content,
    InitializeResponse, RequestKind, RootsCapability, ToolName,
};
use code_context::registry::SnapshotManager;
use code_context::text::decimal;

fn text_of(r: &CallToolResponse) -> &str {
    match &r.content[0] {
        Content::Text { text } => text,
    }
}

#[test]
fn dispatch_by_method_and_tool_name() {
    assert_eq!(request_kind("initialize"), RequestKind::Initialize);
    assert_eq!(request_kind("notifications/initialized"), RequestKind::Initialized);
    assert_eq!(request_kind("tools/list"), RequestKind::ToolsList);
    assert_eq!(request_kind("tools/call"), RequestKind::ToolsCall);
    assert_eq!(request_kind("ping"), RequestKind::Unknown);
    assert_eq!(ToolName::from_name("index_codebase"), Some(ToolName::IndexCodebase));
    assert_eq!(ToolName::from_name("search_code"), Some(ToolName::SearchCode));
    assert_eq!(ToolName::from_name("clear_index"), Some(ToolName::ClearIndex));
    assert_eq!(ToolName::from_name("get_indexing_status"), Some(ToolName::GetIndexingStatus));
    assert_eq!(ToolName::from_name("other"), None);
}

#[test]
fn initialize_answer_and_roots_capability() {
    let r = InitializeResponse::for_server();
    assert_eq!(r.protocol_version, "2024-11-05");
    assert_eq!(r.server_info.name, "code-context-mcp");
    assert_eq!(r.capabilities.tools.list_changed, Some(true));
    assert!(!ClientCapabilities { roots: None }.supports_roots());
    assert!(ClientCapabilities { roots: Some(RootsCapability { list_changed: true }) }.supports_roots());
}

#[test]
fn tool_answers() {
    let ok = CallToolResponse::success("done".to_string());
    assert_eq!(ok.is_error, None);
    assert_eq!(text_of(&ok), "done");
    let err = CallToolResponse::failure("Missing 'path' argument");
    assert_eq!(err.is_error, Some(true));
    assert_eq!(text_of(&err), "Error: Missing 'path' argument");
}

#[test]
fn report_texts() {
    assert_eq!(
        already_indexed_text("/p", "c"),
        "Codebase already indexed. Use force=true to re-index.\nProject: /p\nCollection: c"
    );
    assert_eq!(status_text("/p", Some("c")), "Status: Indexed\nProject: /p\nCollection: c");
    assert_eq!(status_text("/p", None), "Status: Not indexed\nProject: /p");
    assert_eq!(clear_project_text("/p", "c"), "Cleared index for /p\nCollection: c");
    assert_eq!(clear_all_text(&vec![]), "Cleared 0 projects: ");
    assert_eq!(clear_all_text(&vec!["/a".to_string(), "/b".to_string()]), "Cleared 2 projects: /a, /b");
    assert_eq!(
        index_summary_text(3, 12, "/p", "c", 2, 10),
        "Indexed 3 files, 12 chunks\nProject: /p\nCollection: c\nProjects: 2/10"
    );
    assert_eq!(eviction_note("/old", "co"), "\n⚠️  Evicted oldest project: /old (collection: co)");
}

#[test]
fn status_of_all_projects() {
    let mut m = SnapshotManager::new("s".to_string());
    assert_eq!(status_all_text(&mut m), "No indexed projects found.");
    m.get_or_create_root("/a", "ca");
    m.get_or_create_root("/b", "cb");
    assert_eq!(
        status_all_text(&mut m),
        "Indexed projects:\n\n1. /a\n   Collection: ca\n\n2. /b\n   Collection: cb\n\n"
    );
    assert_eq!(m.get_project_count(), 2);
}

#[test]
fn decimal_text() {
    assert_eq!(decimal(0), "0");
    assert_eq!(decimal(7), "7");
    assert_eq!(decimal(10), "10");
    assert_eq!(decimal(1234567), "1234567");
    assert_eq!(decimal(usize::MAX), usize::MAX.to_string());
}

#[test]
fn status_of_all_projects_stamps_each() {
    let mut m = SnapshotManager::new("s".to_string());
    m.get_or_create_root_at("/a", "ca", 1);
    m.get_or_create_root_at("/b", "cb", 2);
    let text = code_context::protocol::status_all_text_at(&mut m, 9);
    assert!(text.starts_with("Indexed projects:"));
    assert!(m.snapshot().roots.iter().all(|(_, r)| r.last_accessed_at == 9));
}
