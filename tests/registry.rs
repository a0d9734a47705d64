use code_context::registry::{snapshot_is_wf, FileEntry, RootInfo, Snapshot, SnapshotManager, DEFAULT_MAX_PROJECTS};

#[test]
fn new_registry_is_empty_with_default_limit() {
    let m = SnapshotManager::new("/tmp/snap.json".to_string());
    assert_eq!(m.get_project_count(), 0);
    assert_eq!(m.max_projects(), DEFAULT_MAX_PROJECTS);
    assert_eq!(m.snapshot_path(), "/tmp/snap.json");
}

#[test]
fn get_or_create_returns_existing_without_eviction() {
    let mut m = SnapshotManager::new_with_max_projects("s".to_string(), 1);
    let (r, e) = m.get_or_create_root("/p/a", "col_a");
    assert_eq!(r.collection_name, "col_a");
    assert!(r.files.is_empty());
    assert_eq!(r.indexed_at, r.last_accessed_at);
    assert_eq!(e, None);
    let (r2, e2) = m.get_or_create_root("/p/a", "other");
    assert_eq!(r2.collection_name, "col_a");
    assert_eq!(e2, None);
    assert_eq!(m.get_project_count(), 1);
}

#[test]
fn full_registry_names_oldest_and_inserts_anyway() {
    let mut m = SnapshotManager::new_with_max_projects("s".to_string(), 2);
    m.get_or_create_root("/p/a", "ca");
    m.get_or_create_root("/p/b", "cb");
    let (_, e) = m.get_or_create_root("/p/c", "cc");
    assert_eq!(e.as_deref(), Some("/p/a"));
    assert_eq!(m.get_project_count(), 3);
}

#[test]
fn admission_keeps_within_limit_and_evicts_oldest() {
    let mut m = SnapshotManager::new_with_max_projects("s".to_string(), 2);
    assert_eq!(m.admit_root("/p/a", "ca"), None);
    assert_eq!(m.admit_root("/p/b", "cb"), None);
    let e = m.admit_root("/p/c", "cc");
    assert_eq!(e, Some(("/p/a".to_string(), "ca".to_string())));
    assert_eq!(m.get_project_count(), 2);
    assert_eq!(m.get_all_roots(), vec!["/p/b".to_string(), "/p/c".to_string()]);
    for i in 0..20 {
        m.admit_root(&format!("/q/{}", i), "x");
        assert!(m.get_project_count() <= 2);
    }
}

#[test]
fn file_ledger_update_and_lookup() {
    let mut m = SnapshotManager::new("s".to_string());
    m.update_file("/p/a", "/p/a/x.rs".to_string(), "h0".to_string(), 3);
    assert_eq!(m.get_file_hash("/p/a", "/p/a/x.rs"), None);
    m.get_or_create_root("/p/a", "ca");
    m.update_file("/p/a", "/p/a/x.rs".to_string(), "h1".to_string(), 3);
    assert_eq!(m.get_file_hash("/p/a", "/p/a/x.rs").as_deref(), Some("h1"));
    m.update_file("/p/a", "/p/a/x.rs".to_string(), "h2".to_string(), 5);
    assert_eq!(m.get_file_hash("/p/a", "/p/a/x.rs").as_deref(), Some("h2"));
    assert_eq!(m.snapshot().roots[0].1.files.len(), 1);
    assert_eq!(m.snapshot().roots[0].1.files[0].1.chunk_count, 5);
    assert_eq!(m.get_file_hash("/p/b", "/p/a/x.rs"), None);
}

#[test]
fn remove_and_clear() {
    let mut m = SnapshotManager::new("s".to_string());
    m.get_or_create_root("/p/a", "ca");
    m.get_or_create_root("/p/b", "cb");
    assert_eq!(m.remove_root("/p/a").as_deref(), Some("ca"));
    assert_eq!(m.remove_root("/p/a"), None);
    assert_eq!(m.clear_project("/p/b").as_deref(), Some("cb"));
    m.get_or_create_root("/p/c", "cc");
    m.clear();
    assert_eq!(m.get_project_count(), 0);
}

#[test]
fn collection_lookup_and_listing() {
    let mut m = SnapshotManager::new("s".to_string());
    m.get_or_create_root("/p/a", "ca");
    m.get_or_create_root("/p/b", "cb");
    assert_eq!(m.get_collection_name("/p/b").as_deref(), Some("cb"));
    assert_eq!(m.get_collection_name("/p/z"), None);
    assert_eq!(
        m.get_all_collection_names(),
        vec![("/p/a".to_string(), "ca".to_string()), ("/p/b".to_string(), "cb".to_string())]
    );
    m.touch_project("/p/a");
    let by_age = m.get_projects_by_age();
    assert_eq!(by_age.len(), 2);
    assert!(by_age[0].1 <= by_age[1].1);
}

#[test]
fn project_root_is_longest_enclosing_root() {
    let mut m = SnapshotManager::new("s".to_string());
    m.get_or_create_root("/work", "c1");
    m.get_or_create_root("/work/inner", "c2");
    assert_eq!(m.find_project_root("/work/inner/src/a.rs").as_deref(), Some("/work/inner"));
    assert_eq!(m.find_project_root("/work/other").as_deref(), Some("/work"));
    assert_eq!(m.find_project_root("/work/innerx").as_deref(), Some("/work"));
    assert_eq!(m.find_project_root("/elsewhere"), None);
    assert_eq!(m.find_project_root("/work").as_deref(), Some("/work"));
}

#[test]
fn loading_replaces_state_and_refuses_repeated_roots() {
    let mut m = SnapshotManager::new("s".to_string());
    m.get_or_create_root("/p/old", "co");
    let root = |c: &str| RootInfo {
        collection_name: c.to_string(),
        files: vec![("f".to_string(), FileEntry { hash: "h".to_string(), chunk_count: 1, indexed_at: 7 })],
        indexed_at: 1,
        last_accessed_at: 2,
    };
    let good = Snapshot { roots: vec![("/p/x".to_string(), root("cx")), ("/p/y".to_string(), root("cy"))] };
    assert!(snapshot_is_wf(&good));
    assert!(m.load_snapshot(good));
    assert_eq!(m.get_all_roots(), vec!["/p/x".to_string(), "/p/y".to_string()]);
    let bad = Snapshot { roots: vec![("/p/x".to_string(), root("a")), ("/p/x".to_string(), root("b"))] };
    assert!(!snapshot_is_wf(&bad));
    assert!(!m.load_snapshot(bad));
    assert_eq!(m.get_project_count(), 2);
}

#[test]
fn root_info_touch_and_copy() {
    let mut r = RootInfo::new("c".to_string());
    assert_eq!(r.indexed_at, r.last_accessed_at);
    r.files.push(("f".to_string(), FileEntry { hash: "h".to_string(), chunk_count: 2, indexed_at: 3 }));
    r.touch();
    let d = r.duplicate();
    assert_eq!(d.collection_name, "c");
    assert_eq!(d.files.len(), 1);
    assert_eq!(d.files[0].1.hash, "h");
    assert!(d.last_accessed_at >= d.indexed_at);
}

#[test]
fn saved_snapshot_loads_back_into_fresh_registry() {
    let mut m = SnapshotManager::new("s".to_string());
    for root in ["/p/a", "/p/b"] {
        m.get_or_create_root(root, &format!("c{}", root));
        for f in ["x.rs", "y.rs"] {
            m.update_file(root, format!("{}/{}", root, f), format!("h-{}", f), 2);
        }
    }
    let saved = m.snapshot().clone();
    let mut fresh = SnapshotManager::new("s".to_string());
    assert!(fresh.load_snapshot(saved));
    assert_eq!(fresh.get_all_collection_names(), m.get_all_collection_names());
    for root in ["/p/a", "/p/b"] {
        for f in ["x.rs", "y.rs"] {
            let path = format!("{}/{}", root, f);
            assert_eq!(fresh.get_file_hash(root, &path), m.get_file_hash(root, &path));
            assert_eq!(fresh.get_file_hash(root, &path), Some(format!("h-{}", f)));
        }
    }
    assert_eq!(
        fresh.snapshot().roots[1].1.last_accessed_at,
        m.snapshot().roots[1].1.last_accessed_at
    );
}

#[test]
fn timed_operations_stamp_the_given_time() {
    let mut r = RootInfo::new_at("c".to_string(), 100);
    assert_eq!((r.indexed_at, r.last_accessed_at), (100, 100));
    r.touch_at(250);
    assert_eq!((r.indexed_at, r.last_accessed_at), (100, 250));

    let mut m = SnapshotManager::new_with_max_projects("s".to_string(), 2);
    let (created, _) = m.get_or_create_root_at("/p/a", "ca", 10);
    assert_eq!((created.indexed_at, created.last_accessed_at), (10, 10));
    m.get_or_create_root_at("/p/b", "cb", 20);
    let (again, e) = m.get_or_create_root_at("/p/a", "ignored", 30);
    assert_eq!((again.collection_name.as_str(), again.indexed_at, again.last_accessed_at), ("ca", 10, 30));
    assert_eq!(e, None);
    // "/p/b" (20) is now older than "/p/a" (30)
    assert_eq!(m.admit_root_at("/p/c", "cc", 40), Some(("/p/b".to_string(), "cb".to_string())));
    assert_eq!(m.get_collection_name_at("/p/a", 50).as_deref(), Some("ca"));
    m.touch_project_at("/p/c", 60);
    assert_eq!(m.get_projects_by_age(), vec![("/p/a".to_string(), 50), ("/p/c".to_string(), 60)]);
    m.update_file_at("/p/a", "/p/a/f".to_string(), "h".to_string(), 4, 70);
    let row = &m.snapshot().roots[0].1.files[0].1;
    assert_eq!((row.hash.as_str(), row.chunk_count, row.indexed_at), ("h", 4, 70));
}
