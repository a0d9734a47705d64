use code_context::chunk::{CodeChunk, SymbolKind};
use code_context::digest::{collection_name_for, hash_text};
use code_context::indexing::{
    begin_index, clear_all, embedded_chunks, embedding_text, embedding_texts, file_changed, IndexStart,
    IndexTally, MAX_FILE_SIZE,
};
use code_context::registry::SnapshotManager;
use std::collections::HashSet;

#[test]
fn content_hash_is_hex_sha256() {
    assert_eq!(hash_text(""), "e3b0c44298fc1c149afbf4c8996fb92427ae41e4649b934ca495991b7852b855");
    assert_eq!(hash_text("abc"), "ba7816bf8f01cfea414140de5dae2223b00361a396177a9cb410ff61f20015ad");
}

#[test]
fn collection_name_is_prefixed_hash_of_path() {
    let name = collection_name_for("/home/user/project");
    assert_eq!(name.len(), "code_index_".len() + 16);
    assert!(name.starts_with("code_index_"));
    assert_eq!(&name["code_index_".len()..], &hash_text("/home/user/project")[..16]);
    assert_eq!(collection_name_for("abc"), "code_index_ba7816bf8f01cfea");
}

#[test]
fn distinct_paths_give_distinct_collections() {
    let mut seen = HashSet::new();
    for i in 0..1000 {
        let path = format!("/synthetic/project_{}/src", i);
        assert!(seen.insert(collection_name_for(&path)), "collision at {}", path);
    }
    assert_eq!(collection_name_for("/a/b"), collection_name_for("/a/b"));
}

#[test]
fn only_the_small_file_passes_the_size_ceiling() {
    let mut tally = IndexTally::new();
    let sizes = [MAX_FILE_SIZE + 1, 1024];
    let admitted: Vec<u64> = sizes.iter().copied().filter(|&s| tally.admit_size(s)).collect();
    assert_eq!(admitted, vec![1024]);
    assert_eq!(tally.skipped_by_size, 1);
    assert_eq!(tally.skipped_files, 1);
    assert_eq!(tally.skipped_size, MAX_FILE_SIZE + 1);
    assert!(tally.admit_size(MAX_FILE_SIZE));
    assert_eq!(MAX_FILE_SIZE, 10 * 1024 * 1024);
}

#[test]
fn tally_counts_indexed_and_skipped() {
    let mut tally = IndexTally::new();
    tally.count_indexed(4);
    tally.count_indexed(3);
    tally.skip_file();
    assert_eq!(tally.total_files, 2);
    assert_eq!(tally.total_chunks, 7);
    assert_eq!(tally.skipped_files, 1);
    assert_eq!(tally.skipped_by_size, 0);
}

#[test]
fn unchanged_file_is_skipped_without_force() {
    let mut m = SnapshotManager::new("s".to_string());
    let start = begin_index(&mut m, "/proj", false);
    let collection = match start {
        IndexStart::Started { collection_name, evicted } => {
            assert_eq!(evicted, None);
            collection_name
        }
        IndexStart::AlreadyIndexed { .. } => panic!("new project reported as indexed"),
    };
    assert_eq!(collection, collection_name_for("/proj"));
    let content = "fn main() {}\n";
    let h = file_changed(&m, "/proj", "/proj/main.rs", content, false).expect("new file must be processed");
    assert_eq!(h, hash_text(content));
    m.update_file("/proj", "/proj/main.rs".to_string(), h.clone(), 1);
    assert_eq!(file_changed(&m, "/proj", "/proj/main.rs", content, false), None);
    assert_eq!(m.get_file_hash("/proj", "/proj/main.rs"), Some(h.clone()));
    assert_eq!(file_changed(&m, "/proj", "/proj/main.rs", content, true), Some(h));
    assert!(file_changed(&m, "/proj", "/proj/main.rs", "fn main() { }\n", false).is_some());
}

#[test]
fn second_pass_without_force_is_a_no_op() {
    let mut m = SnapshotManager::new("s".to_string());
    assert!(matches!(begin_index(&mut m, "/proj", false), IndexStart::Started { .. }));
    match begin_index(&mut m, "/proj", false) {
        IndexStart::AlreadyIndexed { collection_name } => assert_eq!(collection_name, collection_name_for("/proj")),
        IndexStart::Started { .. } => panic!("expected no-op"),
    }
    assert!(matches!(begin_index(&mut m, "/proj", true), IndexStart::Started { evicted: None, .. }));
    assert_eq!(m.get_project_count(), 1);
}

#[test]
fn begin_index_evicts_when_full() {
    let mut m = SnapshotManager::new_with_max_projects("s".to_string(), 1);
    begin_index(&mut m, "/one", false);
    match begin_index(&mut m, "/two", false) {
        IndexStart::Started { evicted, .. } => {
            assert_eq!(evicted, Some(("/one".to_string(), collection_name_for("/one"))));
        }
        IndexStart::AlreadyIndexed { .. } => panic!("unexpected"),
    }
    assert_eq!(m.get_all_roots(), vec!["/two".to_string()]);
}

#[test]
fn clearing_all_lists_each_project_once() {
    let mut m = SnapshotManager::new("s".to_string());
    m.get_or_create_root("/a", "ca");
    m.get_or_create_root("/b", "cb");
    m.get_or_create_root("/c", "cc");
    let drops = clear_all(&mut m);
    assert_eq!(
        drops,
        vec![
            ("/a".to_string(), "ca".to_string()),
            ("/b".to_string(), "cb".to_string()),
            ("/c".to_string(), "cc".to_string())
        ]
    );
    assert_eq!(m.get_project_count(), 0);
}

fn chunk(content: &str, name: Option<&str>) -> CodeChunk {
    CodeChunk {
        file_path: "f.rs".to_string(),
        content: content.to_string(),
        start_line: 0,
        end_line: 0,
        symbol_name: name.map(|n| n.to_string()),
        symbol_kind: SymbolKind::Function,
    }
}

#[test]
fn embedding_text_appends_symbol_name() {
    assert_eq!(embedding_text(&chunk("fn a() {}", Some("a"))), "fn a() {}\na");
    assert_eq!(embedding_text(&chunk("x", None)), "x\n");
    let texts = embedding_texts(&vec![chunk("p", Some("q")), chunk("r", None)]);
    assert_eq!(texts, vec!["p\nq".to_string(), "r\n".to_string()]);
}

#[test]
fn failed_embeddings_drop_only_their_chunks() {
    assert_eq!(embedded_chunks(&vec![true, true]), vec![0, 1]);
    assert_eq!(embedded_chunks(&vec![true, false, true]), vec![0, 2]);
    assert_eq!(embedded_chunks(&vec![false, false]), Vec::<usize>::new());
    assert_eq!(embedded_chunks(&vec![]), Vec::<usize>::new());
}

#[test]
fn begin_index_at_stamps_the_pass_time() {
    let mut m = SnapshotManager::new("s".to_string());
    code_context::indexing::begin_index_at(&mut m, "/proj", false, 5);
    assert_eq!(m.snapshot().roots[0].1.indexed_at, 5);
    assert!(matches!(
        code_context::indexing::begin_index_at(&mut m, "/proj", false, 8),
        IndexStart::AlreadyIndexed { .. }
    ));
    assert_eq!(m.snapshot().roots[0].1.last_accessed_at, 8);
    assert_eq!(m.snapshot().roots[0].1.indexed_at, 5);
}
