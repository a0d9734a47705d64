use code_context::chunk::CodeParser;
use code_context::providers::{is_suspicious_path, ollama_dimension, openai_dimension, trim_trailing_slashes};

#[test]
fn ollama_widths_by_model_name() {
    assert_eq!(ollama_dimension("nomic-embed-text"), 768);
    assert_eq!(ollama_dimension("mxbai-embed-large"), 1024);
    assert_eq!(ollama_dimension("all-minilm:l6"), 384);
    assert_eq!(ollama_dimension("something-else"), 768);
}

#[test]
fn openai_widths_by_model_name() {
    assert_eq!(openai_dimension("text-embedding-3-small"), 1536);
    assert_eq!(openai_dimension("text-embedding-3-large"), 3072);
    assert_eq!(openai_dimension("text-embedding-ada-002"), 1536);
}

#[test]
fn addresses_lose_trailing_slashes() {
    assert_eq!(trim_trailing_slashes("http://h:1/"), "http://h:1");
    assert_eq!(trim_trailing_slashes("http://h:1///"), "http://h:1");
    assert_eq!(trim_trailing_slashes("http://h:1"), "http://h:1");
    assert_eq!(trim_trailing_slashes("/"), "");
}

#[test]
fn traversal_patterns_are_refused() {
    assert!(is_suspicious_path("/home/../etc"));
    assert!(!is_suspicious_path("../relative"));
    assert!(!is_suspicious_path("/home/user/project"));
}

#[test]
fn parser_hash_matches_sha256() {
    let _ = CodeParser::default();
    assert_eq!(
        CodeParser::hash_file("abc"),
        "ba7816bf8f01cfea414140de5dae2223b00361a396177a9cb410ff61f20015ad"
    );
}
