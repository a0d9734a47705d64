use code_context::chunk::{CodeParser, Grammar, SymbolKind, SyntaxNode};
use code_context::text::{count_lines, extension};

fn language(g: Grammar) -> tree_sitter::Language {
    match g {
        Grammar::Rust => tree_sitter_rust::language(),
        Grammar::Tsx => tree_sitter_typescript::language_tsx(),
        Grammar::JavaScript => tree_sitter_javascript::language(),
        Grammar::Python => tree_sitter_python::language(),
        Grammar::Go => tree_sitter_go::language(),
        Grammar::Cpp => tree_sitter_cpp::language(),
        Grammar::Java => tree_sitter_java::language(),
        Grammar::CSharp => tree_sitter_c_sharp::language(),
    }
}

fn syntax_nodes(parser: &CodeParser, path: &str, source: &str) -> Vec<SyntaxNode> {
    let mut out = Vec::new();
    let g = match parser.grammar_for(path) {
        Some(g) => g,
        None => return out,
    };
    let mut ts = tree_sitter::Parser::new();
    ts.set_language(language(g)).unwrap();
    let tree = ts.parse(source, None).unwrap();
    let mut cursor = tree.walk();
    let mut depth = 0usize;
    loop {
        let node = cursor.node();
        out.push(SyntaxNode {
            kind: node.kind().to_string(),
            depth,
            start_byte: node.start_byte(),
            end_byte: node.end_byte(),
            start_row: node.start_position().row,
            end_row: node.end_position().row,
            text: source[node.start_byte()..node.end_byte()].to_string(),
        });
        if cursor.goto_first_child() {
            depth += 1;
            continue;
        }
        loop {
            if cursor.goto_next_sibling() {
                break;
            }
            if !cursor.goto_parent() {
                return out;
            }
            depth -= 1;
        }
    }
}

fn chunk(parser: &CodeParser, path: &str, source: &str) -> Vec<code_context::chunk::CodeChunk> {
    let nodes = syntax_nodes(parser, path, source);
    parser.parse(path, source, &nodes)
}

#[test]
fn test_parse_rust_function() {
    let parser = CodeParser::new();
    let code = r#"
            fn hello_world() -> String {
                "Hello, world!".to_string()
            }
        "#;

    let chunks = chunk(&parser, "test.rs", code);
    assert!(!chunks.is_empty());
    assert_eq!(chunks[0].symbol_kind, SymbolKind::Function);
}

#[test]
fn rust_function_chunk_has_name_and_span() {
    let parser = CodeParser::new();
    let code = "fn hello_world() -> u32 {\n    1\n}\n";
    let chunks = chunk(&parser, "src/lib.rs", code);
    assert_eq!(chunks.len(), 1);
    assert_eq!(chunks[0].symbol_name.as_deref(), Some("hello_world"));
    assert_eq!(chunks[0].start_line, 0);
    assert_eq!(chunks[0].end_line, 2);
    assert_eq!(chunks[0].content, "fn hello_world() -> u32 {\n    1\n}");
    assert_eq!(chunks[0].file_path, "src/lib.rs");
}

#[test]
fn impl_block_is_not_split_into_methods() {
    let parser = CodeParser::new();
    let code = "struct S;\nimpl S {\n    fn a(&self) {}\n    fn b(&self) {}\n}\nfn c() {}\n";
    let chunks = chunk(&parser, "x.rs", code);
    let kinds: Vec<SymbolKind> = chunks.iter().map(|c| c.symbol_kind).collect();
    assert_eq!(kinds, vec![SymbolKind::Struct, SymbolKind::Class, SymbolKind::Function]);
    assert_eq!(chunks[2].symbol_name.as_deref(), Some("c"));
}

#[test]
fn plain_text_file_is_one_whole_chunk() {
    let parser = CodeParser::new();
    let text = "just some notes\nsecond line\n";
    let chunks = chunk(&parser, "notes.txt", text);
    assert_eq!(chunks.len(), 1);
    assert_eq!(chunks[0].content, text);
    assert_eq!(chunks[0].symbol_kind, SymbolKind::Other);
    assert_eq!(chunks[0].symbol_name, None);
    assert_eq!(chunks[0].start_line, 0);
    assert_eq!(chunks[0].end_line, 1);
}

#[test]
fn whole_file_chunk_ends_on_last_line() {
    let parser = CodeParser::new();
    let chunks = chunk(&parser, "notes.txt", "hello\nworld\n");
    assert_eq!(chunks.len(), 1);
    assert_eq!(chunks[0].end_line, 1);
    assert_eq!(chunk(&parser, "empty.txt", "")[0].end_line, 0);
    assert_eq!(chunk(&parser, "one.txt", "one line")[0].end_line, 0);
}

#[test]
fn statements_only_source_is_one_whole_chunk() {
    let parser = CodeParser::new();
    let code = "let x = 1;\nconsole.log(x);\nx += 2;";
    let chunks = chunk(&parser, "script.js", code);
    assert_eq!(chunks.len(), 1);
    assert_eq!(chunks[0].symbol_kind, SymbolKind::Other);
    assert_eq!(chunks[0].content, code);
    assert_eq!(chunks[0].end_line, 2);
}

#[test]
fn python_statements_only_is_one_other_chunk() {
    let parser = CodeParser::new();
    let code = "x = 1\nprint(x)\n";
    let chunks = chunk(&parser, "main.py", code);
    assert_eq!(chunks.len(), 1);
    assert_eq!(chunks[0].symbol_kind, SymbolKind::Other);
    assert_eq!(chunks[0].symbol_name, None);
    assert_eq!(chunks[0].content, code);
    assert_eq!(chunks[0].start_line, 0);
    assert_eq!(chunks[0].end_line, 1);
}

#[test]
fn python_class_and_function() {
    let parser = CodeParser::new();
    let code = "class A:\n    def m(self):\n        pass\n\ndef f():\n    return 1\n";
    let chunks = chunk(&parser, "m.py", code);
    assert_eq!(chunks.len(), 2);
    assert_eq!(chunks[0].symbol_kind, SymbolKind::Class);
    assert_eq!(chunks[0].symbol_name.as_deref(), Some("A"));
    assert_eq!(chunks[0].start_line, 0);
    assert_eq!(chunks[0].end_line, 2);
    assert_eq!(chunks[1].symbol_kind, SymbolKind::Function);
    assert_eq!(chunks[1].symbol_name.as_deref(), Some("f"));
    assert_eq!(chunks[1].start_line, 4);
}

#[test]
fn chunks_are_ordered_disjoint_pieces_of_the_source() {
    let parser = CodeParser::new();
    let code = "fn a() {}\nstruct B { x: u8 }\nimpl B {\n    fn c(&self) {}\n}\nfn d() {\n}\n";
    let chunks = chunk(&parser, "k.rs", code);
    assert_eq!(chunks.len(), 4);
    let mut from = 0;
    for c in &chunks {
        assert!(c.start_line <= c.end_line);
        let at = code[from..].find(&c.content).expect("chunk text in order") + from;
        from = at + c.content.len();
    }
}

#[test]
fn javascript_functions_and_classes() {
    let parser = CodeParser::new();
    let code = "function f() { return 1; }\nclass K { m() {} }\n";
    let chunks = chunk(&parser, "a.js", code);
    assert_eq!(chunks.len(), 2);
    assert_eq!(chunks[0].symbol_kind, SymbolKind::Function);
    assert_eq!(chunks[0].symbol_name.as_deref(), Some("f"));
    assert_eq!(chunks[1].symbol_kind, SymbolKind::Class);
    assert_eq!(chunks[1].symbol_name.as_deref(), Some("K"));
}

#[test]
fn grammar_lookup_by_extension() {
    let parser = CodeParser::new();
    assert_eq!(parser.grammar_for("a/b.rs"), Some(Grammar::Rust));
    assert_eq!(parser.grammar_for("a/b.ts"), Some(Grammar::Tsx));
    assert_eq!(parser.grammar_for("a/b.tsx"), Some(Grammar::Tsx));
    assert_eq!(parser.grammar_for("a/b.cc"), Some(Grammar::Cpp));
    assert_eq!(parser.grammar_for("a/b.cs"), Some(Grammar::CSharp));
    assert_eq!(parser.grammar_for("a/b.txt"), None);
    assert_eq!(parser.grammar_for("a/.rs"), None);
    assert_eq!(parser.grammar_for("a.rs/b"), None);
}

#[test]
fn extension_follows_path_rules() {
    assert_eq!(extension("dir/file.tar.gz"), "gz");
    assert_eq!(extension("dir/.bashrc"), "");
    assert_eq!(extension("dir.d/file"), "");
    assert_eq!(extension("file."), "");
    assert_eq!(extension("main.go"), "go");
}

#[test]
fn line_counts_match_str_lines() {
    for s in ["", "a", "a\n", "a\nb", "\n", "\n\n", "a\r\nb\r\n", "a\n\nb"] {
        assert_eq!(count_lines(s), s.lines().count(), "{:?}", s);
    }
}

#[test]
fn symbol_kind_names() {
    assert_eq!(SymbolKind::Function.as_str(), "function");
    assert_eq!(SymbolKind::Interface.as_str(), "interface");
    assert_eq!(SymbolKind::Other.as_str(), "other");
}
