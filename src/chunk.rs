use crate::digest::{content_hash, hash_text};
use crate::text::{extension, extension_of, last_line, last_line_index, seq_contains, str_contains, str_eq};
use vstd::prelude::*;
use vstd::string::StringSliceAdditionalSpecFns;
use vstd::utf8::encode_utf8;

verus! {

/// Syntactic category of a chunk's top-level construct.
#[derive(Debug, Clone, Copy, PartialEq, Eq, Structural)]
pub enum SymbolKind {
    Function,
    Class,
    Method,
    Interface,
    Struct,
    Module,
    Variable,
    Other,
}

/// The lower-case name of each symbol kind.
pub open spec fn kind_name(k: SymbolKind) -> Seq<char> {
    match k {
        SymbolKind::Function => "function"@,
        SymbolKind::Class => "class"@,
        SymbolKind::Method => "method"@,
        SymbolKind::Interface => "interface"@,
        SymbolKind::Struct => "struct"@,
        SymbolKind::Module => "module"@,
        SymbolKind::Variable => "variable"@,
        SymbolKind::Other => "other"@,
    }
}

impl SymbolKind {
    pub fn as_str(&self) -> (r: &'static str)
        ensures
            r@ == kind_name(*self),
    {
        match self {
            SymbolKind::Function => "function",
            SymbolKind::Class => "class",
            SymbolKind::Method => "method",
            SymbolKind::Interface => "interface",
            SymbolKind::Struct => "struct",
            SymbolKind::Module => "module",
            SymbolKind::Variable => "variable",
            SymbolKind::Other => "other",
        }
    }
}


/// A semantic unit of code extracted from one file.
#[derive(Debug, Clone)]
pub struct CodeChunk {
    pub file_path: String,
    pub content: String,
    pub start_line: usize,
    pub end_line: usize,
    pub symbol_name: Option<String>,
    pub symbol_kind: SymbolKind,
}

/// One node of a syntax tree, listed in depth-first pre-order: `depth` is
/// the distance from the root, `start_byte`..`end_byte` the span of source
/// bytes it covers and `text` that source, and the rows its first and last
/// line (0-based).
#[derive(Debug, Clone)]
pub struct SyntaxNode {
    pub kind: String,
    pub depth: usize,
    pub start_byte: usize,
    pub end_byte: usize,
    pub start_row: usize,
    pub end_row: usize,
    pub text: String,
}

/// The symbol kind that a grammar node kind defines, if any.
pub open spec fn symbol_for_kind(k: Seq<char>) -> Option<SymbolKind> {
    if k == "function_definition"@ || k == "function_item"@ || k == "function_declaration"@
        || k == "method_definition"@ {
        Some(SymbolKind::Function)
    } else if k == "class_definition"@ || k == "class_declaration"@ || k == "impl_item"@ {
        Some(SymbolKind::Class)
    } else if k == "method_declaration"@ || k == "method_item"@ {
        Some(SymbolKind::Method)
    } else if k == "interface_declaration"@ {
        Some(SymbolKind::Interface)
    } else if k == "struct_item"@ || k == "struct_declaration"@ {
        Some(SymbolKind::Struct)
    } else if k == "module"@ {
        Some(SymbolKind::Module)
    } else {
        None
    }
}

/// Node `i` is a declaration that defines a symbol. The root (depth 0)
/// stands for the whole file and never counts as one, whatever its kind.
pub open spec fn defines_symbol(nodes: Seq<SyntaxNode>, i: int) -> bool {
    nodes[i].depth > 0 && symbol_for_kind(nodes[i].kind@) is Some
}

/// Node `i` lies in the subtree of node `j`: every node after `j` up to and
/// including `i` is deeper than `j`.
pub open spec fn in_subtree(nodes: Seq<SyntaxNode>, j: int, i: int) -> bool {
    &&& 0 <= j < i < nodes.len()
    &&& forall|k: int| j < k <= i ==> #[trigger] nodes[k].depth > nodes[j].depth
}

/// Node `i` becomes a chunk: it defines a symbol and no symbol-defining
/// node encloses it (chunks are never split into nested chunks).
pub open spec fn is_chunk_node(nodes: Seq<SyntaxNode>, i: int) -> bool {
    &&& 0 <= i < nodes.len()
    &&& defines_symbol(nodes, i)
    &&& !exists|j: int| #[trigger] defines_symbol(nodes, j) && in_subtree(nodes, j, i)
}

/// Positions, in order, of the chunk nodes among the first `n` nodes.
pub open spec fn chunk_positions(nodes: Seq<SyntaxNode>, n: int) -> Seq<int>
    decreases n,
{
    if n <= 0 {
        Seq::empty()
    } else if is_chunk_node(nodes, n - 1) {
        chunk_positions(nodes, n - 1).push(n - 1)
    } else {
        chunk_positions(nodes, n - 1)
    }
}

/// A grammar kind that names a symbol.
pub open spec fn names_symbol(k: Seq<char>) -> bool {
    seq_contains(k, "identifier"@) || seq_contains(k, "name"@)
}

/// The first immediate child of node `i`, at or after position `c`, whose
/// kind names a symbol.
pub open spec fn name_child_from(nodes: Seq<SyntaxNode>, i: int, c: int) -> Option<int>
    decreases nodes.len() - c,
{
    if c < 0 || c >= nodes.len() || nodes[c].depth <= nodes[i].depth {
        None
    } else if nodes[c].depth == nodes[i].depth + 1 && names_symbol(nodes[c].kind@) {
        Some(c)
    } else {
        name_child_from(nodes, i, c + 1)
    }
}

/// The symbol name of node `i`: the text of its first immediate child whose
/// kind names a symbol.
pub open spec fn symbol_name_of(nodes: Seq<SyntaxNode>, i: int) -> Option<Seq<char>> {
    match name_child_from(nodes, i, i + 1) {
        Some(c) => Some(nodes[c].text@),
        None => None,
    }
}

pub open spec fn opt_view(o: Option<String>) -> Option<Seq<char>> {
    match o {
        Some(s) => Some(s@),
        None => None,
    }
}

/// `c` is the chunk made of node `i` of file `path`.
pub open spec fn chunk_of_node(c: CodeChunk, path: Seq<char>, nodes: Seq<SyntaxNode>, i: int) -> bool {
    &&& c.file_path@ == path
    &&& c.content@ == nodes[i].text@
    &&& c.start_line == nodes[i].start_row
    &&& c.end_line == nodes[i].end_row
    &&& opt_view(c.symbol_name) == symbol_name_of(nodes, i)
    &&& Some(c.symbol_kind) == symbol_for_kind(nodes[i].kind@)
}

/// `cs` are exactly the chunks of the chunk nodes of `nodes`, in order.
pub open spec fn chunks_of_nodes(cs: Seq<CodeChunk>, path: Seq<char>, nodes: Seq<SyntaxNode>) -> bool {
    let ps = chunk_positions(nodes, nodes.len() as int);
    &&& cs.len() == ps.len()
    &&& forall|q: int| 0 <= q < cs.len() ==> chunk_of_node(#[trigger] cs[q], path, nodes, ps[q])
}

/// `nodes` is the pre-order node list of a syntax tree of `content`: each
/// node's text is the source between its start and end bytes, its rows are
/// in order, and a node that is not inside an earlier node's subtree starts
/// after that node ends.
pub open spec fn syntax_wf(content: &str, nodes: Seq<SyntaxNode>) -> bool {
    &&& forall|i: int|
        0 <= i < nodes.len() ==> {
            &&& (#[trigger] nodes[i]).start_byte <= nodes[i].end_byte <= content.spec_bytes().len()
            &&& encode_utf8(nodes[i].text@) == content.spec_bytes().subrange(
                nodes[i].start_byte as int,
                nodes[i].end_byte as int,
            )
            &&& nodes[i].start_row <= nodes[i].end_row
        }
    &&& forall|j: int, i: int|
        0 <= j < i < nodes.len() && !in_subtree(nodes, j, i) ==> #[trigger] nodes[j].end_byte
            <= #[trigger] nodes[i].start_byte
}

/// Over a well-formed node list, chunks are pieces of the file in source
/// order that do not overlap, each spanning rows in order.
pub open spec fn chunks_in_order(cs: Seq<CodeChunk>, content: &str, nodes: Seq<SyntaxNode>) -> bool {
    let ps = chunk_positions(nodes, nodes.len() as int);
    &&& forall|q: int|
        0 <= q < cs.len() ==> {
            &&& (#[trigger] cs[q]).start_line <= cs[q].end_line
            &&& encode_utf8(cs[q].content@) == content.spec_bytes().subrange(
                nodes[ps[q]].start_byte as int,
                nodes[ps[q]].end_byte as int,
            )
        }
    &&& forall|q: int, r: int|
        0 <= q < r < cs.len() ==> #[trigger] nodes[ps[q]].end_byte <= #[trigger] nodes[ps[r]].start_byte
}

/// The chunk positions are chunk nodes, in strictly increasing order.
pub proof fn lemma_chunk_positions(nodes: Seq<SyntaxNode>, n: int)
    requires
        0 <= n <= nodes.len(),
    ensures
        chunk_positions(nodes, n).len() <= n,
        forall|q: int|
            0 <= q < chunk_positions(nodes, n).len() ==> 0 <= #[trigger] chunk_positions(nodes, n)[q] < n
                && is_chunk_node(nodes, chunk_positions(nodes, n)[q]),
        forall|q: int, r: int|
            0 <= q < r < chunk_positions(nodes, n).len() ==> #[trigger] chunk_positions(nodes, n)[q]
                < #[trigger] chunk_positions(nodes, n)[r],
    decreases n,
{
    if n > 0 {
        lemma_chunk_positions(nodes, n - 1);
    }
}

/// Chunks taken from a well-formed node list are in source order and
/// disjoint.
pub proof fn lemma_chunks_in_order(cs: Seq<CodeChunk>, path: Seq<char>, content: &str, nodes: Seq<SyntaxNode>)
    requires
        syntax_wf(content, nodes),
        chunks_of_nodes(cs, path, nodes),
    ensures
        chunks_in_order(cs, content, nodes),
{
    let ps = chunk_positions(nodes, nodes.len() as int);
    lemma_chunk_positions(nodes, nodes.len() as int);
    assert forall|q: int| 0 <= q < cs.len() implies (#[trigger] cs[q]).start_line <= cs[q].end_line
        && encode_utf8(cs[q].content@) == content.spec_bytes().subrange(
        nodes[ps[q]].start_byte as int,
        nodes[ps[q]].end_byte as int,
    ) by {
        assert(chunk_of_node(cs[q], path, nodes, ps[q]));
        assert(0 <= ps[q] < nodes.len());
    }
    assert forall|q: int, r: int| 0 <= q < r < cs.len() implies #[trigger] nodes[ps[q]].end_byte
        <= #[trigger] nodes[ps[r]].start_byte by {
        assert(ps[q] < ps[r]);
        assert(is_chunk_node(nodes, ps[r]));
        assert(is_chunk_node(nodes, ps[q]));
        assert(defines_symbol(nodes, ps[q]));
        assert(!in_subtree(nodes, ps[q], ps[r]));
    }
}

/// `c` is the single chunk covering the whole file.
pub open spec fn whole_file_chunk(c: CodeChunk, path: Seq<char>, content: Seq<char>) -> bool {
    &&& c.file_path@ == path
    &&& c.content@ == content
    &&& c.start_line == 0
    &&& c.end_line == last_line_index(content)
    &&& c.symbol_name is None
    &&& c.symbol_kind == SymbolKind::Other
}

fn identify_symbol(kind: &str) -> (r: Option<SymbolKind>)
    ensures
        r == symbol_for_kind(kind@),
{
    if str_eq(kind, "function_definition") || str_eq(kind, "function_item") || str_eq(
        kind,
        "function_declaration",
    ) || str_eq(kind, "method_definition") {
        Some(SymbolKind::Function)
    } else if str_eq(kind, "class_definition") || str_eq(kind, "class_declaration") || str_eq(
        kind,
        "impl_item",
    ) {
        Some(SymbolKind::Class)
    } else if str_eq(kind, "method_declaration") || str_eq(kind, "method_item") {
        Some(SymbolKind::Method)
    } else if str_eq(kind, "interface_declaration") {
        Some(SymbolKind::Interface)
    } else if str_eq(kind, "struct_item") || str_eq(kind, "struct_declaration") {
        Some(SymbolKind::Struct)
    } else if str_eq(kind, "module") {
        Some(SymbolKind::Module)
    } else {
        None
    }
}

fn extract_symbol_name(nodes: &Vec<SyntaxNode>, i: usize) -> (r: Option<String>)
    requires
        i < nodes.len(),
    ensures
        opt_view(r) == symbol_name_of(nodes@, i as int),
{
    let d = nodes[i].depth;
    let mut c: usize = i + 1;
    while c < nodes.len() && nodes[c].depth > d
        invariant
            i < c <= nodes.len(),
            d == nodes@[i as int].depth,
            name_child_from(nodes@, i as int, i + 1) == name_child_from(nodes@, i as int, c as int),
        decreases nodes.len() - c,
    {
        let node = &nodes[c];
        if node.depth == d + 1 && (str_contains(node.kind.as_str(), "identifier") || str_contains(
            node.kind.as_str(),
            "name",
        )) {
            return Some(node.text.clone());
        }
        c = c + 1;
    }
    None
}


/// Some node after `j` and before `i` is not deeper than `j`, so the
/// subtree of `j` ended before `i`.
pub open spec fn subtree_closed(nodes: Seq<SyntaxNode>, j: int, i: int) -> bool {
    exists|k: int| j < k < i && #[trigger] nodes[k].depth <= nodes[j].depth
}

impl Default for CodeParser {
    fn default() -> (r: CodeParser)
        ensures
            r == (CodeParser {  }),
    {
        CodeParser::new()
    }
}

/// Chunks of the syntax-tree nodes of a file, in pre-order: each node that
/// defines a symbol becomes one chunk and its subtree is not searched further.
pub fn extract_chunks(file_path: &str, nodes: &Vec<SyntaxNode>) -> (chunks: Vec<CodeChunk>)
    ensures
        chunks_of_nodes(chunks@, file_path@, nodes@),
{
    let mut chunks: Vec<CodeChunk> = Vec::new();
    let mut skip: Option<usize> = None;
    let ghost mut e: int = 0;
    let mut i: usize = 0;
    while i < nodes.len()
        invariant
            i <= nodes.len(),
            chunks@.len() == chunk_positions(nodes@, i as int).len(),
            forall|q: int|
                0 <= q < chunks@.len() ==> chunk_of_node(
                    #[trigger] chunks@[q],
                    file_path@,
                    nodes@,
                    chunk_positions(nodes@, i as int)[q],
                ),
            skip is None ==> forall|j: int|
                0 <= j < i && #[trigger] defines_symbol(nodes@, j) ==> subtree_closed(
                    nodes@,
                    j,
                    i as int,
                ),
            skip matches Some(d) ==> {
                &&& 0 <= e < i
                &&& defines_symbol(nodes@, e)
                &&& nodes@[e].depth == d
                &&& forall|k: int| e < k < i ==> #[trigger] nodes@[k].depth > d
                &&& forall|j: int|
                    0 <= j < i && #[trigger] defines_symbol(nodes@, j) ==> subtree_closed(
                        nodes@,
                        j,
                        i as int,
                    ) || j == e || nodes@[j].depth > d
            },
        decreases nodes.len() - i,
    {
        let ghost ii = i as int;
        let ghost prev = chunk_positions(nodes@, ii);
        let depth = nodes[i].depth;
        let inside = match skip {
            Some(d) => depth > d,
            None => false,
        };
        if inside {
            proof {
                assert(in_subtree(nodes@, e, ii));
                assert(!is_chunk_node(nodes@, ii));
                assert(chunk_positions(nodes@, ii + 1) == prev);
                assert forall|j: int|
                    0 <= j < ii + 1 && #[trigger] defines_symbol(nodes@, j) implies subtree_closed(
                    nodes@,
                    j,
                    ii + 1,
                ) || j == e || nodes@[j].depth > nodes@[e].depth by {
                    if j < ii && subtree_closed(nodes@, j, ii) {
                        let k = choose|k: int| j < k < ii && #[trigger] nodes@[k].depth <= nodes@[j].depth;
                        assert(j < k < ii + 1 && nodes@[k].depth <= nodes@[j].depth);
                    }
                }
            }
        } else {
            proof {
                assert forall|j: int| #[trigger] defines_symbol(nodes@, j) implies !in_subtree(
                    nodes@,
                    j,
                    ii,
                ) by {
                    if 0 <= j < ii {
                        if subtree_closed(nodes@, j, ii) {
                            let k = choose|k: int| j < k < ii && #[trigger] nodes@[k].depth <= nodes@[j].depth;
                            assert(!(nodes@[k].depth > nodes@[j].depth));
                        } else {
                            assert(!(nodes@[ii].depth > nodes@[j].depth));
                        }
                    }
                }
                assert forall|j: int|
                    0 <= j < ii && #[trigger] defines_symbol(nodes@, j) implies subtree_closed(
                    nodes@,
                    j,
                    ii + 1,
                ) by {
                    assert(!in_subtree(nodes@, j, ii));
                    let k = choose|k: int| j < k <= ii && !(#[trigger] nodes@[k].depth > nodes@[j].depth);
                    assert(j < k < ii + 1 && nodes@[k].depth <= nodes@[j].depth);
                }
            }
            let symbol = if depth > 0 {
                identify_symbol(nodes[i].kind.as_str())
            } else {
                None
            };
            match symbol {
                Some(kind) => {
                    let name = extract_symbol_name(nodes, i);
                    let chunk = CodeChunk {
                        file_path: file_path.to_owned(),
                        content: nodes[i].text.clone(),
                        start_line: nodes[i].start_row,
                        end_line: nodes[i].end_row,
                        symbol_name: name,
                        symbol_kind: kind,
                    };
                    chunks.push(chunk);
                    skip = Some(depth);
                    proof {
                        e = ii;
                        assert(is_chunk_node(nodes@, ii));
                        assert(chunk_positions(nodes@, ii + 1) == prev.push(ii));
                    }
                },
                None => {
                    skip = None;
                    proof {
                        assert(!is_chunk_node(nodes@, ii));
                        assert(chunk_positions(nodes@, ii + 1) == prev);
                    }
                },
            }
        }
        i = i + 1;
    }
    chunks
}


/// The syntax grammars this parser knows.
#[derive(Debug, Clone, Copy, PartialEq, Eq, Structural)]
pub enum Grammar {
    Rust,
    Tsx,
    JavaScript,
    Python,
    Go,
    Cpp,
    Java,
    CSharp,
}

/// The grammar registered for a file extension.
pub open spec fn grammar_for_extension(e: Seq<char>) -> Option<Grammar> {
    if e == "rs"@ {
        Some(Grammar::Rust)
    } else if e == "ts"@ || e == "tsx"@ {
        Some(Grammar::Tsx)
    } else if e == "js"@ {
        Some(Grammar::JavaScript)
    } else if e == "py"@ {
        Some(Grammar::Python)
    } else if e == "go"@ {
        Some(Grammar::Go)
    } else if e == "cpp"@ || e == "cc"@ {
        Some(Grammar::Cpp)
    } else if e == "java"@ {
        Some(Grammar::Java)
    } else if e == "cs"@ {
        Some(Grammar::CSharp)
    } else {
        None
    }
}

/// The grammar for a file path, by its extension.
pub open spec fn grammar_for_path(p: Seq<char>) -> Option<Grammar> {
    grammar_for_extension(extension_of(p))
}

/// A file is chunked whole when no grammar is registered for it or its
/// syntax tree holds no symbol-defining node.
pub open spec fn falls_back(path: Seq<char>, nodes: Seq<SyntaxNode>) -> bool {
    grammar_for_path(path) is None || chunk_positions(nodes, nodes.len() as int).len() == 0
}

/// Splits source files into chunks along their syntax trees. Its grammar
/// table is fixed: Rust, TypeScript/TSX, JavaScript, Python, Go, C++, Java
/// and C#.
pub struct CodeParser {}

impl CodeParser {
    pub fn new() -> (r: CodeParser)
        ensures
            r == (CodeParser {  }),
    {
        CodeParser {  }
    }

    /// Content hash used for change detection: the lower-case hexadecimal
    /// SHA-256 digest of the text's UTF-8 bytes.
    pub fn hash_file(content: &str) -> (r: String)
        ensures
            r@ == content_hash(content),
            r@.len() == 64,
    {
        hash_text(content)
    }

    /// The grammar registered for the extension of `file_path`, if any.
    pub fn grammar_for(&self, file_path: &str) -> (r: Option<Grammar>)
        ensures
            r == grammar_for_path(file_path@),
    {
        let e = extension(file_path);
        if str_eq(e, "rs") {
            Some(Grammar::Rust)
        } else if str_eq(e, "ts") || str_eq(e, "tsx") {
            Some(Grammar::Tsx)
        } else if str_eq(e, "js") {
            Some(Grammar::JavaScript)
        } else if str_eq(e, "py") {
            Some(Grammar::Python)
        } else if str_eq(e, "go") {
            Some(Grammar::Go)
        } else if str_eq(e, "cpp") || str_eq(e, "cc") {
            Some(Grammar::Cpp)
        } else if str_eq(e, "java") {
            Some(Grammar::Java)
        } else if str_eq(e, "cs") {
            Some(Grammar::CSharp)
        } else {
            None
        }
    }

    /// Chunks a file given the pre-order node list of its syntax tree (as
    /// parsed with the grammar that `grammar_for` gives; ignored where there
    /// is none). Never empty: without grammar or symbols, the whole file is
    /// one chunk of kind `Other`.
    pub fn parse(&self, file_path: &str, content: &str, nodes: &Vec<SyntaxNode>) -> (r: Vec<
        CodeChunk,
    >)
        ensures
            r@.len() >= 1,
            falls_back(file_path@, nodes@) ==> r@.len() == 1 && whole_file_chunk(
                r@[0],
                file_path@,
                content@,
            ),
            !falls_back(file_path@, nodes@) ==> chunks_of_nodes(r@, file_path@, nodes@),
            !falls_back(file_path@, nodes@) && syntax_wf(content, nodes@) ==> chunks_in_order(
                r@,
                content,
                nodes@,
            ),
    {
        let mut chunks: Vec<CodeChunk> = Vec::new();
        if self.grammar_for(file_path).is_some() {
            chunks = extract_chunks(file_path, nodes);
            proof {
                if syntax_wf(content, nodes@) {
                    lemma_chunks_in_order(chunks@, file_path@, content, nodes@);
                }
            }
        }
        if chunks.len() == 0 {
            let whole = CodeChunk {
                file_path: file_path.to_owned(),
                content: content.to_owned(),
                start_line: 0,
                end_line: last_line(content),
                symbol_name: None,
                symbol_kind: SymbolKind::Other,
            };
            let mut one: Vec<CodeChunk> = Vec::new();
            one.push(whole);
            return one;
        }
        chunks
    }
}

} // verus!
