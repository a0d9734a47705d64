use crate::text::{seq_contains, str_contains, str_eq};
use vstd::prelude::*;

verus! {

/// Vector width of an Ollama embedding model, by its name.
pub open spec fn ollama_dimension_of(model: Seq<char>) -> usize {
    if seq_contains(model, "nomic"@) {
        768
    } else if seq_contains(model, "mxbai"@) {
        1024
    } else if seq_contains(model, "all-minilm"@) {
        384
    } else {
        768
    }
}

pub fn ollama_dimension(model: &str) -> (r: usize)
    ensures
        r == ollama_dimension_of(model@),
{
    if str_contains(model, "nomic") {
        768
    } else if str_contains(model, "mxbai") {
        1024
    } else if str_contains(model, "all-minilm") {
        384
    } else {
        768
    }
}

/// Vector width of an OpenAI embedding model, by its name.
pub open spec fn openai_dimension_of(model: Seq<char>) -> usize {
    if model == "text-embedding-3-large"@ {
        3072
    } else {
        1536
    }
}

pub fn openai_dimension(model: &str) -> (r: usize)
    ensures
        r == openai_dimension_of(model@),
{
    if str_eq(model, "text-embedding-3-large") {
        3072
    } else {
        1536
    }
}

/// Number of trailing '/' characters of `s`.
pub open spec fn trailing_slashes(s: Seq<char>) -> nat
    decreases s.len(),
{
    if s.len() > 0 && s.last() == '/' {
        trailing_slashes(s.drop_last()) + 1
    } else {
        0
    }
}

/// `s` without its trailing '/' characters (a service address as joined
/// with request paths).
pub fn trim_trailing_slashes(s: &str) -> (r: &str)
    ensures
        r@ == s@.subrange(0, s@.len() - trailing_slashes(s@)),
{
    let mut n = s.unicode_len();
    assert(s@.subrange(0, n as int) =~= s@);
    while n > 0 && s.get_char(n - 1) == '/'
        invariant
            n <= s@.len(),
            trailing_slashes(s@) == trailing_slashes(s@.subrange(0, n as int)) + (s@.len() - n),
        decreases n,
    {
        assert(s@.subrange(0, n - 1) =~= s@.subrange(0, n as int).drop_last());
        n = n - 1;
    }
    proof {
        if n > 0 {
            assert(s@.subrange(0, n as int).last() != '/');
        }
    }
    s.substring_char(0, n)
}

/// A path that holds ".." anywhere but at its very start is refused as a
/// traversal attempt.
pub open spec fn suspicious_path(p: Seq<char>) -> bool {
    seq_contains(p, ".."@) && !(p.len() >= 2 && p[0] == '.' && p[1] == '.')
}

pub fn is_suspicious_path(p: &str) -> (r: bool)
    ensures
        r == suspicious_path(p@),
{
    let starts = p.unicode_len() >= 2 && p.get_char(0) == '.' && p.get_char(1) == '.';
    str_contains(p, "..") && !starts
}

} // verus!
