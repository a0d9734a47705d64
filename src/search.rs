use crate::text::str_eq;
use vstd::prelude::*;
use vstd::string::StringSliceAdditionalSpecFns;
use vstd::utf8::is_char_boundary;

verus! {

/// The first at most `max_len` bytes of `s`, cut back to a character
/// boundary so that no character is split.
pub fn truncate(s: &str, max_len: usize) -> (r: &str)
    ensures
        s.spec_bytes().len() <= max_len ==> r.spec_bytes() == s.spec_bytes(),
        s.spec_bytes().len() > max_len ==> exists|k: int|
            {
                &&& 0 <= k <= max_len
                &&& is_char_boundary(s.spec_bytes(), k)
                &&& forall|j: int| k < j <= max_len ==> !is_char_boundary(s.spec_bytes(), j)
                &&& r.spec_bytes() == s.spec_bytes().subrange(0, k)
            },
{
    proof {
        vstd::utf8::encode_utf8_valid_utf8(s@);
    }
    let n = s.as_bytes().len();
    if n <= max_len {
        return s;
    }
    let mut k: usize = max_len;
    while k > 0 && !s.is_char_boundary(k)
        invariant
            k <= max_len < s.spec_bytes().len(),
            vstd::utf8::valid_utf8(s.spec_bytes()),
            forall|j: int| k < j <= max_len ==> !is_char_boundary(s.spec_bytes(), j),
        decreases k,
    {
        k = k - 1;
    }

    assert(is_char_boundary(s.spec_bytes(), k as int));
    let (head, _) = s.split_at(k);
    assert(head.spec_bytes() == s.spec_bytes().subrange(0, k as int));
    head
}


/// Maps the bit pattern of a non-NaN `f32` score to an integer whose order
/// is the order of the scores: negative scores have their bits inverted,
/// others their sign bit set.
pub fn order_key(bits: u32) -> (r: u32)
    ensures
        r == if bits & 0x8000_0000u32 != 0 { !bits } else { bits | 0x8000_0000u32 },
{
    if bits & 0x8000_0000u32 != 0 {
        !bits
    } else {
        bits | 0x8000_0000u32
    }
}

/// One result of a per-project search: its score's order key, the index
/// of its project among those searched and its rank within that project.
#[derive(Debug, Clone, Copy, PartialEq, Eq, Structural)]
pub struct Hit {
    pub score: u32,
    pub project: usize,
    pub rank: usize,
}

/// `h` is a result of the per-project searches `lists` (a failed search is
/// `None` and contributes nothing).
pub open spec fn is_hit(lists: Seq<Option<Vec<u32>>>, h: Hit) -> bool {
    &&& h.project < lists.len()
    &&& match lists[h.project as int] {
        Some(l) => h.rank < l@.len() && h.score == l@[h.rank as int],
        None => false,
    }
}

/// Number of results over all successful searches.
pub open spec fn hit_count(lists: Seq<Option<Vec<u32>>>) -> nat
    decreases lists.len(),
{
    if lists.len() == 0 {
        0
    } else {
        hit_count(lists.drop_last()) + match lists.last() {
            Some(l) => l@.len(),
            None => 0,
        }
    }
}

pub open spec fn min_nat(a: nat, b: nat) -> nat {
    if a <= b {
        a
    } else {
        b
    }
}

/// `h` comes before position (`p`, `k`) in the order the lists are read.
pub open spec fn read_before(h: Hit, p: int, k: int) -> bool {
    h.project < p || (h.project == p && h.rank < k)
}

/// Inserts `h` after every element of at least its score, keeping the
/// vector ordered by descending score.
fn insert_by_score(sorted: &mut Vec<Hit>, h: Hit)
    requires
        forall|a: int, b: int| 0 <= a < b < old(sorted)@.len() ==> old(sorted)@[a].score >= old(sorted)@[b].score,
        !old(sorted)@.contains(h),
        forall|a: int, b: int| 0 <= a < b < old(sorted)@.len() ==> old(sorted)@[a] != old(sorted)@[b],
    ensures
        forall|a: int, b: int| 0 <= a < b < final(sorted)@.len() ==> final(sorted)@[a] != final(sorted)@[b],
        final(sorted)@.len() == old(sorted)@.len() + 1,
        final(sorted)@.contains(h),
        forall|x: Hit| old(sorted)@.contains(x) ==> #[trigger] final(sorted)@.contains(x),
        forall|m: int| 0 <= m < final(sorted)@.len() ==> #[trigger] final(sorted)@[m] == h || old(sorted)@.contains(final(sorted)@[m]),
        forall|a: int, b: int| 0 <= a < b < final(sorted)@.len() ==> final(sorted)@[a].score >= final(sorted)@[b].score,
{
    let mut pos: usize = 0;
    while pos < sorted.len() && sorted[pos].score >= h.score
        invariant
            pos <= sorted@.len(),
            forall|m: int| 0 <= m < pos ==> (#[trigger] sorted@[m]).score >= h.score,
        decreases sorted.len() - pos,
    {
        pos = pos + 1;
    }
    let ghost s0 = sorted@;
    proof {
        assert forall|m: int| pos <= m < s0.len() implies (#[trigger] s0[m]).score < h.score by {
            assert(s0[pos as int].score < h.score);
        }
    }
    sorted.insert(pos, h);
    proof {
        assert(sorted@ =~= s0.insert(pos as int, h));
        assert(sorted@[pos as int] == h);
        assert forall|x: Hit| s0.contains(x) implies #[trigger] sorted@.contains(x) by {
            let w = choose|w: int| 0 <= w < s0.len() && s0[w] == x;
            if w < pos {
                assert(sorted@[w] == x);
            } else {
                assert(sorted@[w + 1] == x);
            }
        }
        assert forall|m: int| 0 <= m < sorted@.len() implies #[trigger] sorted@[m] == h || s0.contains(sorted@[m]) by {
            if m < pos {
                assert(sorted@[m] == s0[m]);
            } else if m > pos {
                assert(sorted@[m] == s0[m - 1]);
            }
        }
        assert forall|a: int, b: int| 0 <= a < b < sorted@.len() implies sorted@[a] != sorted@[b] by {
            if a == pos {
                assert(sorted@[b] == s0[b - 1]);
            } else if b == pos {
                assert(sorted@[a] == s0[a]);
            } else {
                let a0 = if a < pos { a } else { a - 1 };
                let b0 = if b < pos { b } else { b - 1 };
                assert(sorted@[a] == s0[a0] && sorted@[b] == s0[b0]);
            }
        }
        assert forall|a: int, b: int| 0 <= a < b < sorted@.len() implies sorted@[a].score >= sorted@[b].score by {
            if b < pos {
            } else if b == pos {
            } else if a < pos {
                assert(sorted@[b] == s0[b - 1]);
            } else if a == pos {
                assert(sorted@[b] == s0[b - 1]);
            } else {
                assert(sorted@[a] == s0[a - 1] && sorted@[b] == s0[b - 1]);
            }
        }
    }
}

/// Merges per-project results: all results of the successful searches,
/// best score first, cut to `limit`. Results of equal score keep the
/// order in which they were listed.
pub fn merge_ranked(lists: &Vec<Option<Vec<u32>>>, limit: usize) -> (r: Vec<Hit>)
    ensures
        r@.len() == min_nat(limit as nat, hit_count(lists@)),
        forall|i: int| 0 <= i < r@.len() ==> is_hit(lists@, #[trigger] r@[i]),
        forall|i: int, j: int|
            0 <= i < j < r@.len() ==> r@[i].project != r@[j].project || r@[i].rank != r@[j].rank,
        forall|i: int, j: int| 0 <= i < j < r@.len() ==> r@[i].score >= r@[j].score,
        forall|h: Hit|
            #[trigger] is_hit(lists@, h) && !r@.contains(h) ==> forall|i: int|
                0 <= i < r@.len() ==> h.score <= r@[i].score,
{
    let mut sorted: Vec<Hit> = Vec::new();
    let mut p: usize = 0;
    while p < lists.len()
        invariant
            p <= lists@.len(),
            sorted@.len() == hit_count(lists@.subrange(0, p as int)),
            forall|k: int| 0 <= k < sorted@.len() ==> is_hit(lists@, #[trigger] sorted@[k]) && read_before(sorted@[k], p as int, 0),
            forall|h: Hit| #[trigger] is_hit(lists@, h) && read_before(h, p as int, 0) ==> sorted@.contains(h),
            forall|a: int, b: int| 0 <= a < b < sorted@.len() ==> sorted@[a].score >= sorted@[b].score,
            forall|a: int, b: int|
                0 <= a < b < sorted@.len() ==> sorted@[a].project != sorted@[b].project || sorted@[a].rank
                    != sorted@[b].rank,
        decreases lists.len() - p,
    {
        proof {
            assert(lists@.subrange(0, p + 1).drop_last() =~= lists@.subrange(0, p as int));
        }
        match &lists[p] {
            None => {
                proof {
                    assert forall|h: Hit| #[trigger] is_hit(lists@, h) && read_before(h, p + 1, 0) implies sorted@.contains(h) by {
                        assert(read_before(h, p as int, 0));
                    }
                }
            },
            Some(l) => {
                let mut k: usize = 0;
                while k < l.len()
                    invariant
                        p < lists@.len(),
                        lists@[p as int] == Some(*l),
                        k <= l@.len(),
                        sorted@.len() == hit_count(lists@.subrange(0, p as int)) + k,
                        forall|m: int| 0 <= m < sorted@.len() ==> is_hit(lists@, #[trigger] sorted@[m]) && read_before(sorted@[m], p as int, k as int),
                        forall|h: Hit| #[trigger] is_hit(lists@, h) && read_before(h, p as int, k as int) ==> sorted@.contains(h),
                        forall|a: int, b: int| 0 <= a < b < sorted@.len() ==> sorted@[a].score >= sorted@[b].score,
                        forall|a: int, b: int|
                            0 <= a < b < sorted@.len() ==> sorted@[a].project != sorted@[b].project
                                || sorted@[a].rank != sorted@[b].rank,
                    decreases l.len() - k,
                {
                    let h = Hit { score: l[k], project: p, rank: k };
                    let ghost s0 = sorted@;
                    proof {
                        if s0.contains(h) {
                            let w = choose|w: int| 0 <= w < s0.len() && s0[w] == h;
                            assert(read_before(s0[w], p as int, k as int));
                        }
                    }
                    proof {
                        assert forall|a: int, b: int| 0 <= a < b < s0.len() implies s0[a] != s0[b] by {
                            assert(s0[a].project != s0[b].project || s0[a].rank != s0[b].rank);
                        }
                    }
                    insert_by_score(&mut sorted, h);
                    proof {
                        assert forall|x: Hit| #[trigger] is_hit(lists@, x) && read_before(x, p as int, k + 1) implies sorted@.contains(x) by {
                            if x != h {
                                assert(read_before(x, p as int, k as int));
                                assert(s0.contains(x));
                            }
                        }
                        assert forall|m: int| 0 <= m < sorted@.len() implies is_hit(lists@, #[trigger] sorted@[m]) && read_before(sorted@[m], p as int, k + 1) by {
                            if sorted@[m] != h {
                                assert(s0.contains(sorted@[m]));
                                let w = choose|w: int| 0 <= w < s0.len() && s0[w] == sorted@[m];
                                assert(is_hit(lists@, s0[w]));
                            }
                        }
                        assert forall|a: int, b: int|
                            0 <= a < b < sorted@.len() implies sorted@[a].project != sorted@[b].project
                                || sorted@[a].rank != sorted@[b].rank by {
                            if sorted@[a] != h && sorted@[b] != h {
                                assert(s0.contains(sorted@[a]));
                                assert(s0.contains(sorted@[b]));
                                let wa = choose|w: int| 0 <= w < s0.len() && s0[w] == sorted@[a];
                                let wb = choose|w: int| 0 <= w < s0.len() && s0[w] == sorted@[b];
                                if wa < wb {
                                    assert(s0[wa].project != s0[wb].project || s0[wa].rank != s0[wb].rank);
                                } else {
                                    assert(s0[wb].project != s0[wa].project || s0[wb].rank != s0[wa].rank);
                                }
                            } else if sorted@[a] == h && sorted@[b] != h {
                                assert(s0.contains(sorted@[b]));
                                let w = choose|w: int| 0 <= w < s0.len() && s0[w] == sorted@[b];
                                assert(read_before(s0[w], p as int, k as int));
                            } else if sorted@[a] != h && sorted@[b] == h {
                                assert(s0.contains(sorted@[a]));
                                let w = choose|w: int| 0 <= w < s0.len() && s0[w] == sorted@[a];
                                assert(read_before(s0[w], p as int, k as int));
                            }
                        }
                    }
                    k = k + 1;
                }
                proof {
                    assert forall|h: Hit| #[trigger] is_hit(lists@, h) && read_before(h, p + 1, 0) implies sorted@.contains(h) by {
                        if h.project < p {
                            assert(read_before(h, p as int, 0));
                        } else {
                            assert(read_before(h, p as int, l@.len() as int));
                        }
                    }
                    assert forall|m: int| 0 <= m < sorted@.len() implies is_hit(lists@, #[trigger] sorted@[m]) && read_before(sorted@[m], p + 1, 0) by {
                        assert(read_before(sorted@[m], p as int, l@.len() as int));
                    }
                }
            },
        }
        p = p + 1;
    }
    proof {
        assert(lists@.subrange(0, lists@.len() as int) =~= lists@);
    }
    let ghost full = sorted@;
    if sorted.len() > limit {
        sorted.truncate(limit);
    }
    proof {
        assert(sorted@ =~= full.subrange(0, sorted@.len() as int));
        assert forall|h: Hit| #[trigger] is_hit(lists@, h) && !sorted@.contains(h) implies forall|i: int|
            0 <= i < sorted@.len() ==> h.score <= sorted@[i].score by {
            assert(read_before(h, lists@.len() as int, 0));
            assert(full.contains(h));
            let m = choose|m: int| 0 <= m < full.len() && full[m] == h;
            if m < sorted@.len() {
                assert(sorted@[m] == h);
            }
            assert forall|i: int| 0 <= i < sorted@.len() implies h.score <= sorted@[i].score by {
                assert(full[i].score >= full[m].score);
            }
        }
    }
    sorted
}


/// A path argument that stands for every project: "all", or a path whose
/// last component is "all".
pub open spec fn names_all(p: Seq<char>) -> bool {
    p == "all"@ || (p.len() >= 4 && p.subrange(p.len() - 4, p.len() as int) == "/all"@)
}

pub fn is_all_path(path: &str) -> (r: bool)
    ensures
        r == names_all(path@),
{
    if str_eq(path, "all") {
        return true;
    }
    let n = path.unicode_len();
    if n < 4 {
        return false;
    }
    str_eq(path.substring_char(n - 4, n), "/all")
}

/// What a search runs over, decided once from the request.
pub enum SearchTarget {
    SingleProject(String),
    AllProjects,
}

pub fn search_target(path: &str, cross_project: bool) -> (r: SearchTarget)
    ensures
        r is AllProjects <==> (cross_project || names_all(path@)),
        r matches SearchTarget::SingleProject(p) ==> p@ == path@,
{
    if cross_project || is_all_path(path) {
        SearchTarget::AllProjects
    } else {
        SearchTarget::SingleProject(path.to_owned())
    }
}

} // verus!
