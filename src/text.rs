use vstd::prelude::*;

verus! {

/// `t` occurs in `s` at position `i`.
pub open spec fn occurs_at(s: Seq<char>, t: Seq<char>, i: int) -> bool {
    0 <= i && i + t.len() <= s.len() && s.subrange(i, i + t.len()) == t
}

/// `t` occurs somewhere in `s`.
pub open spec fn seq_contains(s: Seq<char>, t: Seq<char>) -> bool {
    exists|i: int| occurs_at(s, t, i)
}

/// Number of `'\n'` characters in `s`.
pub open spec fn newline_count(s: Seq<char>) -> nat
    decreases s.len(),
{
    if s.len() == 0 {
        0
    } else {
        newline_count(s.drop_last()) + if s.last() == '\n' { 1nat } else { 0nat }
    }
}

/// Number of lines of `s` in the sense of `str::lines`: a final line
/// terminator does not start another line.
pub open spec fn line_count(s: Seq<char>) -> nat {
    if s.len() == 0 {
        0
    } else if s.last() == '\n' {
        newline_count(s)
    } else {
        newline_count(s) + 1
    }
}

/// 0-based index of the last line of `s` (0 when `s` is empty).
pub open spec fn last_line_index(s: Seq<char>) -> nat {
    if line_count(s) == 0 {
        0
    } else {
        (line_count(s) - 1) as nat
    }
}

pub fn last_line(s: &str) -> (r: usize)
    ensures
        r == last_line_index(s@),
{
    let n = count_lines(s);
    if n == 0 {
        0
    } else {
        n - 1
    }
}

pub fn str_eq(a: &str, b: &str) -> (r: bool)
    ensures
        r == (a@ == b@),
{
    let n = a.unicode_len();
    let m = b.unicode_len();
    if n != m {
        return false;
    }
    let mut i: usize = 0;
    while i < n
        invariant
            n == a@.len(),
            m == b@.len(),
            n == m,
            i <= n,
            forall|k: int| 0 <= k < i ==> a@[k] == b@[k],
        decreases n - i,
    {
        if a.get_char(i) != b.get_char(i) {
            return false;
        }
        i = i + 1;
    }
    assert(a@ =~= b@);
    true
}

fn occurs_at_exec(s: &str, t: &str, i: usize, n: usize, m: usize) -> (r: bool)
    requires
        n == s@.len(),
        m == t@.len(),
        i + m <= n,
    ensures
        r == occurs_at(s@, t@, i as int),
{
    let mut k: usize = 0;
    while k < m
        invariant
            n == s@.len(),
            m == t@.len(),
            i + m <= n,
            k <= m,
            forall|j: int| 0 <= j < k ==> s@[i + j] == t@[j],
        decreases m - k,
    {
        if s.get_char(i + k) != t.get_char(k) {
            assert(s@.subrange(i as int, i + m)[k as int] != t@[k as int]);
            return false;
        }
        k = k + 1;
    }
    assert(s@.subrange(i as int, i + m) =~= t@);
    true
}

pub fn str_contains(s: &str, t: &str) -> (r: bool)
    ensures
        r == seq_contains(s@, t@),
{
    let n = s.unicode_len();
    let m = t.unicode_len();
    if m > n {
        return false;
    }
    if m == 0 {
        assert(s@.subrange(0, 0) =~= t@);
        assert(occurs_at(s@, t@, 0));
        return true;
    }
    let mut i: usize = 0;
    while i <= n - m
        invariant
            n == s@.len(),
            m == t@.len(),
            1 <= m <= n,
            i <= n - m + 1,
            forall|j: int| 0 <= j < i ==> !occurs_at(s@, t@, j),
        decreases (n - m) as int + 1 - i as int,
    {
        if occurs_at_exec(s, t, i, n, m) {
            return true;
        }
        i = i + 1;
    }
    false
}

proof fn lemma_newline_count_step(s: Seq<char>, c: char)
    ensures
        newline_count(s.push(c)) == newline_count(s) + if c == '\n' { 1nat } else { 0nat },
{
    assert(s.push(c).drop_last() =~= s);
}

/// Counts lines as `str::lines` does.
pub fn count_lines(s: &str) -> (r: usize)
    ensures
        r == line_count(s@),
{
    let total = s.unicode_len();
    let mut newlines: usize = 0;
    let mut last: Option<char> = None;
    let ghost mut seen: Seq<char> = Seq::empty();
    for c in it: s.chars()
        invariant
            it.seq() == s@,
            seen == s@.subrange(0, it.index() as int),
            newlines == newline_count(seen),
            newlines <= it.index(),
            it.index() <= s@.len(),
            total == s@.len(),
            last matches Some(x) && x != '\n' ==> newlines < it.index(),
            last == if seen.len() == 0 { None } else { Some(seen.last()) },
    {
        proof {
            lemma_newline_count_step(seen, c);
            assert(s@.subrange(0, it.index() + 1) =~= seen.push(c));
            seen = seen.push(c);
        }
        if c == '\n' {
            newlines = newlines + 1;
        }
        last = Some(c);
    }
    assert(seen =~= s@);
    match last {
        None => 0,
        Some(c) => if c == '\n' { newlines } else { newlines + 1 },
    }
}


/// Index of the last `c` in `s`, or -1.
pub open spec fn last_index_of(s: Seq<char>, c: char) -> int
    decreases s.len(),
{
    if s.len() == 0 {
        -1
    } else if s.last() == c {
        s.len() - 1
    } else {
        last_index_of(s.drop_last(), c)
    }
}

/// Extension of a file path as `Path::extension` gives it, or empty: the
/// text after the last dot, when that dot lies in the file name and does not
/// start it.
pub open spec fn extension_of(p: Seq<char>) -> Seq<char> {
    let slash = last_index_of(p, '/');
    let dot = last_index_of(p, '.');
    if dot > slash + 1 {
        p.subrange(dot + 1, p.len() as int)
    } else {
        Seq::empty()
    }
}

proof fn lemma_last_index_step(s: Seq<char>, c: char, x: char)
    ensures
        last_index_of(s.push(c), x) == if c == x { s.len() as int } else { last_index_of(s, x) },
{
    assert(s.push(c).drop_last() =~= s);
}

pub fn extension(p: &str) -> (r: &str)
    ensures
        r@ == extension_of(p@),
{
    let total = p.unicode_len();
    let mut slash: Option<usize> = None;
    let mut dot: Option<usize> = None;
    let mut idx: usize = 0;
    let ghost mut seen: Seq<char> = Seq::empty();
    for c in it: p.chars()
        invariant
            it.seq() == p@,
            total == p@.len(),
            idx == it.index(),
            idx <= total,
            seen == p@.subrange(0, idx as int),
            match slash {
                None => last_index_of(seen, '/') == -1,
                Some(k) => last_index_of(seen, '/') == k && k < idx,
            },
            match dot {
                None => last_index_of(seen, '.') == -1,
                Some(k) => last_index_of(seen, '.') == k && k < idx,
            },
    {
        proof {
            lemma_last_index_step(seen, c, '/');
            lemma_last_index_step(seen, c, '.');
            assert(p@.subrange(0, idx + 1) =~= seen.push(c));
            seen = seen.push(c);
        }
        if c == '/' {
            slash = Some(idx);
        }
        if c == '.' {
            dot = Some(idx);
        }
        idx = idx + 1;
    }
    assert(seen =~= p@);
    match dot {
        None => {
            let r = p.substring_char(0, 0);
            assert(r@ =~= Seq::<char>::empty());
            r
        },
        Some(d) => {
            let after_slash = match slash {
                None => true,
                Some(sl) => d > sl + 1,
            };
            if after_slash && d > 0 {
                p.substring_char(d + 1, total)
            } else {
                let r = p.substring_char(0, 0);
                assert(r@ =~= Seq::<char>::empty());
                r
            }
        },
    }
}


/// Path `p` lies at or under path `r`, comparing whole components as
/// `Path::starts_with` does: `r` is a prefix of `p` that ends at a separator
/// of `p` (or at its end).
pub open spec fn path_within(p: Seq<char>, r: Seq<char>) -> bool {
    &&& r.len() <= p.len()
    &&& p.subrange(0, r.len() as int) == r
    &&& (r.len() == p.len() || r.len() == 0 || r.last() == '/' || p[r.len() as int] == '/')
}

pub fn is_within(p: &str, r: &str) -> (b: bool)
    ensures
        b == path_within(p@, r@),
{
    let n = p.unicode_len();
    let m = r.unicode_len();
    if m > n {
        return false;
    }
    let mut k: usize = 0;
    while k < m
        invariant
            n == p@.len(),
            m == r@.len(),
            m <= n,
            k <= m,
            forall|j: int| 0 <= j < k ==> p@[j] == r@[j],
        decreases m - k,
    {
        if p.get_char(k) != r.get_char(k) {
            assert(p@.subrange(0, m as int)[k as int] != r@[k as int]);
            return false;
        }
        k = k + 1;
    }
    assert(p@.subrange(0, m as int) =~= r@);
    m == n || m == 0 || r.get_char(m - 1) == '/' || p.get_char(m) == '/'
}


/// The decimal digit character of a value below 10.
pub open spec fn digit_char(d: nat) -> char {
    ((d + 48) as u8) as char
}

/// Decimal text of a number, without leading zeros ("0" for zero).
pub open spec fn decimal_of(n: nat) -> Seq<char>
    decreases n,
{
    if n < 10 {
        seq![digit_char(n)]
    } else {
        decimal_of(n / 10).push(digit_char(n % 10))
    }
}

pub fn decimal(n: usize) -> (r: String)
    ensures
        r@ == decimal_of(n as nat),
    decreases n,
{
    let digits = "0123456789";
    proof {
        reveal_strlit("0123456789");
    }
    let d = n % 10;
    let one = digits.substring_char(d, d + 1);
    assert(one@ =~= seq![digit_char(d as nat)]);
    if n < 10 {
        one.to_owned()
    } else {
        let mut r = decimal(n / 10);
        r.append(one);
        assert(r@ =~= decimal_of((n / 10) as nat).push(digit_char((n % 10) as nat)));
        r
    }
}

} // verus!
