//! Character-level helpers shared by the scanner and the engine.
use vstd::prelude::*;

verus! {

/// Unicode `White_Space`: the characters for which `char::is_whitespace` holds.
pub open spec fn is_ws(c: char) -> bool {
    let v = c as u32;
    (0x9 <= v && v <= 0xd) || v == 0x20 || v == 0x85 || v == 0xa0 || v == 0x1680 || (0x2000
        <= v && v <= 0x200a) || v == 0x2028 || v == 0x2029 || v == 0x202f || v == 0x205f || v
        == 0x3000
}

/// `s` without its trailing whitespace (`str::trim_end`).
pub open spec fn trim_end(s: Seq<char>) -> Seq<char>
    decreases s.len(),
{
    if s.len() > 0 && is_ws(s.last()) {
        trim_end(s.drop_last())
    } else {
        s
    }
}

/// `s` without its leading whitespace (`str::trim_start`).
pub open spec fn trim_start(s: Seq<char>) -> Seq<char>
    decreases s.len(),
{
    if s.len() > 0 && is_ws(s[0]) {
        trim_start(s.drop_first())
    } else {
        s
    }
}

/// `s` without leading and trailing whitespace (`str::trim`).
pub open spec fn trim(s: Seq<char>) -> Seq<char> {
    trim_start(trim_end(s))
}

pub open spec fn starts_with(s: Seq<char>, p: Seq<char>) -> bool {
    p.len() <= s.len() && s.subrange(0, p.len() as int) == p
}

/// A non-empty marker `m` occurs in `s` at position `i`.
pub open spec fn matches_at(s: Seq<char>, i: int, m: Seq<char>) -> bool {
    &&& m.len() > 0
    &&& 0 <= i
    &&& i + m.len() <= s.len()
    &&& s.subrange(i, i + m.len()) == m
}

/// Number of non-overlapping occurrences of `m` in `s[i..]`, taken from the
/// left (what `str::matches(..).count()` gives).
pub open spec fn count_from(s: Seq<char>, m: Seq<char>, i: int) -> nat
    decreases s.len() - i,
{
    if m.len() == 0 || i < 0 || i + m.len() > s.len() {
        0
    } else if matches_at(s, i, m) {
        1 + count_from(s, m, i + m.len())
    } else {
        count_from(s, m, i + 1)
    }
}

pub open spec fn count_occurrences(s: Seq<char>, m: Seq<char>) -> nat {
    count_from(s, m, 0)
}

/// Number of non-overlapping occurrences of `m` in `s`.
pub fn count_occurrences_exec(s: &Vec<char>, m: &Vec<char>) -> (r: usize)
    ensures
        r == count_occurrences(s@, m@),
{
    if m.len() == 0 {
        return 0;
    }
    let mut i: usize = 0;
    let mut n: usize = 0;
    while i <= s.len() && m.len() <= s.len() - i
        invariant
            m.len() > 0,
            i <= s.len(),
            n <= i,
            count_occurrences(s@, m@) == n + count_from(s@, m@, i as int),
        decreases s.len() - i,
    {
        if matches_at_exec(s, i, m) {
            n = n + 1;
            i = i + m.len();
        } else {
            i = i + 1;
        }
    }
    n
}

pub fn is_whitespace_char(c: char) -> (r: bool)
    ensures
        r == is_ws(c),
{
    let v = c as u32;
    (0x9 <= v && v <= 0xd) || v == 0x20 || v == 0x85 || v == 0xa0 || v == 0x1680 || (0x2000
        <= v && v <= 0x200a) || v == 0x2028 || v == 0x2029 || v == 0x202f || v == 0x205f || v
        == 0x3000
}

/// Length of `s` once its trailing whitespace is cut off.
pub fn trim_end_len(s: &Vec<char>) -> (k: usize)
    ensures
        k <= s.len(),
        trim_end(s@) == s@.subrange(0, k as int),
{
    let mut k: usize = s.len();
    assert(s@.subrange(0, k as int) =~= s@);
    while k > 0 && is_whitespace_char(s[k - 1])
        invariant
            k <= s.len(),
            trim_end(s@) == trim_end(s@.subrange(0, k as int)),
        decreases k,
    {
        assert(s@.subrange(0, k as int).drop_last() =~= s@.subrange(0, k - 1));
        k = k - 1;
    }
    k
}

/// Start of what `trim_start` keeps of `s[..end]`.
pub fn trim_start_index(s: &Vec<char>, end: usize) -> (j: usize)
    requires
        end <= s.len(),
    ensures
        j <= end,
        trim_start(s@.subrange(0, end as int)) == s@.subrange(j as int, end as int),
{
    let mut j: usize = 0;
    assert(s@.subrange(0, end as int) =~= s@.subrange(j as int, end as int));
    while j < end && is_whitespace_char(s[j])
        invariant
            j <= end <= s.len(),
            trim_start(s@.subrange(0, end as int)) == trim_start(
                s@.subrange(j as int, end as int),
            ),
        decreases end - j,
    {
        assert(s@.subrange(j as int, end as int).drop_first() =~= s@.subrange(
            j + 1,
            end as int,
        ));
        j = j + 1;
    }
    j
}

/// Whether `m` occurs in `s` at position `i`.
pub fn matches_at_exec(s: &Vec<char>, i: usize, m: &Vec<char>) -> (r: bool)
    ensures
        r == matches_at(s@, i as int, m@),
{
    if m.len() == 0 || i > s.len() || m.len() > s.len() - i {
        return false;
    }
    let mut k: usize = 0;
    while k < m.len()
        invariant
            i + m.len() <= s.len(),
            k <= m.len(),
            forall|t: int| 0 <= t < k ==> s@[i + t] == m@[t],
        decreases m.len() - k,
    {
        if s[i + k] != m[k] {
            assert(s@.subrange(i as int, i + m.len())[k as int] != m@[k as int]);
            return false;
        }
        k = k + 1;
    }
    assert(s@.subrange(i as int, i + m.len()) =~= m@);
    true
}

/// Whether `p` is a prefix of `s[from..to]`.
pub fn starts_with_at(s: &Vec<char>, from: usize, to: usize, p: &Vec<char>) -> (r: bool)
    requires
        from <= to <= s.len(),
    ensures
        r == starts_with(s@.subrange(from as int, to as int), p@),
{
    if p.len() > to - from {
        return false;
    }
    let mut k: usize = 0;
    while k < p.len()
        invariant
            from + p.len() <= to <= s.len(),
            k <= p.len(),
            forall|t: int| 0 <= t < k ==> s@[from + t] == p@[t],
        decreases p.len() - k,
    {
        if s[from + k] != p[k] {
            assert(s@.subrange(from as int, to as int).subrange(0, p.len() as int)[k as int]
                != p@[k as int]);
            return false;
        }
        k = k + 1;
    }
    assert(s@.subrange(from as int, to as int).subrange(0, p.len() as int) =~= p@);
    true
}

/// Whether the strings `a` and `b` hold the same characters.
pub fn str_eq(a: &str, b: &str) -> (r: bool)
    ensures
        r == (a@ == b@),
{
    let x = chars_of(a);
    let y = chars_of(b);
    if x.len() != y.len() {
        return false;
    }
    let mut k: usize = 0;
    while k < x.len()
        invariant
            x@ == a@,
            y@ == b@,
            x.len() == y.len(),
            k <= x.len(),
            forall|t: int| 0 <= t < k ==> x@[t] == y@[t],
        decreases x.len() - k,
    {
        if x[k] != y[k] {
            assert(x@[k as int] != y@[k as int]);
            return false;
        }
        k = k + 1;
    }
    assert(x@ =~= y@);
    true
}

/// The characters of `s`, in order.
pub fn chars_of(s: &str) -> (r: Vec<char>)
    ensures
        r@ == s@,
{
    let mut r: Vec<char> = Vec::new();
    for c in it: s.chars()
        invariant
            it.seq() == s@,
            r.len() == it.index(),
            forall|k: int| 0 <= k < r.len() ==> r@[k] == it.seq()[k],
    {
        r.push(c);
    }
    assert(r@ =~= s@);
    r
}

/// Relies on `String::push`: it appends one character.
pub assume_specification[ String::push ](s: &mut String, ch: char)
    ensures
        final(s)@ == old(s)@.push(ch),
;

/// The characters `v[from..to]`.
pub fn chars_range(v: &Vec<char>, from: usize, to: usize) -> (r: Vec<char>)
    requires
        from <= to <= v.len(),
    ensures
        r@ == v@.subrange(from as int, to as int),
{
    let mut r: Vec<char> = Vec::new();
    let mut i: usize = from;
    while i < to
        invariant
            from <= i <= to <= v.len(),
            r@ == v@.subrange(from as int, i as int),
        decreases to - i,
    {
        r.push(v[i]);
        i = i + 1;
        assert(r@ =~= v@.subrange(from as int, i as int));
    }
    r
}

/// The string made of the characters `v[from..to]`.
pub fn string_of_range(v: &Vec<char>, from: usize, to: usize) -> (r: String)
    requires
        from <= to <= v.len(),
    ensures
        r@ == v@.subrange(from as int, to as int),
{
    let mut r = String::new();
    let mut i: usize = from;
    while i < to
        invariant
            from <= i <= to <= v.len(),
            r@ == v@.subrange(from as int, i as int),
        decreases to - i,
    {
        r.push(v[i]);
        i = i + 1;
        assert(r@ =~= v@.subrange(from as int, i as int));
    }
    r
}

/// The string made of the characters of `v`.
pub fn string_of(v: &Vec<char>) -> (r: String)
    ensures
        r@ == v@,
{
    let r = string_of_range(v, 0, v.len());
    assert(v@.subrange(0, v.len() as int) =~= v@);
    r
}

} // verus!
