//! Byte-level text helpers: ASCII case folding, whitespace trimming, prefix
//! tests, byte search, and line splitting. Names, descriptor contents and
//! paths are held as byte sequences throughout the engine.

use vstd::prelude::*;

verus! {

/// ASCII lower-casing of a single byte; other bytes are unchanged.
pub open spec fn to_lower(b: u8) -> u8 {
    if 'A' as u8 <= b && b <= 'Z' as u8 {
        (b + 32) as u8
    } else {
        b
    }
}

/// Two byte sequences are equal up to ASCII case.
pub open spec fn eq_ignore_ascii_case(a: Seq<u8>, b: Seq<u8>) -> bool {
    a.len() == b.len() && forall|i: int| 0 <= i < a.len() ==> to_lower(a[i]) == to_lower(b[i])
}

/// ASCII whitespace, the set that trimming removes: space and the control
/// characters tab through carriage return.
pub open spec fn is_ws(b: u8) -> bool {
    b == 32 || (9 <= b && b <= 13)
}

/// The sequence with its leading whitespace removed.
pub open spec fn trim_start_spec(s: Seq<u8>) -> Seq<u8>
    decreases s.len(),
{
    if s.len() > 0 && is_ws(s[0]) {
        trim_start_spec(s.drop_first())
    } else {
        s
    }
}

/// The sequence with its trailing whitespace removed.
pub open spec fn trim_end_spec(s: Seq<u8>) -> Seq<u8>
    decreases s.len(),
{
    if s.len() > 0 && is_ws(s.last()) {
        trim_end_spec(s.drop_last())
    } else {
        s
    }
}

/// The sequence with whitespace removed from both ends; internal whitespace
/// is kept.
pub open spec fn trim_spec(s: Seq<u8>) -> Seq<u8> {
    trim_end_spec(trim_start_spec(s))
}

/// `s` begins with the prefix `p`.
pub open spec fn starts_with(s: Seq<u8>, p: Seq<u8>) -> bool {
    p.len() <= s.len() && s.subrange(0, p.len() as int) == p
}

/// The least index at or after `from` holding the byte `b`, or `s.len()`
/// if no position at or after `from` holds it.
pub open spec fn first_index_from(s: Seq<u8>, b: u8, from: int) -> int
    decreases s.len() - from,
{
    if from < 0 || from >= s.len() {
        s.len() as int
    } else if s[from] == b {
        from
    } else {
        first_index_from(s, b, from + 1)
    }
}

/// `first_index_from` stays within bounds, lands on `b` unless it reaches the
/// end, and skips no earlier occurrence.
pub proof fn lemma_first_index_from(s: Seq<u8>, b: u8, from: int)
    requires
        0 <= from <= s.len(),
    ensures
        from <= first_index_from(s, b, from) <= s.len(),
        first_index_from(s, b, from) < s.len() ==> s[first_index_from(s, b, from)] == b,
        forall|j: int| from <= j < first_index_from(s, b, from) ==> s[j] != b,
    decreases s.len() - from,
{
    if from < s.len() && s[from] != b {
        lemma_first_index_from(s, b, from + 1);
    }
}

/// A line with a trailing carriage return removed, as reading a text file
/// line by line does.
pub open spec fn strip_cr(line: Seq<u8>) -> Seq<u8> {
    if line.len() > 0 && line.last() == 13 {
        line.drop_last()
    } else {
        line
    }
}

/// The lines of `s` from position `pos` on: maximal runs between newline
/// bytes, each with a trailing carriage return removed. Text after the last
/// newline forms a final line only if it is nonempty.
pub open spec fn lines_from(s: Seq<u8>, pos: int) -> Seq<Seq<u8>>
    decreases s.len() - pos,
    via lines_from_decreases
{
    if pos < 0 || pos >= s.len() {
        Seq::empty()
    } else {
        let k = first_index_from(s, 10, pos);
        if k >= s.len() {
            seq![strip_cr(s.subrange(pos, s.len() as int))]
        } else {
            seq![strip_cr(s.subrange(pos, k))] + lines_from(s, k + 1)
        }
    }
}

#[via_fn]
proof fn lines_from_decreases(s: Seq<u8>, pos: int) {
    if 0 <= pos < s.len() {
        lemma_first_index_from(s, 10, pos);
    }
}

/// The lines of a whole text, in order.
pub open spec fn split_lines_spec(s: Seq<u8>) -> Seq<Seq<u8>> {
    lines_from(s, 0)
}

/// The views of a sequence of byte vectors.
pub open spec fn line_views(v: Seq<Vec<u8>>) -> Seq<Seq<u8>> {
    Seq::new(v.len(), |i: int| v[i]@)
}

/// ASCII lower-casing of a single byte.
pub fn lower_byte(b: u8) -> (r: u8)
    ensures
        r == to_lower(b),
{
    if 'A' as u8 <= b && b <= 'Z' as u8 {
        b + 32
    } else {
        b
    }
}

/// Whether `b` is ASCII whitespace.
pub fn is_ws_byte(b: u8) -> (r: bool)
    ensures
        r == is_ws(b),
{
    b == 32 || (9 <= b && b <= 13)
}

/// Case-insensitive comparison of two byte strings.
pub fn bytes_eq_ignore_ascii_case(a: &[u8], b: &[u8]) -> (r: bool)
    ensures
        r == eq_ignore_ascii_case(a@, b@),
{
    if a.len() != b.len() {
        return false;
    }
    let mut i: usize = 0;
    while i < a.len()
        invariant
            a@.len() == b@.len(),
            i <= a@.len(),
            forall|j: int| 0 <= j < i ==> to_lower(a@[j]) == to_lower(b@[j]),
        decreases a@.len() - i,
    {
        if lower_byte(a[i]) != lower_byte(b[i]) {
            return false;
        }
        i = i + 1;
    }
    true
}

/// Whether the byte string `s` begins with the prefix `p`.
pub fn bytes_starts_with(s: &[u8], p: &[u8]) -> (r: bool)
    ensures
        r == starts_with(s@, p@),
{
    if p.len() > s.len() {
        return false;
    }
    let mut i: usize = 0;
    while i < p.len()
        invariant
            p@.len() <= s@.len(),
            i <= p@.len(),
            forall|j: int| 0 <= j < i ==> s@[j] == p@[j],
        decreases p@.len() - i,
    {
        if s[i] != p[i] {
            assert(s@.subrange(0, p@.len() as int)[i as int] != p@[i as int]);
            return false;
        }
        i = i + 1;
    }
    assert(s@.subrange(0, p@.len() as int) =~= p@);
    true
}

/// The least index at or after `from` holding `b`, or the length if absent.
pub fn find_byte_from(s: &[u8], b: u8, from: usize) -> (r: usize)
    requires
        from <= s@.len(),
    ensures
        r == first_index_from(s@, b, from as int),
{
    let mut i: usize = from;
    while i < s.len()
        invariant
            from <= i <= s@.len(),
            forall|j: int| from <= j < i ==> s@[j] != b,
        decreases s@.len() - i,
    {
        if s[i] == b {
            proof {
                lemma_first_index_from(s@, b, from as int);
            }
            return i;
        }
        i = i + 1;
    }
    proof {
        lemma_first_index_from(s@, b, from as int);
    }
    i
}

/// Append all bytes of `s` to `out`.
pub fn push_bytes(out: &mut Vec<u8>, s: &[u8])
    ensures
        final(out)@ == old(out)@ + s@,
{
    let mut i: usize = 0;
    while i < s.len()
        invariant
            i <= s@.len(),
            out@ == old(out)@ + s@.subrange(0, i as int),
        decreases s@.len() - i,
    {
        out.push(s[i]);
        assert(out@ =~= old(out)@ + s@.subrange(0, i as int + 1));
        i = i + 1;
    }
    assert(out@ =~= old(out)@ + s@);
}

/// A copy of a byte vector.
pub fn clone_bytes(v: &Vec<u8>) -> (r: Vec<u8>)
    ensures
        r@ == v@,
{
    let mut r: Vec<u8> = Vec::new();
    push_bytes(&mut r, v.as_slice());
    assert(r@ =~= v@);
    r
}

/// A copy of the bytes of `s` between `i` (inclusive) and `j` (exclusive).
pub fn sub_vec(s: &[u8], i: usize, j: usize) -> (r: Vec<u8>)
    requires
        i <= j <= s@.len(),
    ensures
        r@ == s@.subrange(i as int, j as int),
{
    let sl = vstd::slice::slice_subrange(s, i, j);
    vstd::slice::slice_to_vec(sl)
}

/// Removing leading whitespace is the same as cutting at the first
/// non-whitespace position.
proof fn lemma_trim_start_subrange(s: Seq<u8>, lo: int)
    requires
        0 <= lo <= s.len(),
        forall|j: int| 0 <= j < lo ==> is_ws(s[j]),
        lo == s.len() || !is_ws(s[lo]),
    ensures
        trim_start_spec(s) == s.subrange(lo, s.len() as int),
    decreases lo,
{
    if lo == 0 {
        assert(s.subrange(0, s.len() as int) =~= s);
    } else {
        let t = s.drop_first();
        lemma_trim_start_subrange(t, lo - 1);
        assert(t.subrange(lo - 1, t.len() as int) =~= s.subrange(lo, s.len() as int));
    }
}

/// Removing trailing whitespace is the same as cutting at the last
/// non-whitespace position.
proof fn lemma_trim_end_subrange(s: Seq<u8>, hi: int)
    requires
        0 <= hi <= s.len(),
        forall|j: int| hi <= j < s.len() ==> is_ws(s[j]),
        hi == 0 || !is_ws(s[hi - 1]),
    ensures
        trim_end_spec(s) == s.subrange(0, hi),
    decreases s.len(),
{
    if hi == s.len() {
        assert(s.subrange(0, s.len() as int) =~= s);
    } else {
        assert(is_ws(s.last()));
        let t = s.drop_last();
        lemma_trim_end_subrange(t, hi);
        assert(t.subrange(0, hi) =~= s.subrange(0, hi));
    }
}

/// A copy of `s` with ASCII whitespace removed from both ends.
pub fn trim_bytes(s: &[u8]) -> (r: Vec<u8>)
    ensures
        r@ == trim_spec(s@),
{
    let n = s.len();
    let mut lo: usize = 0;
    while lo < n && is_ws_byte(s[lo])
        invariant
            n == s@.len(),
            lo <= n,
            forall|j: int| 0 <= j < lo ==> is_ws(s@[j]),
        decreases n - lo,
    {
        lo = lo + 1;
    }
    let mut hi: usize = n;
    while hi > lo && is_ws_byte(s[hi - 1])
        invariant
            n == s@.len(),
            lo <= hi <= n,
            forall|j: int| hi <= j < n ==> is_ws(s@[j]),
        decreases hi,
    {
        hi = hi - 1;
    }
    proof {
        lemma_trim_start_subrange(s@, lo as int);
        let t = s@.subrange(lo as int, n as int);
        lemma_trim_end_subrange(t, hi - lo);
        assert(t.subrange(0, hi - lo) =~= s@.subrange(lo as int, hi as int));
    }
    sub_vec(s, lo, hi)
}

/// The lines of `content`, split at newline bytes, each line losing a
/// trailing carriage return; text after the last newline forms a final line
/// only if nonempty.
pub fn split_lines(content: &[u8]) -> (r: Vec<Vec<u8>>)
    ensures
        line_views(r@) == split_lines_spec(content@),
{
    let n = content.len();
    let mut lines: Vec<Vec<u8>> = Vec::new();
    let mut pos: usize = 0;
    while pos < n
        invariant
            n == content@.len(),
            split_lines_spec(content@) == line_views(lines@) + lines_from(content@, pos as int),
        decreases n - pos,
    {
        let j = find_byte_from(content, 10, pos);
        proof {
            lemma_first_index_from(content@, 10, pos as int);
        }
        let mut line = sub_vec(content, pos, j);
        if line.len() > 0 && line[line.len() - 1] == 13 {
            line.pop();
        }
        assert(line@ == strip_cr(content@.subrange(pos as int, j as int)));
        let ghost old_lines = lines@;
        lines.push(line);
        assert(line_views(lines@) =~~= line_views(old_lines) + seq![line@]);
        if j == n {
            pos = n;
            assert(lines_from(content@, j as int) =~~= Seq::<Seq<u8>>::empty());
            assert(line_views(lines@) + lines_from(content@, pos as int) =~~= split_lines_spec(
                content@,
            ));
        } else {
            pos = j + 1;
            assert(line_views(lines@) + lines_from(content@, pos as int) =~~= split_lines_spec(
                content@,
            ));
        }
    }
    assert(line_views(lines@) =~~= line_views(lines@) + lines_from(content@, pos as int));
    lines
}

} // verus!
