//! Byte-level text primitives: whitespace trimming, substring search, and
//! small copy/compare helpers that the parsing and substitution modules build on.

use vstd::prelude::*;

verus! {

/// True of the whitespace characters encoded in one byte: tab, line feed,
/// vertical tab, form feed, carriage return, space.
pub open spec fn is_space(b: u8) -> bool {
    b == 32 || (9 <= b && b <= 13)
}

/// Executable test for a one-byte whitespace character.
pub fn byte_is_space(b: u8) -> (r: bool)
    ensures
        r == is_space(b),
{
    b == 32 || (9 <= b && b <= 13)
}

/// True of the UTF-8 encodings of the two-byte Unicode whitespace
/// characters: next line and no-break space.
pub open spec fn is_two_byte_space(b0: u8, b1: u8) -> bool {
    b0 == 0xC2 && (b1 == 0x85 || b1 == 0xA0)
}

fn two_byte_space(b0: u8, b1: u8) -> (r: bool)
    ensures
        r == is_two_byte_space(b0, b1),
{
    b0 == 0xC2 && (b1 == 0x85 || b1 == 0xA0)
}

/// True of the UTF-8 encodings of the three-byte Unicode whitespace
/// characters: the ogham space mark, the en-quad to hair-space range, line
/// and paragraph separators, the narrow no-break, medium mathematical and
/// ideographic spaces.
pub open spec fn is_three_byte_space(b0: u8, b1: u8, b2: u8) -> bool {
    (b0 == 0xE1 && b1 == 0x9A && b2 == 0x80) || (b0 == 0xE2 && b1 == 0x80 && ((0x80 <= b2 && b2
        <= 0x8A) || b2 == 0xA8 || b2 == 0xA9 || b2 == 0xAF)) || (b0 == 0xE2 && b1 == 0x81 && b2
        == 0x9F) || (b0 == 0xE3 && b1 == 0x80 && b2 == 0x80)
}

fn three_byte_space(b0: u8, b1: u8, b2: u8) -> (r: bool)
    ensures
        r == is_three_byte_space(b0, b1, b2),
{
    (b0 == 0xE1 && b1 == 0x9A && b2 == 0x80) || (b0 == 0xE2 && b1 == 0x80 && ((0x80 <= b2 && b2
        <= 0x8A) || b2 == 0xA8 || b2 == 0xA9 || b2 == 0xAF)) || (b0 == 0xE2 && b1 == 0x81 && b2
        == 0x9F) || (b0 == 0xE3 && b1 == 0x80 && b2 == 0x80)
}

/// The byte length of the whitespace character that `s` starts with — 1, 2
/// or 3 — or 0 when `s` does not start with whitespace.
pub open spec fn ws_prefix_len(s: Seq<u8>) -> int {
    if s.len() >= 1 && is_space(s[0]) {
        1
    } else if s.len() >= 2 && is_two_byte_space(s[0], s[1]) {
        2
    } else if s.len() >= 3 && is_three_byte_space(s[0], s[1], s[2]) {
        3
    } else {
        0
    }
}

/// The byte length of the whitespace character that `s` ends with, or 0.
pub open spec fn ws_suffix_len(s: Seq<u8>) -> int {
    if s.len() >= 3 && is_three_byte_space(s[s.len() - 3], s[s.len() - 2], s[s.len() - 1]) {
        3
    } else if s.len() >= 2 && is_two_byte_space(s[s.len() - 2], s[s.len() - 1]) {
        2
    } else if s.len() >= 1 && is_space(s[s.len() - 1]) {
        1
    } else {
        0
    }
}

/// `s` with its leading whitespace characters removed.
pub open spec fn trim_start_spec(s: Seq<u8>) -> Seq<u8>
    decreases s.len(),
{
    let k = ws_prefix_len(s);
    if k > 0 {
        trim_start_spec(s.subrange(k, s.len() as int))
    } else {
        s
    }
}

/// `s` with its trailing whitespace characters removed.
pub open spec fn trim_end_spec(s: Seq<u8>) -> Seq<u8>
    decreases s.len(),
{
    let k = ws_suffix_len(s);
    if k > 0 {
        trim_end_spec(s.subrange(0, s.len() - k))
    } else {
        s
    }
}

/// `s` with leading and trailing whitespace removed.
pub open spec fn trim_spec(s: Seq<u8>) -> Seq<u8> {
    trim_end_spec(trim_start_spec(s))
}

/// The length of the whitespace character at the start of `s[lo .. hi]`.
fn ws_len_at(s: &Vec<u8>, lo: usize, hi: usize) -> (k: usize)
    requires
        lo <= hi <= s@.len(),
    ensures
        k == ws_prefix_len(s@.subrange(lo as int, hi as int)),
{
    proof {
        assert(hi <= s.len());
    }
    if hi - lo >= 1 && byte_is_space(s[lo]) {
        1
    } else if hi - lo >= 2 && two_byte_space(s[lo], s[lo + 1]) {
        2
    } else if hi - lo >= 3 && three_byte_space(s[lo], s[lo + 1], s[lo + 2]) {
        3
    } else {
        0
    }
}

/// The length of the whitespace character at the end of `s[lo .. hi]`.
fn ws_len_at_end(s: &Vec<u8>, lo: usize, hi: usize) -> (k: usize)
    requires
        lo <= hi <= s@.len(),
    ensures
        k == ws_suffix_len(s@.subrange(lo as int, hi as int)),
{
    proof {
        assert(hi <= s.len());
    }
    if hi - lo >= 3 && three_byte_space(s[hi - 3], s[hi - 2], s[hi - 1]) {
        3
    } else if hi - lo >= 2 && two_byte_space(s[hi - 2], s[hi - 1]) {
        2
    } else if hi - lo >= 1 && byte_is_space(s[hi - 1]) {
        1
    } else {
        0
    }
}

/// Copies the bytes of `s` in positions `from .. to` into a fresh vector.
pub fn copy_range(s: &Vec<u8>, from: usize, to: usize) -> (r: Vec<u8>)
    requires
        from <= to <= s@.len(),
    ensures
        r@ == s@.subrange(from as int, to as int),
{
    let mut r: Vec<u8> = Vec::new();
    let mut j: usize = from;
    while j < to
        invariant
            from <= j <= to <= s@.len(),
            r@ == s@.subrange(from as int, j as int),
        decreases to - j,
    {
        r.push(s[j]);
        proof {
            assert(s@.subrange(from as int, j as int).push(s@[j as int]) =~= s@.subrange(
                from as int,
                j + 1,
            ));
        }
        j = j + 1;
    }
    r
}

/// Appends the bytes of `src` in positions `from .. to` onto `out`.
pub fn append_range(out: &mut Vec<u8>, src: &Vec<u8>, from: usize, to: usize)
    requires
        from <= to <= src@.len(),
    ensures
        final(out)@ == old(out)@ + src@.subrange(from as int, to as int),
{
    let mut j: usize = from;
    while j < to
        invariant
            from <= j <= to <= src@.len(),
            out@ == old(out)@ + src@.subrange(from as int, j as int),
        decreases to - j,
    {
        out.push(src[j]);
        proof {
            assert((old(out)@ + src@.subrange(from as int, j as int)).push(src@[j as int]) =~= old(
                out,
            )@ + src@.subrange(from as int, j + 1));
        }
        j = j + 1;
    }
    proof {
        assert(out@ =~= old(out)@ + src@.subrange(from as int, to as int));
    }
}

/// True if the bytes of `a` equal the bytes of `b`.
pub fn bytes_eq(a: &Vec<u8>, b: &Vec<u8>) -> (r: bool)
    ensures
        r == (a@ == b@),
{
    if a.len() != b.len() {
        return false;
    }
    let mut j: usize = 0;
    while j < a.len()
        invariant
            0 <= j <= a@.len(),
            a@.len() == b@.len(),
            forall|x: int| 0 <= x < j ==> a@[x] == b@[x],
        decreases a@.len() - j,
    {
        if a[j] != b[j] {
            return false;
        }
        j = j + 1;
    }
    proof {
        assert(a@ =~= b@);
    }
    true
}

/// Removes leading and trailing whitespace, returning a fresh vector.
pub fn trim(s: &Vec<u8>) -> (r: Vec<u8>)
    ensures
        r@ == trim_spec(s@),
{
    let n = s.len();
    proof {
        assert(s@.subrange(0, n as int) =~= s@);
    }
    let mut lo: usize = 0;
    let mut step = ws_len_at(s, lo, n);
    while step > 0
        invariant
            0 <= lo <= n,
            n == s@.len(),
            step == ws_prefix_len(s@.subrange(lo as int, n as int)),
            lo + step <= n,
            trim_start_spec(s@) == trim_start_spec(s@.subrange(lo as int, n as int)),
        decreases n - lo,
    {
        proof {
            assert(s@.subrange(lo as int, n as int).subrange(step as int, n - lo) =~= s@.subrange(
                lo + step,
                n as int,
            ));
        }
        lo = lo + step;
        step = ws_len_at(s, lo, n);
    }
    let mut hi: usize = n;
    let mut step_end = ws_len_at_end(s, lo, hi);
    while step_end > 0
        invariant
            lo <= hi <= n,
            n == s@.len(),
            step_end == ws_suffix_len(s@.subrange(lo as int, hi as int)),
            step_end <= hi - lo,
            trim_end_spec(s@.subrange(lo as int, n as int)) == trim_end_spec(
                s@.subrange(lo as int, hi as int),
            ),
        decreases hi,
    {
        proof {
            assert(s@.subrange(lo as int, hi as int).subrange(0, hi - lo - step_end)
                =~= s@.subrange(lo as int, hi - step_end));
        }
        hi = hi - step_end;
        step_end = ws_len_at_end(s, lo, hi);
    }
    let r = copy_range(s, lo, hi);
    r
}

/// A copy of the pattern `p` occurs in `s` at position `i`.
pub open spec fn is_match_at(s: Seq<u8>, p: Seq<u8>, i: int) -> bool {
    0 <= i && i + p.len() <= s.len() && s.subrange(i, i + p.len() as int) == p
}

/// The position of the first occurrence of `p` in `s` at or after `i`,
/// or `None` if there is none.
pub open spec fn find_from(s: Seq<u8>, p: Seq<u8>, i: int) -> Option<int>
    decreases s.len() - i,
    when 0 <= i
{
    if i + p.len() > s.len() {
        None
    } else if p.len() == 0 {
        Some(i)
    } else if s.subrange(i, i + p.len() as int) == p {
        Some(i)
    } else {
        find_from(s, p, i + 1)
    }
}

/// The position of the first occurrence of `p` in `s`, or `None`.
pub open spec fn spec_find(s: Seq<u8>, p: Seq<u8>) -> Option<int> {
    find_from(s, p, 0)
}

/// `find_from` returns the first match position at or after `i`:
/// a returned position is a match with no earlier match, and `None`
/// means no position at or after `i` matches.
pub proof fn lemma_find_from(s: Seq<u8>, p: Seq<u8>, i: int)
    requires
        0 <= i,
    ensures
        match find_from(s, p, i) {
            Some(j) => i <= j && is_match_at(s, p, j) && (forall|k: int|
                i <= k < j ==> !is_match_at(s, p, k)),
            None => forall|k: int| i <= k ==> !is_match_at(s, p, k),
        },
    decreases s.len() - i,
{
    if i + p.len() > s.len() {
        assert forall|k: int| i <= k implies !is_match_at(s, p, k) by {
            assert(k + p.len() > s.len());
        }
    } else if p.len() == 0 {
        assert(s.subrange(i, i) =~= p);
    } else if s.subrange(i, i + p.len() as int) == p {
    } else {
        lemma_find_from(s, p, i + 1);
    }
}

/// Executable test whether `p` occurs in `s` at position `i`.
pub fn match_at(s: &Vec<u8>, p: &Vec<u8>, i: usize) -> (r: bool)
    requires
        i + p@.len() <= s@.len(),
    ensures
        r == is_match_at(s@, p@, i as int),
{
    let mut j: usize = 0;
    while j < p.len()
        invariant
            i + p@.len() <= s.len(),
            0 <= j <= p@.len(),
            forall|x: int| 0 <= x < j ==> s@[i + x] == p@[x],
        decreases p@.len() - j,
    {
        if s[i + j] != p[j] {
            proof {
                assert(s@.subrange(i as int, i + p@.len())[j as int] == s@[i + j]);
            }
            return false;
        }
        j = j + 1;
    }
    proof {
        assert(s@.subrange(i as int, i + p@.len()) =~= p@);
    }
    true
}

/// Finds the first occurrence of `p` in `s`.
pub fn find(s: &Vec<u8>, p: &Vec<u8>) -> (r: Option<usize>)
    ensures
        match r {
            Some(i) => spec_find(s@, p@) == Some(i as int),
            None => spec_find(s@, p@) is None,
        },
{
    if p.len() == 0 {
        return Some(0);
    }
    if s.len() < p.len() {
        return None;
    }
    let mut i: usize = 0;
    while i <= s.len() - p.len()
        invariant
            1 <= p@.len() <= s@.len(),
            0 <= i <= s@.len() - p@.len() + 1,
            find_from(s@, p@, 0) == find_from(s@, p@, i as int),
        decreases s@.len() - i,
    {
        if match_at(s, p, i) {
            return Some(i);
        }
        proof {
            assert(find_from(s@, p@, i as int) == find_from(s@, p@, i + 1));
        }
        i = i + 1;
    }
    None
}

/// The position of the last occurrence of the byte `b` in `s`, or `None`.
pub open spec fn find_last(s: Seq<u8>, b: u8) -> Option<int>
    decreases s.len(),
{
    if s.len() == 0 {
        None
    } else if s[s.len() - 1] == b {
        Some(s.len() - 1)
    } else {
        find_last(s.drop_last(), b)
    }
}

/// `find_last` returns the last position holding `b`, if any.
pub proof fn lemma_find_last(s: Seq<u8>, b: u8)
    ensures
        match find_last(s, b) {
            Some(j) => 0 <= j < s.len() && s[j] == b && (forall|k: int|
                j < k < s.len() ==> s[k] != b),
            None => forall|k: int| 0 <= k < s.len() ==> s[k] != b,
        },
    decreases s.len(),
{
    if s.len() == 0 {
    } else if s[s.len() - 1] == b {
    } else {
        let d = s.drop_last();
        lemma_find_last(d, b);
        match find_last(d, b) {
            Some(j) => {
                assert(s[j] == d[j]);
                assert forall|k: int| j < k < s.len() implies s[k] != b by {
                    if k < s.len() - 1 {
                        assert(s[k] == d[k]);
                    }
                }
            },
            None => {
                assert forall|k: int| 0 <= k < s.len() implies s[k] != b by {
                    if k < s.len() - 1 {
                        assert(s[k] == d[k]);
                    }
                }
            },
        }
    }
}

/// Finds the last occurrence of the byte `b` in `s`.
pub fn rfind_byte(s: &Vec<u8>, b: u8) -> (r: Option<usize>)
    ensures
        match r {
            Some(i) => find_last(s@, b) == Some(i as int),
            None => find_last(s@, b) is None,
        },
{
    let mut j: usize = s.len();
    proof {
        assert(s@.subrange(0, s@.len() as int) =~= s@);
    }
    while j > 0
        invariant
            0 <= j <= s@.len(),
            find_last(s@, b) == find_last(s@.subrange(0, j as int), b),
        decreases j,
    {
        proof {
            assert(s@.subrange(0, j as int).drop_last() =~= s@.subrange(0, j - 1));
        }
        if s[j - 1] == b {
            return Some(j - 1);
        }
        j = j - 1;
    }
    None
}

} // verus!
