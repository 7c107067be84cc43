//! Byte-level text helpers for the output of the version-control tool:
//! whitespace trimming, delimiter search, and line splitting.

use vstd::prelude::*;

verus! {

/// ASCII whitespace, the only padding the version-control tool puts around
/// single-value outputs such as a commit hash.
pub open spec fn is_ascii_space(b: u8) -> bool {
    b == 0x20 || b == 0x09 || b == 0x0a || b == 0x0b || b == 0x0c || b == 0x0d
}

/// Index of the first occurrence of `d` in `s` at or after `i`, or `s.len()`
/// if there is none.
pub open spec fn find_from(s: Seq<u8>, d: u8, i: int) -> int
    decreases s.len() - i,
{
    if i < 0 || i >= s.len() {
        s.len() as int
    } else if s[i] == d {
        i
    } else {
        find_from(s, d, i + 1)
    }
}

pub proof fn lemma_find_from(s: Seq<u8>, d: u8, i: int)
    requires
        0 <= i <= s.len(),
    ensures
        i <= find_from(s, d, i) <= s.len(),
        find_from(s, d, i) < s.len() ==> s[find_from(s, d, i)] == d,
        forall|j: int| i <= j < find_from(s, d, i) ==> s[j] != d,
    decreases s.len() - i,
{
    if i < s.len() && s[i] != d {
        lemma_find_from(s, d, i + 1);
    }
}

/// Index of the first byte of `s` at or after `i` that is not ASCII
/// whitespace, or `s.len()` if all of them are.
pub open spec fn first_non_space(s: Seq<u8>, i: int) -> int
    decreases s.len() - i,
{
    if i < 0 || i >= s.len() {
        s.len() as int
    } else if is_ascii_space(s[i]) {
        first_non_space(s, i + 1)
    } else {
        i
    }
}

/// One past the last byte of `s.take(j)` that is not ASCII whitespace, or 0
/// if all of them are.
pub open spec fn end_non_space(s: Seq<u8>, j: int) -> int
    decreases j,
{
    if j <= 0 || j > s.len() {
        0
    } else if is_ascii_space(s[j - 1]) {
        end_non_space(s, j - 1)
    } else {
        j
    }
}

pub proof fn lemma_end_non_space(s: Seq<u8>, j: int)
    requires
        0 <= j <= s.len(),
    ensures
        0 <= end_non_space(s, j) <= j,
    decreases j,
{
    if j > 0 && is_ascii_space(s[j - 1]) {
        lemma_end_non_space(s, j - 1);
    }
}

/// The contents of `s` with ASCII whitespace removed from both ends.
pub open spec fn trim_spec(s: Seq<u8>) -> Seq<u8> {
    let a = first_non_space(s, 0);
    let b = end_non_space(s, s.len() as int);
    if a < b {
        s.subrange(a, b)
    } else {
        Seq::<u8>::empty()
    }
}

/// A line with one trailing carriage return removed, as the standard
/// line iterator does.
pub open spec fn strip_cr(l: Seq<u8>) -> Seq<u8> {
    if l.len() > 0 && l.last() == 0x0d {
        l.drop_last()
    } else {
        l
    }
}

/// The lines of `s`: newline-separated, a trailing empty segment dropped,
/// each line stripped of one trailing carriage return.
pub open spec fn lines_from(s: Seq<u8>, i: int) -> Seq<Seq<u8>>
    decreases s.len() - i,
{
    if i < 0 || i >= s.len() {
        Seq::empty()
    } else {
        let k = find_from(s, 0x0a, i);
        if k >= s.len() {
            seq![strip_cr(s.subrange(i, s.len() as int))]
        } else {
            // `find_from` never looks backwards, so the bound only guides
            // the termination check
            let j = if k < i { i + 1 } else { k + 1 };
            seq![strip_cr(s.subrange(i, k))] + lines_from(s, j)
        }
    }
}

pub open spec fn lines_of(s: Seq<u8>) -> Seq<Seq<u8>> {
    lines_from(s, 0)
}

fn is_space_byte(b: u8) -> (r: bool)
    ensures
        r == is_ascii_space(b),
{
    b == 0x20 || b == 0x09 || b == 0x0a || b == 0x0b || b == 0x0c || b == 0x0d
}

/// Exact copy of a byte vector.
pub fn clone_bytes(v: &Vec<u8>) -> (r: Vec<u8>)
    ensures
        r@ == v@,
{
    let mut out: Vec<u8> = Vec::new();
    let mut i: usize = 0;
    while i < v.len()
        invariant
            i <= v@.len(),
            out@ == v@.subrange(0, i as int),
        decreases v@.len() - i,
    {
        out.push(v[i]);
        i = i + 1;
    }
    proof {
        assert(out@ =~= v@);
    }
    out
}

/// Whether two byte vectors hold the same bytes.
pub fn bytes_eq(a: &Vec<u8>, b: &Vec<u8>) -> (r: bool)
    ensures
        r == (a@ == b@),
{
    if a.len() != b.len() {
        return false;
    }
    let mut i: usize = 0;
    while i < a.len()
        invariant
            i <= a@.len(),
            a@.len() == b@.len(),
            forall|j: int| 0 <= j < i ==> a@[j] == b@[j],
        decreases a@.len() - i,
    {
        if a[i] != b[i] {
            return false;
        }
        i = i + 1;
    }
    proof {
        assert(a@ =~= b@);
    }
    true
}

/// Index of the first occurrence of `d` in `s` at or after `start`, or
/// `s.len()` if there is none.
pub fn find_byte(s: &Vec<u8>, d: u8, start: usize) -> (r: usize)
    requires
        start <= s@.len(),
    ensures
        r == find_from(s@, d, start as int),
{
    let mut i = start;
    while i < s.len()
        invariant
            start <= i <= s@.len(),
            find_from(s@, d, start as int) == find_from(s@, d, i as int),
        decreases s@.len() - i,
    {
        if s[i] == d {
            return i;
        }
        i = i + 1;
    }
    i
}

/// The bytes of `s` from `a` (inclusive) to `b` (exclusive).
pub fn subvec(s: &Vec<u8>, a: usize, b: usize) -> (r: Vec<u8>)
    requires
        a <= b <= s@.len(),
    ensures
        r@ == s@.subrange(a as int, b as int),
{
    let mut out: Vec<u8> = Vec::new();
    let mut i = a;
    while i < b
        invariant
            a <= i <= b <= s@.len(),
            out@ == s@.subrange(a as int, i as int),
        decreases b - i,
    {
        out.push(s[i]);
        i = i + 1;
    }
    out
}

/// The contents of `s` with ASCII whitespace removed from both ends, as a
/// commit hash must be cleaned before it can name a revision.
pub fn trim(s: &Vec<u8>) -> (r: Vec<u8>)
    ensures
        r@ == trim_spec(s@),
{
    let mut a: usize = 0;
    while a < s.len() && is_space_byte(s[a])
        invariant
            a <= s@.len(),
            first_non_space(s@, 0) == first_non_space(s@, a as int),
        decreases s@.len() - a,
    {
        a = a + 1;
    }
    assert(first_non_space(s@, 0) == a);
    let mut b: usize = s.len();
    while b > a && is_space_byte(s[b - 1])
        invariant
            a <= b <= s@.len(),
            end_non_space(s@, s@.len() as int) == end_non_space(s@, b as int),
        decreases b,
    {
        b = b - 1;
    }
    if b > a {
        assert(end_non_space(s@, s@.len() as int) == b);
        subvec(s, a, b)
    } else {
        proof {
            lemma_end_non_space(s@, b as int);
        }
        Vec::new()
    }
}

/// The lines of `s`, as the commit-list output of the version-control tool
/// is read: one entry per line, a trailing newline producing no entry.
pub fn split_lines(s: &Vec<u8>) -> (r: Vec<Vec<u8>>)
    ensures
        r.deep_view() == lines_of(s@),
{
    let mut out: Vec<Vec<u8>> = Vec::new();
    let mut i: usize = 0;
    while i < s.len()
        invariant
            i <= s@.len(),
            lines_of(s@) == out.deep_view() + lines_from(s@, i as int),
        decreases s@.len() - i,
    {
        let ghost pre = out.deep_view();
        let k = find_byte(s, 0x0a, i);
        proof {
            lemma_find_from(s@, 0x0a, i as int);
        }
        let upto = if k > i && s[k - 1] == 0x0d {
            k - 1
        } else {
            k
        };
        let line = subvec(s, i, upto);
        proof {
            let seg = s@.subrange(i as int, k as int);
            if k > i && s@[k - 1] == 0x0d {
                assert(seg.last() == 0x0d);
                assert(line@ =~= seg.drop_last());
            } else {
                assert(line@ =~= seg);
            }
            assert(line@ == strip_cr(seg));
        }
        out.push(line);
        proof {
            assert(out.deep_view() =~~= pre + seq![line@]);
        }
        i = if k < s.len() {
            k + 1
        } else {
            k
        };
        proof {
            if i < s@.len() || k < s@.len() {
                assert(pre + (seq![line@] + lines_from(s@, i as int)) =~= (pre + seq![line@])
                    + lines_from(s@, i as int));
            } else {
                assert(lines_from(s@, i as int) =~= Seq::<Seq<u8>>::empty());
                assert(pre + (seq![line@] + Seq::<Seq<u8>>::empty()) =~= (pre + seq![line@]));
                assert(seq![line@] + Seq::<Seq<u8>>::empty() =~= seq![line@]);
            }
            assert(lines_of(s@) == out.deep_view() + lines_from(s@, i as int));
        }
    }
    proof {
        assert(out.deep_view() + lines_from(s@, i as int) =~~= out.deep_view());
        assert(out.deep_view() =~~= lines_of(s@));
    }
    out
}

/// A UTF-8 continuation byte.
pub open spec fn utf8_cont(b: u8) -> bool {
    0x80 <= b <= 0xbf
}

/// Whether the bytes of `s` from `i` on are well-formed UTF-8: the
/// shortest-form sequences of one to four bytes, surrogates and values
/// past the last code point excluded.
pub open spec fn utf8_from(s: Seq<u8>, i: int) -> bool
    decreases s.len() - i,
{
    if i < 0 || i >= s.len() {
        true
    } else {
        let b0 = s[i];
        if b0 <= 0x7f {
            utf8_from(s, i + 1)
        } else if 0xc2 <= b0 <= 0xdf {
            i + 2 <= s.len() && utf8_cont(s[i + 1]) && utf8_from(s, i + 2)
        } else if b0 == 0xe0 {
            i + 3 <= s.len() && 0xa0 <= s[i + 1] <= 0xbf && utf8_cont(s[i + 2]) && utf8_from(
                s,
                i + 3,
            )
        } else if (0xe1 <= b0 <= 0xec) || b0 == 0xee || b0 == 0xef {
            i + 3 <= s.len() && utf8_cont(s[i + 1]) && utf8_cont(s[i + 2]) && utf8_from(s, i + 3)
        } else if b0 == 0xed {
            i + 3 <= s.len() && 0x80 <= s[i + 1] <= 0x9f && utf8_cont(s[i + 2]) && utf8_from(
                s,
                i + 3,
            )
        } else if b0 == 0xf0 {
            i + 4 <= s.len() && 0x90 <= s[i + 1] <= 0xbf && utf8_cont(s[i + 2]) && utf8_cont(
                s[i + 3],
            ) && utf8_from(s, i + 4)
        } else if 0xf1 <= b0 <= 0xf3 {
            i + 4 <= s.len() && utf8_cont(s[i + 1]) && utf8_cont(s[i + 2]) && utf8_cont(s[i + 3])
                && utf8_from(s, i + 4)
        } else if b0 == 0xf4 {
            i + 4 <= s.len() && 0x80 <= s[i + 1] <= 0x8f && utf8_cont(s[i + 2]) && utf8_cont(
                s[i + 3],
            ) && utf8_from(s, i + 4)
        } else {
            false
        }
    }
}

/// Whether `s` is valid text: well-formed UTF-8 throughout.
pub open spec fn utf8_ok(s: Seq<u8>) -> bool {
    utf8_from(s, 0)
}

fn cont_byte(b: u8) -> (r: bool)
    ensures
        r == utf8_cont(b),
{
    0x80 <= b && b <= 0xbf
}

/// Whether `v` is valid text: well-formed UTF-8 throughout.
pub fn is_utf8(v: &Vec<u8>) -> (r: bool)
    ensures
        r == utf8_ok(v@),
{
    let mut i: usize = 0;
    while i < v.len()
        invariant
            i <= v@.len(),
            utf8_ok(v@) == utf8_from(v@, i as int),
        decreases v@.len() - i,
    {
        let rest = v.len() - i;
        let b0 = v[i];
        if b0 <= 0x7f {
            i = i + 1;
        } else if 0xc2 <= b0 && b0 <= 0xdf {
            if !(rest >= 2 && cont_byte(v[i + 1])) {
                return false;
            }
            i = i + 2;
        } else if b0 == 0xe0 {
            if !(rest >= 3 && 0xa0 <= v[i + 1] && v[i + 1] <= 0xbf && cont_byte(v[i + 2])) {
                return false;
            }
            i = i + 3;
        } else if (0xe1 <= b0 && b0 <= 0xec) || b0 == 0xee || b0 == 0xef {
            if !(rest >= 3 && cont_byte(v[i + 1]) && cont_byte(v[i + 2])) {
                return false;
            }
            i = i + 3;
        } else if b0 == 0xed {
            if !(rest >= 3 && 0x80 <= v[i + 1] && v[i + 1] <= 0x9f && cont_byte(v[i + 2])) {
                return false;
            }
            i = i + 3;
        } else if b0 == 0xf0 {
            if !(rest >= 4 && 0x90 <= v[i + 1] && v[i + 1] <= 0xbf && cont_byte(v[i + 2])
                && cont_byte(v[i + 3])) {
                return false;
            }
            i = i + 4;
        } else if 0xf1 <= b0 && b0 <= 0xf3 {
            if !(rest >= 4 && cont_byte(v[i + 1]) && cont_byte(v[i + 2]) && cont_byte(v[i + 3])) {
                return false;
            }
            i = i + 4;
        } else if b0 == 0xf4 {
            if !(rest >= 4 && 0x80 <= v[i + 1] && v[i + 1] <= 0x8f && cont_byte(v[i + 2])
                && cont_byte(v[i + 3])) {
                return false;
            }
            i = i + 4;
        } else {
            return false;
        }
    }
    true
}

} // verus!
