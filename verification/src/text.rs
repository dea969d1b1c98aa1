//! Byte-string helpers: whitespace trimming, concatenation, suffix taking.
//!
//! Trimming removes the Unicode White_Space characters, recognised by their
//! UTF-8 byte sequences, so it agrees with Rust's `str::trim` on any valid
//! UTF-8 text.

use vstd::prelude::*;

verus! {

/// `b` is an ASCII white-space byte (space or 0x09 through 0x0D).
pub open spec fn is_ascii_space(b: u8) -> bool {
    b == 32 || (9 <= b && b <= 13)
}

/// Byte length of the white-space character at the front of `s`, or 0 when
/// `s` does not start with one. The recognised characters are the Unicode
/// White_Space set: the ASCII white space, next line (194 133) and no-break
/// space (194 160), ogham space mark (225 154 128), the en-quad block
/// through hair space (226 128 128 through 138), line and paragraph
/// separators (226 128 168 and 169), narrow no-break space (226 128 175),
/// medium mathematical space (226 129 159) and ideographic space
/// (227 128 128).
pub open spec fn ws_front(s: Seq<u8>) -> int {
    if s.len() >= 1 && is_ascii_space(s[0]) {
        1
    } else if s.len() >= 2 && s[0] == 194 && (s[1] == 133 || s[1] == 160) {
        2
    } else if s.len() >= 3 && s[0] == 225 && s[1] == 154 && s[2] == 128 {
        3
    } else if s.len() >= 3 && s[0] == 226 && s[1] == 128 && ((128 <= s[2] && s[2] <= 138) || s[2]
        == 168 || s[2] == 169 || s[2] == 175) {
        3
    } else if s.len() >= 3 && s[0] == 226 && s[1] == 129 && s[2] == 159 {
        3
    } else if s.len() >= 3 && s[0] == 227 && s[1] == 128 && s[2] == 128 {
        3
    } else {
        0
    }
}

/// Byte length of the white-space character at the back of `s`, or 0 when
/// `s` does not end with one; the same character set as [`ws_front`]. In
/// valid UTF-8 no other character's encoding ends with these byte
/// sequences, since their leading bytes cannot continue another character.
pub open spec fn ws_back(s: Seq<u8>) -> int {
    let n = s.len() as int;
    if n >= 1 && is_ascii_space(s[n - 1]) {
        1
    } else if n >= 2 && s[n - 2] == 194 && (s[n - 1] == 133 || s[n - 1] == 160) {
        2
    } else if n >= 3 && s[n - 3] == 225 && s[n - 2] == 154 && s[n - 1] == 128 {
        3
    } else if n >= 3 && s[n - 3] == 226 && s[n - 2] == 128 && ((128 <= s[n - 1] && s[n - 1] <= 138)
        || s[n - 1] == 168 || s[n - 1] == 169 || s[n - 1] == 175) {
        3
    } else if n >= 3 && s[n - 3] == 226 && s[n - 2] == 129 && s[n - 1] == 159 {
        3
    } else if n >= 3 && s[n - 3] == 227 && s[n - 2] == 128 && s[n - 1] == 128 {
        3
    } else {
        0
    }
}

/// `s` without its leading white space.
pub open spec fn trim_front(s: Seq<u8>) -> Seq<u8>
    decreases s.len(),
{
    if ws_front(s) > 0 {
        trim_front(s.skip(ws_front(s)))
    } else {
        s
    }
}

/// `s` without its trailing white space.
pub open spec fn trim_back(s: Seq<u8>) -> Seq<u8>
    decreases s.len(),
{
    if ws_back(s) > 0 {
        trim_back(s.take(s.len() - ws_back(s)))
    } else {
        s
    }
}

/// `s` without its leading and trailing white space.
pub open spec fn trimmed(s: Seq<u8>) -> Seq<u8> {
    trim_back(trim_front(s))
}

/// Trimming does not lengthen a byte string.
pub proof fn lemma_trimmed_len(s: Seq<u8>)
    ensures
        trimmed(s).len() <= s.len(),
{
    lemma_trim_front_len(s);
    lemma_trim_back_len(trim_front(s));
}

proof fn lemma_trim_front_len(s: Seq<u8>)
    ensures
        trim_front(s).len() <= s.len(),
    decreases s.len(),
{
    if ws_front(s) > 0 {
        lemma_trim_front_len(s.skip(ws_front(s)));
    }
}

proof fn lemma_trim_back_len(s: Seq<u8>)
    ensures
        trim_back(s).len() <= s.len(),
    decreases s.len(),
{
    if ws_back(s) > 0 {
        lemma_trim_back_len(s.take(s.len() - ws_back(s)));
    }
}

/// Byte length of the white-space character at the front of
/// `v[lo..hi]`, or 0.
fn ws_front_len(v: &Vec<u8>, lo: usize, hi: usize) -> (r: usize)
    requires
        lo <= hi <= v@.len(),
    ensures
        r == ws_front(v@.subrange(lo as int, hi as int)),
{
    let n = hi - lo;
    proof {
        let s = v@.subrange(lo as int, hi as int);
        if n >= 1 {
            assert(s[0] == v@[lo as int]);
        }
        if n >= 2 {
            assert(s[1] == v@[lo as int + 1]);
        }
        if n >= 3 {
            assert(s[2] == v@[lo as int + 2]);
        }
    }
    if n >= 1 && (v[lo] == 32 || (9 <= v[lo] && v[lo] <= 13)) {
        1
    } else if n >= 2 && v[lo] == 194 && (v[lo + 1] == 133 || v[lo + 1] == 160) {
        2
    } else if n >= 3 && v[lo] == 225 && v[lo + 1] == 154 && v[lo + 2] == 128 {
        3
    } else if n >= 3 && v[lo] == 226 && v[lo + 1] == 128 && ((128 <= v[lo + 2] && v[lo + 2] <= 138)
        || v[lo + 2] == 168 || v[lo + 2] == 169 || v[lo + 2] == 175) {
        3
    } else if n >= 3 && v[lo] == 226 && v[lo + 1] == 129 && v[lo + 2] == 159 {
        3
    } else if n >= 3 && v[lo] == 227 && v[lo + 1] == 128 && v[lo + 2] == 128 {
        3
    } else {
        0
    }
}

/// Byte length of the white-space character at the back of
/// `v[lo..hi]`, or 0.
fn ws_back_len(v: &Vec<u8>, lo: usize, hi: usize) -> (r: usize)
    requires
        lo <= hi <= v@.len(),
    ensures
        r == ws_back(v@.subrange(lo as int, hi as int)),
{
    let n = hi - lo;
    proof {
        let s = v@.subrange(lo as int, hi as int);
        if n >= 1 {
            assert(s[s.len() - 1] == v@[hi as int - 1]);
        }
        if n >= 2 {
            assert(s[s.len() - 2] == v@[hi as int - 2]);
        }
        if n >= 3 {
            assert(s[s.len() - 3] == v@[hi as int - 3]);
        }
    }
    if n >= 1 && (v[hi - 1] == 32 || (9 <= v[hi - 1] && v[hi - 1] <= 13)) {
        1
    } else if n >= 2 && v[hi - 2] == 194 && (v[hi - 1] == 133 || v[hi - 1] == 160) {
        2
    } else if n >= 3 && v[hi - 3] == 225 && v[hi - 2] == 154 && v[hi - 1] == 128 {
        3
    } else if n >= 3 && v[hi - 3] == 226 && v[hi - 2] == 128 && ((128 <= v[hi - 1] && v[hi - 1]
        <= 138) || v[hi - 1] == 168 || v[hi - 1] == 169 || v[hi - 1] == 175) {
        3
    } else if n >= 3 && v[hi - 3] == 226 && v[hi - 2] == 129 && v[hi - 1] == 159 {
        3
    } else if n >= 3 && v[hi - 3] == 227 && v[hi - 2] == 128 && v[hi - 1] == 128 {
        3
    } else {
        0
    }
}

/// Returns `v` without leading and trailing white space.
pub fn trim_bytes(v: &Vec<u8>) -> (r: Vec<u8>)
    ensures
        r@ == trimmed(v@),
        r@.len() <= v@.len(),
{
    let n = v.len();
    proof {
        assert(v@.skip(0) =~= v@);
        assert(v@.subrange(0, n as int) =~= v@);
    }
    let mut lo: usize = 0;
    let mut k = ws_front_len(v, lo, n);
    while k > 0
        invariant
            0 <= lo <= n,
            n == v@.len(),
            trim_front(v@) == trim_front(v@.skip(lo as int)),
            k == ws_front(v@.subrange(lo as int, n as int)),
            v@.skip(lo as int) == v@.subrange(lo as int, n as int),
            k > 0 ==> lo + k <= n,
        decreases n - lo,
    {
        proof {
            let s = v@.skip(lo as int);
            assert(s.skip(k as int) =~= v@.skip(lo as int + k));
            assert(v@.skip(lo as int + k) =~= v@.subrange(lo as int + k, n as int));
        }
        lo = lo + k;
        k = ws_front_len(v, lo, n);
    }
    proof {
        assert(trim_front(v@) == v@.skip(lo as int));
    }
    let mut hi: usize = n;
    let mut m = ws_back_len(v, lo, hi);
    while m > 0
        invariant
            lo <= hi <= n,
            n == v@.len(),
            trim_front(v@) == v@.skip(lo as int),
            trim_back(v@.skip(lo as int)) == trim_back(v@.subrange(lo as int, hi as int)),
            m == ws_back(v@.subrange(lo as int, hi as int)),
            m > 0 ==> lo + m <= hi,
        decreases hi,
    {
        proof {
            let s = v@.subrange(lo as int, hi as int);
            assert(s.take(s.len() - m) =~= v@.subrange(lo as int, hi as int - m));
        }
        hi = hi - m;
        m = ws_back_len(v, lo, hi);
    }
    proof {
        assert(trim_back(v@.subrange(lo as int, hi as int)) == v@.subrange(lo as int, hi as int));
        assert(v@.skip(lo as int) =~= v@.subrange(lo as int, n as int));
        assert(trimmed(v@) == v@.subrange(lo as int, hi as int));
    }
    let mut r: Vec<u8> = Vec::new();
    let mut i: usize = lo;
    while i < hi
        invariant
            lo <= i <= hi <= n,
            n == v@.len(),
            r@ == v@.subrange(lo as int, i as int),
        decreases hi - i,
    {
        r.push(v[i]);
        assert(r@ =~= v@.subrange(lo as int, i as int + 1));
        i = i + 1;
    }
    r
}

/// Returns `a` followed by `b`.
pub fn concat_bytes(a: &Vec<u8>, b: &Vec<u8>) -> (r: Vec<u8>)
    requires
        a@.len() + b@.len() <= usize::MAX,
    ensures
        r@ == a@ + b@,
{
    let mut r = crate::record::copy_bytes(a);
    let n = b.len();
    let mut i: usize = 0;
    while i < n
        invariant
            0 <= i <= n,
            n == b@.len(),
            r@ == a@ + b@.take(i as int),
        decreases n - i,
    {
        r.push(b[i]);
        assert(r@ =~= a@ + b@.take(i as int + 1));
        i = i + 1;
    }
    assert(r@ =~= a@ + b@);
    r
}

/// Returns the suffix of `v` starting at byte offset `start`.
pub fn suffix_from(v: &Vec<u8>, start: usize) -> (r: Vec<u8>)
    requires
        start <= v@.len(),
    ensures
        r@ == v@.skip(start as int),
{
    let n = v.len();
    let mut r: Vec<u8> = Vec::new();
    let mut i: usize = start;
    while i < n
        invariant
            start <= i <= n,
            n == v@.len(),
            r@ == v@.subrange(start as int, i as int),
        decreases n - i,
    {
        r.push(v[i]);
        assert(r@ =~= v@.subrange(start as int, i as int + 1));
        i = i + 1;
    }
    assert(r@ =~= v@.skip(start as int));
    r
}

} // verus!
