//! Example identifiers.
//!
//! An id is a byte string. A *base id* contains no hyphen and names the clean
//! example of a question; a *variant id* is `<base-id>-<suffix>` and names an
//! adversarially perturbed version of the same question. The base id of a
//! variant is its prefix before the first hyphen.

use vstd::prelude::*;

verus! {

/// The byte that separates a base id from a variant suffix.
pub const HYPHEN: u8 = 45;

/// True when the id contains at least one hyphen, i.e. it is a variant id.
pub open spec fn has_hyphen(s: Seq<u8>) -> bool {
    exists|i: int| 0 <= i < s.len() && s[i] == HYPHEN
}

/// Index of the first hyphen in `s`, or `s.len()` when there is none.
pub open spec fn first_hyphen(s: Seq<u8>) -> int
    decreases s.len(),
{
    if s.len() == 0 {
        0
    } else if s[0] == HYPHEN {
        0
    } else {
        1 + first_hyphen(s.skip(1))
    }
}

/// The base id of `s`: its prefix before the first hyphen (all of `s` when
/// `s` has no hyphen).
pub open spec fn base_of(s: Seq<u8>) -> Seq<u8> {
    s.take(first_hyphen(s))
}

/// The suffix that marks the high-confidence adversarial variant of a base
/// id: the bytes of `-high-conf`.
pub open spec fn high_conf_suffix() -> Seq<u8> {
    seq![45u8, 104u8, 105u8, 103u8, 104u8, 45u8, 99u8, 111u8, 110u8, 102u8]
}

/// `first_hyphen` really is the first hyphen: nothing before it is a hyphen,
/// it is in bounds exactly when a hyphen exists, and it points at one.
pub proof fn lemma_first_hyphen(s: Seq<u8>)
    ensures
        0 <= first_hyphen(s) <= s.len(),
        forall|j: int| 0 <= j < first_hyphen(s) ==> s[j] != HYPHEN,
        first_hyphen(s) < s.len() ==> s[first_hyphen(s)] == HYPHEN,
        has_hyphen(s) <==> first_hyphen(s) < s.len(),
    decreases s.len(),
{
    if s.len() == 0 {
    } else if s[0] == HYPHEN {
        assert(has_hyphen(s));
    } else {
        let t = s.skip(1);
        lemma_first_hyphen(t);
        assert forall|j: int| 0 <= j < first_hyphen(s) implies s[j] != HYPHEN by {
            if j > 0 {
                assert(t[j - 1] == s[j]);
            }
        }
        if first_hyphen(s) < s.len() {
            assert(s[first_hyphen(s)] == t[first_hyphen(t)]);
        }
        if has_hyphen(s) {
            let i = choose|i: int| 0 <= i < s.len() && s[i] == HYPHEN;
            assert(i > 0);
            assert(t[i - 1] == HYPHEN);
            assert(has_hyphen(t));
        }
        if has_hyphen(t) {
            let i = choose|i: int| 0 <= i < t.len() && t[i] == HYPHEN;
            assert(s[i + 1] == HYPHEN);
            assert(has_hyphen(s));
        }
    }
}

/// The base id of any id contains no hyphen.
pub proof fn lemma_base_no_hyphen(s: Seq<u8>)
    ensures
        !has_hyphen(base_of(s)),
{
    lemma_first_hyphen(s);
    let b = base_of(s);
    assert forall|i: int| 0 <= i < b.len() implies b[i] != HYPHEN by {
        assert(b[i] == s[i]);
    }
}

/// Appending the high-conf suffix to a hyphen-free id gives a variant id
/// whose base is the original id.
pub proof fn lemma_high_conf_base(s: Seq<u8>)
    requires
        !has_hyphen(s),
    ensures
        has_hyphen(s + high_conf_suffix()),
        base_of(s + high_conf_suffix()) == s,
{
    let v = s + high_conf_suffix();
    assert(v[s.len() as int] == HYPHEN);
    assert(has_hyphen(v));
    lemma_first_hyphen(v);
    lemma_first_hyphen(s);
    let f = first_hyphen(v);
    assert forall|j: int| 0 <= j < s.len() implies v[j] != HYPHEN by {
        assert(v[j] == s[j]);
    }
    assert(f == s.len());
    assert(base_of(v) =~= s);
}

/// Reports whether the id is a variant id (contains a hyphen).
pub fn id_has_hyphen(k: &Vec<u8>) -> (r: bool)
    ensures
        r == has_hyphen(k@),
{
    let n = k.len();
    let mut i: usize = 0;
    while i < n
        invariant
            0 <= i <= n,
            n == k@.len(),
            forall|j: int| 0 <= j < i ==> k@[j] != HYPHEN,
        decreases n - i,
    {
        if k[i] == HYPHEN {
            assert(has_hyphen(k@));
            return true;
        }
        i = i + 1;
    }
    false
}

/// Returns the base id of `k`: the prefix before the first hyphen.
pub fn base_id(k: &Vec<u8>) -> (r: Vec<u8>)
    ensures
        r@ == base_of(k@),
{
    let n = k.len();
    let mut i: usize = 0;
    while i < n && k[i] != HYPHEN
        invariant
            0 <= i <= n,
            n == k@.len(),
            forall|j: int| 0 <= j < i ==> k@[j] != HYPHEN,
        decreases n - i,
    {
        i = i + 1;
    }
    proof {
        lemma_first_hyphen(k@);
        assert(first_hyphen(k@) == i);
    }
    let mut r: Vec<u8> = Vec::new();
    let mut j: usize = 0;
    while j < i
        invariant
            0 <= j <= i <= k@.len(),
            r@ == k@.take(j as int),
        decreases i - j,
    {
        r.push(k[j]);
        assert(r@ =~= k@.take(j as int + 1));
        j = j + 1;
    }
    assert(r@ == base_of(k@));
    r
}

/// Returns `k` with the `-high-conf` suffix appended: the id under which the
/// high-confidence adversarial variant of base id `k` would be stored.
pub fn high_conf_id(k: &Vec<u8>) -> (r: Vec<u8>)
    ensures
        r@ == k@ + high_conf_suffix(),
{
    let mut r: Vec<u8> = Vec::new();
    let n = k.len();
    let mut i: usize = 0;
    while i < n
        invariant
            0 <= i <= n,
            n == k@.len(),
            r@ == k@.take(i as int),
        decreases n - i,
    {
        r.push(k[i]);
        assert(r@ =~= k@.take(i as int + 1));
        i = i + 1;
    }
    assert(r@ =~= k@);
    r.push(45u8);
    r.push(104u8);
    r.push(105u8);
    r.push(103u8);
    r.push(104u8);
    r.push(45u8);
    r.push(99u8);
    r.push(111u8);
    r.push(110u8);
    r.push(102u8);
    assert(r@ =~= k@ + high_conf_suffix());
    r
}

} // verus!
