//! Comparisons on byte strings.

use vstd::prelude::*;

verus! {

/// Lexicographic byte order, examined from position `i` on.
pub open spec fn bytes_lt_from(a: Seq<u8>, b: Seq<u8>, i: int) -> bool
    decreases b.len() - i,
{
    if i < 0 || i >= b.len() {
        false
    } else if i >= a.len() {
        true
    } else if a[i] != b[i] {
        a[i] < b[i]
    } else {
        bytes_lt_from(a, b, i + 1)
    }
}

/// Lexicographic byte order: whether `a` sorts strictly before `b`.
pub open spec fn bytes_lt(a: Seq<u8>, b: Seq<u8>) -> bool {
    bytes_lt_from(a, b, 0)
}

/// Whether `p` is a prefix of `a`.
pub open spec fn is_prefix_of(p: Seq<u8>, a: Seq<u8>) -> bool {
    p.len() <= a.len() && forall|k: int| 0 <= k < p.len() ==> a[k] == #[trigger] p[k]
}

/// Whether the bytes of `a` and `b` are equal.
pub(crate) fn bytes_eq(a: &Vec<u8>, b: &Vec<u8>) -> (r: bool)
    ensures
        r == (a@ == b@),
{
    if a.len() != b.len() {
        proof {
            assert(a@.len() != b@.len());
        }
        return false;
    }
    let n = a.len();
    let mut i: usize = 0;
    while i < n
        invariant
            n == a@.len() && n == b@.len(),
            0 <= i <= n,
            forall|k: int| 0 <= k < i ==> a@[k] == b@[k],
        decreases n - i,
    {
        if a[i] != b[i] {
            proof {
                assert(a@[i as int] != b@[i as int]);
            }
            return false;
        }
        i = i + 1;
    }
    proof {
        assert(a@ =~= b@);
    }
    true
}

/// Whether `a` sorts strictly before `b` in byte order.
pub(crate) fn bytes_before(a: &Vec<u8>, b: &Vec<u8>) -> (r: bool)
    ensures
        r == bytes_lt(a@, b@),
{
    let mut i: usize = 0;
    while i < a.len() && i < b.len()
        invariant
            0 <= i <= a@.len(),
            i <= b@.len(),
            bytes_lt(a@, b@) == bytes_lt_from(a@, b@, i as int),
        decreases a@.len() - i,
    {
        if a[i] != b[i] {
            return a[i] < b[i];
        }
        i = i + 1;
    }
    a.len() < b.len()
}

/// Whether `p` is a prefix of `a`.
pub(crate) fn starts_with(a: &Vec<u8>, p: &Vec<u8>) -> (r: bool)
    ensures
        r == is_prefix_of(p@, a@),
{
    if p.len() > a.len() {
        return false;
    }
    let n = p.len();
    let mut i: usize = 0;
    while i < n
        invariant
            n == p@.len(),
            n <= a@.len(),
            0 <= i <= n,
            forall|k: int| 0 <= k < i ==> a@[k] == #[trigger] p@[k],
        decreases n - i,
    {
        if a[i] != p[i] {
            proof {
                assert(a@[i as int] != p@[i as int]);
            }
            return false;
        }
        i = i + 1;
    }
    true
}

/// A copy of the given bytes.
pub(crate) fn copy_bytes(a: &Vec<u8>) -> (r: Vec<u8>)
    ensures
        r@ == a@,
{
    let n = a.len();
    let mut out: Vec<u8> = Vec::new();
    let mut i: usize = 0;
    while i < n
        invariant
            n == a@.len(),
            0 <= i <= n,
            out@ =~= a@.take(i as int),
        decreases n - i,
    {
        out.push(a[i]);
        i = i + 1;
    }
    proof {
        assert(out@ =~= a@);
    }
    out
}

/// Byte order is transitive, from any common position on.
proof fn lemma_bytes_lt_from_trans(a: Seq<u8>, b: Seq<u8>, c: Seq<u8>, i: int)
    requires
        i >= 0,
        bytes_lt_from(a, b, i),
        bytes_lt_from(b, c, i),
    ensures
        bytes_lt_from(a, c, i),
    decreases b.len() - i,
{
    if i < a.len() && i < b.len() && a[i] == b[i] && i < c.len() && b[i] == c[i] {
        lemma_bytes_lt_from_trans(a, b, c, i + 1);
    }
}

/// Byte order is transitive.
pub proof fn lemma_bytes_lt_trans(a: Seq<u8>, b: Seq<u8>, c: Seq<u8>)
    requires
        bytes_lt(a, b),
        bytes_lt(b, c),
    ensures
        bytes_lt(a, c),
{
    lemma_bytes_lt_from_trans(a, b, c, 0);
}

/// Two byte strings compare one way or the other, or their suffixes from `i`
/// on are equal.
proof fn lemma_bytes_lt_from_connex(a: Seq<u8>, b: Seq<u8>, i: int)
    requires
        0 <= i <= a.len(),
        0 <= i <= b.len(),
    ensures
        bytes_lt_from(a, b, i) || bytes_lt_from(b, a, i) || (a.len() == b.len() && forall|k: int|
            i <= k < a.len() ==> a[k] == b[k]),
    decreases a.len() - i,
{
    if i < a.len() && i < b.len() && a[i] == b[i] {
        lemma_bytes_lt_from_connex(a, b, i + 1);
    }
}

/// Two byte strings compare one way or the other, or they are equal.
pub proof fn lemma_bytes_lt_connex(a: Seq<u8>, b: Seq<u8>)
    ensures
        bytes_lt(a, b) || bytes_lt(b, a) || a == b,
{
    lemma_bytes_lt_from_connex(a, b, 0);
    if !bytes_lt(a, b) && !bytes_lt(b, a) {
        assert(a =~= b);
    }
}

} // verus!
