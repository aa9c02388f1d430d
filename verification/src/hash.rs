//! A fixed-width content hash identifying a commit, tree or blob.

use vstd::prelude::*;

verus! {

/// An opaque 160-bit object id.  Equality is the only operation the engine
/// needs; two ids are equal exactly when all their words are.
#[derive(Clone, Copy, Debug, PartialEq, Eq, Hash, Structural)]
pub struct ObjectId {
    /// The first 8 bytes of the hash, in big-endian order.
    pub w0: u64,
    /// The middle 8 bytes of the hash, in big-endian order.
    pub w1: u64,
    /// The last 4 bytes of the hash, in big-endian order.
    pub w2: u32,
}

/// Whether `c` is an ASCII hexadecimal digit.
pub open spec fn is_hex_digit(c: u8) -> bool {
    (48 <= c <= 57) || (97 <= c <= 102) || (65 <= c <= 70)
}

/// The value of the hexadecimal digit `c`.
pub open spec fn hex_digit_value(c: u8) -> int {
    if 48 <= c <= 57 {
        c - 48
    } else if 97 <= c <= 102 {
        c - 87
    } else {
        c - 55
    }
}

/// Whether every byte of `s` is a hexadecimal digit.
pub open spec fn all_hex(s: Seq<u8>) -> bool {
    forall|i: int| 0 <= i < s.len() ==> is_hex_digit(#[trigger] s[i])
}

/// The number denoted by the hexadecimal digit string `s`, most significant
/// digit first.
pub open spec fn hex_value(s: Seq<u8>) -> int
    decreases s.len(),
{
    if s.len() == 0 {
        0
    } else {
        hex_value(s.drop_last()) * 16 + hex_digit_value(s.last())
    }
}

/// Sixteen to the `n`th power.
pub open spec fn sixteen_pow(n: nat) -> int
    decreases n,
{
    if n == 0 {
        1
    } else {
        16 * sixteen_pow((n - 1) as nat)
    }
}

/// A hexadecimal string of `n` digits denotes a value below sixteen to the
/// `n`th.
proof fn lemma_hex_value_bound(s: Seq<u8>)
    requires
        all_hex(s),
    ensures
        0 <= hex_value(s) < sixteen_pow(s.len()),
    decreases s.len(),
{
    if s.len() > 0 {
        assert(all_hex(s.drop_last())) by {
            assert(forall|i: int| 0 <= i < s.len() - 1 ==> s.drop_last()[i] == s[i]);
        }
        lemma_hex_value_bound(s.drop_last());
        assert(is_hex_digit(s.last()));
        assert(hex_digit_value(s.last()) < 16);
    }
}

/// Concrete powers of sixteen used for the overflow bounds.
proof fn lemma_sixteen_pow_values()
    ensures
        sixteen_pow(8) == 0x1_0000_0000,
        sixteen_pow(16) == 0x1_0000_0000_0000_0000,
{
    assert(sixteen_pow(0) == 1);
    assert(sixteen_pow(1) == 16);
    assert(sixteen_pow(2) == 0x100);
    assert(sixteen_pow(3) == 0x1000);
    assert(sixteen_pow(4) == 0x1_0000);
    assert(sixteen_pow(5) == 0x10_0000);
    assert(sixteen_pow(6) == 0x100_0000);
    assert(sixteen_pow(7) == 0x1000_0000);
    assert(sixteen_pow(8) == 0x1_0000_0000);
    assert(sixteen_pow(9) == 0x10_0000_0000);
    assert(sixteen_pow(10) == 0x100_0000_0000);
    assert(sixteen_pow(11) == 0x1000_0000_0000);
    assert(sixteen_pow(12) == 0x1_0000_0000_0000);
    assert(sixteen_pow(13) == 0x10_0000_0000_0000);
    assert(sixteen_pow(14) == 0x100_0000_0000_0000);
    assert(sixteen_pow(15) == 0x1000_0000_0000_0000);
    assert(sixteen_pow(16) == 0x1_0000_0000_0000_0000);
}

/// Powers of sixteen grow with the exponent.
proof fn lemma_sixteen_pow_increases(m: nat, n: nat)
    requires
        m <= n,
    ensures
        sixteen_pow(m) <= sixteen_pow(n),
    decreases n,
{
    if m < n {
        lemma_sixteen_pow_increases(m, (n - 1) as nat);
        assert(sixteen_pow((n - 1) as nat) >= 1) by {
            lemma_sixteen_pow_positive((n - 1) as nat);
        }
    }
}

/// Powers of sixteen are positive.
proof fn lemma_sixteen_pow_positive(n: nat)
    ensures
        sixteen_pow(n) >= 1,
    decreases n,
{
    if n > 0 {
        lemma_sixteen_pow_positive((n - 1) as nat);
    }
}

/// Parse the `len` hexadecimal digits of `s` starting at `from` into a
/// number, most significant digit first.
fn parse_hex_window(s: &[u8], from: usize, len: usize) -> (r: u64)
    requires
        from + len <= s@.len(),
        len <= 16,
        forall|i: int| from <= i < from + len ==> is_hex_digit(#[trigger] s@[i]),
    ensures
        r == hex_value(s@.subrange(from as int, (from + len) as int)),
{
    let total: usize = s.len();
    let mut acc: u64 = 0;
    let mut i: usize = 0;
    proof {
        assert(s@.subrange(from as int, from as int) =~= Seq::<u8>::empty());
    }
    while i < len
        invariant
            0 <= i <= len,
            len <= 16,
            total == s@.len(),
            from + len <= total,
            forall|k: int| from <= k < from + len ==> is_hex_digit(#[trigger] s@[k]),
            acc == hex_value(s@.subrange(from as int, (from + i) as int)),
            acc < sixteen_pow(i as nat),
        decreases len - i,
    {
        let c = s[from + i];
        let d: u64 = if c >= 48 && c <= 57 {
            (c - 48) as u64
        } else if c >= 97 && c <= 102 {
            (c - 87) as u64
        } else {
            (c - 55) as u64
        };
        proof {
            lemma_sixteen_pow_increases(i as nat, 15);
            lemma_sixteen_pow_values();
            assert(sixteen_pow(15) == 0x1000_0000_0000_0000);
            assert(acc < 0x1000_0000_0000_0000);
            assert(s@.subrange(from as int, (from + i + 1) as int).drop_last() =~= s@.subrange(
                from as int,
                (from + i) as int,
            ));
            assert(s@.subrange(from as int, (from + i + 1) as int).last() == s@[from + i]);
            assert(d == hex_digit_value(s@[from + i]));
        }
        acc = acc * 16 + d;
        i = i + 1;
    }
    acc
}

impl ObjectId {
    /// The all-zero id.
    pub fn null() -> (r: ObjectId)
        ensures
            r == (ObjectId { w0: 0, w1: 0, w2: 0 }),
    {
        ObjectId { w0: 0, w1: 0, w2: 0 }
    }

    /// Parse a 40-digit hexadecimal representation of an id.
    ///
    /// Returns `None` exactly when the input is not 40 bytes long or holds a
    /// byte that is no hexadecimal digit.
    pub fn from_hex(hex: &[u8]) -> (r: Option<ObjectId>)
        ensures
            r is Some <==> (hex@.len() == 40 && all_hex(hex@)),
            r matches Some(id) ==> {
                &&& id.w0 == hex_value(hex@.subrange(0, 16))
                &&& id.w1 == hex_value(hex@.subrange(16, 32))
                &&& id.w2 == hex_value(hex@.subrange(32, 40))
            },
    {
        if hex.len() != 40 {
            return None;
        }
        let mut i: usize = 0;
        while i < 40
            invariant
                hex@.len() == 40,
                0 <= i <= 40,
                forall|k: int| 0 <= k < i ==> is_hex_digit(#[trigger] hex@[k]),
            decreases 40 - i,
        {
            let c = hex[i];
            let ok = (c >= 48 && c <= 57) || (c >= 97 && c <= 102) || (c >= 65 && c <= 70);
            if !ok {
                return None;
            }
            i = i + 1;
        }
        let w0 = parse_hex_window(hex, 0, 16);
        let w1 = parse_hex_window(hex, 16, 16);
        let w2_wide = parse_hex_window(hex, 32, 8);
        proof {
            lemma_hex_value_bound(hex@.subrange(32, 40));
            lemma_sixteen_pow_values();
        }
        let w2 = w2_wide as u32;
        Some(ObjectId { w0, w1, w2 })
    }
}

} // verus!
