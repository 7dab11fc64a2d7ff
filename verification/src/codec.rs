use vstd::prelude::*;

use crate::state::AidEscrow;

verus! {

/// The value of an ASCII hexadecimal digit (`0-9`, `a-f`, `A-F`).
pub open spec fn nibble_value(b: u8) -> Option<u8> {
    if 48 <= b <= 57 {
        Some((b - 48) as u8)
    } else if 97 <= b <= 102 {
        Some((b - 87) as u8)
    } else if 65 <= b <= 70 {
        Some((b - 55) as u8)
    } else {
        None
    }
}

/// Sixty-four hexadecimal digits.
pub open spec fn is_hex_digest(s: Seq<u8>) -> bool {
    &&& s.len() == 64
    &&& forall|i: int| 0 <= i < 64 ==> (#[trigger] nibble_value(s[i])) is Some
}

/// The byte that the two digits at `2 * i` and `2 * i + 1` write.
pub open spec fn hex_byte(s: Seq<u8>, i: int) -> u8 {
    (nibble_value(s[2 * i])->0 * 16 + nibble_value(s[2 * i + 1])->0) as u8
}

/// The thirty-two bytes that sixty-four hexadecimal digits write, high digit first.
pub open spec fn hex_digest_bytes(s: Seq<u8>) -> Seq<u8> {
    Seq::new(32, |i: int| hex_byte(s, i))
}

/// An ASCII decimal digit.
pub open spec fn is_digit(b: u8) -> bool {
    48 <= b <= 57
}

pub open spec fn all_digits(s: Seq<u8>) -> bool {
    forall|i: int| 0 <= i < s.len() ==> #[trigger] is_digit(s[i])
}

/// The number that a string of decimal digits writes, most significant first.
pub open spec fn decimal_value(s: Seq<u8>) -> nat
    decreases s.len(),
{
    if s.len() == 0 {
        0
    } else {
        decimal_value(s.drop_last()) * 10 + (s.last() - 48) as nat
    }
}

/// What `parse_u64` reads: one to twenty decimal digits whose value fits in a `u64`.
pub open spec fn parsed_u64(s: Seq<u8>) -> Option<u64> {
    if 1 <= s.len() <= 20 && all_digits(s) && decimal_value(s) <= u64::MAX {
        Some(decimal_value(s) as u64)
    } else {
        None
    }
}

proof fn lemma_decimal_prefix_monotone(s: Seq<u8>, k: int)
    requires
        all_digits(s),
        0 <= k <= s.len(),
    ensures
        decimal_value(s.subrange(0, k)) <= decimal_value(s),
    decreases s.len() - k,
{
    if k < s.len() {
        let t = s.subrange(0, k + 1);
        assert(t.drop_last() =~= s.subrange(0, k));
        assert(is_digit(s[k]));
        lemma_decimal_prefix_monotone(s, k + 1);
    } else {
        assert(s.subrange(0, k) =~= s);
    }
}

impl AidEscrow {
    /// The value of one hexadecimal digit.
    pub fn hex_nibble(b: u8) -> (r: Option<u8>)
        ensures
            r == nibble_value(b),
    {
        if 48 <= b && b <= 57 {
            Some(b - 48)
        } else if 97 <= b && b <= 102 {
            Some(10 + (b - 97))
        } else if 65 <= b && b <= 70 {
            Some(10 + (b - 65))
        } else {
            None
        }
    }

    /// Reads a 32-byte value written as exactly sixty-four hexadecimal digits.
    pub fn parse_hex_32(value: &[u8]) -> (r: Option<[u8; 32]>)
        ensures
            r is Some <==> is_hex_digest(value@),
            r matches Some(out) ==> out@ == hex_digest_bytes(value@),
    {
        if value.len() != 64 {
            return None;
        }
        let mut out = [0u8; 32];
        let mut i: usize = 0;
        while i < 32
            invariant
                value@.len() == 64,
                i <= 32,
                forall|j: int| 0 <= j < 2 * i ==> (#[trigger] nibble_value(value@[j])) is Some,
                forall|j: int| 0 <= j < i ==> out@[j] == hex_byte(value@, j),
            decreases 32 - i,
        {
            let hi = match Self::hex_nibble(value[i * 2]) {
                Some(h) => h,
                None => {
                    return None;
                },
            };
            let lo = match Self::hex_nibble(value[i * 2 + 1]) {
                Some(l) => l,
                None => {
                    return None;
                },
            };
            assert(hi < 16 && lo < 16);
            let byte = (hi << 4) | lo;
            assert(byte == hi * 16 + lo) by (bit_vector)
                requires
                    hi < 16,
                    lo < 16,
                    byte == (hi << 4) | lo,
            ;
            out[i] = byte;
            i += 1;
        }
        assert(out@ =~= hex_digest_bytes(value@));
        Some(out)
    }

    /// Reads a `u64` written in decimal: one to twenty ASCII digits, no sign, no
    /// spaces, and a value that fits.
    pub fn parse_u64(value: &[u8]) -> (r: Option<u64>)
        ensures
            r == parsed_u64(value@),
    {
        let len = value.len();
        if len == 0 || len > 20 {
            return None;
        }
        let mut out: u64 = 0;
        let mut i: usize = 0;
        while i < len
            invariant
                len == value@.len(),
                1 <= len <= 20,
                i <= len,
                all_digits(value@.subrange(0, i as int)),
                out as nat == decimal_value(value@.subrange(0, i as int)),
            decreases len - i,
        {
            let b = value[i];
            let ghost prefix = value@.subrange(0, i as int);
            let ghost next = value@.subrange(0, i + 1);
            assert(next.drop_last() =~= prefix);
            if !(48 <= b && b <= 57) {
                proof {
                    assert(!is_digit(value@[i as int]));
                    assert(!all_digits(value@));
                }
                return None;
            }
            assert(all_digits(next)) by {
                assert forall|j: int| 0 <= j < next.len() implies #[trigger] is_digit(next[j]) by {
                    if j < i {
                        assert(next[j] == prefix[j]);
                        assert(is_digit(prefix[j]));
                    }
                }
            }
            let m = out.checked_mul(10);
            let t = match m {
                Some(t) => t,
                None => {
                    proof { self::AidEscrow::lemma_overflow_none(value@, i as int); }
                    return None;
                },
            };
            let d = (b - 48) as u64;
            match t.checked_add(d) {
                Some(v) => {
                    out = v;
                },
                None => {
                    proof { self::AidEscrow::lemma_overflow_none(value@, i as int); }
                    return None;
                },
            }
            i += 1;
        }
        assert(value@.subrange(0, len as int) =~= value@);
        Some(out)
    }

    /// Once the prefix through position `i` writes more than `u64::MAX`, nothing
    /// parses: either a later byte is no digit, or the whole value is too large.
    proof fn lemma_overflow_none(s: Seq<u8>, i: int)
        requires
            0 <= i < s.len(),
            all_digits(s.subrange(0, i + 1)),
            decimal_value(s.subrange(0, i + 1)) > u64::MAX,
        ensures
            parsed_u64(s) is None,
    {
        if all_digits(s) {
            lemma_decimal_prefix_monotone(s, i + 1);
        }
    }
}

} // verus!
