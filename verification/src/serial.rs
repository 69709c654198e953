//! Serial strings. A stored serial is the canonical decimal form of a
//! positive integer; this module parses the user-supplied form back into the
//! number, rejecting every string that cannot equal a stored serial.

use vstd::prelude::*;

verus! {

/// Is `c` an ASCII decimal digit?
pub open spec fn is_ascii_digit(c: char) -> bool {
    48 <= c as u32 && c as u32 <= 57
}

/// The numeric value of a decimal digit.
pub open spec fn digit_value(c: char) -> nat {
    (c as u32 - 48) as nat
}

/// The number a digit string denotes, most significant digit first.
pub open spec fn decimal_value(s: Seq<char>) -> nat
    decreases s.len(),
{
    if s.len() == 0 {
        0
    } else {
        decimal_value(s.drop_last()) * 10 + digit_value(s.last())
    }
}

/// A canonical serial string: at least one digit, digits only, and no
/// leading zero — exactly the strings a recorded serial is stored as.
pub open spec fn is_canonical_serial(s: Seq<char>) -> bool {
    &&& s.len() > 0
    &&& forall|i: int| 0 <= i < s.len() ==> is_ascii_digit(#[trigger] s[i])
    &&& s[0] as u32 != 48
}

/// A longer digit prefix never denotes a smaller number.
proof fn lemma_decimal_value_prefix_le(s: Seq<char>, i: int, j: int)
    requires
        0 <= i <= j <= s.len(),
    ensures
        decimal_value(s.take(i)) <= decimal_value(s.take(j)),
    decreases j - i,
{
    if i < j {
        lemma_decimal_value_prefix_le(s, i, j - 1);
        assert(s.take(j).drop_last() =~= s.take(j - 1));
        assert(decimal_value(s.take(j)) == decimal_value(s.take(j - 1)) * 10 + digit_value(
            s.take(j).last(),
        ));
    }
}

/// Parses a serial string. Returns the denoted number exactly when the
/// string is the canonical decimal form of a positive integer that fits in
/// a `u64`; every other string matches no stored serial and is rejected.
pub fn parse_serial(s: &str) -> (r: Option<u64>)
    ensures
        match r {
            Some(n) => is_canonical_serial(s@) && decimal_value(s@) == n as nat,
            None => !is_canonical_serial(s@) || decimal_value(s@) > u64::MAX,
        },
{
    let n = s.unicode_len();
    if n == 0 {
        return None;
    }
    if s.get_char(0) as u32 == 48 {
        return None;
    }
    let mut acc: u64 = 0;
    let mut i: usize = 0;
    while i < n
        invariant
            i <= n,
            n == s@.len(),
            0 < s@.len(),
            s@[0] as u32 != 48,
            forall|j: int| 0 <= j < i ==> is_ascii_digit(#[trigger] s@[j]),
            acc as nat == decimal_value(s@.take(i as int)),
        decreases n - i,
    {
        let c = s.get_char(i) as u32;
        if c < 48 || c > 57 {
            proof {
                assert(!is_ascii_digit(s@[i as int]));
            }
            return None;
        }
        let d = (c - 48) as u64;
        proof {
            assert(s@.take(i + 1).drop_last() =~= s@.take(i as int));
            assert(s@.take(i + 1).last() == s@[i as int]);
            assert(decimal_value(s@.take(i + 1)) == acc as nat * 10 + digit_value(s@[i as int]));
        }
        let next = match acc.checked_mul(10) {
            Some(a) => a,
            None => {
                proof {
                    lemma_decimal_value_prefix_le(s@, i + 1, s@.len() as int);
                    assert(s@.take(s@.len() as int) =~= s@);
                }
                return None;
            },
        };
        acc = match next.checked_add(d) {
            Some(a) => a,
            None => {
                proof {
                    lemma_decimal_value_prefix_le(s@, i + 1, s@.len() as int);
                    assert(s@.take(s@.len() as int) =~= s@);
                }
                return None;
            },
        };
        i += 1;
    }
    proof {
        assert(s@.take(n as int) =~= s@);
    }
    Some(acc)
}

} // verus!
