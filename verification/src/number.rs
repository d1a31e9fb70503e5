//! Unsigned numbers written in a radix from 2 to 36.

use vstd::prelude::*;

verus! {

/// What a byte is worth as a digit: `0` to `9` are worth their number, the
/// letters `a` to `z`, in either case, ten to thirty-five.
pub open spec fn digit_value(byte: u8) -> Option<nat> {
    if 0x30 <= byte <= 0x39 {
        Some((byte - 0x30) as nat)
    } else if 0x61 <= byte <= 0x7a {
        Some((byte - 0x61 + 10) as nat)
    } else if 0x41 <= byte <= 0x5a {
        Some((byte - 0x41 + 10) as nat)
    } else {
        None
    }
}

/// The number that a row of digits stands for in `radix`, where every byte
/// is a digit below `radix`. No digits at all stand for zero.
pub open spec fn digits_value(digits: Seq<u8>, radix: nat) -> Option<nat>
    decreases digits.len(),
{
    if digits.len() == 0 {
        Some(0)
    } else {
        match (digits_value(digits.drop_last(), radix), digit_value(digits.last())) {
            (Some(high), Some(low)) => if low < radix {
                Some(high * radix + low)
            } else {
                None
            },
            _ => None,
        }
    }
}

/// The number that `text` stands for in `radix`: an optional `+`, then at
/// least one digit and nothing else.
pub open spec fn radix_value(text: Seq<u8>, radix: nat) -> Option<nat> {
    let digits = if text.len() > 0 && text[0] == 0x2b {
        text.drop_first()
    } else {
        text
    };
    if digits.len() == 0 {
        None
    } else {
        digits_value(digits, radix)
    }
}

/// The number that `text` stands for in `radix`, where it is at most `limit`.
pub open spec fn radix_value_within(text: Seq<u8>, radix: nat, limit: nat) -> Option<nat> {
    match radix_value(text, radix) {
        Some(value) => if value <= limit {
            Some(value)
        } else {
            None
        },
        None => None,
    }
}

/// Where a row of digits stands for a number, each of its beginnings stands
/// for a number that is no larger.
pub proof fn lemma_digits_grow(digits: Seq<u8>, count: int, radix: nat)
    requires
        0 <= count <= digits.len(),
        digits_value(digits, radix) is Some,
    ensures
        digits_value(digits.take(count), radix) is Some,
        digits_value(digits.take(count), radix)->0 <= digits_value(digits, radix)->0,
    decreases digits.len(),
{
    if count == digits.len() {
        assert(digits.take(count) =~= digits);
    } else {
        let shorter = digits.drop_last();
        lemma_digits_grow(shorter, count, radix);
        assert(shorter.take(count) =~= digits.take(count));
        let high = digits_value(shorter, radix)->0;
        assert(high <= high * radix) by (nonlinear_arith)
            requires
                radix >= 1,
        ;
    }
}

/// The worth of `byte` as a digit.
fn digit_of(byte: u8) -> (digit: Option<u8>)
    ensures
        digit is Some == digit_value(byte) is Some,
        digit matches Some(d) ==> digit_value(byte) == Some(d as nat),
{
    if 0x30 <= byte && byte <= 0x39 {
        Some(byte - 0x30)
    } else if 0x61 <= byte && byte <= 0x7a {
        Some(byte - 0x61 + 10)
    } else if 0x41 <= byte && byte <= 0x5a {
        Some(byte - 0x41 + 10)
    } else {
        None
    }
}

/// Reads the unsigned number that `text` stands for in `radix`. There is
/// none where `text` is empty or a lone sign, where it holds anything but
/// digits of the radix behind an optional `+`, and where the number is
/// larger than `limit`.
pub fn parse_radix(text: &[u8], radix: u32, limit: u64) -> (value: Option<u64>)
    requires
        2 <= radix <= 36,
    ensures
        value is Some == radix_value_within(text@, radix as nat, limit as nat) is Some,
        value matches Some(v) ==> radix_value_within(text@, radix as nat, limit as nat) == Some(
            v as nat,
        ),
{
    let length = text.len();
    let first: usize = if length > 0 && text[0] == 0x2b {
        1
    } else {
        0
    };
    if first == length {
        return None;
    }
    let ghost digits = if first == 1 {
        text@.drop_first()
    } else {
        text@
    };
    proof {
        assert(digits =~= text@.subrange(first as int, length as int));
        assert(digits.take(0) =~= Seq::<u8>::empty());
    }
    let mut total: u64 = 0;
    let mut at: usize = first;
    while at < length
        invariant
            2 <= radix <= 36,
            first <= at <= length,
            length == text@.len(),
            first <= 1,
            digits == text@.subrange(first as int, length as int),
            radix_value(text@, radix as nat) == digits_value(digits, radix as nat),
            digits_value(digits.take(at - first), radix as nat) == Some(total as nat),
            total <= limit,
        decreases length - at,
    {
        let ghost seen = digits.take(at - first + 1);
        proof {
            assert(seen.drop_last() =~= digits.take(at - first));
            assert(seen.last() == text@[at as int]);
        }
        let digit = match digit_of(text[at]) {
            Some(digit) => digit,
            None => {
                proof {
                    if digits_value(digits, radix as nat) is Some {
                        lemma_digits_grow(digits, at - first + 1, radix as nat);
                    }
                }
                return None;
            },
        };
        if digit as u32 >= radix {
            proof {
                if digits_value(digits, radix as nat) is Some {
                    lemma_digits_grow(digits, at - first + 1, radix as nat);
                }
            }
            return None;
        }
        assert(total * radix + digit <= u64::MAX * 36 + 36) by (nonlinear_arith)
            requires
                total <= u64::MAX,
                radix <= 36,
                digit <= 36,
        ;
        let wide: u128 = total as u128 * radix as u128 + digit as u128;
        if wide > limit as u128 {
            proof {
                if digits_value(digits, radix as nat) is Some {
                    lemma_digits_grow(digits, at - first + 1, radix as nat);
                }
            }
            return None;
        }
        total = wide as u64;
        at += 1;
    }
    proof {
        assert(digits.take(at - first) =~= digits);
    }
    Some(total)
}

} // verus!
