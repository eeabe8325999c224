//! Reading the exit status that a command-end marker carries.

use vstd::prelude::*;

verus! {

/// The exit code reported when a command-end marker carries no valid integer.
pub const EXIT_CODE_UNKNOWN: i32 = -1;

/// ASCII `+`.
pub const PLUS: u8 = 0x2b;

/// ASCII `-`.
pub const MINUS: u8 = 0x2d;

/// ASCII `0`.
pub const ZERO: u8 = 0x30;

/// ASCII `9`.
pub const NINE: u8 = 0x39;

pub open spec fn is_digit(b: u8) -> bool {
    ZERO <= b <= NINE
}

pub open spec fn all_digits(s: Seq<u8>) -> bool {
    forall|i: int| 0 <= i < s.len() ==> is_digit(#[trigger] s[i])
}

/// The number that a sequence of ASCII digits denotes in base ten.
pub open spec fn digits_value(s: Seq<u8>) -> nat
    decreases s.len(),
{
    if s.len() == 0 {
        0
    } else {
        10 * digits_value(s.drop_last()) + (s.last() - ZERO) as nat
    }
}

/// The integer that `s` denotes: an optional sign followed by at least one
/// digit, and nothing else.
pub open spec fn decimal_value(s: Seq<u8>) -> Option<int> {
    if s.len() > 0 && (s[0] == PLUS || s[0] == MINUS) {
        let digits = s.skip(1);
        if digits.len() > 0 && all_digits(digits) {
            Some(
                if s[0] == MINUS {
                    -(digits_value(digits) as int)
                } else {
                    digits_value(digits) as int
                },
            )
        } else {
            None
        }
    } else if s.len() > 0 && all_digits(s) {
        Some(digits_value(s) as int)
    } else {
        None
    }
}

/// The exit code that a command-end payload stands for: its decimal value
/// where that is a 32-bit signed integer, `EXIT_CODE_UNKNOWN` otherwise.
pub open spec fn exit_code_of(payload: Seq<u8>) -> int {
    match decimal_value(payload) {
        Some(v) => if i32::MIN <= v <= i32::MAX {
            v
        } else {
            EXIT_CODE_UNKNOWN as int
        },
        None => EXIT_CODE_UNKNOWN as int,
    }
}

/// Appending a digit multiplies the value by ten and adds the digit.
pub proof fn lemma_digits_value_push(s: Seq<u8>, d: u8)
    ensures
        digits_value(s.push(d)) == 10 * digits_value(s) + (d - ZERO) as nat,
{
    assert(s.push(d).drop_last() =~= s);
}

/// Reads the exit code out of the payload of a command-end marker.
pub fn parse_exit_code(payload: &[u8]) -> (code: i32)
    ensures
        code == exit_code_of(payload@),
{
    let n = payload.len();
    if n == 0 {
        return EXIT_CODE_UNKNOWN;
    }
    let negative = payload[0] == MINUS;
    let start: usize = if payload[0] == PLUS || payload[0] == MINUS {
        1
    } else {
        0
    };
    if start == n {
        return EXIT_CODE_UNKNOWN;
    }
    let ghost digits = payload@.skip(start as int);
    proof {
        if start == 0 {
            assert(digits =~= payload@);
        }
    }
    let bound: i64 = 2147483648;
    let mut magnitude: i64 = 0;
    let mut i: usize = start;
    while i < n
        invariant
            start <= i <= n,
            n == payload.len(),
            start == if payload@[0] == PLUS || payload@[0] == MINUS {
                1int
            } else {
                0int
            },
            digits == payload@.skip(start as int),
            bound == 2147483648,
            all_digits(digits.take(i - start)),
            0 <= magnitude,
            digits_value(digits.take(i - start)) <= bound ==> magnitude == digits_value(
                digits.take(i - start),
            ),
            digits_value(digits.take(i - start)) > bound ==> magnitude > bound,
            magnitude <= 10 * bound + 9,
        decreases n - i,
    {
        let b = payload[i];
        let ghost seen = digits.take(i - start);
        let ghost next = digits.take(i + 1 - start);
        proof {
            assert(digits[i - start] == b);
            assert(next =~= seen.push(b));
            lemma_digits_value_push(seen, b);
        }
        if b < ZERO || b > NINE {
            proof {
                assert(!is_digit(digits[i - start]));
                if start == 0 {
                    assert(digits =~= payload@);
                }
            }
            return EXIT_CODE_UNKNOWN;
        }
        if magnitude <= bound {
            magnitude = 10 * magnitude + (b - ZERO) as i64;
        }
        i = i + 1;
    }
    proof {
        assert(digits.take(n - start) =~= digits);
    }
    if negative {
        if magnitude <= bound {
            (-magnitude) as i32
        } else {
            EXIT_CODE_UNKNOWN
        }
    } else {
        if magnitude < bound {
            magnitude as i32
        } else {
            EXIT_CODE_UNKNOWN
        }
    }
}

} // verus!
