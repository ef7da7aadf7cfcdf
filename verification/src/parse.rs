//! Reading text as a decimal integer.
//!
//! An object key is always text. A target that wants an integer key gets one
//! when the whole text is a decimal literal within the wanted width.

use crate::decoded::Decoded;
use crate::number::integer_out;
use crate::shape::IntWidth;
use vstd::prelude::*;
use vstd::string::*;
use vstd::utf8::is_ascii_chars;

verus! {

/// The value of a decimal digit.
pub open spec fn digit_of(c: char) -> Option<nat> {
    if '0' <= c && c <= '9' {
        Some((c as nat - '0' as nat) as nat)
    } else {
        None
    }
}

/// The number that a run of decimal digits denotes; the empty run denotes
/// zero. `None` if some character is not a digit.
pub open spec fn digits_value(s: Seq<char>) -> Option<nat>
    decreases s.len(),
{
    if s.len() == 0 {
        Some(0)
    } else {
        match (digits_value(s.drop_last()), digit_of(s.last())) {
            (Some(v), Some(d)) => Some(10 * v + d),
            _ => None,
        }
    }
}

/// The integer that a decimal literal denotes: an optional sign, then one or
/// more digits, and nothing else.
pub open spec fn integer_value(s: Seq<char>) -> Option<int> {
    if s.len() == 0 {
        None
    } else if s[0] == '+' || s[0] == '-' {
        if s.len() == 1 {
            None
        } else {
            match digits_value(s.skip(1)) {
                Some(v) => Some(
                    if s[0] == '-' {
                        -(v as int)
                    } else {
                        v as int
                    },
                ),
                None => None,
            }
        }
    } else {
        match digits_value(s) {
            Some(v) => Some(v as int),
            None => None,
        }
    }
}

/// The integer of the given width that a key's text denotes. An unsigned
/// width takes no minus sign, not even before zero.
pub open spec fn key_integer(s: Seq<char>, width: IntWidth) -> Option<int> {
    match integer_value(s) {
        Some(v) => if width.lower() <= v <= width.upper() && (width.is_signed() || s[0] != '-') {
            Some(v)
        } else {
            None
        },
        None => None,
    }
}

/// A run that holds a character that is no digit denotes nothing.
proof fn lemma_digits_need_digits(s: Seq<char>, k: int)
    requires
        0 <= k < s.len(),
        digit_of(s[k]) is None,
    ensures
        digits_value(s) is None,
    decreases s.len(),
{
    if k < s.len() - 1 {
        lemma_digits_need_digits(s.drop_last(), k);
    }
}

/// Every prefix of a run of digits is a run of digits, and denotes no more
/// than the whole.
proof fn lemma_digits_prefix(s: Seq<char>, k: int)
    requires
        0 <= k <= s.len(),
        digits_value(s) is Some,
    ensures
        digits_value(s.take(k)) is Some,
        digits_value(s.take(k))->0 <= digits_value(s)->0,
    decreases s.len(),
{
    if k == s.len() {
        assert(s.take(k) =~= s);
    } else {
        lemma_digits_prefix(s.drop_last(), k);
        assert(s.drop_last().take(k) =~= s.take(k));
    }
}

/// A decimal literal is made of ASCII characters only.
proof fn lemma_integer_is_ascii(s: Seq<char>)
    requires
        integer_value(s) is Some,
    ensures
        is_ascii_chars(s),
{
    assert forall|i: int| 0 <= i < s.len() implies '\0' <= #[trigger] s[i] <= '\u{7f}' by {
        if s[0] == '+' || s[0] == '-' {
            if i > 0 {
                if digit_of(s[i]) is None {
                    assert(s.skip(1)[i - 1] == s[i]);
                    lemma_digits_need_digits(s.skip(1), i - 1);
                }
            }
        } else {
            if digit_of(s[i]) is None {
                lemma_digits_need_digits(s, i);
            }
        }
    }
}

/// A run's value, if it does not exceed the limit.
pub open spec fn within(v: Option<nat>, limit: u128) -> Option<u128> {
    match v {
        Some(x) => if x <= limit {
            Some(x as u128)
        } else {
            None
        },
        None => None,
    }
}

/// Reads the digits of `s` from position `from` to its end.
fn parse_digits(s: &str, from: usize, limit: u128) -> (r: Option<u128>)
    requires
        is_ascii_chars(s@),
        from <= s@.len(),
    ensures
        r == within(digits_value(s@.skip(from as int)), limit),
{
    let n: usize = s.unicode_len();
    let mut i: usize = from;
    let mut acc: u128 = 0;
    let ghost tail = s@.skip(from as int);
    while i < n
        invariant
            from <= i <= n,
            n == s@.len(),
            is_ascii_chars(s@),
            tail == s@.skip(from as int),
            digits_value(tail.take(i - from)) == Some(acc as nat),
            acc <= limit,
        decreases n - i,
    {
        let b: u8 = s.get_ascii(i);
        assert(tail[i - from] == s@[i as int]);
        if b < 48 || b > 57 {
            proof {
                lemma_digits_need_digits(tail, i - from);
            }
            return None;
        }
        let d: u128 = (b - 48) as u128;
        proof {
            assert(tail.take(i + 1 - from).drop_last() =~= tail.take(i - from));
            assert(tail.take(i + 1 - from).last() == s@[i as int]);
            assert(digit_of(s@[i as int]) == Some(d as nat));
            assert(digits_value(tail.take(i + 1 - from)) == Some((10 * acc + d) as nat));
            if digits_value(tail) is Some {
                lemma_digits_prefix(tail, i + 1 - from);
            }
        }
        let next: Option<u128> = match acc.checked_mul(10) {
            Some(m) => m.checked_add(d),
            None => None,
        };
        match next {
            Some(v) => {
                if v > limit {
                    return None;
                }
                acc = v;
            },
            None => {
                return None;
            },
        }
        i += 1;
    }
    assert(tail.take(i - from) =~= tail);
    Some(acc)
}

/// Reads the whole of `s` as a decimal integer of the given width.
///
/// Returns the integer when `s` is an optional sign followed by one or more
/// digits and the value lies within the width; a minus sign is taken by
/// signed widths only. Returns `None` otherwise.
pub fn parse_integer(s: &str, width: IntWidth) -> (r: Option<Decoded<'static>>)
    ensures
        match key_integer(s@, width) {
            Some(v) => r matches Some(d) && d@ == integer_out(v, width),
            None => r is None,
        },
{
    if !s.is_ascii() {
        proof {
            if integer_value(s@) is Some {
                lemma_integer_is_ascii(s@);
            }
        }
        return None;
    }
    let n: usize = s.unicode_len();
    if n == 0 {
        return None;
    }
    let first: u8 = s.get_ascii(0);
    if first == 45 {
        if n == 1 || !width.signed() {
            return None;
        }
        let limit: u128 = width.greatest() + 1;
        match parse_digits(s, 1, limit) {
            Some(m) => {
                if m == 0x8000_0000_0000_0000_0000_0000_0000_0000 {
                    Some(Decoded::Int(i128::MIN))
                } else {
                    Some(Decoded::Int(-(m as i128)))
                }
            },
            None => None,
        }
    } else {
        let from: usize = if first == 43 {
            1
        } else {
            0
        };
        if n == from {
            return None;
        }
        assert(s@.skip(0) =~= s@);
        match parse_digits(s, from, width.greatest()) {
            Some(m) => {
                if width.signed() {
                    Some(Decoded::Int(m as i128))
                } else {
                    Some(Decoded::UInt(m))
                }
            },
            None => None,
        }
    }
}

/// Whether the whole of `s` is a decimal integer literal, of whatever
/// size.
pub fn is_integer(s: &str) -> (r: bool)
    ensures
        r == (integer_value(s@) is Some),
{
    if !s.is_ascii() {
        proof {
            if integer_value(s@) is Some {
                lemma_integer_is_ascii(s@);
            }
        }
        return false;
    }
    let n: usize = s.unicode_len();
    if n == 0 {
        return false;
    }
    let first: u8 = s.get_ascii(0);
    let from: usize = if first == 45 || first == 43 {
        1
    } else {
        0
    };
    if n == from {
        return false;
    }
    let ghost tail = s@.skip(from as int);
    assert(s@.skip(0) =~= s@);
    let mut i: usize = from;
    while i < n
        invariant
            from <= i <= n,
            n == s@.len(),
            is_ascii_chars(s@),
            tail == s@.skip(from as int),
            from == 0 ==> tail == s@,
            from == 0 || from == 1,
            from == 1 <==> (s@[0] == '+' || s@[0] == '-'),
            digits_value(tail.take(i - from)) is Some,
        decreases n - i,
    {
        let b: u8 = s.get_ascii(i);
        assert(tail[i - from] == s@[i as int]);
        if b < 48 || b > 57 {
            proof {
                lemma_digits_need_digits(tail, i - from);
            }
            return false;
        }
        proof {
            assert(tail.take(i + 1 - from).drop_last() =~= tail.take(i - from));
            assert(tail.take(i + 1 - from).last() == s@[i as int]);
            assert(digit_of(s@[i as int]) is Some);
        }
        i += 1;
    }
    assert(tail.take(i - from) =~= tail);
    true
}

/// The character of a decimal digit.
pub open spec fn digit_char(d: nat) -> char {
    if d == 0 {
        '0'
    } else if d == 1 {
        '1'
    } else if d == 2 {
        '2'
    } else if d == 3 {
        '3'
    } else if d == 4 {
        '4'
    } else if d == 5 {
        '5'
    } else if d == 6 {
        '6'
    } else if d == 7 {
        '7'
    } else if d == 8 {
        '8'
    } else {
        '9'
    }
}

/// The decimal digits of a number, without leading zeros.
pub open spec fn decimal(n: nat) -> Seq<char>
    decreases n,
{
    if n < 10 {
        seq![digit_char(n)]
    } else {
        decimal(n / 10).push(digit_char(n % 10))
    }
}

/// The decimal literal of an integer: a minus sign where it is negative,
/// then its digits.
pub open spec fn integer_text(v: int) -> Seq<char> {
    if v < 0 {
        seq!['-'] + decimal((-v) as nat)
    } else {
        decimal(v as nat)
    }
}

/// The digits of a number denote that number, and begin with a digit.
pub proof fn lemma_decimal_value(n: nat)
    ensures
        digits_value(decimal(n)) == Some(n),
        decimal(n).len() > 0,
        digit_of(decimal(n)[0]) is Some,
    decreases n,
{
    if n < 10 {
        let s = decimal(n);
        assert(s =~= seq![digit_char(n)]);
        assert(s.drop_last() =~= Seq::<char>::empty());
        assert(digits_value(s.drop_last()) == Some(0nat));
        assert(digit_of(s.last()) == Some(n));
    } else {
        lemma_decimal_value(n / 10);
        let s = decimal(n);
        let head = decimal(n / 10);
        assert(s == head.push(digit_char(n % 10)));
        assert(s.drop_last() =~= head);
        assert(digit_of(s.last()) == Some(n % 10));
        assert(s[0] == head[0]);
    }
}

/// The literal of an integer denotes that integer.
pub proof fn lemma_integer_text_value(v: int)
    ensures
        integer_value(integer_text(v)) == Some(v),
        v >= 0 ==> integer_text(v)[0] != '-',
{
    let s = integer_text(v);
    if v < 0 {
        let digits = decimal((-v) as nat);
        lemma_decimal_value((-v) as nat);
        assert(s.skip(1) =~= digits);
        assert(s[0] == '-');
    } else {
        lemma_decimal_value(v as nat);
        assert(digit_of(s[0]) is Some);
    }
}

/// Reading back what was written: the literal of an integer within a width
/// is read by that width as the same integer.
pub proof fn lemma_key_integer_round_trip(v: int, width: IntWidth)
    requires
        width.lower() <= v <= width.upper(),
    ensures
        key_integer(integer_text(v), width) == Some(v),
{
    lemma_integer_text_value(v);
}

} // verus!
