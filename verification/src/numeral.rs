//! Canonical decimal text for integers: rendering through `itoa` against an
//! exact decimal specification, and a verified parser that inverts it.

use vstd::prelude::*;

use crate::error::DecodeError;
use crate::escape::B_MINUS;

verus! {

pub const B_ZERO: u8 = 0x30;

pub const B_NINE: u8 = 0x39;

/// The decimal digits of `n`, most significant first, with no leading zeros.
pub open spec fn dec_digits(n: nat) -> Seq<u8>
    decreases n,
{
    if n < 10 {
        seq![(B_ZERO + n) as u8]
    } else {
        dec_digits(n / 10) + seq![(B_ZERO + n % 10) as u8]
    }
}

/// The canonical decimal text of an unsigned integer.
pub open spec fn dec_uint(n: nat) -> Seq<u8> {
    dec_digits(n)
}

/// The canonical decimal text of a signed integer: an optional leading `-`
/// followed by the digits of the magnitude.
pub open spec fn dec_int(i: int) -> Seq<u8> {
    if i < 0 {
        seq![B_MINUS] + dec_digits((-i) as nat)
    } else {
        dec_digits(i as nat)
    }
}

pub open spec fn is_dec_digit(b: u8) -> bool {
    B_ZERO <= b <= B_NINE
}

pub open spec fn all_dec_digits(s: Seq<u8>) -> bool {
    forall|i: int| 0 <= i < s.len() ==> is_dec_digit(#[trigger] s[i])
}

/// The numeric value of a digit string, read most significant first.
pub open spec fn dec_val(s: Seq<u8>) -> int
    decreases s.len(),
{
    if s.len() == 0 {
        0
    } else {
        dec_val(s.drop_last()) * 10 + (s.last() - B_ZERO)
    }
}

/// What parsing an unsigned decimal token yields: its value when the token
/// is a non-empty digit string whose value is at most `max`; `InvalidNumber`
/// when it is empty or holds a non-digit; `Overflow` when the value exceeds
/// `max`.
pub open spec fn parse_uint_spec(s: Seq<u8>, max: int) -> Result<int, DecodeError> {
    if s.len() == 0 || !all_dec_digits(s) {
        Err(DecodeError::InvalidNumber)
    } else if dec_val(s) > max {
        Err(DecodeError::Overflow)
    } else {
        Ok(dec_val(s))
    }
}

/// What parsing a signed decimal token yields: as [`parse_uint_spec`], with
/// an optional leading `-` and the bounds `min ..= max`.
pub open spec fn parse_int_spec(s: Seq<u8>, min: int, max: int) -> Result<int, DecodeError> {
    if s.len() >= 1 && s[0] == B_MINUS {
        let t = s.skip(1);
        if t.len() == 0 || !all_dec_digits(t) {
            Err(DecodeError::InvalidNumber)
        } else if -dec_val(t) < min {
            Err(DecodeError::Overflow)
        } else {
            Ok(-dec_val(t))
        }
    } else {
        parse_uint_spec(s, max)
    }
}

/// A byte that may stand in the rendered text of a number: a digit, a sign,
/// a decimal point, an exponent marker, or a letter of `inf` and `NaN`.
pub open spec fn is_number_byte(b: u8) -> bool {
    ||| is_dec_digit(b)
    ||| b == B_MINUS
    ||| b == 0x2b  // +
    ||| b == 0x2e  // .
    ||| b == 0x65  // e
    ||| b == 0x45  // E
    ||| b == 0x69  // i
    ||| b == 0x6e  // n
    ||| b == 0x66  // f
    ||| b == 0x61  // a
    ||| b == 0x4e  // N
}

/// Rendered number text: non-empty and made of number bytes only, so that
/// it can be written as a parameter without escaping.
pub open spec fn number_text_wf(s: Seq<u8>) -> bool {
    s.len() > 0 && forall|i: int| 0 <= i < s.len() ==> is_number_byte(#[trigger] s[i])
}

/// Whether `s` may stand as rendered number text, as [`number_text_wf`]
/// says. Callers that render a number elsewhere check its text with this
/// before handing it to a writer.
pub fn is_number_text(s: &[u8]) -> (r: bool)
    ensures
        r == number_text_wf(s@),
{
    let n = s.len();
    if n == 0 {
        return false;
    }
    let mut i: usize = 0;
    while i < n
        invariant
            0 <= i <= n,
            n == s@.len(),
            forall|j: int| 0 <= j < i ==> is_number_byte(#[trigger] s@[j]),
        decreases n - i,
    {
        let b = s[i];
        let good = (b >= B_ZERO && b <= B_NINE) || b == B_MINUS || b == 0x2b || b == 0x2e || b
            == 0x65 || b == 0x45 || b == 0x69 || b == 0x6e || b == 0x66 || b == 0x61 || b == 0x4e;
        if !good {
            return false;
        }
        i = i + 1;
    }
    true
}

/// Relies on `itoa::Buffer::format`, the decimal integer formatting of
/// libcore: the canonical decimal digits of the value, no leading zeros,
/// no grouping.
#[verifier::external_body]
pub(crate) fn format_u128(v: u128) -> (r: Vec<u8>)
    ensures
        r@ == dec_uint(v as nat),
{
    let mut buffer = itoa::Buffer::new();
    buffer.format(v).as_bytes().to_vec()
}

/// Relies on `itoa::Buffer::format`, the decimal integer formatting of
/// libcore: the canonical decimal digits of the value, with a leading `-`
/// exactly when the value is negative.
#[verifier::external_body]
pub(crate) fn format_i128(v: i128) -> (r: Vec<u8>)
    ensures
        r@ == dec_int(v as int),
{
    let mut buffer = itoa::Buffer::new();
    buffer.format(v).as_bytes().to_vec()
}

/// The digits of `n` are decimal digits, and there is at least one.
pub proof fn lemma_dec_digits_wf(n: nat)
    ensures
        dec_digits(n).len() >= 1,
        all_dec_digits(dec_digits(n)),
    decreases n,
{
    if n >= 10 {
        lemma_dec_digits_wf(n / 10);
        let tail = seq![(B_ZERO + n % 10) as u8];
        assert(is_dec_digit(tail[0]));
        assert(forall|i: int|
            0 <= i < dec_digits(n).len() ==> is_dec_digit(#[trigger] dec_digits(n)[i])) by {
            assert(forall|i: int|
                0 <= i < dec_digits(n / 10).len() ==> dec_digits(n)[i] == #[trigger] dec_digits(
                    n / 10,
                )[i]);
        }
    }
}

/// Reading the digits of `n` back as a number gives `n`.
pub proof fn lemma_dec_val_of_digits(n: nat)
    ensures
        dec_val(dec_digits(n)) == n,
    decreases n,
{
    if n < 10 {
        assert(dec_digits(n).drop_last() =~= Seq::<u8>::empty());
        assert((B_ZERO + n) as u8 == B_ZERO as int + n);
        assert(dec_digits(n).last() == (B_ZERO + n) as u8);
        assert(dec_val(Seq::<u8>::empty()) == 0);
    } else {
        lemma_dec_val_of_digits(n / 10);
        assert(dec_digits(n).drop_last() =~= dec_digits(n / 10));
        assert(dec_digits(n).last() == (B_ZERO + n % 10) as u8);
        assert(n % 10 < 10);
        assert(dec_digits(n).last() - B_ZERO == n % 10);
        assert((n / 10) * 10 + n % 10 == n) by {
            vstd::arithmetic::div_mod::lemma_fundamental_div_mod(n as int, 10);
        }
    }
}

/// A digit string's value is never negative.
pub proof fn lemma_dec_val_nonneg(s: Seq<u8>)
    requires
        all_dec_digits(s),
    ensures
        dec_val(s) >= 0,
    decreases s.len(),
{
    if s.len() > 0 {
        assert(all_dec_digits(s.drop_last())) by {
            assert(forall|i: int| 0 <= i < s.len() - 1 ==> s.drop_last()[i] == #[trigger] s[i]);
        }
        lemma_dec_val_nonneg(s.drop_last());
        assert(is_dec_digit(s.last()));
    }
}

/// Parsing inverts rendering for unsigned integers up to `max`.
pub proof fn lemma_parse_uint_round_trip(n: nat, max: int)
    requires
        n <= max,
    ensures
        parse_uint_spec(dec_uint(n), max) == Ok::<int, DecodeError>(n as int),
{
    lemma_dec_digits_wf(n);
    lemma_dec_val_of_digits(n);
}

/// Parsing inverts rendering for signed integers within `min ..= max`.
pub proof fn lemma_parse_int_round_trip(i: int, min: int, max: int)
    requires
        min <= i <= max,
        min <= 0 <= max,
    ensures
        parse_int_spec(dec_int(i), min, max) == Ok::<int, DecodeError>(i),
{
    if i < 0 {
        let m = (-i) as nat;
        lemma_dec_digits_wf(m);
        lemma_dec_val_of_digits(m);
        let s = dec_int(i);
        assert(s[0] == B_MINUS);
        assert(s.skip(1) =~= dec_digits(m));
    } else {
        lemma_dec_digits_wf(i as nat);
        lemma_dec_val_of_digits(i as nat);
        let s = dec_int(i);
        assert(s == dec_digits(i as nat));
        assert(is_dec_digit(s[0]));
        assert(s[0] != B_MINUS);
    }
}

/// Parses the digit string standing in `s` from `start` to the end as an
/// unsigned number.
pub(crate) fn parse_mag(s: &[u8], start: usize) -> (r: Result<u128, DecodeError>)
    requires
        start <= s@.len(),
    ensures
        match r {
            Ok(v) => parse_uint_spec(s@.skip(start as int), u128::MAX as int) == Ok::<int, DecodeError>(v as int),
            Err(e) => parse_uint_spec(s@.skip(start as int), u128::MAX as int) == Err::<int, DecodeError>(e),
        },
{
    let ghost tok = s@.skip(start as int);
    let n = s.len();
    if start >= n {
        assert(tok.len() == 0);
        return Err(DecodeError::InvalidNumber);
    }
    let mut acc: u128 = 0;
    let mut over: bool = false;
    let mut i: usize = start;
    proof {
        assert(s@.subrange(start as int, start as int) =~= Seq::<u8>::empty());
    }
    while i < n
        invariant
            start <= i <= n,
            n == s@.len(),
            tok == s@.skip(start as int),
            forall|j: int| start <= j < i ==> is_dec_digit(#[trigger] s@[j]),
            !over ==> acc as int == dec_val(s@.subrange(start as int, i as int)),
            over ==> dec_val(s@.subrange(start as int, i as int)) > u128::MAX as int,
        decreases n - i,
    {
        let b = s[i];
        if b < B_ZERO || b > B_NINE {
            assert(tok[i - start] == s@[i as int]);
            assert(!all_dec_digits(tok));
            return Err(DecodeError::InvalidNumber);
        }
        let d = (b - B_ZERO) as u128;
        proof {
            assert(s@.subrange(start as int, i + 1).drop_last() =~= s@.subrange(
                start as int,
                i as int,
            ));
            assert(s@.subrange(start as int, i + 1).last() == s@[i as int]);
        }
        if over {
            proof {
                let prev = dec_val(s@.subrange(start as int, i as int));
                assert(dec_val(s@.subrange(start as int, i + 1)) == prev * 10 + (b - B_ZERO));
            }
        } else {
            let next = match acc.checked_mul(10) {
                Some(m) => m.checked_add(d),
                None => None,
            };
            match next {
                Some(v) => {
                    acc = v;
                },
                None => {
                    over = true;
                },
            }
        }
        i = i + 1;
    }
    proof {
        assert(s@.subrange(start as int, n as int) =~= tok);
        assert(forall|j: int| 0 <= j < tok.len() ==> is_dec_digit(#[trigger] tok[j])) by {
            assert(forall|j: int| 0 <= j < tok.len() ==> tok[j] == #[trigger] s@[j + start]);
        }
    }
    if over {
        Err(DecodeError::Overflow)
    } else {
        Ok(acc)
    }
}

/// Parses an unsigned decimal token, as [`parse_uint_spec`] says.
pub fn parse_u128(s: &[u8]) -> (r: Result<u128, DecodeError>)
    ensures
        match r {
            Ok(v) => parse_uint_spec(s@, u128::MAX as int) == Ok::<int, DecodeError>(v as int),
            Err(e) => parse_uint_spec(s@, u128::MAX as int) == Err::<int, DecodeError>(e),
        },
{
    proof {
        assert(s@.skip(0) =~= s@);
    }
    parse_mag(s, 0)
}

pub const I128_MIN_MAG: u128 = 170141183460469231731687303715884105728;

/// Parses a signed decimal token, as [`parse_int_spec`] says.
pub fn parse_i128(s: &[u8]) -> (r: Result<i128, DecodeError>)
    ensures
        match r {
            Ok(v) => parse_int_spec(s@, i128::MIN as int, i128::MAX as int) == Ok::<int, DecodeError>(v as int),
            Err(e) => parse_int_spec(s@, i128::MIN as int, i128::MAX as int) == Err::<int, DecodeError>(e),
        },
{
    if s.len() >= 1 && s[0] == B_MINUS {
        match parse_mag(s, 1) {
            Ok(mag) => {
                if mag > I128_MIN_MAG {
                    Err(DecodeError::Overflow)
                } else if mag == I128_MIN_MAG {
                    Ok(i128::MIN)
                } else {
                    Ok(-(mag as i128))
                }
            },
            Err(e) => {
                if e == DecodeError::Overflow {
                    proof {
                        let t = s@.skip(1);
                        assert(dec_val(t) > u128::MAX as int);
                        assert(-dec_val(t) < i128::MIN as int);
                    }
                    Err(DecodeError::Overflow)
                } else {
                    Err(e)
                }
            },
        }
    } else {
        match parse_mag(s, 0) {
            Ok(v) => {
                proof {
                    assert(s@.skip(0) =~= s@);
                }
                if v > i128::MAX as u128 {
                    Err(DecodeError::Overflow)
                } else {
                    Ok(v as i128)
                }
            },
            Err(e) => {
                proof {
                    assert(s@.skip(0) =~= s@);
                }
                if e == DecodeError::Overflow {
                    Err(DecodeError::Overflow)
                } else {
                    Err(e)
                }
            },
        }
    }
}

} // verus!
