//! Parsing of unsigned integers from text, with the acceptance rules of
//! `from_str_radix` (and `str::parse`) for unsigned integer types: an optional
//! single leading `+`, then at least one digit of the radix (letters in either
//! case), and a value that fits the target type.
use vstd::prelude::*;
use crate::text::{decimal, hex_digit_char, hex_string};

verus! {

/// The value of `c` as a digit in base 36; 36 for a character that is no digit at all.
pub open spec fn digit_value(c: char) -> nat {
    let u = c as u32;
    if 48 <= u <= 57 {
        (u - 48) as nat
    } else if 97 <= u <= 122 {
        (u - 87) as nat
    } else if 65 <= u <= 90 {
        (u - 55) as nat
    } else {
        36
    }
}

/// `c` is a digit in base `radix`.
pub open spec fn is_digit(c: char, radix: nat) -> bool {
    digit_value(c) < radix
}

/// Every character of `s` is a digit in base `radix`.
pub open spec fn all_digits(s: Seq<char>, radix: nat) -> bool {
    forall|i: int| 0 <= i < s.len() ==> is_digit(#[trigger] s[i], radix)
}

/// The value of the digit string `s`, most significant digit first.
pub open spec fn digits_value(s: Seq<char>, radix: nat) -> nat
    decreases s.len(),
{
    if s.len() == 0 {
        0
    } else {
        digits_value(s.drop_last(), radix) * radix + digit_value(s.last())
    }
}

/// The digits that follow an optional leading `+`.
pub open spec fn unsigned_body(s: Seq<char>) -> Seq<char> {
    if s.len() > 0 && s[0] == '+' {
        s.drop_first()
    } else {
        s
    }
}

/// What `from_str_radix(s, radix)` gives for an unsigned type whose largest value is `max`.
pub open spec fn parse_unsigned(s: Seq<char>, radix: nat, max: nat) -> Option<nat> {
    let body = unsigned_body(s);
    if body.len() > 0 && all_digits(body, radix) && digits_value(body, radix) <= max {
        Some(digits_value(body, radix))
    } else {
        None
    }
}

/// `Option<nat>` view of an optional machine integer.
pub open spec fn opt_nat(o: Option<u64>) -> Option<nat> {
    match o {
        Some(v) => Some(v as nat),
        None => None,
    }
}

/// `Option<nat>` view of an optional `u32`.
pub open spec fn opt_nat32(o: Option<u32>) -> Option<nat> {
    match o {
        Some(v) => Some(v as nat),
        None => None,
    }
}

/// `Option<nat>` view of an optional `u16`.
pub open spec fn opt_nat16(o: Option<u16>) -> Option<nat> {
    match o {
        Some(v) => Some(v as nat),
        None => None,
    }
}

/// `Option<nat>` view of an optional `u8`.
pub open spec fn opt_nat8(o: Option<u8>) -> Option<nat> {
    match o {
        Some(v) => Some(v as nat),
        None => None,
    }
}

proof fn lemma_digits_value_push(s: Seq<char>, c: char, radix: nat)
    ensures
        digits_value(s.push(c), radix) == digits_value(s, radix) * radix + digit_value(c),
{
    assert(s.push(c).drop_last() =~= s);
}

/// The decimal rendering of `n` is a non-empty string of decimal digits
/// whose value is `n`.
pub proof fn lemma_decimal_digits(n: nat)
    ensures
        decimal(n).len() > 0,
        all_digits(decimal(n), 10),
        digits_value(decimal(n), 10) == n,
    decreases n,
{
    if n < 10 {
        lemma_digits_value_push(Seq::empty(), decimal(n)[0], 10);
        assert(Seq::<char>::empty().push(decimal(n)[0]) =~= decimal(n));
    } else {
        let s = decimal(n / 10);
        lemma_decimal_digits(n / 10);
        lemma_digits_value_push(s, decimal(n).last(), 10);
        assert(s.push(decimal(n).last()) =~= decimal(n));
        assert forall|i: int| 0 <= i < decimal(n).len() implies is_digit(
            #[trigger] decimal(n)[i],
            10,
        ) by {
            if i < s.len() {
                assert(decimal(n)[i] == s[i]);
            }
        }
    }
}

proof fn lemma_hex_digit_value(d: nat, upper: bool)
    requires
        d < 16,
    ensures
        digit_value(hex_digit_char(d, upper)) == d,
{
}

/// The hexadecimal rendering of `n` is a non-empty string of hexadecimal
/// digits whose value is `n`.
pub proof fn lemma_hex_digits(n: nat, upper: bool)
    ensures
        hex_string(n, upper).len() > 0,
        all_digits(hex_string(n, upper), 16),
        digits_value(hex_string(n, upper), 16) == n,
    decreases n,
{
    let h = hex_string(n, upper);
    if n < 16 {
        lemma_hex_digit_value(n, upper);
        lemma_digits_value_push(Seq::empty(), h[0], 16);
        assert(Seq::<char>::empty().push(h[0]) =~= h);
    } else {
        let s = hex_string(n / 16, upper);
        lemma_hex_digits(n / 16, upper);
        lemma_hex_digit_value(n % 16, upper);
        lemma_digits_value_push(s, h.last(), 16);
        assert(s.push(h.last()) =~= h);
        assert forall|i: int| 0 <= i < h.len() implies is_digit(#[trigger] h[i], 16) by {
            if i < s.len() {
                assert(h[i] == s[i]);
            }
        }
    }
}

proof fn lemma_digits_value_grows(s: Seq<char>, radix: nat, k: int)
    requires
        radix >= 1,
        0 <= k <= s.len(),
    ensures
        digits_value(s.take(k), radix) <= digits_value(s, radix),
    decreases s.len(),
{
    if k < s.len() {
        lemma_digits_value_grows(s.drop_last(), radix, k);
        assert(s.drop_last().take(k) =~= s.take(k));
        let v = digits_value(s.drop_last(), radix);
        assert(v <= v * radix) by (nonlinear_arith)
            requires
                radix >= 1,
        ;
    } else {
        assert(s.take(k) =~= s);
    }
}

/// The digit value of `c`, as `digit_value` gives it.
pub fn char_digit_value(c: char) -> (r: u32)
    ensures
        r == digit_value(c),
{
    let u: u32 = c as u32;
    if 48 <= u && u <= 57 {
        u - 48
    } else if 97 <= u && u <= 122 {
        u - 87
    } else if 65 <= u && u <= 90 {
        u - 55
    } else {
        36
    }
}

/// `from_str_radix(s, radix)` for an unsigned type whose largest value is `max`.
pub fn parse_radix(s: &str, radix: u32, max: u64) -> (r: Option<u64>)
    requires
        2 <= radix <= 36,
    ensures
        opt_nat(r) == parse_unsigned(s@, radix as nat, max as nat),
{
    let n: usize = s.unicode_len();
    let mut start: usize = 0;
    if n > 0 && s.get_char(0) == '+' {
        start = 1;
    }
    let ghost body = unsigned_body(s@);
    assert(body =~= s@.subrange(start as int, n as int));
    if start == n {
        return None;
    }
    let mut acc: u64 = 0;
    let mut i: usize = start;
    assert(body.take(0) =~= Seq::<char>::empty());
    while i < n
        invariant
            start <= i <= n,
            start < n,
            n == s@.len(),
            body == s@.subrange(start as int, n as int),
            body == unsigned_body(s@),
            2 <= radix <= 36,
            all_digits(body.take((i - start) as int), radix as nat),
            acc as nat == digits_value(body.take((i - start) as int), radix as nat),
            acc <= max,
        decreases n - i,
    {
        let d: u32 = char_digit_value(s.get_char(i));
        let k: usize = i - start;
        assert(body[k as int] == s@[i as int]);
        assert(body.take(k + 1).drop_last() =~= body.take(k as int));
        assert(body.take(k + 1).last() == body[k as int]);
        if d >= radix {
            assert(!is_digit(body[k as int], radix as nat));
            assert(!all_digits(body, radix as nat));
            return None;
        }
        assert((acc as u128) * (radix as u128) <= 0xFFFF_FFFF_FFFF_FFFFu128 * 36u128)
            by (nonlinear_arith)
            requires
                radix <= 36,
        ;
        let next: u128 = (acc as u128) * (radix as u128) + (d as u128);
        assert(digits_value(body.take(k + 1), radix as nat) == acc * radix + d);
        if next > max as u128 {
            proof {
                lemma_digits_value_grows(body, radix as nat, k + 1);
                assert(digits_value(body, radix as nat) > max);
            }
            return None;
        }
        acc = next as u64;
        i = i + 1;
        assert(all_digits(body.take((i - start) as int), radix as nat)) by {
            assert forall|t: int| 0 <= t < (i - start) implies is_digit(
                #[trigger] body.take((i - start) as int)[t],
                radix as nat,
            ) by {
                if t < k {
                    assert(body.take((i - start) as int)[t] == body.take(k as int)[t]);
                }
            }
        }
    }
    assert(body.take((n - start) as int) =~= body);
    Some(acc)
}

} // verus!
