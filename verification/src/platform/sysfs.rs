//! The meaning of sysfs attribute files. A caller reads the file and hands
//! over its contents (`None` where the file could not be read as text); the
//! functions here decide what value, if any, the contents stand for.
use vstd::prelude::*;
use crate::numparse::{
    all_digits, is_digit, lemma_decimal_digits, lemma_hex_digits, opt_nat, opt_nat32, parse_radix,
    parse_unsigned, unsigned_body,
};
use crate::text::{
    decimal, has_prefix, hex_string, is_white_space, lemma_trim_idempotent, str_eq, starts_with,
    trim, trim_end, trim_start, trim_str, to_owned_string,
};

verus! {

/// Text that firmware and drivers write where no real value is known.
pub open spec fn is_placeholder(t: Seq<char>) -> bool {
    ||| t.len() == 0
    ||| t == "N/A"@
    ||| t == "To Be Filled By O.E.M."@
    ||| t == "Default string"@
    ||| t == "Not Specified"@
}

/// The value that the text `raw` of an attribute file stands for: the text
/// without surrounding whitespace, unless that is empty or a placeholder.
pub open spec fn clean_value(raw: Seq<char>) -> Option<Seq<char>> {
    let t = trim(raw);
    if is_placeholder(t) {
        None
    } else {
        Some(t)
    }
}

/// The string value of an attribute whose file gave `contents`.
pub open spec fn string_attr(contents: Option<Seq<char>>) -> Option<Seq<char>> {
    match contents {
        Some(raw) => clean_value(raw),
        None => None,
    }
}

/// The integer written as `s`: hexadecimal after a `0x` or `0X` prefix, decimal otherwise.
pub open spec fn flexible_int(s: Seq<char>) -> Option<nat> {
    if has_prefix(s, "0x"@) || has_prefix(s, "0X"@) {
        parse_unsigned(s.skip(2), 16, u64::MAX as nat)
    } else {
        parse_unsigned(s, 10, u64::MAX as nat)
    }
}

/// The integer value of an attribute whose file gave `contents`.
pub open spec fn u64_attr(contents: Option<Seq<char>>) -> Option<nat> {
    match string_attr(contents) {
        Some(s) => flexible_int(s),
        None => None,
    }
}

/// The integer value of an attribute, kept to its low 32 bits (an `as u32` cast).
pub open spec fn u32_attr(contents: Option<Seq<char>>) -> Option<nat> {
    match u64_attr(contents) {
        Some(v) => Some(v % 0x1_0000_0000),
        None => None,
    }
}

/// A value read from an attribute is read unchanged from a file that holds
/// just that value: cleaning is idempotent.
pub proof fn law_clean_value_idempotent(raw: Seq<char>)
    ensures
        clean_value(raw) matches Some(v) ==> clean_value(v) == Some(v),
{
    lemma_trim_idempotent(raw);
}

/// An integer written in decimal, or in hexadecimal after `0x` (lower-case
/// digits) or `0X` (upper-case digits), is read back as that integer.
pub proof fn law_parse_rendered_int(n: u64)
    ensures
        flexible_int(decimal(n as nat)) == Some(n as nat),
        flexible_int("0x"@ + hex_string(n as nat, false)) == Some(n as nat),
        flexible_int("0X"@ + hex_string(n as nat, true)) == Some(n as nat),
{
    reveal_strlit("0x");
    reveal_strlit("0X");
    assert("0x"@.len() == 2 && "0X"@.len() == 2);
    assert("0x"@[1] == 'x' && "0X"@[1] == 'X');
    let d = decimal(n as nat);
    lemma_decimal_digits(n as nat);
    assert(is_digit(d[0], 10));
    assert(unsigned_body(d) == d);
    if d.len() >= 2 {
        assert(is_digit(d[1], 10));
        assert(!has_prefix(d, "0x"@)) by {
            if has_prefix(d, "0x"@) {
                assert(d.subrange(0, 2)[1] == d[1]);
            }
        }
        assert(!has_prefix(d, "0X"@)) by {
            if has_prefix(d, "0X"@) {
                assert(d.subrange(0, 2)[1] == d[1]);
            }
        }
    }
    let lo = hex_string(n as nat, false);
    let up = hex_string(n as nat, true);
    lemma_hex_digits(n as nat, false);
    lemma_hex_digits(n as nat, true);
    assert(is_digit(lo[0], 16) && is_digit(up[0], 16));
    assert(("0x"@ + lo).subrange(0, 2) =~= "0x"@);
    assert(("0x"@ + lo).skip(2) =~= lo);
    assert(("0X"@ + up).subrange(0, 2) =~= "0X"@);
    assert(("0X"@ + up).skip(2) =~= up);
    assert(unsigned_body(lo) == lo);
    assert(unsigned_body(up) == up);
}

/// Only the listed placeholders are absent: an attribute whose text, without
/// surrounding whitespace, is anything but empty, `N/A`,
/// `To Be Filled By O.E.M.`, `Default string` or `Not Specified` is read as
/// that text, and one of those is read as no value.
pub proof fn law_non_placeholder_text_is_read(raw: Seq<char>)
    ensures
        ({
            let t = trim(raw);
            t.len() > 0 && t != "N/A"@ && t != "To Be Filled By O.E.M."@ && t != "Default string"@
                && t != "Not Specified"@
        }) ==> string_attr(Some(raw)) == Some(trim(raw)),
        ({
            let t = trim(raw);
            t.len() == 0 || t == "N/A"@ || t == "To Be Filled By O.E.M."@ || t == "Default string"@
                || t == "Not Specified"@
        }) ==> string_attr(Some(raw)) is None,
{
}

proof fn lemma_decimal_digit_is_not_space(c: char)
    requires
        is_digit(c, 10),
    ensures
        !is_white_space(c),
        48 <= c as u32 <= 57,
{
}

/// Decimal digits are kept whole by trimming, also when a newline follows.
proof fn lemma_trim_digits(d: Seq<char>)
    requires
        d.len() > 0,
        all_digits(d, 10),
    ensures
        trim(d) == d,
        trim(d.push('\n')) == d,
{
    lemma_decimal_digit_is_not_space(d[0]);
    lemma_decimal_digit_is_not_space(d.last());
    assert(trim_start(d) == d);
    assert(trim_end(d) == d);
    let e = d.push('\n');
    assert(e[0] == d[0]);
    assert(trim_start(e) == e);
    assert(is_white_space(e.last()));
    assert(e.drop_last() =~= d);
    assert(trim_end(e) == trim_end(d));
}

/// An integer written in decimal (as the kernel writes `cycle_count` or
/// `energy_full`), with or without the newline that ends the file, is read
/// back as that integer: no decimal number is taken for a placeholder.
pub proof fn law_decimal_attribute_read_back(n: u64)
    ensures
        string_attr(Some(decimal(n as nat))) == Some(decimal(n as nat)),
        string_attr(Some(decimal(n as nat).push('\n'))) == Some(decimal(n as nat)),
        u64_attr(Some(decimal(n as nat))) == Some(n as nat),
        u64_attr(Some(decimal(n as nat).push('\n'))) == Some(n as nat),
        u32_attr(Some(decimal(n as nat).push('\n'))) == Some((n as nat) % 0x1_0000_0000),
{
    let d = decimal(n as nat);
    lemma_decimal_digits(n as nat);
    lemma_trim_digits(d);
    lemma_decimal_digit_is_not_space(d[0]);
    reveal_strlit("N/A");
    reveal_strlit("To Be Filled By O.E.M.");
    reveal_strlit("Default string");
    reveal_strlit("Not Specified");
    assert("N/A"@.len() == 3);
    assert("To Be Filled By O.E.M."@.len() == 22);
    assert("Default string"@.len() == 14);
    assert("Not Specified"@.len() == 13);
    assert(d != "N/A"@) by {
        if d == "N/A"@ {
            assert(d[0] == 'N');
        }
    }
    assert(d != "To Be Filled By O.E.M."@) by {
        if d == "To Be Filled By O.E.M."@ {
            assert(d[0] == 'T');
        }
    }
    assert(d != "Default string"@) by {
        if d == "Default string"@ {
            assert(d[0] == 'D');
        }
    }
    assert(d != "Not Specified"@) by {
        if d == "Not Specified"@ {
            assert(d[0] == 'N');
        }
    }
    assert(!is_placeholder(d));
    law_parse_rendered_int(n);
}

/// The string value of an attribute file with the given contents.
pub fn read_string_optional(contents: Option<&str>) -> (r: Option<String>)
    ensures
        r.deep_view() == string_attr(contents.deep_view()),
        contents matches Some(raw) ==> (r is None <==> ({
            let t = trim(raw@);
            t.len() == 0 || t == "N/A"@ || t == "To Be Filled By O.E.M."@ || t == "Default string"@
                || t == "Not Specified"@
        })),
{
    match contents {
        None => None,
        Some(raw) => {
            let t = trim_str(raw);
            if t.unicode_len() == 0 || str_eq(t, "N/A") || str_eq(t, "To Be Filled By O.E.M.")
                || str_eq(t, "Default string") || str_eq(t, "Not Specified") {
                None
            } else {
                Some(to_owned_string(t))
            }
        },
    }
}

/// The integer written as `s`, in hexadecimal after `0x`/`0X`, else in decimal.
pub fn parse_int_flexible(s: &str) -> (r: Option<u64>)
    ensures
        opt_nat(r) == flexible_int(s@),
{
    if starts_with(s, "0x") || starts_with(s, "0X") {
        proof {
            reveal_strlit("0x");
            reveal_strlit("0X");
        }
        let n: usize = s.unicode_len();
        let hex = s.substring_char(2, n);
        assert(hex@ =~= s@.skip(2));
        parse_radix(hex, 16, u64::MAX)
    } else {
        parse_radix(s, 10, u64::MAX)
    }
}

/// The integer value of an attribute file with the given contents.
pub fn read_u64_optional(contents: Option<&str>) -> (r: Option<u64>)
    ensures
        opt_nat(r) == u64_attr(contents.deep_view()),
{
    match read_string_optional(contents) {
        Some(s) => parse_int_flexible(s.as_str()),
        None => None,
    }
}

/// The integer value of an attribute file, truncated to 32 bits.
pub fn read_u32_optional(contents: Option<&str>) -> (r: Option<u32>)
    ensures
        opt_nat32(r) == u32_attr(contents.deep_view()),
{
    match read_u64_optional(contents) {
        Some(v) => {
            assert(v as u32 == v % 0x1_0000_0000) by (bit_vector);
            let t: u32 = #[verifier::truncate] (v as u32);
            Some(t)
        },
        None => None,
    }
}

} // verus!
