use sinfo::platform::sysfs::{
    parse_int_flexible, read_string_optional, read_u32_optional, read_u64_optional,
};

#[test]
fn string_attribute_is_trimmed() {
    assert_eq!(read_string_optional(Some("  Samsung SSD 980 \n")).as_deref(), Some("Samsung SSD 980"));
    assert_eq!(read_string_optional(Some("\u{a0}value\u{3000}")).as_deref(), Some("value"));
    assert_eq!(read_string_optional(None), None);
}

#[test]
fn string_attribute_placeholders_are_absent() {
    for p in ["", "   \n", "N/A", " N/A\n", "To Be Filled By O.E.M.", "Default string", "Not Specified\n"] {
        assert_eq!(read_string_optional(Some(p)), None, "{p:?}");
    }
    assert_eq!(read_string_optional(Some("n/a")).as_deref(), Some("n/a"));
}

#[test]
fn string_attribute_reads_back_unchanged() {
    let first = read_string_optional(Some(" \tBAT0 \n")).unwrap();
    assert_eq!(read_string_optional(Some(&first)), Some(first.clone()));
}

#[test]
fn integers_decimal_and_hex() {
    assert_eq!(parse_int_flexible("42"), Some(42));
    assert_eq!(parse_int_flexible("+42"), Some(42));
    assert_eq!(parse_int_flexible("0x1F"), Some(31));
    assert_eq!(parse_int_flexible("0Xff"), Some(255));
    assert_eq!(parse_int_flexible("0x"), None);
    assert_eq!(parse_int_flexible("0x+10"), Some(16));
    assert_eq!(parse_int_flexible("-1"), None);
    assert_eq!(parse_int_flexible("+"), None);
    assert_eq!(parse_int_flexible(""), None);
    assert_eq!(parse_int_flexible("1 2"), None);
    assert_eq!(parse_int_flexible("18446744073709551615"), Some(u64::MAX));
    assert_eq!(parse_int_flexible("18446744073709551616"), None);
    assert_eq!(parse_int_flexible("0xffffffffffffffff"), Some(u64::MAX));
    assert_eq!(parse_int_flexible("0x10000000000000000"), None);
}

#[test]
fn integer_attributes() {
    assert_eq!(read_u64_optional(Some("4200000\n")), Some(4_200_000));
    assert_eq!(read_u64_optional(Some(" 0x10 ")), Some(16));
    assert_eq!(read_u64_optional(Some("N/A")), None);
    assert_eq!(read_u64_optional(None), None);
    assert_eq!(read_u32_optional(Some("7")), Some(7));
    assert_eq!(read_u32_optional(Some("4294967297")), Some(1));
    assert_eq!(read_u32_optional(Some("x")), None);
}

#[test]
fn rendered_integers_read_back() {
    for n in [0u64, 1, 9, 10, 255, 4096, 123_456_789, u64::MAX] {
        assert_eq!(parse_int_flexible(&n.to_string()), Some(n));
        assert_eq!(parse_int_flexible(&format!("0x{:x}", n)), Some(n));
        assert_eq!(parse_int_flexible(&format!("0X{:X}", n)), Some(n));
    }
}
