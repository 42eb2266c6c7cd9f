use sinfo::sorting::{stable_sort, str_lt};
use sinfo::text::{
    concat_str, contains_char, contains_str, decimal_string, ends_with, find_str,
    split_positions, starts_with, str_eq, trim_str,
};

#[test]
fn trimming_unicode_whitespace() {
    assert_eq!(trim_str(" \t\n\r\u{0b}\u{0c}x y\u{85}\u{2003}\u{3000}"), "x y");
    assert_eq!(trim_str("\u{200b}x"), "\u{200b}x");
    assert_eq!(trim_str("   "), "");
}

#[test]
fn searching() {
    assert_eq!(find_str("abcabc", "ca"), Some(2));
    assert_eq!(find_str("äbc", "c"), Some(2));
    assert_eq!(find_str("abc", ""), Some(0));
    assert_eq!(find_str("ab", "abc"), None);
    assert!(contains_str("DRIVER=usb-storage", "usb"));
    assert!(!contains_char("1-1", ':'));
    assert!(starts_with("nvme0n1", "nvme"));
    assert!(ends_with("500mA", "mA"));
    assert!(str_eq("a", "a") && !str_eq("a", "b"));
    assert_eq!(concat_str("USB", "\\"), "USB\\");
}

#[test]
fn splitting() {
    assert_eq!(split_positions(r"A\B\\C", '\\'), vec![(0, 1), (2, 3), (4, 4), (5, 6)]);
    assert_eq!(split_positions("", '\\'), vec![(0, 0)]);
}

#[test]
fn decimal_rendering() {
    assert_eq!(decimal_string(0), "0");
    assert_eq!(decimal_string(10), "10");
    assert_eq!(decimal_string(u64::MAX), u64::MAX.to_string());
}

#[test]
fn string_order_is_code_point_order() {
    assert!(str_lt("a", "b"));
    assert!(str_lt("", "a"));
    assert!(!str_lt("a", "a"));
    assert!(str_lt("fan10", "fan2"));
    assert!(str_lt("Z", "a"));
    assert!(str_lt("z", "é"));
    assert!(!str_lt("ab", "a"));
}

#[test]
fn empty_sort() {
    let v: Vec<sinfo::model::storage::StorageDevice> = Vec::new();
    assert!(stable_sort(v).is_empty());
}

#[test]
fn agrees_with_std_on_samples() {
    let samples = [
        "", " ", "+", "-", "+0", "0", "007", "+-1", "12a", "fF", "0x", "0x1", "0X+f", "0x-1",
        "\u{0663}", "١٢", "99999999999999999999", "ffffffffffffffff", "1_000", " 1", "1 ",
    ];
    for s in samples {
        let std_dec = s.parse::<u64>().ok();
        let std_flex = match s.strip_prefix("0x").or_else(|| s.strip_prefix("0X")) {
            Some(h) => u64::from_str_radix(h, 16).ok(),
            None => std_dec,
        };
        assert_eq!(sinfo::platform::sysfs::parse_int_flexible(s), std_flex, "{s:?}");
        assert_eq!(trim_str(s), s.trim(), "{s:?}");
    }
    let words = ["b", "a", "ab", "", "B", "é", "a", "ba"];
    for x in words {
        for y in words {
            assert_eq!(str_lt(x, y), x < y, "{x:?} {y:?}");
        }
    }
}

