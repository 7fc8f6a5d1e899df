use kata_device_provisioner::numeral::{decimal, hex, parse_pid, signed_decimal};
use kata_device_provisioner::order::{at_most, sort, sort_unique};
use kata_device_provisioner::text::{
    contains, holds, is_white_space, join, same, strip_suffix, trim, underscored,
};

fn strings(list: &[&str]) -> Vec<String> {
    list.iter().map(|text| text.to_string()).collect()
}

const TEXTS: [&str; 12] = [
    "", "a", "b", "ab", "ba", "abc", "-", "a-b_c", "\u{e9}", "\u{10ffff}", "\u{ffff}", "A",
];

#[test]
fn white_space_is_what_std_takes_for_it() {
    for c in '\0'..=char::MAX {
        assert_eq!(is_white_space(c), c.is_whitespace());
    }
}

#[test]
fn trimming_is_that_of_std() {
    for text in ["", " ", "\n", "a", " a", "a\n", "\t a b \r\n", "\u{3000}x\u{a0}"] {
        assert_eq!(trim(text), text.trim());
    }
}

#[test]
fn comparing_is_that_of_std() {
    for a in TEXTS {
        for b in TEXTS {
            assert_eq!(same(a, b), a == b);
            assert_eq!(at_most(a, b), a <= b);
            assert_eq!(contains(a, b), a.contains(b));
            assert_eq!(strip_suffix(a, b), a.strip_suffix(b).map(str::to_string));
        }
        assert_eq!(underscored(a), a.replace('-', "_"));
    }
}

#[test]
fn sorting_is_that_of_std() {
    let list = strings(&["b", "a", "", "b", "ab", "\u{e9}", "a"]);
    let mut sorted = list.clone();
    sorted.sort();
    assert_eq!(sort(&list), sorted);
    sorted.dedup();
    assert_eq!(sort_unique(&list), sorted);
}

#[test]
fn joining_puts_the_separator_between() {
    assert_eq!(join(&strings(&[]), ", "), "");
    assert_eq!(join(&strings(&["a"]), ", "), "a");
    assert_eq!(join(&strings(&["a", "", "c"]), ", "), "a, , c");
    assert!(holds(&strings(&["a", "b"]), "b"));
    assert!(!holds(&strings(&["a", "b"]), "c"));
}

#[test]
fn numerals_are_those_of_std() {
    for n in [0u64, 1, 9, 10, 15, 16, 255, 256, 65535, 0x10de, u64::MAX] {
        assert_eq!(decimal(n), n.to_string());
        assert_eq!(hex(n, 4), format!("{n:04x}"));
        assert_eq!(hex(n, 0), format!("{n:x}"));
    }
    for n in [i64::MIN, -10, -1, 0, 1, i64::MAX] {
        assert_eq!(signed_decimal(n), n.to_string());
    }
}

#[test]
fn a_pid_is_read_as_std_reads_it() {
    for text in [
        "", "0", "1", "4242", "+7", "-1", "+", "4294967295", "4294967296", "00000000000000017",
        "1a", "self", " 1", "++1", "99999999999999999999",
    ] {
        assert_eq!(parse_pid(text), text.parse::<u32>().ok(), "{text}");
    }
}
