use nulconnect_helper::ipv4::{network_address, parse_address, Ipv4Addr};
use nulconnect_helper::number::{decimal_string, numeral_chars, parse_decimal};
use nulconnect_helper::sorted::sort_dedup;
use nulconnect_helper::text::{
    chars_of, holds_text, lines_of, split_first, split_last, split_on, string_of, to_lower,
    trim_string, trimmed_class, words_of, CharClass,
};

fn strings(parts: Vec<Vec<char>>) -> Vec<String> {
    parts.iter().map(|p| p.iter().collect()).collect()
}

#[test]
fn characters_make_the_text_again() {
    for s in ["", "plain", "grüße 🦀 \u{3000}"] {
        assert_eq!(string_of(&chars_of(s)), s);
    }
}

#[test]
fn trimming_takes_unicode_white_space() {
    for s in ["", "  a b \t\n", "\u{a0}\u{2003}x\u{3000}", " \u{85}\u{1680} "] {
        assert_eq!(trim_string(s), s.trim());
    }
}

#[test]
fn trimming_a_class_takes_nothing_else() {
    let s = chars_of(" .. a.b .\t");
    assert_eq!(string_of(trimmed_class(&s, CharClass::DotOrWhite)), "a.b");
    let s = chars_of("[::1]");
    assert_eq!(string_of(trimmed_class(&s, CharClass::Bracket)), "::1");
}

#[test]
fn lines_are_those_of_the_standard_library() {
    for s in ["", "\n", "a", "a\n", "a\nb", "a\r\nb\r\n", "a\rb\n\nc\r", "\r\n\n"] {
        let expected: Vec<String> = s.lines().map(str::to_string).collect();
        assert_eq!(strings(lines_of(&chars_of(s))), expected, "{s:?}");
    }
}

#[test]
fn parts_are_those_of_the_standard_library() {
    for s in ["", ".", "a", "a.b", ".a..b."] {
        let expected: Vec<String> = s.split('.').map(str::to_string).collect();
        assert_eq!(strings(split_on(&chars_of(s), '.')), expected, "{s:?}");
    }
}

#[test]
fn words_are_those_of_the_standard_library() {
    for s in ["", "  ", "a", " a  bc\td\n", "x\u{3000}y"] {
        let expected: Vec<String> = s.split_whitespace().map(str::to_string).collect();
        assert_eq!(strings(words_of(&chars_of(s))), expected, "{s:?}");
    }
}

#[test]
fn splitting_at_the_first_and_the_last_differs() {
    let s = chars_of("a:b:c");
    let (head, tail) = split_first(&s, ':').unwrap();
    assert_eq!((string_of(head), string_of(tail)), ("a".into(), "b:c".into()));
    let (head, tail) = split_last(&s, ':').unwrap();
    assert_eq!((string_of(head), string_of(tail)), ("a:b".into(), "c".into()));
    assert!(split_first(&s, '/').is_none());
    assert!(split_last(&s, '/').is_none());
}

#[test]
fn only_ascii_letters_change_their_case() {
    assert_eq!(string_of(&to_lower(&chars_of("AbZ-09 ÄÖ"))), "abz-09 ÄÖ");
}

#[test]
fn a_text_is_found_anywhere() {
    let s = chars_of("gateway: 10.0.0.1");
    assert!(holds_text(&s, "10.0"));
    assert!(holds_text(&s, "gate"));
    assert!(holds_text(&s, "0.1"));
    assert!(holds_text(&s, ""));
    assert!(!holds_text(&s, "10.1"));
    assert!(!holds_text(&chars_of(""), "a"));
}

#[test]
fn numbers_are_written_in_their_base() {
    assert_eq!(decimal_string(0), "0");
    assert_eq!(decimal_string(u64::MAX), "18446744073709551615");
    assert_eq!(string_of(&numeral_chars(0xdeadbeef, 16, 0)), "deadbeef");
    assert_eq!(string_of(&numeral_chars(7, 10, 3)), "007");
    assert_eq!(string_of(&numeral_chars(12345, 10, 3)), "12345");
}

#[test]
fn numbers_are_read_as_the_standard_library_reads_them() {
    for s in ["", "+", "0", "007", "+7", "255", "256", "-1", "1 ", "25x", "65535", "65536"] {
        let c = chars_of(s);
        assert_eq!(parse_decimal(&c, 255), s.parse::<u8>().ok().map(u32::from), "{s:?}");
        assert_eq!(parse_decimal(&c, 65535), s.parse::<u16>().ok().map(u32::from), "{s:?}");
        assert_eq!(parse_decimal(&c, u32::MAX), s.parse::<u32>().ok(), "{s:?}");
    }
    assert_eq!(parse_decimal(&chars_of("4294967296"), u32::MAX), None);
}

#[test]
fn a_written_number_is_read_back() {
    for n in [0u32, 9, 10, 99, 4096, u32::MAX] {
        assert_eq!(parse_decimal(&chars_of(&decimal_string(n as u64)), u32::MAX), Some(n));
    }
}

#[test]
fn addresses_are_read_as_the_standard_library_reads_them() {
    for s in [
        "0.0.0.0", "192.0.2.10", "255.255.255.255", "1.2.3", "1.2.3.4.5", "1.2.3.256", "01.2.3.4",
        "1.2.3.+4", " 1.2.3.4", "", "a.b.c.d", "1..2.3",
    ] {
        let expected = s.parse::<smoltcp::wire::Ipv4Address>().ok().map(u32::from);
        assert_eq!(parse_address(&chars_of(s)).map(|ip| ip.bits), expected, "{s:?}");
    }
}

#[test]
fn a_written_address_is_read_back() {
    for bits in [0u32, 1, 0x7f00_0001, 0xc000_020a, u32::MAX] {
        let ip = Ipv4Addr { bits };
        assert_eq!(ip.to_text(), smoltcp::wire::Ipv4Address::from(bits).to_string());
        assert_eq!(parse_address(&chars_of(&ip.to_text())), Some(ip));
    }
}

#[test]
fn octets_make_the_address() {
    let ip = Ipv4Addr::new(192, 0, 2, 10);
    assert_eq!(ip.bits, 0xc000_020a);
    assert_eq!(ip.octets(), [192, 0, 2, 10]);
    assert!(Ipv4Addr::new(127, 9, 9, 9).is_loopback());
    assert!(!Ipv4Addr::new(128, 0, 0, 1).is_loopback());
    assert!(Ipv4Addr::unspecified().is_unspecified());
}

#[test]
fn the_network_of_an_address_is_its_masked_bits() {
    let ip = Ipv4Addr::new(10, 11, 12, 13);
    for prefix in 0u8..=32 {
        let mask = if prefix == 0 { 0 } else { u32::MAX << (32 - prefix as u32) };
        assert_eq!(network_address(ip, prefix).bits, ip.bits & mask, "{prefix}");
    }
}

#[test]
fn sorting_keeps_one_of_each() {
    let v: Vec<String> =
        ["b", "a", "", "b", "ä", "a", "Z", "aa"].iter().map(|s| s.to_string()).collect();
    let mut expected = v.clone();
    expected.sort();
    expected.dedup();
    assert_eq!(sort_dedup(v), expected);
}
