use history_rank::chars::{decode, is_whitespace, push_decimal, string_of, text_of};

#[test]
fn white_space_is_what_std_calls_white_space() {
    let mut code: u32 = 0;
    while code <= 0x10FFFF {
        if let Some(c) = char::from_u32(code) {
            assert_eq!(is_whitespace(c), c.is_whitespace(), "U+{:04X}", code);
        }
        code += 1;
    }
}

#[test]
fn white_space_samples() {
    assert!(is_whitespace(' '));
    assert!(is_whitespace('\t'));
    assert!(is_whitespace('\n'));
    assert!(is_whitespace('\r'));
    assert!(is_whitespace('\u{0b}'));
    assert!(is_whitespace('\u{0c}'));
    assert!(is_whitespace('\u{85}'));
    assert!(is_whitespace('\u{a0}'));
    assert!(is_whitespace('\u{1680}'));
    assert!(is_whitespace('\u{2000}'));
    assert!(is_whitespace('\u{200a}'));
    assert!(is_whitespace('\u{2028}'));
    assert!(is_whitespace('\u{2029}'));
    assert!(is_whitespace('\u{202f}'));
    assert!(is_whitespace('\u{205f}'));
    assert!(is_whitespace('\u{3000}'));
    assert!(!is_whitespace('a'));
    assert!(!is_whitespace(';'));
    assert!(!is_whitespace('\u{08}'));
    assert!(!is_whitespace('\u{0e}'));
    assert!(!is_whitespace('\u{180e}'));
    assert!(!is_whitespace('\u{200b}'));
    assert!(!is_whitespace('\u{feff}'));
    assert!(!is_whitespace('\u{fffd}'));
}

#[test]
fn text_of_lists_the_characters() {
    assert_eq!(text_of(""), Vec::<char>::new());
    assert_eq!(text_of("ls -l"), vec!['l', 's', ' ', '-', 'l']);
    assert_eq!(text_of("né\u{3000}語"), vec!['n', 'é', '\u{3000}', '語']);
}

#[test]
fn string_of_copies_a_range() {
    let text: Vec<char> = text_of("sudo apt update");
    assert_eq!(string_of(&text, 5, 8), "apt");
    assert_eq!(string_of(&text, 0, 4), "sudo");
    assert_eq!(string_of(&text, 3, 3), "");
    assert_eq!(string_of(&text, 0, text.len()), "sudo apt update");
}

#[test]
fn decode_reads_valid_text_as_it_is() {
    assert_eq!(decode("git status\n".as_bytes()), text_of("git status\n"));
    assert_eq!(decode("héllo wörld".as_bytes()), text_of("héllo wörld"));
    assert_eq!(decode(b""), Vec::<char>::new());
}

#[test]
fn decode_replaces_what_is_no_text() {
    assert_eq!(decode(b"a\xffb"), vec!['a', '\u{fffd}', 'b']);
    assert_eq!(decode(b"\xc3"), vec!['\u{fffd}']);
    assert_eq!(decode(b"\xe2\x82"), vec!['\u{fffd}']);
    assert_eq!(decode(b"\xf0\x9f\x92\x96!"), vec!['\u{1f496}', '!']);
    assert_eq!(decode(b"\xed\xa0\x80"), vec!['\u{fffd}', '\u{fffd}', '\u{fffd}']);
}

fn numeral(n: usize) -> String {
    let mut s = String::new();
    push_decimal(&mut s, n);
    s
}

#[test]
fn decimal_numerals() {
    assert_eq!(numeral(0), "0");
    assert_eq!(numeral(7), "7");
    assert_eq!(numeral(9), "9");
    assert_eq!(numeral(10), "10");
    assert_eq!(numeral(99), "99");
    assert_eq!(numeral(100), "100");
    assert_eq!(numeral(12345), "12345");
    assert_eq!(numeral(1_000_000_007), "1000000007");
    assert_eq!(numeral(usize::MAX), usize::MAX.to_string());
}

#[test]
fn decimal_is_appended() {
    let mut s = String::from("Read ");
    push_decimal(&mut s, 4096);
    assert_eq!(s, "Read 4096");
}

#[test]
fn decimal_agrees_with_std() {
    let mut n: usize = 0;
    while n < 5000 {
        assert_eq!(numeral(n), n.to_string());
        n += 1;
    }
}
