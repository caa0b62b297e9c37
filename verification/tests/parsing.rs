use history_rank::chars::text_of;
use history_rank::history::{count_commands, count_commands_in};
use history_rank::line::{command_in, command_of_line, find_char, is_sudo, next_word, skip_spaces, skip_word};
use history_rank::tally::{CommandCount, Tally};
use std::collections::HashMap;

fn name_of(line: &str) -> Option<String> {
    command_of_line(line)
}

fn pairs(tally: &Tally) -> Vec<(String, usize)> {
    tally.entries().iter().map(|e: &CommandCount| (e.name.clone(), e.count)).collect()
}

#[test]
fn plain_line_gives_its_first_word() {
    assert_eq!(name_of("git status"), Some("git".to_string()));
    assert_eq!(name_of("ls"), Some("ls".to_string()));
    assert_eq!(name_of("   cd   /tmp  "), Some("cd".to_string()));
    assert_eq!(name_of("\tmake\ttest"), Some("make".to_string()));
}

#[test]
fn prefix_up_to_the_first_semicolon_is_dropped() {
    assert_eq!(name_of(": 1600000000:0;git status"), Some("git".to_string()));
    assert_eq!(name_of(": 1600000000:0;  ls -la"), Some("ls".to_string()));
    assert_eq!(name_of("a;b;c"), Some("b;c".to_string()));
    assert_eq!(name_of("a; b ;c"), Some("b".to_string()));
    assert_eq!(name_of(";x"), Some("x".to_string()));
}

#[test]
fn lines_without_a_command_give_nothing() {
    assert_eq!(name_of(""), None);
    assert_eq!(name_of("   "), None);
    assert_eq!(name_of("\t \r"), None);
    assert_eq!(name_of(";"), None);
    assert_eq!(name_of(": 1600000000:0;"), None);
    assert_eq!(name_of("ls;"), None);
    assert_eq!(name_of("ls;   \u{2003}"), None);
}

#[test]
fn sudo_gives_the_word_behind_it() {
    assert_eq!(name_of("sudo apt update"), Some("apt".to_string()));
    assert_eq!(name_of(": 1600000002:0;sudo apt update"), Some("apt".to_string()));
    assert_eq!(name_of("  sudo\t\tsystemctl restart x"), Some("systemctl".to_string()));
    assert_eq!(name_of("sudo sudo"), Some("sudo".to_string()));
}

#[test]
fn sudo_alone_gives_sudo() {
    assert_eq!(name_of("sudo"), Some("sudo".to_string()));
    assert_eq!(name_of("sudo   "), Some("sudo".to_string()));
    assert_eq!(name_of("x;sudo"), Some("sudo".to_string()));
}

#[test]
fn words_that_only_look_like_sudo_are_names() {
    assert_eq!(name_of("sudoers x"), Some("sudoers".to_string()));
    assert_eq!(name_of("Sudo x"), Some("Sudo".to_string()));
    assert_eq!(name_of("sud o"), Some("sud".to_string()));
    assert_eq!(name_of("xsudo y"), Some("xsudo".to_string()));
}

#[test]
fn scanning_stays_inside_its_range() {
    let text: Vec<char> = text_of("ab;cd  ef\ngh");
    assert_eq!(find_char(&text, 0, text.len(), ';'), 2);
    assert_eq!(find_char(&text, 3, text.len(), ';'), text.len());
    assert_eq!(find_char(&text, 0, 2, ';'), 2);
    assert_eq!(find_char(&text, 0, text.len(), '\n'), 9);
    assert_eq!(find_char(&text, 4, 4, 'd'), 4);
    assert_eq!(skip_spaces(&text, 5, text.len()), 7);
    assert_eq!(skip_spaces(&text, 5, 6), 6);
    assert_eq!(skip_spaces(&text, 0, text.len()), 0);
    assert_eq!(skip_word(&text, 0, text.len()), 5);
    assert_eq!(skip_word(&text, 7, text.len()), 9);
    assert_eq!(skip_word(&text, 10, text.len()), 12);
    assert_eq!(skip_word(&text, 5, text.len()), 5);
    assert_eq!(next_word(&text, 5, text.len()), (7, 9));
    assert_eq!(next_word(&text, 5, 7), (7, 7));
    assert_eq!(next_word(&text, 9, text.len()), (10, 12));
    assert_eq!(next_word(&text, 12, 12), (12, 12));
}

#[test]
fn sudo_is_recognised_in_a_range() {
    let text: Vec<char> = text_of("sudo sudox su");
    assert!(is_sudo(&text, 0, 4));
    assert!(!is_sudo(&text, 0, 3));
    assert!(!is_sudo(&text, 5, 10));
    assert!(is_sudo(&text, 5, 9));
    assert!(!is_sudo(&text, 11, 13));
    assert!(!is_sudo(&text, 4, 4));
}

#[test]
fn command_in_reads_one_line_of_a_text() {
    let text: Vec<char> = text_of("ls -l\n: 1:0;sudo apt\n\nvim");
    assert_eq!(command_in(&text, 0, 5), Some("ls".to_string()));
    assert_eq!(command_in(&text, 6, 20), Some("apt".to_string()));
    assert_eq!(command_in(&text, 6, 16), Some("sudo".to_string()));
    assert_eq!(command_in(&text, 21, 21), None);
    assert_eq!(command_in(&text, 22, 25), Some("vim".to_string()));
}

#[test]
fn counting_keeps_the_order_of_first_appearance() {
    let text: Vec<char> = text_of("b\na x\nb y\n\nc\na\na\n");
    let tally = count_commands(&text);
    assert_eq!(
        pairs(&tally),
        vec![("b".to_string(), 2), ("a".to_string(), 3), ("c".to_string(), 1)]
    );
    assert_eq!(tally.len(), 3);
    assert!(!tally.is_empty());
}

#[test]
fn counting_an_empty_text_gives_an_empty_tally() {
    let text: Vec<char> = Vec::new();
    let tally = count_commands(&text);
    assert!(tally.is_empty());
    assert_eq!(tally.len(), 0);
    assert!(count_commands_in(b"\n\n  \n").is_empty());
}

#[test]
fn counting_bytes_decodes_them_first() {
    let tally = count_commands_in(b"caf\xc3\xa9 au lait\ncaf\xc3\xa9\ncaf\xe9\n");
    assert_eq!(pairs(&tally), vec![("café".to_string(), 2), ("caf\u{fffd}".to_string(), 1)]);
}

#[test]
fn tally_counts_what_is_recorded() {
    let mut tally = Tally::new();
    assert!(tally.is_empty());
    tally.record("ls".to_string());
    tally.record("cd".to_string());
    tally.record("ls".to_string());
    tally.record("".to_string());
    tally.record("ls".to_string());
    assert_eq!(
        pairs(&tally),
        vec![("ls".to_string(), 3), ("cd".to_string(), 1), ("".to_string(), 1)]
    );
}

fn reference_counts(bytes: &[u8]) -> HashMap<String, usize> {
    let mut counts: HashMap<String, usize> = HashMap::new();
    let content = String::from_utf8_lossy(bytes);
    for line in content.lines() {
        let part = match line.find(';') {
            Some(at) => line[at + 1..].trim(),
            None => line.trim(),
        };
        if part.is_empty() {
            continue;
        }
        let mut words = part.split_whitespace();
        let first = words.next().unwrap_or("");
        let name = if first == "sudo" { words.next().unwrap_or(first) } else { first };
        if !name.is_empty() {
            *counts.entry(name.to_string()).or_default() += 1;
        }
    }
    counts
}

fn same_counts(bytes: &[u8]) {
    let expected = reference_counts(bytes);
    let tally = count_commands_in(bytes);
    let got: HashMap<String, usize> = pairs(&tally).into_iter().collect();
    assert_eq!(got.len(), tally.len());
    assert_eq!(got, expected);
}

#[test]
fn counts_agree_with_the_std_text_functions() {
    same_counts(b"");
    same_counts(b"\n");
    same_counts(b"\r\n");
    same_counts(b"ls");
    same_counts(b"ls\r");
    same_counts(b"ls\r\nls -la\r\ncd /tmp\r\n");
    same_counts(b"ls\rcd\n");
    same_counts(b"a\n\nb\n\n\n");
    same_counts(b": 1600000000:0;git status\n: 1600000001:0;git status\n: 1600000002:0;sudo apt update\n");
    same_counts(b"sudo\nsudo \nsudo sudo\nsudo\tls\n ; sudo ; ls\n");
    same_counts(b";;\n;a;b\na;;b\n ; \n");
    same_counts(b"\xff\xfe\n\xc3\x28 x\nls\xf0\x9f\n\xe2\x80\x83ls\n");
    same_counts("ls\u{a0}x\n\u{3000}cd\u{2028}y\nsudo\u{85}apt\u{1680}z\n\u{200b}w\n".as_bytes());
    same_counts("\u{b}vt\n\u{c}ff\n\u{1c}fs\n\u{1f}us\n".as_bytes());
}

#[test]
fn counts_agree_on_generated_histories() {
    let pieces: [&[u8]; 14] = [
        b"ls", b"sudo", b" ", b";", b"\n", b"\r", b"\t", b"git", b": 1:0;", b"\xff", b"\xc2\xa0",
        b"cd", b"\r\n", b"  ",
    ];
    let mut seed: u64 = 0x2545F4914F6CDD1D;
    let mut round: usize = 0;
    while round < 400 {
        let mut bytes: Vec<u8> = Vec::new();
        let mut k: usize = 0;
        while k < 24 {
            seed ^= seed << 13;
            seed ^= seed >> 7;
            seed ^= seed << 17;
            bytes.extend_from_slice(pieces[(seed % 14) as usize]);
            k += 1;
        }
        same_counts(&bytes);
        round += 1;
    }
}

#[test]
fn tally_looks_up_single_names() {
    let text: Vec<char> = text_of("ls\ncd\nls\nsudo ls\n");
    let tally = count_commands(&text);
    assert_eq!(tally.count("ls"), 3);
    assert_eq!(tally.count("cd"), 1);
    assert_eq!(tally.count("sudo"), 0);
    assert_eq!(tally.count(""), 0);
    assert_eq!(Tally::new().count("ls"), 0);
}
