use history_rank::screen::{format_row, is_control, present, push_spaces, Screen};
use history_rank::tally::CommandCount;

fn entry(name: &str, count: usize) -> CommandCount {
    CommandCount { name: name.to_string(), count }
}

#[test]
fn control_characters_are_what_std_calls_control() {
    let mut code: u32 = 0;
    while code <= 0x10FFFF {
        if let Some(c) = char::from_u32(code) {
            assert_eq!(is_control(c), c.is_control(), "U+{:04X}", code);
        }
        code += 1;
    }
}

#[test]
fn rows_are_laid_out_in_columns() {
    assert_eq!(format_row(1, &entry("git", 42)), "   1. git                       42");
    assert_eq!(format_row(20, &entry("ls", 1)), "  20. ls                        1");
    assert_eq!(format_row(100, &entry("x", 0)), "  100. x                         0");
}

#[test]
fn long_names_are_not_cut() {
    let name = "a-command-name-that-is-longer-than-the-column";
    assert_eq!(format_row(3, &entry(name, 7)), format!("   3. {} 7", name));
    let exact = "abcdefghijklmnopqrstuvwxy";
    assert_eq!(exact.chars().count(), 25);
    assert_eq!(format_row(3, &entry(exact, 7)), format!("   3. {} 7", exact));
}

#[test]
fn names_are_padded_by_characters_not_bytes() {
    assert_eq!(format_row(2, &entry("grüße", 3)), format!("  {:>2}. {:<25} {}", 2, "grüße", 3));
    assert_eq!(format_row(2, &entry("git\u{fffd}", 3)), format!("  {:>2}. {:<25} {}", 2, "git\u{fffd}", 3));
}

#[test]
fn rows_agree_with_std_formatting() {
    let names = ["", "a", "cargo", "docker-compose", "abcdefghijklmnopqrstuvwx", "abcdefghijklmnopqrstuvwxyz", "語"];
    let counts: [usize; 5] = [0, 1, 9, 10, 123456];
    let mut rank: usize = 0;
    while rank < 120 {
        for name in names.iter() {
            for count in counts.iter() {
                assert_eq!(
                    format_row(rank, &entry(name, *count)),
                    format!("  {:>2}. {:<25} {}", rank, name, count)
                );
            }
        }
        rank += 7;
    }
}

#[test]
fn spaces_are_appended() {
    let mut s = String::from("ab");
    push_spaces(&mut s, 3);
    assert_eq!(s, "ab   ");
    push_spaces(&mut s, 0);
    assert_eq!(s, "ab   ");
}

#[test]
fn a_ranking_is_presented_with_heading_and_blank_line() {
    let shown = present(&vec![entry("git", 2), entry("apt", 1)]);
    assert_eq!(
        shown,
        vec![
            "Top commands:".to_string(),
            "   1. git                       2".to_string(),
            "   2. apt                       1".to_string(),
            String::new(),
        ]
    );
}

#[test]
fn an_empty_ranking_is_not_presented() {
    assert_eq!(present(&Vec::new()), Vec::<String>::new());
}

#[test]
fn empty_screen_shows_the_placeholder() {
    let screen = Screen::new(Vec::new());
    assert_eq!(screen.message_text(), "No messages yet");
    assert_eq!(screen.input(), "");
}

#[test]
fn messages_are_shown_one_on_each_line() {
    let screen = Screen::new(vec!["one".to_string()]);
    assert_eq!(screen.message_text(), "one");
    let screen = Screen::new(present(&vec![entry("git", 2)]));
    assert_eq!(screen.message_text(), "Top commands:\n   1. git                       2\n");
}

#[test]
fn typing_skips_control_characters() {
    let mut screen = Screen::new(Vec::new());
    screen.type_char('h');
    screen.type_char('\u{7}');
    screen.type_char('i');
    screen.type_char('\t');
    screen.type_char('\u{7f}');
    screen.type_char('\u{9f}');
    screen.type_char(' ');
    screen.type_char('é');
    assert_eq!(screen.input(), "hi é");
}

#[test]
fn backspace_takes_the_last_character() {
    let mut screen = Screen::new(Vec::new());
    screen.backspace();
    assert_eq!(screen.input(), "");
    screen.type_char('a');
    screen.type_char('語');
    screen.type_char('b');
    screen.backspace();
    assert_eq!(screen.input(), "a語");
    screen.backspace();
    assert_eq!(screen.input(), "a");
    screen.backspace();
    screen.backspace();
    assert_eq!(screen.input(), "");
}

#[test]
fn submit_moves_the_line_to_the_messages() {
    let mut screen = Screen::new(vec!["first".to_string()]);
    assert!(!screen.submit());
    assert_eq!(screen.message_text(), "first");
    screen.type_char('o');
    screen.type_char('k');
    assert!(screen.submit());
    assert_eq!(screen.input(), "");
    assert_eq!(screen.message_text(), "first\nok");
    assert!(!screen.submit());
    assert_eq!(screen.message_text(), "first\nok");
}
