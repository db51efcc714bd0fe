use markup_engine::tokenizer::{Tokenizer, is_whitespace_char};

fn scanner(s: &str) -> Tokenizer {
    Tokenizer { pos: 0, input: s.chars().collect() }
}

#[test]
fn consume_whitespace_stops_at_first_nonblank() {
    let mut t = scanner("  \t\nab");
    t.consume_whitespace();
    assert_eq!(t.pos, 4);
    assert_eq!(t.next_char(), 'a');
}

#[test]
fn consume_whitespace_handles_all_blank_input() {
    let mut t = scanner("   ");
    t.consume_whitespace();
    assert!(t.eof());
}

#[test]
fn consume_while_returns_the_matching_run() {
    let mut t = scanner("abc123");
    let run = t.consume_while(|c| c.is_alphabetic());
    assert_eq!(run, vec!['a', 'b', 'c']);
    assert_eq!(t.pos, 3);
    assert_eq!(t.next_char(), '1');
}

#[test]
fn consume_while_can_drain_everything() {
    let mut t = scanner("xyz");
    let run = t.consume_while(|_| true);
    assert_eq!(run, vec!['x', 'y', 'z']);
    assert!(t.eof());
}

#[test]
fn consume_char_advances_one_character() {
    let mut t = scanner("ab");
    assert_eq!(t.consume_char(), 'a');
    assert_eq!(t.consume_char(), 'b');
    assert!(t.eof());
}

#[test]
fn starts_with_checks_the_remaining_input() {
    let mut t = scanner("</div>");
    assert!(t.starts_with("</"));
    assert!(!t.starts_with("<d"));
    t.consume_char();
    assert!(t.starts_with("/div"));
    assert!(t.starts_with(""));
}

#[test]
fn eof_and_next_char_track_position() {
    let mut t = scanner("x");
    assert!(!t.eof());
    assert_eq!(t.next_char(), 'x');
    t.consume_char();
    assert!(t.eof());
}

#[test]
fn whitespace_classification_matches_std() {
    for c in [' ', '\t', '\n', '\r', '\u{A0}', '\u{2003}', '\u{3000}'] {
        assert!(is_whitespace_char(c));
        assert!(c.is_whitespace());
    }
    for c in ['a', '0', '<', '\u{200B}'] {
        assert!(!is_whitespace_char(c));
        assert!(!c.is_whitespace());
    }
}
