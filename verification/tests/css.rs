use markup_engine::css_parser::interface::{CSSValue, Declaration, Selector};
use markup_engine::css_parser::tokenizer::{
    Token, Tokenizer, is_valid_ident, is_valid_start_ident,
};

fn chars(s: &str) -> Vec<char> {
    s.chars().collect()
}

#[test]
fn selector_tokens_in_order() {
    let mut t = Tokenizer::new("div#answer.note > p");
    assert_eq!(t.next(), Token::Ident(chars("div")));
    assert_eq!(t.next(), Token::Hash(chars("answer")));
    assert_eq!(t.next(), Token::Dot);
    assert_eq!(t.next(), Token::Ident(chars("note")));
    assert_eq!(t.next(), Token::WhiteSpace(chars(" ")));
    assert_eq!(t.next(), Token::CloseAngle);
    assert_eq!(t.next(), Token::WhiteSpace(chars(" ")));
    assert_eq!(t.next(), Token::Ident(chars("p")));
    assert_eq!(t.next(), Token::EOS);
}

#[test]
fn peek_does_not_consume() {
    let mut t = Tokenizer::new("h1,");
    assert_eq!(*t.peek(), Token::Ident(chars("h1")));
    assert_eq!(*t.peek(), Token::Ident(chars("h1")));
    assert_eq!(t.next(), Token::Ident(chars("h1")));
    assert_eq!(t.next(), Token::Comma);
    assert_eq!(t.next(), Token::EOS);
}

#[test]
fn punctuation_tokens() {
    let mut t = Tokenizer::new("{}():;*%");
    assert_eq!(t.next(), Token::OpenCurly);
    assert_eq!(t.next(), Token::CloseCurly);
    assert_eq!(t.next(), Token::OpenBracket);
    assert_eq!(t.next(), Token::CloseBracket);
    assert_eq!(t.next(), Token::Colon);
    assert_eq!(t.next(), Token::SemiColon);
    assert_eq!(t.next(), Token::Asterisk);
    assert_eq!(t.next(), Token::Percentage);
    assert_eq!(t.next(), Token::EOS);
}

#[test]
fn identifiers_may_hold_digits_and_dashes() {
    let mut t = Tokenizer::new("my-id2 _x");
    assert_eq!(t.next(), Token::Ident(chars("my-id2")));
    assert_eq!(t.next(), Token::WhiteSpace(chars(" ")));
    assert_eq!(t.next(), Token::Ident(chars("_x")));
    assert_eq!(t.next(), Token::EOS);
}

#[test]
fn ident_character_classes() {
    assert!(is_valid_start_ident('a'));
    assert!(is_valid_start_ident('_'));
    assert!(is_valid_start_ident('\u{e9}'));
    assert!(!is_valid_start_ident('1'));
    assert!(is_valid_ident('1'));
    assert!(is_valid_ident('-'));
    assert!(!is_valid_ident('.'));
}

#[test]
fn empty_selector_and_declaration() {
    let s = Selector::new();
    assert_eq!(s.tag_name, None);
    assert_eq!(s.identifier, None);
    assert_eq!(s.class_names, None);
    assert!(s.descendant.is_none());
    assert!(s.child.is_none());

    let d = Declaration::new();
    assert_eq!(d.name, vec![]);
    assert_eq!(d.value, CSSValue::Keyword(vec![]));
}
