use passport_scan::token::LexError;
use passport_scan::token::Token;
use passport_scan::token::tokenize;

fn chars(s: &str) -> Vec<char> {
    s.chars().collect()
}

fn pair_of(t: &Token) -> (String, String) {
    match t {
        Token::Pair(p) => (
            p.key.iter().collect::<String>(),
            p.value.iter().collect::<String>(),
        ),
        Token::Break => panic!("expected a pair token"),
    }
}

#[test]
fn single_pair() {
    let toks = tokenize(&chars("abc:def")).unwrap();
    assert_eq!(toks.len(), 1);
    assert_eq!(pair_of(&toks[0]), ("abc".to_string(), "def".to_string()));
}

#[test]
fn pairs_and_breaks() {
    // The newline that ends "b:2" terminates its value; only the blank
    // line after it becomes a Break.
    let toks = tokenize(&chars("a:1 b:2\n\nc:3\n")).unwrap();
    assert_eq!(toks.len(), 4);
    assert_eq!(pair_of(&toks[0]), ("a".to_string(), "1".to_string()));
    assert_eq!(pair_of(&toks[1]), ("b".to_string(), "2".to_string()));
    assert!(matches!(toks[2], Token::Break));
    assert_eq!(pair_of(&toks[3]), ("c".to_string(), "3".to_string()));
}

#[test]
fn empty_value_at_end_of_input() {
    let toks = tokenize(&chars("k:")).unwrap();
    assert_eq!(toks.len(), 1);
    assert_eq!(pair_of(&toks[0]), ("k".to_string(), "".to_string()));
}

#[test]
fn empty_input_has_no_tokens() {
    let toks = tokenize(&chars("")).unwrap();
    assert_eq!(toks.len(), 0);
}

#[test]
fn newline_in_key_is_an_error() {
    assert!(matches!(tokenize(&chars("ab\ncd:e")), Err(LexError::NewlineInKey)));
}

#[test]
fn eof_in_key_is_an_error() {
    assert!(matches!(tokenize(&chars("abc")), Err(LexError::EofInKey)));
}

#[test]
fn colon_in_value_is_an_error() {
    assert!(matches!(tokenize(&chars("a:b:c")), Err(LexError::ColonInValue)));
}

#[test]
fn error_messages() {
    assert_eq!(LexError::NewlineInKey.message(), "newline in key");
    assert_eq!(LexError::EofInKey.message(), "end of file in key");
    assert_eq!(LexError::ColonInValue.message(), ": in value");
}
