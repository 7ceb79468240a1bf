use sitter_ast::{decimal, same_text, to_ident};

#[test]
fn keywords_are_escaped() {
    assert_eq!(to_ident("as"), "KwAs");
    assert_eq!(to_ident("self"), "KwSelfvalue");
    assert_eq!(to_ident("Self"), "KwSelftype");
    assert_eq!(to_ident("macro_rules"), "KwMacroRules");
}

#[test]
fn punctuation_is_spelled_out() {
    assert_eq!(to_ident("::"), "ColonColon");
    assert_eq!(to_ident("+="), "AddEq");
    assert_eq!(to_ident("a b"), "a_b");
    assert_eq!(to_ident("\n"), "Newline");
    assert_eq!(to_ident("->"), "SubGt");
    assert_eq!(to_ident("plain"), "plain");
}

#[test]
fn leading_digit_gets_prefix() {
    assert_eq!(to_ident("1a"), "N_1a");
    assert_eq!(to_ident("0"), "N_0");
    assert_eq!(to_ident(""), "");
}

#[test]
fn decimal_spelling() {
    assert_eq!(decimal(0), "0");
    assert_eq!(decimal(7), "7");
    assert_eq!(decimal(120), "120");
    assert_eq!(decimal(usize::MAX), usize::MAX.to_string());
}

#[test]
fn text_equality() {
    assert!(same_text("abc", "abc"));
    assert!(!same_text("abc", "abd"));
    assert!(!same_text("ab", "abc"));
    assert!(same_text("", ""));
}
