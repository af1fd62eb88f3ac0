use butter::ident_keyword::{ident, ident_or_keyword, keyword, IdentError};

#[test]
fn test_keyword() {
    assert_eq!(keyword("if", "if"), Ok(((), "")));
}

#[test]
fn non_keyword() {
    assert!(keyword("if", "if_false").is_err());
}

#[test]
fn test_ident_or_keyword() {
    assert_eq!(ident_or_keyword("foo"), Ok(("foo".to_string(), "")));
}

#[test]
fn non_ident() {
    assert!(ident("12").is_err());
}

#[test]
fn keyword_followed_by_other_text() {
    assert_eq!(keyword("if", "if (x)"), Ok(((), " (x)")));
    assert_eq!(keyword("while", "whi"), Err(IdentError::NotTheKeyword));
    assert_eq!(keyword("if", "of"), Err(IdentError::NotTheKeyword));
}

#[test]
fn identifiers_and_reserved_words() {
    assert_eq!(ident("foo_1 + 2"), Ok(("foo_1".to_string(), " + 2")));
    assert_eq!(ident("_bar"), Ok(("_bar".to_string(), "")));
    assert_eq!(ident("while"), Err(IdentError::Keyword));
    assert_eq!(ident("_"), Err(IdentError::Keyword));
    assert_eq!(ident("whiles"), Ok(("whiles".to_string(), "")));
    assert_eq!(ident("été"), Ok(("été".to_string(), "")));
    assert_eq!(ident_or_keyword("match x"), Ok(("match".to_string(), " x")));
    assert_eq!(ident_or_keyword("1abc"), Err(IdentError::NotAnIdentifier));
    assert_eq!(ident_or_keyword(""), Err(IdentError::NotAnIdentifier));
}
