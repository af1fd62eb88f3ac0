use butter::operator::{all_unique, precedence_of, BinaryType, UnaryType};

#[test]
fn binary_operators() {
    assert_eq!(BinaryType::Multiply.precedence(), 3);
    assert_eq!(BinaryType::Concatenate.precedence(), 4);
    assert_eq!(BinaryType::LessEqual.precedence(), 5);
    assert_eq!(BinaryType::And.precedence(), 6);
    assert_eq!(BinaryType::Or.precedence(), 7);
    assert_eq!(BinaryType::FloorDiv.as_static_str(), "//");
    assert_eq!(BinaryType::NotEqual.as_static_str(), "/=");
    assert_eq!(BinaryType::And.as_static_str(), "and");
}

#[test]
fn unary_operators() {
    assert_eq!(UnaryType::Minus.as_static_str(), "-");
    assert_eq!(UnaryType::Ref.as_static_str(), "&");
    assert_eq!(UnaryType::Not.as_static_str(), "not");
    assert_eq!(UnaryType::Move.as_static_str(), ">");
}

#[test]
fn token_precedences() {
    assert_eq!(precedence_of("."), Some(8));
    assert_eq!(precedence_of("//"), Some(7));
    assert_eq!(precedence_of("++"), Some(6));
    assert_eq!(precedence_of("!="), Some(5));
    assert_eq!(precedence_of("&"), Some(4));
    assert_eq!(precedence_of("||"), Some(3));
    assert_eq!(precedence_of("??"), Some(2));
    assert_eq!(precedence_of("<-"), Some(1));
    assert_eq!(precedence_of("!"), None);
    assert_eq!(precedence_of("and"), None);
    assert_eq!(precedence_of(""), None);
}

#[test]
fn uniqueness() {
    let names: Vec<String> = vec!["a".to_string(), "b".to_string(), "c".to_string()];
    assert!(all_unique(&names));
    let names: Vec<String> = vec!["a".to_string(), "b".to_string(), "a".to_string()];
    assert!(!all_unique(&names));
    let names: Vec<String> = vec![];
    assert!(all_unique(&names));
}
