use butter::decimal::decimal_string;
use butter::ty::{MutType, TypeError, Var};

#[test]
fn decimal_numbers() {
    assert_eq!(decimal_string(0), "0");
    assert_eq!(decimal_string(7), "7");
    assert_eq!(decimal_string(10), "10");
    assert_eq!(decimal_string(4294967295), "4294967295");
}

#[test]
fn variables_written() {
    assert_eq!(Var { name: String::new(), id: 0 }.display(), "#");
    assert_eq!(Var { name: "a".to_string(), id: 0 }.display(), "a");
    assert_eq!(Var { name: "a".to_string(), id: 12 }.display(), "a#12");
    assert_eq!(Var { name: String::new(), id: 3 }.display(), "#3");
    assert_eq!(MutType::Imm.display(), "imm");
    assert_eq!(MutType::Mut.display(), "mut");
    assert_eq!(MutType::Var(Var { name: "m".to_string(), id: 1 }).display(), "m#1");
    assert_eq!(TypeError::Overlap.display(), "TypeError");
}
