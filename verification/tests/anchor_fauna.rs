use sql_ast::ast::ddl::{Anchor, Fauna};
use sql_ast::ast::dql::Op;

#[test]
fn not_null_is_essence() {
    let input = "NOT NULL".to_string();
    let anchor = Anchor::from_input(input);
    assert_eq!(anchor, Anchor::Essence);
}

#[test]
fn unique_is_axis() {
    let input = "UNIQUE".to_string();
    let anchor = Anchor::from_input(input);
    assert_eq!(anchor, Anchor::Axis);
}

#[test]
fn primary_key_is_nucleus() {
    let input = "PRIMARY KEY".to_string();
    let anchor = Anchor::from_input(input);
    assert_eq!(anchor, Anchor::Nucleus);
}

#[test]
fn test_from_str() {
    assert_eq!(Fauna::from_input("INT".to_string()), Fauna::Int);
    assert_eq!(Fauna::from_input("TEXT".to_string()), Fauna::Text);
    assert_eq!(Fauna::from_input("BOOLEAN".to_string()), Fauna::Bool);
}

#[test]
fn unknown_keywords_are_rejected() {
    assert_eq!(Fauna::try_from_input("VARCHAR"), None);
    assert_eq!(Fauna::try_from_input("int"), None);
    assert_eq!(Fauna::try_from_input(""), None);
    assert_eq!(Anchor::try_from_input("SPECIAL"), None);
    assert_eq!(Anchor::try_from_input("NOT  NULL"), None);
    assert_eq!(Op::try_from_input("=="), None);
    assert_eq!(Op::try_from_input(""), None);
}

#[test]
fn operator_lexemes_map_exactly() {
    assert_eq!(Op::from_input("="), Op::Eq);
    assert_eq!(Op::from_input("<>"), Op::Neq);
    assert_eq!(Op::from_input("!="), Op::Neq);
    assert_eq!(Op::from_input("<"), Op::Lt);
    assert_eq!(Op::from_input("<="), Op::Lte);
    assert_eq!(Op::from_input(">"), Op::Gt);
    assert_eq!(Op::from_input(">="), Op::Gte);
}
