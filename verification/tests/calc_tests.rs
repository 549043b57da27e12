use toolshed::calc::{parse_operation, Operation};

#[test]
fn operator_words_and_symbols() {
    assert_eq!(parse_operation("add"), Some(Operation::Add));
    assert_eq!(parse_operation("+"), Some(Operation::Add));
    assert_eq!(parse_operation("sub"), Some(Operation::Sub));
    assert_eq!(parse_operation("-"), Some(Operation::Sub));
    assert_eq!(parse_operation("mul"), Some(Operation::Mul));
    assert_eq!(parse_operation("*"), Some(Operation::Mul));
    assert_eq!(parse_operation("div"), Some(Operation::Div));
    assert_eq!(parse_operation("/"), Some(Operation::Div));
    assert_eq!(parse_operation("pow"), None);
    assert_eq!(parse_operation("ADD"), None);
    assert_eq!(parse_operation(""), None);
}
