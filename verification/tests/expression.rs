use assemulator::assembler::expression::{evaluate, parse, ExprError, Parser};
use assemulator::assembler::symbols::SymbolTable;

#[test]
fn test_atom() {
    let input = "1";
    let map = SymbolTable::new();
    let mut parser = Parser::new(input, &map, false);
    let result = parser.parse_factor();
    assert_eq!(result, Ok(1));
}

#[test]
fn test_parse() {
    let input = "1+2*3";
    let map = SymbolTable::new();
    let mut parser = Parser::new(input, &map, false);
    let result = parser.parse_expression(0);
    assert_eq!(result, Ok(7));
}

#[test]
fn test2() {
    let input = "10 >> 1 == 0";
    let map = SymbolTable::new();
    let mut parser = Parser::new(input, &map, false);
    let result = parser.parse_expression(0);
    assert_eq!(result, Ok(0));
}

#[test]
fn precedence_of_products_over_sums() {
    let map = SymbolTable::new();
    assert_eq!(parse("2*3+4", &map, false), Ok(10));
    assert_eq!(parse("2*(3+4)", &map, false), Ok(14));
    assert_eq!(parse("1 << 2 + 1", &map, false), Ok(8));
}

#[test]
fn operators_of_one_level_associate_left() {
    let map = SymbolTable::new();
    assert_eq!(parse("10-3-2", &map, false), Ok(5));
    assert_eq!(parse("100/10/5", &map, false), Ok(2));
}

#[test]
fn comparisons_and_logic_give_flags() {
    let map = SymbolTable::new();
    assert_eq!(parse("3 < 4", &map, false), Ok(1));
    assert_eq!(parse("3 >= 4", &map, false), Ok(0));
    assert_eq!(parse("1 && 0", &map, false), Ok(0));
    assert_eq!(parse("1 || 0", &map, false), Ok(1));
    assert_eq!(parse("5 != 5", &map, false), Ok(0));
    assert_eq!(parse("6 & 3 | 8 ^ 1", &map, false), Ok(11));
    assert_eq!(parse("7 % 4", &map, false), Ok(3));
}

#[test]
fn negation_is_twos_complement() {
    let map = SymbolTable::new();
    assert_eq!(parse("-1", &map, false), Ok(u64::MAX));
    assert_eq!(parse("0-1", &map, false), Ok(u64::MAX));
    assert_eq!(parse("--5", &map, false), Ok(5));
}

#[test]
fn identifiers_are_looked_up_when_resolving() {
    let mut map = SymbolTable::new();
    map.insert("base".to_owned(), 0x100);
    assert_eq!(parse("base + 2", &map, true), Ok(0x102));
    assert_eq!(parse("base + 2", &map, false), Ok(2));
    assert_eq!(
        parse("missing", &map, true),
        Err("Undefined identifier missing".to_owned())
    );
}

#[test]
fn malformed_expressions_are_refused() {
    let map = SymbolTable::new();
    assert_eq!(
        parse("(1+2", &map, false),
        Err("Expected closing parentheses".to_owned())
    );
    assert_eq!(parse("1+", &map, false), Err("Unexpected end of input".to_owned()));
    assert_eq!(
        parse("#", &map, false),
        Err("Expected number or identifier #".to_owned())
    );
    assert_eq!(
        parse("99999999999999999999", &map, false),
        Err("Invalid integer: 99999999999999999999".to_owned())
    );
    assert_eq!(parse("12ab", &map, false), Err("Invalid integer: 12ab".to_owned()));
}

#[test]
fn division_by_zero_is_reported() {
    let map = SymbolTable::new();
    assert!(matches!(
        evaluate("1/0", &map, false),
        Err(ExprError::DivisionByZero)
    ));
    assert!(matches!(
        evaluate("5 % (2-2)", &map, false),
        Err(ExprError::DivisionByZero)
    ));
    assert!(matches!(evaluate("6/3", &map, false), Ok(2)));
}

#[test]
fn wrapping_arithmetic() {
    let map = SymbolTable::new();
    assert_eq!(parse("18446744073709551615 + 2", &map, false), Ok(1));
    assert_eq!(parse("1 << 64", &map, false), Ok(1));
}

#[test]
fn numbers_in_other_bases() {
    let map = SymbolTable::new();
    assert_eq!(parse("0x1F + 0b101", &map, false), Ok(36));
    assert_eq!(parse("0o17", &map, false), Ok(15));
}

#[test]
fn spaces_in_an_expression_are_ignored() {
    let map = SymbolTable::new();
    assert_eq!(parse("1 2", &map, false), Ok(12));
    assert_eq!(parse(" 1 + 2 * 3 ", &map, false), parse("1+2*3", &map, false));
    let mut spaced = Parser::new("4 *  ( 1 + 1 )", &map, false);
    assert_eq!(spaced.parse_expression(0), Ok(8));
}
