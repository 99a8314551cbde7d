use rustex::text_parser::parse;
use rustex::ParseError;
use rustex::ParsedObject;
use rustex::PerenthesisType;

fn bare_var(text: &str) -> ParsedObject {
    ParsedObject::Var {
        text: String::from(text),
        super_script: vec![],
        sub_script: vec![],
    }
}

#[test]
fn letters_and_operator_parse_in_order() {
    // Tokenizing then parsing "a+b": two variables and one operator, in
    // that order, each with empty scripts.
    let nodes = parse("a+b").expect("parse a+b");
    assert_eq!(
        nodes,
        vec![
            bare_var("a"),
            ParsedObject::Operator { text: String::from("+") },
            bare_var("b"),
        ]
    );
}

#[test]
fn whitespace_is_skipped() {
    let nodes = parse("  a \t b ").expect("parse with spaces");
    assert_eq!(nodes, vec![bare_var("a"), bare_var("b")]);
}

#[test]
fn numbers_take_their_full_extent() {
    let nodes = parse("12.5").expect("parse decimal");
    assert_eq!(nodes, vec![bare_var("12.5")]);
}

#[test]
fn plus_minus_character_is_an_operator() {
    let nodes = parse("±").expect("parse plus-minus");
    assert_eq!(nodes, vec![ParsedObject::Operator { text: String::from("±") }]);
}

#[test]
fn slash_and_star_are_operators() {
    let nodes = parse("a*b/c").expect("parse slash and star");
    assert_eq!(nodes.len(), 5);
    assert_eq!(nodes[1], ParsedObject::Operator { text: String::from("*") });
    assert_eq!(nodes[3], ParsedObject::Operator { text: String::from("/") });
}

#[test]
fn unexpected_character_reports_its_position() {
    let err = parse("ab!c").unwrap_err();
    assert_eq!(err, ParseError::UnexpectedCharacter { ch: '!', pos: 2 });
}

#[test]
fn dangling_dot_is_unexpected() {
    // A dot not followed by a digit belongs to no rule.
    let err = parse("1.").unwrap_err();
    assert_eq!(err, ParseError::UnexpectedCharacter { ch: '.', pos: 1 });
}

#[test]
fn backslash_without_letters_is_unexpected() {
    let err = parse("\\ x").unwrap_err();
    assert_eq!(err, ParseError::UnexpectedCharacter { ch: '\\', pos: 0 });
}

#[test]
fn square_brackets_make_square_groups() {
    let nodes = parse("[a]").expect("parse square group");
    assert_eq!(
        nodes,
        vec![ParsedObject::Parenthesis {
            inner: vec![bare_var("a")],
            parenthesis_type: PerenthesisType::Square,
            super_script: vec![],
            sub_script: vec![],
        }]
    );
}
