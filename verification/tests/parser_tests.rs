use rustex::text_parser::parse;
use rustex::ParseError;
use rustex::ParsedObject;
use rustex::PerenthesisType;

fn bare_var(text: &str) -> ParsedObject {
    ParsedObject::Var {
        text: String::from(text),
        super_script: vec![],
        sub_script: vec![],
    }
}

#[test]
fn unmatched_opening_parenthesis_fails() {
    let err = parse("(a").unwrap_err();
    assert_eq!(err, ParseError::UnmatchedParenthesis);
}

#[test]
fn stray_closing_brace_terminates_the_level_without_error() {
    // The stray brace is pushed back for an enclosing context; at the top
    // level the parse succeeds with what came before it.
    let nodes = parse("a}").expect("parse with stray brace");
    assert_eq!(nodes, vec![bare_var("a")]);
}

#[test]
fn scripts_attach_in_either_order() {
    let forward = parse("x^2_3").expect("parse ^ then _");
    let swapped = parse("x_3^2").expect("parse _ then ^");
    assert_eq!(forward, swapped);
    assert_eq!(
        forward,
        vec![ParsedObject::Var {
            text: String::from("x"),
            super_script: vec![bare_var("2")],
            sub_script: vec![bare_var("3")],
        }]
    );
}

#[test]
fn repeated_script_overwrites_the_earlier_one() {
    let nodes = parse("x^2^9").expect("parse repeated superscript");
    assert_eq!(
        nodes,
        vec![ParsedObject::Var {
            text: String::from("x"),
            super_script: vec![bare_var("9")],
            sub_script: vec![],
        }]
    );
}

#[test]
fn braced_script_content_parses_fully() {
    let nodes = parse("x^{ab}").expect("parse braced script");
    assert_eq!(
        nodes,
        vec![ParsedObject::Var {
            text: String::from("x"),
            super_script: vec![bare_var("a"), bare_var("b")],
            sub_script: vec![],
        }]
    );
}

#[test]
fn script_marker_at_end_has_no_content() {
    let err = parse("x^").unwrap_err();
    assert_eq!(err, ParseError::ExpectedScriptContent);
}

#[test]
fn operator_is_invalid_script_content() {
    let err = parse("x^+").unwrap_err();
    assert_eq!(err, ParseError::InvalidScriptContent);
}

#[test]
fn function_collects_braced_arguments() {
    let nodes = parse("\\frac{1}{2}").expect("parse fraction markup");
    assert_eq!(
        nodes,
        vec![ParsedObject::Func {
            name: String::from("frac"),
            content: vec![vec![bare_var("1")], vec![bare_var("2")]],
            super_script: vec![],
            sub_script: vec![],
        }]
    );
}

#[test]
fn unmatched_opening_brace_fails() {
    let err = parse("\\frac{1").unwrap_err();
    assert_eq!(err, ParseError::UnmatchedBrace);
}

#[test]
fn function_in_script_parses_recursively() {
    let nodes = parse("x^\\frac{1}{2}").expect("parse function script");
    assert_eq!(
        nodes,
        vec![ParsedObject::Var {
            text: String::from("x"),
            super_script: vec![ParsedObject::Func {
                name: String::from("frac"),
                content: vec![vec![bare_var("1")], vec![bare_var("2")]],
                super_script: vec![],
                sub_script: vec![],
            }],
            sub_script: vec![],
        }]
    );
}

#[test]
fn mismatched_closer_does_not_close_the_group() {
    // A closer of the wrong kind is dropped and scanning continues to the
    // matching one.
    let nodes = parse("(]a)").expect("parse with mismatched closer");
    assert_eq!(
        nodes,
        vec![ParsedObject::Parenthesis {
            inner: vec![bare_var("a")],
            parenthesis_type: PerenthesisType::Round,
            super_script: vec![],
            sub_script: vec![],
        }]
    );
}

#[test]
fn nested_parentheses_parse_recursively() {
    let nodes = parse("(a(b))").expect("parse nested groups");
    assert_eq!(
        nodes,
        vec![ParsedObject::Parenthesis {
            inner: vec![
                bare_var("a"),
                ParsedObject::Parenthesis {
                    inner: vec![bare_var("b")],
                    parenthesis_type: PerenthesisType::Round,
                    super_script: vec![],
                    sub_script: vec![],
                },
            ],
            parenthesis_type: PerenthesisType::Round,
            super_script: vec![],
            sub_script: vec![],
        }]
    );
}
