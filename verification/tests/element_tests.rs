use std::rc::Rc;

use rustex::KElement;
use rustex::ParseError;

fn text(s: &str) -> KElement {
    KElement::Text(String::from(s))
}

fn group(children: Vec<KElement>) -> KElement {
    KElement::LinearGroup(children)
}

#[test]
fn fraction_markup_builds_a_fraction() {
    let built = KElement::parse("\\frac{1}{2}").expect("build fraction");
    assert_eq!(
        built,
        group(vec![KElement::Fraction {
            upper: Rc::new(group(vec![text("1")])),
            lower: Rc::new(group(vec![text("2")])),
        }])
    );
}

#[test]
fn plus_minus_function_builds_its_glyph() {
    let built = KElement::parse("\\pm").expect("build plus-minus");
    assert_eq!(built, group(vec![text("±")]));
}

#[test]
fn fraction_with_three_arguments_is_an_arity_error() {
    let err = KElement::parse("\\frac{1}{2}{3}").unwrap_err();
    assert_eq!(
        err,
        ParseError::WrongArgumentCount { expected_min: 2, expected_max: 2, actual: 3 }
    );
}

#[test]
fn plus_minus_with_an_argument_is_an_arity_error() {
    let err = KElement::parse("\\pm{1}").unwrap_err();
    assert_eq!(
        err,
        ParseError::WrongArgumentCount { expected_min: 0, expected_max: 0, actual: 1 }
    );
}

#[test]
fn unknown_function_name_is_invalid() {
    let err = KElement::parse("\\foo").unwrap_err();
    assert_eq!(err, ParseError::InvalidFunction { name: String::from("foo") });
}

#[test]
fn operators_pass_through_as_text() {
    let built = KElement::parse("a+b").expect("build a+b");
    assert_eq!(built, group(vec![text("a"), text("+"), text("b")]));
}

#[test]
fn script_order_builds_equal_trees() {
    let forward = KElement::parse("x^2_3").expect("build ^ then _");
    let swapped = KElement::parse("x_3^2").expect("build _ then ^");
    assert_eq!(forward, swapped);
}

#[test]
fn superscript_only_leaves_the_lower_side_absent() {
    let built = KElement::parse("x^2").expect("build superscript");
    assert_eq!(
        built,
        group(vec![KElement::SuperSub {
            inner: Rc::new(text("x")),
            upper: Some(Rc::new(group(vec![text("2")]))),
            lower: None,
        }])
    );
}

#[test]
fn subscript_only_leaves_the_upper_side_absent() {
    let built = KElement::parse("x_3").expect("build subscript");
    assert_eq!(
        built,
        group(vec![KElement::SuperSub {
            inner: Rc::new(text("x")),
            upper: None,
            lower: Some(Rc::new(group(vec![text("3")]))),
        }])
    );
}

#[test]
fn function_with_scripts_is_wrapped() {
    let built = KElement::parse("\\pm^2").expect("build scripted function");
    assert_eq!(
        built,
        group(vec![KElement::SuperSub {
            inner: Rc::new(text("±")),
            upper: Some(Rc::new(group(vec![text("2")]))),
            lower: None,
        }])
    );
}

#[test]
fn parenthesis_nodes_build_to_nothing() {
    let built = KElement::parse("(a)").expect("build parenthesized group");
    assert_eq!(built, group(vec![]));
}

#[test]
fn empty_input_builds_an_empty_group() {
    let built = KElement::parse("").expect("build empty input");
    assert_eq!(built, group(vec![]));
}

#[test]
fn symbols_resolve_by_name() {
    assert_eq!(KElement::from_symbol("+").unwrap(), KElement::Plus);
    assert_eq!(KElement::from_symbol("-").unwrap(), KElement::Minus);
    assert_eq!(KElement::from_symbol("=").unwrap(), KElement::Equals);
    assert_eq!(KElement::from_symbol("±").unwrap(), KElement::PlusMinus);
}

#[test]
fn lexical_errors_surface_through_build() {
    let err = KElement::parse("a@").unwrap_err();
    assert_eq!(err, ParseError::UnexpectedCharacter { ch: '@', pos: 1 });
}
