//! Expression builder: resolves parsed syntax nodes into the semantic
//! expression tree that layout consumes.
//!
//! Every build wraps its result in a linear group, even for a single node.
//! Variables and operators become text leaves; functions are dispatched by
//! name through a fixed registry (a fraction of exactly two arguments, and a
//! plus/minus symbol of none); scripts on a variable or function wrap the
//! node in a super/subscript element.  Parenthesis nodes are accepted by the
//! grammar but deliberately produce no output here.

use std::rc::Rc;

use vstd::prelude::*;

use crate::error::ParseErrV;
use crate::error::ParseError;
use crate::text_parser::arg_views;
use crate::text_parser::node_view;
use crate::text_parser::nodes_view;
use crate::text_parser::parse;
use crate::text_parser::spec_parse;
use crate::text_parser::NodeV;
use crate::text_parser::ParsedObject;

verus! {

/// One semantic expression node.  Fraction and script sub-expressions are
/// shared, reference-counted handles: both the measurement and the render
/// pass read the same immutable subtree.
#[derive(Debug, PartialEq)]
pub enum KElement {
    /// Horizontal concatenation of children on one shared baseline.
    LinearGroup(Vec<KElement>),
    /// A whole number rendered as its decimal digits, in the upright font.
    Integer(i64),
    /// A decimal number's literal digits, in the upright font.
    Decimal(String),
    /// A text run, rendered in the italic font.
    Text(String),
    /// A fraction with a horizontal divider bar between its operands.
    Fraction { upper: Rc<KElement>, lower: Rc<KElement> },
    /// A node carrying an optional raised and an optional lowered script.
    SuperSub { inner: Rc<KElement>, upper: Option<Rc<KElement>>, lower: Option<Rc<KElement>> },
    /// Dedicated symbol leaves with per-symbol vertical centering.
    Plus,
    Minus,
    Equals,
    PlusMinus,
}

/// Mathematical model of an expression: texts are character sequences.
pub enum ElemV {
    LinearGroup(Seq<ElemV>),
    Integer(int),
    Decimal(Seq<char>),
    Text(Seq<char>),
    Fraction { upper: Box<ElemV>, lower: Box<ElemV> },
    SuperSub { inner: Box<ElemV>, upper: Option<Box<ElemV>>, lower: Option<Box<ElemV>> },
    Plus,
    Minus,
    Equals,
    PlusMinus,
}

/// The model of one expression node.
pub open spec fn elem_view(e: KElement) -> ElemV
    decreases e,
{
    match e {
        KElement::LinearGroup(v) => ElemV::LinearGroup(elems_view(v@)),
        KElement::Integer(i) => ElemV::Integer(i as int),
        KElement::Decimal(s) => ElemV::Decimal(s@),
        KElement::Text(s) => ElemV::Text(s@),
        KElement::Fraction { upper, lower } => ElemV::Fraction {
            upper: Box::new(elem_view(*upper)),
            lower: Box::new(elem_view(*lower)),
        },
        KElement::SuperSub { inner, upper, lower } => ElemV::SuperSub {
            inner: Box::new(elem_view(*inner)),
            upper: match upper {
                Some(u) => Some(Box::new(elem_view(*u))),
                None => None,
            },
            lower: match lower {
                Some(l) => Some(Box::new(elem_view(*l))),
                None => None,
            },
        },
        KElement::Plus => ElemV::Plus,
        KElement::Minus => ElemV::Minus,
        KElement::Equals => ElemV::Equals,
        KElement::PlusMinus => ElemV::PlusMinus,
    }
}

/// The models of a sequence of expression nodes.
pub open spec fn elems_view(s: Seq<KElement>) -> Seq<ElemV>
    decreases s,
{
    Seq::new(
        s.len(),
        |i: int|
            if 0 <= i < s.len() {
                elem_view(s[i])
            } else {
                ElemV::Plus
            },
    )
}

impl View for KElement {
    type V = ElemV;

    open spec fn view(&self) -> ElemV {
        elem_view(*self)
    }
}

/// Prepends already-built expressions to the rest of an item build.
pub open spec fn with_elem_prefix(acc: Seq<ElemV>, rest: Result<Seq<ElemV>, ParseErrV>) -> Result<
    Seq<ElemV>,
    ParseErrV,
> {
    match rest {
        Ok(ns) => Ok(acc + ns),
        Err(e) => Err(e),
    }
}

/// Attaches optional built scripts to a node: a node with neither script
/// stands alone; otherwise it is wrapped, the absent side staying absent.
pub open spec fn spec_attach(inner: ElemV, up: Option<ElemV>, low: Option<ElemV>) -> ElemV {
    if up is None && low is None {
        inner
    } else {
        ElemV::SuperSub {
            inner: Box::new(inner),
            upper: match up {
                Some(u) => Some(Box::new(u)),
                None => None,
            },
            lower: match low {
                Some(l) => Some(Box::new(l)),
                None => None,
            },
        }
    }
}

/// Builds a script's node sequence, or nothing when the script is absent
/// (empty).
pub open spec fn spec_opt_build(nodes: Seq<NodeV>) -> Result<Option<ElemV>, ParseErrV>
    decreases nodes, 2int,
{
    if nodes.len() == 0 {
        Ok(None)
    } else {
        match spec_build(nodes) {
            Err(e) => Err(e),
            Ok(x) => Ok(Some(x)),
        }
    }
}

/// Resolves one function call from the fixed registry: `frac` takes exactly
/// two arguments and builds a fraction; `pm` takes none and yields the
/// plus/minus glyph as a text leaf; any other name is invalid, and a wrong
/// argument count is an arity error naming the expected inclusive range.
pub open spec fn spec_build_function(name: Seq<char>, args: Seq<Seq<NodeV>>) -> Result<
    ElemV,
    ParseErrV,
>
    decreases args, 3int,
{
    if name == "frac"@ {
        if args.len() == 2 {
            match spec_build(args[0]) {
                Err(e) => Err(e),
                Ok(upper) => match spec_build(args[1]) {
                    Err(e) => Err(e),
                    Ok(lower) => Ok(
                        ElemV::Fraction { upper: Box::new(upper), lower: Box::new(lower) },
                    ),
                },
            }
        } else {
            Err(
                ParseErrV::WrongArgumentCount {
                    expected_min: 2,
                    expected_max: 2,
                    actual: args.len() as int,
                },
            )
        }
    } else if name == "pm"@ {
        if args.len() == 0 {
            Ok(ElemV::Text("±"@))
        } else {
            Err(
                ParseErrV::WrongArgumentCount {
                    expected_min: 0,
                    expected_max: 0,
                    actual: args.len() as int,
                },
            )
        }
    } else {
        Err(ParseErrV::InvalidFunction { name })
    }
}

/// Resolves one syntax node: a variable or operator to a text leaf, a
/// function through the registry, each wrapped in a super/subscript element
/// when it carries scripts (the raised script built first); a parenthesis
/// node contributes nothing.
pub open spec fn spec_build_one(node: NodeV) -> Result<Option<ElemV>, ParseErrV>
    decreases node, 3int,
{
    match node {
        NodeV::Var { text, super_script, sub_script } => {
            match spec_opt_build(super_script) {
                Err(e) => Err(e),
                Ok(up) => match spec_opt_build(sub_script) {
                    Err(e) => Err(e),
                    Ok(low) => Ok(Some(spec_attach(ElemV::Text(text), up, low))),
                },
            }
        },
        NodeV::Operator { text } => Ok(Some(ElemV::Text(text))),
        NodeV::Func { name, content, super_script, sub_script } => {
            match spec_build_function(name, content) {
                Err(e) => Err(e),
                Ok(inner) => match spec_opt_build(super_script) {
                    Err(e) => Err(e),
                    Ok(up) => match spec_opt_build(sub_script) {
                        Err(e) => Err(e),
                        Ok(low) => Ok(Some(spec_attach(inner, up, low))),
                    },
                },
            }
        },
        NodeV::Parenthesis { .. } => Ok(None),
    }
}

/// Builds each node of a sequence in order, skipping nodes that contribute
/// nothing, or fails with the first error.
pub open spec fn spec_build_items(nodes: Seq<NodeV>) -> Result<Seq<ElemV>, ParseErrV>
    decreases nodes, 0int,
{
    if nodes.len() == 0 {
        Ok(seq![])
    } else {
        match spec_build_one(nodes[0]) {
            Err(e) => Err(e),
            Ok(None) => spec_build_items(nodes.drop_first()),
            Ok(Some(x)) => match spec_build_items(nodes.drop_first()) {
                Err(e) => Err(e),
                Ok(rest) => Ok(seq![x] + rest),
            },
        }
    }
}

/// Builds a node sequence into one expression: the built items wrapped in a
/// linear group, even for a single node.
pub open spec fn spec_build(nodes: Seq<NodeV>) -> Result<ElemV, ParseErrV>
    decreases nodes, 1int,
{
    match spec_build_items(nodes) {
        Err(e) => Err(e),
        Ok(items) => Ok(ElemV::LinearGroup(items)),
    }
}

/// The dedicated symbol leaf of an operator glyph.
pub open spec fn spec_symbol(s: Seq<char>) -> ElemV {
    if s == "+"@ {
        ElemV::Plus
    } else if s == "-"@ {
        ElemV::Minus
    } else if s == "="@ {
        ElemV::Equals
    } else {
        ElemV::PlusMinus
    }
}

/// The expression of a whole markup string: tokenized, parsed, and built.
pub open spec fn spec_element(s: Seq<char>) -> Result<ElemV, ParseErrV> {
    match spec_parse(s) {
        Err(e) => Err(e),
        Ok(nodes) => spec_build(nodes),
    }
}

proof fn lemma_elem_prefix_snoc(acc: Seq<ElemV>, x: ElemV, rest: Result<Seq<ElemV>, ParseErrV>)
    ensures
        with_elem_prefix(
            acc,
            match rest {
                Ok(ns) => Ok(seq![x] + ns),
                Err(e) => Err(e),
            },
        ) == with_elem_prefix(acc.push(x), rest),
{
    match rest {
        Ok(ns) => {
            assert(acc + (seq![x] + ns) =~= acc.push(x) + ns);
        },
        Err(_) => {},
    }
}

/// Character-by-character string equality.
fn str_eq(a: &str, b: &str) -> (r: bool)
    ensures
        r == (a@ == b@),
{
    let alen = a.unicode_len();
    let blen = b.unicode_len();
    if alen != blen {
        return false;
    }
    let mut i: usize = 0;
    while i < alen
        invariant
            i <= alen,
            alen == a@.len(),
            alen == b@.len(),
            forall|j: int| 0 <= j < i ==> a@[j] == b@[j],
        decreases alen - i,
    {
        if a.get_char(i) != b.get_char(i) {
            return false;
        }
        i = i + 1;
    }
    proof {
        assert(a@ =~= b@);
    }
    true
}

/// Checks a function's argument count against its inclusive range, failing
/// with an arity error that names the range and the actual count.
fn assert_args(n: usize, start: usize, end: usize) -> (r: Result<(), ParseError>)
    ensures
        r is Ok <==> start <= n <= end,
        r is Err ==> r->Err_0@ == (ParseErrV::WrongArgumentCount {
            expected_min: start as int,
            expected_max: end as int,
            actual: n as int,
        }),
{
    if start <= n && n <= end {
        Ok(())
    } else {
        Err(ParseError::WrongArgumentCount { expected_min: start, expected_max: end, actual: n })
    }
}

/// Builds a symbol that takes no arguments into a text leaf carrying its
/// glyph.
fn derive_symbol(symbol_str: &str, args: &Vec<Vec<ParsedObject>>) -> (r: Result<
    KElement,
    ParseError,
>)
    ensures
        args@.len() == 0 ==> r is Ok && r->Ok_0@ == ElemV::Text(symbol_str@),
        args@.len() != 0 ==> r is Err && r->Err_0@ == (ParseErrV::WrongArgumentCount {
            expected_min: 0,
            expected_max: 0,
            actual: args@.len() as int,
        }),
{
    let checked = assert_args(args.len(), 0, 0);
    match checked {
        Ok(u) => Ok(KElement::Text(String::from_str(symbol_str))),
        Err(e) => Err(e),
    }
}

impl KElement {
    /// Resolves a bare operator glyph to its dedicated symbol leaf.
    pub fn from_symbol(symbol: &str) -> (r: Result<KElement, ParseError>)
        requires
            symbol@ == "+"@ || symbol@ == "-"@ || symbol@ == "="@ || symbol@ == "±"@,
        ensures
            r is Ok,
            r->Ok_0@ == spec_symbol(symbol@),
    {
        if str_eq(symbol, "+") {
            Ok(KElement::Plus)
        } else if str_eq(symbol, "-") {
            Ok(KElement::Minus)
        } else if str_eq(symbol, "=") {
            Ok(KElement::Equals)
        } else {
            Ok(KElement::PlusMinus)
        }
    }

    /// Builds a script's node sequence, or nothing when the script is absent
    /// (empty).
    fn opt_build(nodes: &Vec<ParsedObject>) -> (r: Result<Option<KElement>, ParseError>)
        ensures
            ({
                let spec = spec_opt_build(nodes_view(nodes@));
                match r {
                    Ok(Some(e)) => spec == Ok::<Option<ElemV>, ParseErrV>(Some(e@)),
                    Ok(None) => spec == Ok::<Option<ElemV>, ParseErrV>(None),
                    Err(e) => spec == Err::<Option<ElemV>, ParseErrV>(e@),
                }
            }),
        decreases nodes@, 2int,
    {
        if nodes.is_empty() {
            Ok(None)
        } else {
            let built = Self::parse_object(nodes)?;
            Ok(Some(built))
        }
    }

    /// Wraps a node in a super/subscript element when it carries built
    /// scripts.
    fn attach_scripts(inner: KElement, up: Option<KElement>, low: Option<KElement>) -> (r:
        KElement)
        ensures
            r@ == spec_attach(
                inner@,
                match up {
                    Some(u) => Some(u@),
                    None => None,
                },
                match low {
                    Some(l) => Some(l@),
                    None => None,
                },
            ),
    {
        match (up, low) {
            (None, None) => inner,
            (u, l) => KElement::SuperSub {
                inner: Rc::new(inner),
                upper: match u {
                    Some(x) => Some(Rc::new(x)),
                    None => None,
                },
                lower: match l {
                    Some(x) => Some(Rc::new(x)),
                    None => None,
                },
            },
        }
    }

    /// Resolves one function call by name from the fixed registry, its
    /// arguments built recursively.
    pub fn from_function(name: &str, args: &Vec<Vec<ParsedObject>>) -> (r: Result<
        KElement,
        ParseError,
    >)
        ensures
            ({
                let spec = spec_build_function(name@, arg_views(args@));
                match r {
                    Ok(e) => spec == Ok::<ElemV, ParseErrV>(e@),
                    Err(e) => spec == Err::<ElemV, ParseErrV>(e@),
                }
            }),
        decreases args@, 3int,
    {
        let ghost argsv = arg_views(args@);
        if str_eq(name, "frac") {
            let checked = assert_args(args.len(), 2, 2);
            match checked {
                Err(e) => Err(e),
                Ok(u) => {
                    proof {
                        assert(argsv[0] == nodes_view(args@[0]@));
                        assert(argsv[1] == nodes_view(args@[1]@));
                    }
                    let upper = Self::parse_object(&args[0])?;
                    let lower = Self::parse_object(&args[1])?;
                    Ok(KElement::Fraction { upper: Rc::new(upper), lower: Rc::new(lower) })
                },
            }
        } else if str_eq(name, "pm") {
            derive_symbol("±", args)
        } else {
            Err(ParseError::InvalidFunction { name: String::from_str(name) })
        }
    }

    /// Builds a node sequence into one expression, always wrapped in a
    /// linear group.
    pub fn parse_object(elems: &Vec<ParsedObject>) -> (r: Result<KElement, ParseError>)
        ensures
            ({
                let spec = spec_build(nodes_view(elems@));
                match r {
                    Ok(e) => spec == Ok::<ElemV, ParseErrV>(e@),
                    Err(e) => spec == Err::<ElemV, ParseErrV>(e@),
                }
            }),
        decreases elems@, 1int,
    {
        let ghost all = nodes_view(elems@);
        let mut root: Vec<KElement> = Vec::new();
        let mut i: usize = 0;
        proof {
            assert(all.skip(0) =~= all);
            assert(elems_view(root@) =~= Seq::<ElemV>::empty());
            if spec_build_items(all) is Ok {
                assert(Seq::<ElemV>::empty() + spec_build_items(all)->Ok_0 =~= spec_build_items(
                    all,
                )->Ok_0);
            }
        }
        while i < elems.len()
            invariant
                i <= elems@.len(),
                all == nodes_view(elems@),
                all.len() == elems@.len(),
                spec_build_items(all) == with_elem_prefix(
                    elems_view(root@),
                    spec_build_items(all.skip(i as int)),
                ),
            decreases elems@.len() - i,
        {
            let ghost tail = all.skip(i as int);
            let ghost acc = elems_view(root@);
            proof {
                assert(tail[0] == all[i as int]);
                assert(all[i as int] == node_view(elems@[i as int]));
                assert(tail.drop_first() =~= all.skip(i as int + 1));
            }
            let built: Option<KElement> = match &elems[i] {
                ParsedObject::Var { text, super_script, sub_script } => {
                    let upr = Self::opt_build(super_script);
                    let up = match upr {
                        Ok(u) => u,
                        Err(e) => {
                            proof {
                                assert(tail[0] == (NodeV::Var {
                                    text: text@,
                                    super_script: nodes_view(super_script@),
                                    sub_script: nodes_view(sub_script@),
                                }));
                                assert(spec_build_one(tail[0]) == Err::<Option<ElemV>, ParseErrV>(
                                    e@,
                                ));
                                assert(spec_build_items(tail) == Err::<Seq<ElemV>, ParseErrV>(e@));
                                assert(spec_build_items(all) == Err::<Seq<ElemV>, ParseErrV>(e@));
                            }
                            return Err(e);
                        },
                    };
                    let low = Self::opt_build(sub_script)?;
                    Some(Self::attach_scripts(KElement::Text(text.clone()), up, low))
                },
                ParsedObject::Operator { text } => Some(KElement::Text(text.clone())),
                ParsedObject::Func { name, content, super_script, sub_script } => {
                    let inner = Self::from_function(name.as_str(), content)?;
                    let up = Self::opt_build(super_script)?;
                    let low = Self::opt_build(sub_script)?;
                    Some(Self::attach_scripts(inner, up, low))
                },
                ParsedObject::Parenthesis { .. } => None,
            };
            match built {
                Some(x) => {
                    let ghost pre_root = root@;
                    root.push(x);
                    proof {
                        assert(elems_view(root@) =~= acc.push(x@));
                        lemma_elem_prefix_snoc(acc, x@, spec_build_items(all.skip(i as int + 1)));
                    }
                },
                None => {},
            }
            i = i + 1;
        }
        proof {
            assert(all.skip(i as int) =~= Seq::<NodeV>::empty());
            assert(elems_view(root@) + seq![] =~= elems_view(root@));
        }
        Ok(KElement::LinearGroup(root))
    }

    /// Tokenizes, parses and builds a whole markup string into one
    /// expression.
    pub fn parse(input: &str) -> (r: Result<KElement, ParseError>)
        ensures
            ({
                let spec = spec_element(input@);
                match r {
                    Ok(e) => spec == Ok::<ElemV, ParseErrV>(e@),
                    Err(e) => spec == Err::<ElemV, ParseErrV>(e@),
                }
            }),
    {
        let elems = match parse(input) {
            Ok(v) => v,
            Err(e) => {
                return Err(e);
            },
        };
        Self::parse_object(&elems)
    }
}

} // verus!
