//! Recursive-descent parser: turns the token sequence into syntax nodes.
//!
//! The parser consumes a double-ended token queue so that lookahead and
//! push-back are both available.  A function token collects brace-delimited
//! argument groups; numbers and letters become variables; a left parenthesis
//! opens a group closed only by a right parenthesis of the same kind; any
//! node but an operator may carry super/subscripts, written in either order,
//! a repeated script overwriting the earlier one.  A closing token with no
//! enclosing open context terminates the current parse level and is left in
//! the queue for the caller.  Inside an open group, a terminating token that
//! is not the group's closer is dropped and scanning continues, so that a
//! mismatched closer never ends the group; a group still open when the input
//! ends is an unmatched-opening error.

use std::collections::VecDeque;

use vstd::prelude::*;

use crate::error::ParseErrV;
use crate::error::ParseError;
use crate::token::token_views;
use crate::token::tokenize;
use crate::token::PerenthesisType;
use crate::token::Token;
use crate::token::TokenV;

verus! {

/// One parsed syntax node.  Scripts are themselves fully parsed node
/// sequences (empty = absent), never raw strings.
#[derive(Debug, PartialEq)]
pub enum ParsedObject {
    Func {
        name: String,
        content: Vec<Vec<ParsedObject>>,
        super_script: Vec<ParsedObject>,
        sub_script: Vec<ParsedObject>,
    },
    Var { text: String, super_script: Vec<ParsedObject>, sub_script: Vec<ParsedObject> },
    Operator { text: String },
    Parenthesis {
        inner: Vec<ParsedObject>,
        parenthesis_type: PerenthesisType,
        super_script: Vec<ParsedObject>,
        sub_script: Vec<ParsedObject>,
    },
}

/// Mathematical model of a syntax node: texts are character sequences and
/// node lists are sequences.
pub enum NodeV {
    Func {
        name: Seq<char>,
        content: Seq<Seq<NodeV>>,
        super_script: Seq<NodeV>,
        sub_script: Seq<NodeV>,
    },
    Var { text: Seq<char>, super_script: Seq<NodeV>, sub_script: Seq<NodeV> },
    Operator { text: Seq<char> },
    Parenthesis {
        inner: Seq<NodeV>,
        parenthesis_type: PerenthesisType,
        super_script: Seq<NodeV>,
        sub_script: Seq<NodeV>,
    },
}

/// The model of one syntax node.
pub open spec fn node_view(p: ParsedObject) -> NodeV
    decreases p,
{
    match p {
        ParsedObject::Func { name, content, super_script, sub_script } => NodeV::Func {
            name: name@,
            content: arg_views(content@),
            super_script: nodes_view(super_script@),
            sub_script: nodes_view(sub_script@),
        },
        ParsedObject::Var { text, super_script, sub_script } => NodeV::Var {
            text: text@,
            super_script: nodes_view(super_script@),
            sub_script: nodes_view(sub_script@),
        },
        ParsedObject::Operator { text } => NodeV::Operator { text: text@ },
        ParsedObject::Parenthesis { inner, parenthesis_type, super_script, sub_script } => {
            NodeV::Parenthesis {
                inner: nodes_view(inner@),
                parenthesis_type,
                super_script: nodes_view(super_script@),
                sub_script: nodes_view(sub_script@),
            }
        },
    }
}

/// The models of a sequence of syntax nodes.
pub open spec fn nodes_view(s: Seq<ParsedObject>) -> Seq<NodeV>
    decreases s,
{
    Seq::new(
        s.len(),
        |i: int|
            if 0 <= i < s.len() {
                node_view(s[i])
            } else {
                NodeV::Operator { text: seq![] }
            },
    )
}

/// The models of a sequence of argument groups.
pub open spec fn arg_views(s: Seq<Vec<ParsedObject>>) -> Seq<Seq<NodeV>>
    decreases s,
{
    Seq::new(
        s.len(),
        |i: int|
            if 0 <= i < s.len() {
                nodes_view(s[i]@)
            } else {
                Seq::empty()
            },
    )
}

impl View for ParsedObject {
    type V = NodeV;

    open spec fn view(&self) -> NodeV {
        node_view(*self)
    }
}

/// A token that terminates the current parse level when it stands at the
/// front: a closer, a bare brace, or a script marker.
pub open spec fn is_level_break(t: TokenV) -> bool {
    match t {
        TokenV::RightParen(_) => true,
        TokenV::RightBrace => true,
        TokenV::LeftBrace => true,
        TokenV::Superscript => true,
        TokenV::Subscript => true,
        _ => false,
    }
}

/// Prepends already-parsed nodes to a parse step's node list.
pub open spec fn with_prefix(
    acc: Seq<NodeV>,
    step: (Result<Seq<NodeV>, ParseErrV>, Seq<TokenV>),
) -> (Result<Seq<NodeV>, ParseErrV>, Seq<TokenV>) {
    (
        match step.0 {
            Ok(ns) => Ok(acc + ns),
            Err(e) => Err(e),
        },
        step.1,
    )
}

/// Parses objects from the front of `ts` until the level ends: at the end of
/// the input, or at a closer, bare brace or script marker, which is left in
/// place.  Returns the nodes and the remaining tokens, or the first error.
pub open spec fn spec_parse_tokens(ts: Seq<TokenV>) -> (Result<Seq<NodeV>, ParseErrV>, Seq<TokenV>)
    decreases ts.len(), 0int,
{
    if ts.len() == 0 || is_level_break(ts[0]) {
        (Ok(seq![]), ts)
    } else {
        let step = match ts[0] {
            TokenV::Function(name) => spec_parse_function(name, ts.drop_first()),
            TokenV::Number(text) => spec_parse_variable(text, ts.drop_first()),
            TokenV::Letter(text) => spec_parse_variable(text, ts.drop_first()),
            TokenV::Operator(text) => (
                Ok::<NodeV, ParseErrV>(NodeV::Operator { text }),
                ts.drop_first(),
            ),
            _ => spec_parse_parenthesis(ts[0]->LeftParen_0, ts.drop_first()),
        };
        match step.0 {
            Err(e) => (Err(e), step.1),
            Ok(node) => {
                if step.1.len() < ts.len() {
                    with_prefix(seq![node], spec_parse_tokens(step.1))
                } else {
                    (Ok(seq![node]), step.1)
                }
            },
        }
    }
}

/// Parses a function's brace-delimited argument groups, then its optional
/// scripts, into a function node.
pub open spec fn spec_parse_function(name: Seq<char>, ts: Seq<TokenV>) -> (
    Result<NodeV, ParseErrV>,
    Seq<TokenV>,
)
    decreases ts.len(), 6int,
{
    let args = spec_parse_function_args(ts);
    match args.0 {
        Err(e) => (Err(e), args.1),
        Ok(content) => {
            if args.1.len() <= ts.len() {
                let scripts = spec_parse_scripts(args.1, seq![], seq![]);
                match scripts.0 {
                    Err(e) => (Err(e), scripts.1),
                    Ok(ss) => (
                        Ok(
                            NodeV::Func {
                                name,
                                content,
                                super_script: ss.0,
                                sub_script: ss.1,
                            },
                        ),
                        scripts.1,
                    ),
                }
            } else {
                (
                    Ok(NodeV::Func { name, content, super_script: seq![], sub_script: seq![] }),
                    args.1,
                )
            }
        },
    }
}

/// Parses zero or more brace-delimited argument groups standing immediately
/// after a function name.
pub open spec fn spec_parse_function_args(ts: Seq<TokenV>) -> (
    Result<Seq<Seq<NodeV>>, ParseErrV>,
    Seq<TokenV>,
)
    decreases ts.len(), 5int,
{
    if ts.len() > 0 && ts[0] is LeftBrace {
        let group = spec_parse_braced(ts);
        match group.0 {
            Err(e) => (Err(e), group.1),
            Ok(items) => {
                if group.1.len() < ts.len() {
                    let more = spec_parse_function_args(group.1);
                    match more.0 {
                        Err(e) => (Err(e), more.1),
                        Ok(rest) => (Ok(seq![items] + rest), more.1),
                    }
                } else {
                    (Ok(seq![items]), group.1)
                }
            },
        }
    } else {
        (Ok(seq![]), ts)
    }
}

/// Parses one brace-delimited group: the opening brace, the interior, and
/// its matching closing brace.
pub open spec fn spec_parse_braced(ts: Seq<TokenV>) -> (Result<Seq<NodeV>, ParseErrV>, Seq<TokenV>)
    decreases ts.len(), 4int,
{
    if ts.len() > 0 && ts[0] is LeftBrace {
        spec_parse_until_rbrace(ts.drop_first())
    } else {
        (Err(ParseErrV::ExpectedBrace), ts)
    }
}

/// Scans the interior of a brace group up to its closing brace, which is
/// consumed.  A terminating token that is not the closer is dropped;
/// exhausting the input first is an unmatched-brace error.
pub open spec fn spec_parse_until_rbrace(ts: Seq<TokenV>) -> (
    Result<Seq<NodeV>, ParseErrV>,
    Seq<TokenV>,
)
    decreases ts.len(), 1int,
{
    if ts.len() == 0 {
        (Err(ParseErrV::UnmatchedBrace), ts)
    } else if ts[0] is RightBrace {
        (Ok(seq![]), ts.drop_first())
    } else {
        let step = spec_parse_tokens(ts);
        match step.0 {
            Err(e) => (Err(e), step.1),
            Ok(objs) => {
                if step.1.len() < ts.len() {
                    with_prefix(objs, spec_parse_until_rbrace(step.1))
                } else {
                    with_prefix(objs, spec_parse_until_rbrace(ts.drop_first()))
                }
            },
        }
    }
}

/// Scans the interior of a parenthesized group up to the closer of the same
/// kind, which is consumed.  A terminating token that is not the matching
/// closer (a mismatched closer among them) is dropped and scanning
/// continues; exhausting the input first is an unmatched-parenthesis error.
pub open spec fn spec_parse_until_rparen(kind: PerenthesisType, ts: Seq<TokenV>) -> (
    Result<Seq<NodeV>, ParseErrV>,
    Seq<TokenV>,
)
    decreases ts.len(), 1int,
{
    if ts.len() == 0 {
        (Err(ParseErrV::UnmatchedParenthesis), ts)
    } else if ts[0] == TokenV::RightParen(kind) {
        (Ok(seq![]), ts.drop_first())
    } else {
        let step = spec_parse_tokens(ts);
        match step.0 {
            Err(e) => (Err(e), step.1),
            Ok(objs) => {
                if step.1.len() < ts.len() {
                    with_prefix(objs, spec_parse_until_rparen(kind, step.1))
                } else {
                    with_prefix(objs, spec_parse_until_rparen(kind, ts.drop_first()))
                }
            },
        }
    }
}

/// Parses a parenthesized group (the opener already consumed), then its
/// optional scripts, into a parenthesis node.
pub open spec fn spec_parse_parenthesis(kind: PerenthesisType, ts: Seq<TokenV>) -> (
    Result<NodeV, ParseErrV>,
    Seq<TokenV>,
)
    decreases ts.len(), 6int,
{
    let interior = spec_parse_until_rparen(kind, ts);
    match interior.0 {
        Err(e) => (Err(e), interior.1),
        Ok(inner) => {
            if interior.1.len() <= ts.len() {
                let scripts = spec_parse_scripts(interior.1, seq![], seq![]);
                match scripts.0 {
                    Err(e) => (Err(e), scripts.1),
                    Ok(ss) => (
                        Ok(
                            NodeV::Parenthesis {
                                inner,
                                parenthesis_type: kind,
                                super_script: ss.0,
                                sub_script: ss.1,
                            },
                        ),
                        scripts.1,
                    ),
                }
            } else {
                (
                    Ok(
                        NodeV::Parenthesis {
                            inner,
                            parenthesis_type: kind,
                            super_script: seq![],
                            sub_script: seq![],
                        },
                    ),
                    interior.1,
                )
            }
        },
    }
}

/// Parses a variable (a number or letter token), then its optional scripts.
pub open spec fn spec_parse_variable(text: Seq<char>, ts: Seq<TokenV>) -> (
    Result<NodeV, ParseErrV>,
    Seq<TokenV>,
)
    decreases ts.len(), 3int,
{
    let scripts = spec_parse_scripts(ts, seq![], seq![]);
    match scripts.0 {
        Err(e) => (Err(e), scripts.1),
        Ok(ss) => (
            Ok(NodeV::Var { text, super_script: ss.0, sub_script: ss.1 }),
            scripts.1,
        ),
    }
}

/// Parses any run of script markers at the front, in either order, each
/// marker followed by its content; a repeated marker overwrites the earlier
/// content (last wins).  `sup` and `sub` are the contents gathered so far.
pub open spec fn spec_parse_scripts(ts: Seq<TokenV>, sup: Seq<NodeV>, sub: Seq<NodeV>) -> (
    Result<(Seq<NodeV>, Seq<NodeV>), ParseErrV>,
    Seq<TokenV>,
)
    decreases ts.len(), 2int,
{
    if ts.len() > 0 && ts[0] is Superscript {
        let content = spec_parse_script_content(ts.drop_first());
        match content.0 {
            Err(e) => (Err(e), content.1),
            Ok(ns) => {
                if content.1.len() < ts.len() {
                    spec_parse_scripts(content.1, ns, sub)
                } else {
                    (Ok((ns, sub)), content.1)
                }
            },
        }
    } else if ts.len() > 0 && ts[0] is Subscript {
        let content = spec_parse_script_content(ts.drop_first());
        match content.0 {
            Err(e) => (Err(e), content.1),
            Ok(ns) => {
                if content.1.len() < ts.len() {
                    spec_parse_scripts(content.1, sup, ns)
                } else {
                    (Ok((sup, ns)), content.1)
                }
            },
        }
    } else {
        (Ok((sup, sub)), ts)
    }
}

/// Parses the content of one script: a brace group, a single number or
/// letter, or a function; anything else is invalid, and a script marker at
/// the end of the input has no content at all.
pub open spec fn spec_parse_script_content(ts: Seq<TokenV>) -> (
    Result<Seq<NodeV>, ParseErrV>,
    Seq<TokenV>,
)
    decreases ts.len(), 5int,
{
    if ts.len() == 0 {
        (Err(ParseErrV::ExpectedScriptContent), ts)
    } else {
        match ts[0] {
            TokenV::LeftBrace => spec_parse_braced(ts),
            TokenV::Number(text) => (
                Ok(seq![NodeV::Var { text, super_script: seq![], sub_script: seq![] }]),
                ts.drop_first(),
            ),
            TokenV::Letter(text) => (
                Ok(seq![NodeV::Var { text, super_script: seq![], sub_script: seq![] }]),
                ts.drop_first(),
            ),
            TokenV::Function(name) => {
                let func = spec_parse_function(name, ts.drop_first());
                match func.0 {
                    Err(e) => (Err(e), func.1),
                    Ok(node) => (Ok(seq![node]), func.1),
                }
            },
            _ => (Err(ParseErrV::InvalidScriptContent), ts),
        }
    }
}

/// The parse of a whole input string: its tokens, parsed as one top level.
/// Tokens on which the top level stops (a stray closer) are left unconsumed
/// and do not fail the parse.
pub open spec fn spec_parse(s: Seq<char>) -> Result<Seq<NodeV>, ParseErrV> {
    match crate::token::spec_tokenize(s) {
        Err(e) => Err(e),
        Ok(ts) => spec_parse_tokens(ts).0,
    }
}

/// Prepends already-parsed argument groups to an argument-parse step.
pub open spec fn with_arg_prefix(
    acc: Seq<Seq<NodeV>>,
    step: (Result<Seq<Seq<NodeV>>, ParseErrV>, Seq<TokenV>),
) -> (Result<Seq<Seq<NodeV>>, ParseErrV>, Seq<TokenV>) {
    (
        match step.0 {
            Ok(ns) => Ok(acc + ns),
            Err(e) => Err(e),
        },
        step.1,
    )
}

proof fn lemma_with_prefix_assoc(
    a: Seq<NodeV>,
    b: Seq<NodeV>,
    s: (Result<Seq<NodeV>, ParseErrV>, Seq<TokenV>),
)
    ensures
        with_prefix(a, with_prefix(b, s)) == with_prefix(a + b, s),
{
    match s.0 {
        Ok(ns) => {
            assert(a + (b + ns) =~= (a + b) + ns);
        },
        Err(_) => {},
    }
}

proof fn lemma_with_arg_prefix_assoc(
    a: Seq<Seq<NodeV>>,
    b: Seq<Seq<NodeV>>,
    s: (Result<Seq<Seq<NodeV>>, ParseErrV>, Seq<TokenV>),
)
    ensures
        with_arg_prefix(a, with_arg_prefix(b, s)) == with_arg_prefix(a + b, s),
{
    match s.0 {
        Ok(ns) => {
            assert(a + (b + ns) =~= (a + b) + ns);
        },
        Err(_) => {},
    }
}

proof fn lemma_nodes_view_push(s: Seq<ParsedObject>, p: ParsedObject)
    ensures
        nodes_view(s.push(p)) == nodes_view(s).push(node_view(p)),
{
    assert(nodes_view(s.push(p)) =~= nodes_view(s).push(node_view(p)));
}

proof fn lemma_nodes_view_concat(a: Seq<ParsedObject>, b: Seq<ParsedObject>)
    ensures
        nodes_view(a + b) == nodes_view(a) + nodes_view(b),
{
    assert(nodes_view(a + b) =~= nodes_view(a) + nodes_view(b));
}

proof fn lemma_arg_views_push(s: Seq<Vec<ParsedObject>>, p: Vec<ParsedObject>)
    ensures
        arg_views(s.push(p)) == arg_views(s).push(nodes_view(p@)),
{
    assert(arg_views(s.push(p)) =~= arg_views(s).push(nodes_view(p@)));
}

proof fn lemma_token_views_drop_first(q: Seq<Token>)
    requires
        q.len() > 0,
    ensures
        token_views(q.subrange(1, q.len() as int)) == token_views(q).drop_first(),
{
    assert(token_views(q.subrange(1, q.len() as int)) =~= token_views(q).drop_first());
}

proof fn lemma_token_views_cons(t: Token, q: Seq<Token>)
    ensures
        token_views(seq![t] + q) == seq![t@] + token_views(q),
{
    assert(token_views(seq![t] + q) =~= seq![t@] + token_views(q));
}

/// Parses objects from the front of the queue until the current level ends:
/// at the end of the input or at a terminating token, which is pushed back
/// for the enclosing context.
fn parse_tokens(tokens: &mut VecDeque<Token>) -> (r: Result<Vec<ParsedObject>, ParseError>)
    ensures
        final(tokens)@.len() <= old(tokens)@.len(),
        final(tokens)@.len() == old(tokens)@.len() ==> final(tokens)@ == old(tokens)@,
        ({
            let step = spec_parse_tokens(token_views(old(tokens)@));
            &&& token_views(final(tokens)@) == step.1
            &&& match r {
                Ok(v) => step.0 == Ok::<Seq<NodeV>, ParseErrV>(nodes_view(v@)),
                Err(e) => step.0 == Err::<Seq<NodeV>, ParseErrV>(e@),
            }
        }),
    decreases tokens@.len(), 0int,
{
    let ghost orig = token_views(tokens@);
    let mut result: Vec<ParsedObject> = Vec::new();
    loop
        invariant
            tokens@.len() <= old(tokens)@.len(),
            tokens@ == old(tokens)@ || tokens@.len() < old(tokens)@.len(),
            orig == token_views(old(tokens)@),
            spec_parse_tokens(orig) == with_prefix(
                nodes_view(result@),
                spec_parse_tokens(token_views(tokens@)),
            ),
        ensures
            tokens@.len() <= old(tokens)@.len(),
            tokens@ == old(tokens)@ || tokens@.len() < old(tokens)@.len(),
            spec_parse_tokens(orig) == (
                Ok::<Seq<NodeV>, ParseErrV>(nodes_view(result@)),
                token_views(tokens@),
            ),
        decreases tokens@.len(),
    {
        proof {
            assert(nodes_view(result@) + seq![] =~= nodes_view(result@));
        }
        if tokens.len() == 0 {
            break ;
        }
        let ghost cur = token_views(tokens@);
        let ghost acc = nodes_view(result@);
        let ghost pre_result = result@;
        let ghost pre_pop = tokens@;
        let t = tokens.pop_front().unwrap();
        proof {
            lemma_token_views_drop_first(pre_pop);
            assert(cur[0] == t@);
        }
        match t {
            Token::Function(name) => {
                let ghost fstep = spec_parse_function(name@, cur.drop_first());
                let func = parse_function_generic(name, tokens)?;
                result.push(func);
                proof {
                    lemma_nodes_view_push(pre_result, func);
                    lemma_with_prefix_assoc(
                        acc,
                        seq![node_view(func)],
                        spec_parse_tokens(token_views(tokens@)),
                    );
                    assert(acc.push(node_view(func)) =~= acc + seq![node_view(func)]);
                }
            },
            Token::Number(text) => {
                let var = parse_variable(text, tokens)?;
                result.push(var);
                proof {
                    lemma_nodes_view_push(pre_result, var);
                    lemma_with_prefix_assoc(
                        acc,
                        seq![node_view(var)],
                        spec_parse_tokens(token_views(tokens@)),
                    );
                    assert(acc.push(node_view(var)) =~= acc + seq![node_view(var)]);
                }
            },
            Token::Letter(text) => {
                let var = parse_variable(text, tokens)?;
                result.push(var);
                proof {
                    lemma_nodes_view_push(pre_result, var);
                    lemma_with_prefix_assoc(
                        acc,
                        seq![node_view(var)],
                        spec_parse_tokens(token_views(tokens@)),
                    );
                    assert(acc.push(node_view(var)) =~= acc + seq![node_view(var)]);
                }
            },
            Token::Operator(text) => {
                let op = ParsedObject::Operator { text };
                result.push(op);
                proof {
                    lemma_nodes_view_push(pre_result, op);
                    lemma_with_prefix_assoc(
                        acc,
                        seq![node_view(op)],
                        spec_parse_tokens(token_views(tokens@)),
                    );
                    assert(acc.push(node_view(op)) =~= acc + seq![node_view(op)]);
                }
            },
            Token::LeftParen(paren_type) => {
                let paren = parse_parenthesis(paren_type, tokens)?;
                result.push(paren);
                proof {
                    lemma_nodes_view_push(pre_result, paren);
                    lemma_with_prefix_assoc(
                        acc,
                        seq![node_view(paren)],
                        spec_parse_tokens(token_views(tokens@)),
                    );
                    assert(acc.push(node_view(paren)) =~= acc + seq![node_view(paren)]);
                }
            },
            other => {
                let ghost after_pop = tokens@;
                tokens.push_front(other);
                proof {
                    assert(tokens@ =~= pre_pop);
                    assert(tokens@ == pre_pop);
                    assert(nodes_view(result@) + seq![] =~= nodes_view(result@));
                }
                break ;
            },
        }
    }
    Ok(result)
}

/// Parses a function node: its brace-delimited argument groups, then its
/// optional scripts.
fn parse_function_generic(name: String, tokens: &mut VecDeque<Token>) -> (r: Result<
    ParsedObject,
    ParseError,
>)
    ensures
        final(tokens)@.len() <= old(tokens)@.len(),
        ({
            let step = spec_parse_function(name@, token_views(old(tokens)@));
            &&& token_views(final(tokens)@) == step.1
            &&& match r {
                Ok(p) => step.0 == Ok::<NodeV, ParseErrV>(node_view(p)),
                Err(e) => step.0 == Err::<NodeV, ParseErrV>(e@),
            }
        }),
    decreases tokens@.len(), 6int,
{
    let ghost orig = token_views(tokens@);
    let mut content: Vec<Vec<ParsedObject>> = Vec::new();
    loop
        invariant
            tokens@.len() <= old(tokens)@.len(),
            orig == token_views(old(tokens)@),
            spec_parse_function_args(orig) == with_arg_prefix(
                arg_views(content@),
                spec_parse_function_args(token_views(tokens@)),
            ),
        ensures
            tokens@.len() <= old(tokens)@.len(),
            spec_parse_function_args(orig) == (
                Ok::<Seq<Seq<NodeV>>, ParseErrV>(arg_views(content@)),
                token_views(tokens@),
            ),
        decreases tokens@.len(),
    {
        proof {
            assert(arg_views(content@) + seq![] =~= arg_views(content@));
        }
        if tokens.len() == 0 {
            break ;
        }
        let is_brace = matches!(&tokens[0], Token::LeftBrace);
        if !is_brace {
            break ;
        }
        let ghost cur = token_views(tokens@);
        let ghost acc = arg_views(content@);
        let ghost pre_content = content@;
        let group = parse_braced_content(tokens)?;
        content.push(group);
        proof {
            lemma_arg_views_push(pre_content, group);
            lemma_with_arg_prefix_assoc(
                acc,
                seq![nodes_view(group@)],
                spec_parse_function_args(token_views(tokens@)),
            );
            assert(acc.push(nodes_view(group@)) =~= acc + seq![nodes_view(group@)]);
        }
    }
    let scripts = parse_scripts(tokens)?;
    let (super_script, sub_script) = scripts;
    Ok(ParsedObject::Func { name, content, super_script, sub_script })
}

/// Parses a variable node (from a number or letter token), then its optional
/// scripts.
fn parse_variable(text: String, tokens: &mut VecDeque<Token>) -> (r: Result<
    ParsedObject,
    ParseError,
>)
    ensures
        final(tokens)@.len() <= old(tokens)@.len(),
        ({
            let step = spec_parse_variable(text@, token_views(old(tokens)@));
            &&& token_views(final(tokens)@) == step.1
            &&& match r {
                Ok(p) => step.0 == Ok::<NodeV, ParseErrV>(node_view(p)),
                Err(e) => step.0 == Err::<NodeV, ParseErrV>(e@),
            }
        }),
    decreases tokens@.len(), 3int,
{
    let scripts = parse_scripts(tokens)?;
    let (super_script, sub_script) = scripts;
    Ok(ParsedObject::Var { text, super_script, sub_script })
}

/// Parses the interior of a parenthesized group up to the matching closer,
/// then the group's optional scripts.  A terminating token that is not the
/// matching closer is dropped; exhausted input is an unmatched-parenthesis
/// error.
fn parse_parenthesis(paren_type: PerenthesisType, tokens: &mut VecDeque<Token>) -> (r: Result<
    ParsedObject,
    ParseError,
>)
    ensures
        final(tokens)@.len() <= old(tokens)@.len(),
        ({
            let step = spec_parse_parenthesis(paren_type, token_views(old(tokens)@));
            &&& token_views(final(tokens)@) == step.1
            &&& match r {
                Ok(p) => step.0 == Ok::<NodeV, ParseErrV>(node_view(p)),
                Err(e) => step.0 == Err::<NodeV, ParseErrV>(e@),
            }
        }),
    decreases tokens@.len(), 6int,
{
    let ghost orig = token_views(tokens@);
    let mut inner: Vec<ParsedObject> = Vec::new();
    loop
        invariant_except_break
            spec_parse_until_rparen(paren_type, orig) == with_prefix(
                nodes_view(inner@),
                spec_parse_until_rparen(paren_type, token_views(tokens@)),
            ),
        invariant
            tokens@.len() <= old(tokens)@.len(),
            orig == token_views(old(tokens)@),
        ensures
            tokens@.len() <= old(tokens)@.len(),
            spec_parse_until_rparen(paren_type, orig) == (
                Ok::<Seq<NodeV>, ParseErrV>(nodes_view(inner@)),
                token_views(tokens@),
            ),
        decreases tokens@.len(),
    {
        let ghost cur = token_views(tokens@);
        let ghost acc = nodes_view(inner@);
        proof {
            assert(acc + seq![] =~= acc);
        }
        if tokens.len() == 0 {
            return Err(ParseError::UnmatchedParenthesis);
        }
        proof {
            assert(cur[0] == tokens@[0]@);
        }
        let is_closer = match &tokens[0] {
            Token::RightParen(k) => *k == paren_type,
            _ => false,
        };
        if is_closer {
            let ghost pre_pop = tokens@;
            let closer = tokens.pop_front();
            proof {
                lemma_token_views_drop_first(pre_pop);
            }
            break ;
        }
        let pre_len = tokens.len();
        let mut parsed = parse_tokens(tokens)?;
        let ghost parsed_seq = parsed@;
        let ghost parsed_view = nodes_view(parsed@);
        let ghost pre_inner = inner@;
        let progressed = tokens.len() < pre_len;
        inner.append(&mut parsed);
        proof {
            lemma_nodes_view_concat(pre_inner, parsed_seq);
        }
        if !progressed {
            let ghost pre_pop = tokens@;
            let skipped = tokens.pop_front();
            proof {
                lemma_token_views_drop_first(pre_pop);
            }
        }
        proof {
            lemma_with_prefix_assoc(
                acc,
                parsed_view,
                spec_parse_until_rparen(paren_type, token_views(tokens@)),
            );
        }
    }
    let scripts = parse_scripts(tokens)?;
    let (super_script, sub_script) = scripts;
    Ok(ParsedObject::Parenthesis { inner, parenthesis_type: paren_type, super_script, sub_script })
}

/// Parses one brace-delimited group: the opening brace, the interior up to
/// the matching closing brace (a terminating token that is not the closer is
/// dropped), and the closer.  Exhausted input is an unmatched-brace error; a
/// missing opener is an expected-brace error.
fn parse_braced_content(tokens: &mut VecDeque<Token>) -> (r: Result<Vec<ParsedObject>, ParseError>)
    ensures
        final(tokens)@.len() <= old(tokens)@.len(),
        r is Ok ==> final(tokens)@.len() < old(tokens)@.len(),
        ({
            let step = spec_parse_braced(token_views(old(tokens)@));
            &&& token_views(final(tokens)@) == step.1
            &&& match r {
                Ok(v) => step.0 == Ok::<Seq<NodeV>, ParseErrV>(nodes_view(v@)),
                Err(e) => step.0 == Err::<Seq<NodeV>, ParseErrV>(e@),
            }
        }),
    decreases tokens@.len(), 4int,
{
    let ghost orig = token_views(tokens@);
    if tokens.len() == 0 {
        return Err(ParseError::ExpectedBrace);
    }
    proof {
        assert(orig[0] == tokens@[0]@);
    }
    let is_brace = matches!(&tokens[0], Token::LeftBrace);
    if !is_brace {
        return Err(ParseError::ExpectedBrace);
    }
    let ghost pre_pop = tokens@;
    let opener = tokens.pop_front();
    proof {
        lemma_token_views_drop_first(pre_pop);
    }
    let ghost after_brace = token_views(tokens@);
    let mut content: Vec<ParsedObject> = Vec::new();
    loop
        invariant_except_break
            spec_parse_until_rbrace(after_brace) == with_prefix(
                nodes_view(content@),
                spec_parse_until_rbrace(token_views(tokens@)),
            ),
        invariant
            tokens@.len() < old(tokens)@.len(),
            after_brace == token_views(old(tokens)@).drop_first(),
            orig == token_views(old(tokens)@),
            orig.len() > 0,
            orig[0] is LeftBrace,
        ensures
            tokens@.len() < old(tokens)@.len(),
            spec_parse_until_rbrace(after_brace) == (
                Ok::<Seq<NodeV>, ParseErrV>(nodes_view(content@)),
                token_views(tokens@),
            ),
        decreases tokens@.len(),
    {
        let ghost cur = token_views(tokens@);
        let ghost acc = nodes_view(content@);
        proof {
            assert(acc + seq![] =~= acc);
        }
        if tokens.len() == 0 {
            return Err(ParseError::UnmatchedBrace);
        }
        proof {
            assert(cur[0] == tokens@[0]@);
        }
        let is_closer = matches!(&tokens[0], Token::RightBrace);
        if is_closer {
            let ghost pre_pop2 = tokens@;
            let closer = tokens.pop_front();
            proof {
                lemma_token_views_drop_first(pre_pop2);
            }
            break ;
        }
        let pre_len = tokens.len();
        let mut parsed = parse_tokens(tokens)?;
        let ghost parsed_seq = parsed@;
        let ghost parsed_view = nodes_view(parsed@);
        let ghost pre_content = content@;
        let progressed = tokens.len() < pre_len;
        content.append(&mut parsed);
        proof {
            lemma_nodes_view_concat(pre_content, parsed_seq);
        }
        if !progressed {
            let ghost pre_pop2 = tokens@;
            let skipped = tokens.pop_front();
            proof {
                lemma_token_views_drop_first(pre_pop2);
            }
        }
        proof {
            lemma_with_prefix_assoc(
                acc,
                parsed_view,
                spec_parse_until_rbrace(token_views(tokens@)),
            );
        }
    }
    Ok(content)
}

/// Parses any run of leading script markers, each followed by its content,
/// in either order; a repeated marker overwrites the earlier content (last
/// wins).  Returns the superscript and subscript node lists, empty where
/// absent.
fn parse_scripts(tokens: &mut VecDeque<Token>) -> (r: Result<
    (Vec<ParsedObject>, Vec<ParsedObject>),
    ParseError,
>)
    ensures
        final(tokens)@.len() <= old(tokens)@.len(),
        ({
            let step = spec_parse_scripts(token_views(old(tokens)@), seq![], seq![]);
            &&& token_views(final(tokens)@) == step.1
            &&& match r {
                Ok(p) => step.0 == Ok::<(Seq<NodeV>, Seq<NodeV>), ParseErrV>(
                    (nodes_view(p.0@), nodes_view(p.1@)),
                ),
                Err(e) => step.0 == Err::<(Seq<NodeV>, Seq<NodeV>), ParseErrV>(e@),
            }
        }),
    decreases tokens@.len(), 2int,
{
    let ghost orig = token_views(tokens@);
    let mut super_script: Vec<ParsedObject> = Vec::new();
    let mut sub_script: Vec<ParsedObject> = Vec::new();
    proof {
        assert(nodes_view(super_script@) =~= Seq::<NodeV>::empty());
        assert(nodes_view(sub_script@) =~= Seq::<NodeV>::empty());
    }
    loop
        invariant
            tokens@.len() <= old(tokens)@.len(),
            orig == token_views(old(tokens)@),
            spec_parse_scripts(orig, seq![], seq![]) == spec_parse_scripts(
                token_views(tokens@),
                nodes_view(super_script@),
                nodes_view(sub_script@),
            ),
        ensures
            tokens@.len() <= old(tokens)@.len(),
            spec_parse_scripts(orig, seq![], seq![]) == (
                Ok::<(Seq<NodeV>, Seq<NodeV>), ParseErrV>(
                    (nodes_view(super_script@), nodes_view(sub_script@)),
                ),
                token_views(tokens@),
            ),
        decreases tokens@.len(),
    {
        if tokens.len() == 0 {
            break ;
        }
        let is_sup = matches!(&tokens[0], Token::Superscript);
        let is_sub = matches!(&tokens[0], Token::Subscript);
        if !is_sup && !is_sub {
            break ;
        }
        let ghost cur = token_views(tokens@);
        let ghost pre_pop = tokens@;
        let marker = tokens.pop_front();
        proof {
            lemma_token_views_drop_first(pre_pop);
        }
        let content = parse_script_content(tokens)?;
        if is_sup {
            super_script = content;
        } else {
            sub_script = content;
        }
    }
    Ok((super_script, sub_script))
}

/// Parses the content of one script: a brace group, a single number or
/// letter, or a function.  Anything else is invalid script content, and a
/// marker at the end of the input has none at all.
fn parse_script_content(tokens: &mut VecDeque<Token>) -> (r: Result<Vec<ParsedObject>, ParseError>)
    ensures
        final(tokens)@.len() <= old(tokens)@.len(),
        r is Ok ==> final(tokens)@.len() < old(tokens)@.len(),
        ({
            let step = spec_parse_script_content(token_views(old(tokens)@));
            &&& token_views(final(tokens)@) == step.1
            &&& match r {
                Ok(v) => step.0 == Ok::<Seq<NodeV>, ParseErrV>(nodes_view(v@)),
                Err(e) => step.0 == Err::<Seq<NodeV>, ParseErrV>(e@),
            }
        }),
    decreases tokens@.len(), 5int,
{
    let ghost orig = token_views(tokens@);
    if tokens.len() == 0 {
        return Err(ParseError::ExpectedScriptContent);
    }
    let ghost pre_pop = tokens@;
    let t = tokens.pop_front().unwrap();
    proof {
        lemma_token_views_drop_first(pre_pop);
        assert(orig[0] == t@);
    }
    match t {
        Token::LeftBrace => {
            tokens.push_front(t);
            proof {
                assert(tokens@ =~= pre_pop);
            }
            parse_braced_content(tokens)
        },
        Token::Number(text) => {
            let node = ParsedObject::Var {
                text,
                super_script: Vec::new(),
                sub_script: Vec::new(),
            };
            let result = vec![node];
            proof {
                assert(nodes_view(Seq::<ParsedObject>::empty()) =~= Seq::<NodeV>::empty());
                assert(nodes_view(result@) =~= seq![node_view(node)]);
            }
            Ok(result)
        },
        Token::Letter(text) => {
            let node = ParsedObject::Var {
                text,
                super_script: Vec::new(),
                sub_script: Vec::new(),
            };
            let result = vec![node];
            proof {
                assert(nodes_view(Seq::<ParsedObject>::empty()) =~= Seq::<NodeV>::empty());
                assert(nodes_view(result@) =~= seq![node_view(node)]);
            }
            Ok(result)
        },
        Token::Function(name) => {
            let func = parse_function_generic(name, tokens)?;
            let result = vec![func];
            proof {
                assert(nodes_view(result@) =~= seq![node_view(func)]);
            }
            Ok(result)
        },
        other => {
            tokens.push_front(other);
            proof {
                assert(tokens@ =~= pre_pop);
            }
            Err(ParseError::InvalidScriptContent)
        },
    }
}

/// Tokenizes and parses a whole markup string into a sequence of syntax
/// nodes.  A stray closing token terminates the top level without error and
/// is discarded with the rest of the unconsumed tail.
pub fn parse(input: &str) -> (r: Result<Vec<ParsedObject>, ParseError>)
    ensures
        r is Ok <==> spec_parse(input@) is Ok,
        r is Ok ==> nodes_view(r->Ok_0@) == spec_parse(input@)->Ok_0,
        r is Err ==> r->Err_0@ == spec_parse(input@)->Err_0,
{
    let mut tokens = match tokenize(input) {
        Ok(ts) => ts,
        Err(e) => {
            return Err(e);
        },
    };
    let ghost all = tokens@;
    let mut token_queue: VecDeque<Token> = VecDeque::new();
    loop
        invariant
            tokens@ + token_queue@ =~= all,
        ensures
            token_queue@ =~= all,
        decreases tokens@.len(),
    {
        if tokens.len() == 0 {
            break ;
        }
        let ghost pre_vec = tokens@;
        let ghost pre_q = token_queue@;
        let t = tokens.pop().unwrap();
        token_queue.push_front(t);
        proof {
            assert(tokens@ + token_queue@ =~= pre_vec + pre_q);
        }
    }
    parse_tokens(&mut token_queue)
}

/// The literal text of a number or letter token.
pub open spec fn literal_text(t: TokenV) -> Seq<char> {
    match t {
        TokenV::Number(text) => text,
        TokenV::Letter(text) => text,
        _ => seq![],
    }
}

/// The order of `^` and `_` tokens is insignificant: a superscript marker
/// and a subscript marker, each followed by a single literal content token,
/// gather the same scripts and leave the same remaining tokens whichever
/// marker comes first.
pub proof fn lemma_script_order_insignificant(
    c1: TokenV,
    c2: TokenV,
    rest: Seq<TokenV>,
    sup: Seq<NodeV>,
    sub: Seq<NodeV>,
)
    requires
        c1 is Number || c1 is Letter,
        c2 is Number || c2 is Letter,
    ensures
        spec_parse_scripts(seq![TokenV::Superscript, c1, TokenV::Subscript, c2] + rest, sup, sub)
            == spec_parse_scripts(
            seq![TokenV::Subscript, c2, TokenV::Superscript, c1] + rest,
            sup,
            sub,
        ),
{
    let n1 = NodeV::Var { text: literal_text(c1), super_script: seq![], sub_script: seq![] };
    let n2 = NodeV::Var { text: literal_text(c2), super_script: seq![], sub_script: seq![] };
    let ts1 = seq![TokenV::Superscript, c1, TokenV::Subscript, c2] + rest;
    let ts2 = seq![TokenV::Subscript, c2, TokenV::Superscript, c1] + rest;

    let ts1a = seq![c1, TokenV::Subscript, c2] + rest;
    let ts1b = seq![TokenV::Subscript, c2] + rest;
    let ts1c = seq![c2] + rest;
    assert(ts1.drop_first() =~= ts1a);
    assert(ts1a.drop_first() =~= ts1b);
    assert(ts1b.drop_first() =~= ts1c);
    assert(ts1c.drop_first() =~= rest);
    assert(spec_parse_script_content(ts1a) == (
        Ok::<Seq<NodeV>, ParseErrV>(seq![n1]),
        ts1b,
    ));
    assert(spec_parse_scripts(ts1, sup, sub) == spec_parse_scripts(ts1b, seq![n1], sub));
    assert(spec_parse_script_content(ts1c) == (
        Ok::<Seq<NodeV>, ParseErrV>(seq![n2]),
        rest,
    ));
    assert(spec_parse_scripts(ts1b, seq![n1], sub) == spec_parse_scripts(
        rest,
        seq![n1],
        seq![n2],
    ));

    let ts2a = seq![c2, TokenV::Superscript, c1] + rest;
    let ts2b = seq![TokenV::Superscript, c1] + rest;
    let ts2c = seq![c1] + rest;
    assert(ts2.drop_first() =~= ts2a);
    assert(ts2a.drop_first() =~= ts2b);
    assert(ts2b.drop_first() =~= ts2c);
    assert(ts2c.drop_first() =~= rest);
    assert(spec_parse_script_content(ts2a) == (
        Ok::<Seq<NodeV>, ParseErrV>(seq![n2]),
        ts2b,
    ));
    assert(spec_parse_scripts(ts2, sup, sub) == spec_parse_scripts(ts2b, sup, seq![n2]));
    assert(spec_parse_script_content(ts2c) == (
        Ok::<Seq<NodeV>, ParseErrV>(seq![n1]),
        rest,
    ));
    assert(spec_parse_scripts(ts2b, sup, seq![n2]) == spec_parse_scripts(
        rest,
        seq![n1],
        seq![n2],
    ));
}

} // verus!
