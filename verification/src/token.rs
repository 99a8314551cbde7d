//! Lexical analysis: scans the markup string into a flat token sequence.
//!
//! At each position the scanner tries, in fixed priority order: whitespace
//! (skipped), a backslash-prefixed function name, a numeric literal (integer
//! or decimal), a single letter, a single operator character, then the
//! single-character structural tokens.  The first matching rule wins; a
//! position matching no rule is an "unexpected character" error.
//!
//! The character classes are ASCII by design: letters are a-z and A-Z,
//! digits 0-9, and whitespace the ASCII blank and control characters.
//! Unicode whitespace or digits beyond these match no rule and are
//! unexpected characters; the one non-ASCII character with a rule of its
//! own is the plus/minus operator glyph.

use vstd::prelude::*;

use crate::error::ParseErrV;
use crate::error::ParseError;

verus! {

/// Delimiter kind of a parenthesis token.
#[derive(Debug, Clone, PartialEq, Eq, Structural)]
pub enum PerenthesisType {
    Round,
    Square,
}

/// One lexical token, in left-to-right order.
#[derive(Debug, Clone, PartialEq)]
pub enum Token {
    Function(String),
    Number(String),
    Letter(String),
    Operator(String),
    LeftParen(PerenthesisType),
    RightParen(PerenthesisType),
    LeftBrace,
    RightBrace,
    Superscript,
    Subscript,
}

/// Mathematical model of a token: texts are character sequences.
pub enum TokenV {
    Function(Seq<char>),
    Number(Seq<char>),
    Letter(Seq<char>),
    Operator(Seq<char>),
    LeftParen(PerenthesisType),
    RightParen(PerenthesisType),
    LeftBrace,
    RightBrace,
    Superscript,
    Subscript,
}

impl View for Token {
    type V = TokenV;

    open spec fn view(&self) -> TokenV {
        match self {
            Token::Function(s) => TokenV::Function(s@),
            Token::Number(s) => TokenV::Number(s@),
            Token::Letter(s) => TokenV::Letter(s@),
            Token::Operator(s) => TokenV::Operator(s@),
            Token::LeftParen(k) => TokenV::LeftParen(*k),
            Token::RightParen(k) => TokenV::RightParen(*k),
            Token::LeftBrace => TokenV::LeftBrace,
            Token::RightBrace => TokenV::RightBrace,
            Token::Superscript => TokenV::Superscript,
            Token::Subscript => TokenV::Subscript,
        }
    }
}

/// The token views of a token sequence.
pub open spec fn token_views(ts: Seq<Token>) -> Seq<TokenV> {
    ts.map_values(|t: Token| t@)
}

/// An ASCII letter.
pub open spec fn is_letter_char(c: char) -> bool {
    ('a' as u32 <= c as u32 && c as u32 <= 'z' as u32) || ('A' as u32 <= c as u32 && c as u32
        <= 'Z' as u32)
}

/// An ASCII decimal digit.
pub open spec fn is_digit_char(c: char) -> bool {
    '0' as u32 <= c as u32 && c as u32 <= '9' as u32
}

/// A whitespace character the scanner skips.
pub open spec fn is_space_char(c: char) -> bool {
    c == ' ' || c == '\t' || c == '\n' || c == '\r' || c == '\u{b}' || c == '\u{c}'
}

/// An operator character from the fixed set.
pub open spec fn is_operator_char(c: char) -> bool {
    c == '+' || c == '-' || c == '=' || c == '*' || c == '/' || c == '±'
}

/// Length of the run of ASCII letters starting at `i`.
pub open spec fn letter_run(s: Seq<char>, i: int) -> nat
    decreases s.len() - i,
{
    if 0 <= i < s.len() && is_letter_char(s[i]) {
        1 + letter_run(s, i + 1)
    } else {
        0
    }
}

/// Length of the run of ASCII digits starting at `i`.
pub open spec fn digit_run(s: Seq<char>, i: int) -> nat
    decreases s.len() - i,
{
    if 0 <= i < s.len() && is_digit_char(s[i]) {
        1 + digit_run(s, i + 1)
    } else {
        0
    }
}

/// Prepends a token to the result of tokenizing the rest of the input.
pub open spec fn token_cons(t: TokenV, rest: Result<Seq<TokenV>, ParseErrV>) -> Result<
    Seq<TokenV>,
    ParseErrV,
> {
    match rest {
        Ok(ts) => Ok(seq![t] + ts),
        Err(e) => Err(e),
    }
}

/// End of a numeric literal starting at `i`: the digit run, extended over a
/// decimal point only when at least one digit follows it.
pub open spec fn number_end(s: Seq<char>, i: int) -> int {
    let n = digit_run(s, i);
    if i + n < s.len() && s[i + n] == '.' && digit_run(s, i + n + 1) > 0 {
        i + n + 1 + digit_run(s, i + n + 1)
    } else {
        i + n
    }
}

/// The token sequence of the input from position `i` on, or the first
/// lexical error.  One rule application per step, in the fixed priority
/// order.
pub open spec fn spec_tokenize_at(s: Seq<char>, i: int) -> Result<Seq<TokenV>, ParseErrV>
    decreases s.len() - i
        via spec_tokenize_at_decreases
{
    if i < 0 || i >= s.len() {
        Ok(seq![])
    } else {
        let c = s[i];
        if is_space_char(c) {
            spec_tokenize_at(s, i + 1)
        } else if c == '\\' && i + 1 < s.len() && is_letter_char(s[i + 1]) {
            let n = letter_run(s, i + 1);
            token_cons(
                TokenV::Function(s.subrange(i + 1, i + 1 + n)),
                spec_tokenize_at(s, i + 1 + n),
            )
        } else if is_digit_char(c) {
            let stop = number_end(s, i);
            token_cons(TokenV::Number(s.subrange(i, stop)), spec_tokenize_at(s, stop))
        } else if is_letter_char(c) {
            token_cons(TokenV::Letter(seq![c]), spec_tokenize_at(s, i + 1))
        } else if is_operator_char(c) {
            token_cons(TokenV::Operator(seq![c]), spec_tokenize_at(s, i + 1))
        } else if c == '(' {
            token_cons(TokenV::LeftParen(PerenthesisType::Round), spec_tokenize_at(s, i + 1))
        } else if c == ')' {
            token_cons(TokenV::RightParen(PerenthesisType::Round), spec_tokenize_at(s, i + 1))
        } else if c == '[' {
            token_cons(TokenV::LeftParen(PerenthesisType::Square), spec_tokenize_at(s, i + 1))
        } else if c == ']' {
            token_cons(TokenV::RightParen(PerenthesisType::Square), spec_tokenize_at(s, i + 1))
        } else if c == '{' {
            token_cons(TokenV::LeftBrace, spec_tokenize_at(s, i + 1))
        } else if c == '}' {
            token_cons(TokenV::RightBrace, spec_tokenize_at(s, i + 1))
        } else if c == '^' {
            token_cons(TokenV::Superscript, spec_tokenize_at(s, i + 1))
        } else if c == '_' {
            token_cons(TokenV::Subscript, spec_tokenize_at(s, i + 1))
        } else {
            Err(ParseErrV::UnexpectedCharacter { ch: c, pos: i })
        }
    }
}

#[via_fn]
proof fn spec_tokenize_at_decreases(s: Seq<char>, i: int) {
    if 0 <= i < s.len() {
        if s[i] == '\\' && i + 1 < s.len() && is_letter_char(s[i + 1]) {
            lemma_letter_run_le(s, i + 1);
        }
        if is_digit_char(s[i]) {
            lemma_digit_run_le(s, i);
            let n = digit_run(s, i);
            if i + n + 1 <= s.len() {
                lemma_digit_run_le(s, i + n + 1);
            }
        }
    }
}

/// The token sequence of the whole input, or the first lexical error.
pub open spec fn spec_tokenize(s: Seq<char>) -> Result<Seq<TokenV>, ParseErrV> {
    spec_tokenize_at(s, 0)
}

/// A run of letters never reaches past the end of the input.
pub proof fn lemma_letter_run_le(s: Seq<char>, i: int)
    requires
        0 <= i <= s.len(),
    ensures
        i + letter_run(s, i) <= s.len(),
    decreases s.len() - i,
{
    if i < s.len() && is_letter_char(s[i]) {
        lemma_letter_run_le(s, i + 1);
    }
}

/// A run of digits never reaches past the end of the input.
pub proof fn lemma_digit_run_le(s: Seq<char>, i: int)
    requires
        0 <= i <= s.len(),
    ensures
        i + digit_run(s, i) <= s.len(),
    decreases s.len() - i,
{
    if i < s.len() && is_digit_char(s[i]) {
        lemma_digit_run_le(s, i + 1);
    }
}

/// An ASCII letter, as the scanner classifies characters.
fn is_letter(c: char) -> (r: bool)
    ensures
        r == is_letter_char(c),
{
    let u = c as u32;
    ('a' as u32 <= u && u <= 'z' as u32) || ('A' as u32 <= u && u <= 'Z' as u32)
}

/// An ASCII decimal digit, as the scanner classifies characters.
fn is_digit(c: char) -> (r: bool)
    ensures
        r == is_digit_char(c),
{
    let u = c as u32;
    '0' as u32 <= u && u <= '9' as u32
}

/// A whitespace character, as the scanner classifies characters.
fn is_space(c: char) -> (r: bool)
    ensures
        r == is_space_char(c),
{
    c == ' ' || c == '\t' || c == '\n' || c == '\r' || c == '\u{b}' || c == '\u{c}'
}

/// An operator character, as the scanner classifies characters.
fn is_operator(c: char) -> (r: bool)
    ensures
        r == is_operator_char(c),
{
    c == '+' || c == '-' || c == '=' || c == '*' || c == '/' || c == '±'
}

/// Scans the run of ASCII letters starting at `start`.
fn letter_run_at(s: &str, start: usize) -> (n: usize)
    requires
        start <= s@.len(),
    ensures
        n == letter_run(s@, start as int),
        start + n <= s@.len(),
{
    let len = s.unicode_len();
    let mut j = start;
    while j < len && is_letter(s.get_char(j))
        invariant
            start <= j <= len,
            len == s@.len(),
            letter_run(s@, start as int) == j - start + letter_run(s@, j as int),
        decreases len - j,
    {
        j = j + 1;
    }
    j - start
}

/// Scans the run of ASCII digits starting at `start`.
fn digit_run_at(s: &str, start: usize) -> (n: usize)
    requires
        start <= s@.len(),
    ensures
        n == digit_run(s@, start as int),
        start + n <= s@.len(),
{
    let len = s.unicode_len();
    let mut j = start;
    while j < len && is_digit(s.get_char(j))
        invariant
            start <= j <= len,
            len == s@.len(),
            digit_run(s@, start as int) == j - start + digit_run(s@, j as int),
        decreases len - j,
    {
        j = j + 1;
    }
    j - start
}

/// Scans the raw markup string into tokens, left to right; fails with an
/// "unexpected character" error, carrying the character and its position, on
/// the first position no rule matches.
pub fn tokenize(input: &str) -> (r: Result<Vec<Token>, ParseError>)
    ensures
        r is Ok <==> spec_tokenize(input@) is Ok,
        r is Ok ==> token_views(r->Ok_0@) == spec_tokenize(input@)->Ok_0,
        r is Err ==> r->Err_0@ == spec_tokenize(input@)->Err_0,
{
    let mut tokens: Vec<Token> = Vec::new();
    let mut pos: usize = 0;
    let len = input.unicode_len();
    while pos < len
        invariant
            pos <= len,
            len == input@.len(),
            spec_tokenize(input@) == (match spec_tokenize_at(input@, pos as int) {
                Ok(rest) => Ok::<Seq<TokenV>, ParseErrV>(token_views(tokens@) + rest),
                Err(e) => Err::<Seq<TokenV>, ParseErrV>(e),
            }),
        decreases len - pos,
    {
        let ghost prev = tokens@;
        let ghost at = pos as int;
        let c = input.get_char(pos);
        if is_space(c) {
            pos = pos + 1;
        } else {
            let produced: Token;
            if c == '\\' && pos + 1 < len && is_letter(input.get_char(pos + 1)) {
                let n = letter_run_at(input, pos + 1);
                let name = input.substring_char(pos + 1, pos + 1 + n);
                produced = Token::Function(String::from_str(name));
                pos = pos + 1 + n;
            } else if is_digit(c) {
                let n = digit_run_at(input, pos);
                let mut stop = pos + n;
                if stop < len && input.get_char(stop) == '.' {
                    let m = digit_run_at(input, stop + 1);
                    if m > 0 {
                        stop = stop + 1 + m;
                    }
                }
                proof {
                    assert(digit_run(input@, at) == 1 + digit_run(input@, at + 1));
                    assert(stop == number_end(input@, at));
                }
                let text = input.substring_char(pos, stop);
                produced = Token::Number(String::from_str(text));
                pos = stop;
            } else if is_letter(c) {
                let text = input.substring_char(pos, pos + 1);
                produced = Token::Letter(String::from_str(text));
                proof {
                    assert(text@ =~= seq![c]);
                }
                pos = pos + 1;
            } else if is_operator(c) {
                let text = input.substring_char(pos, pos + 1);
                produced = Token::Operator(String::from_str(text));
                proof {
                    assert(text@ =~= seq![c]);
                }
                pos = pos + 1;
            } else if c == '(' {
                produced = Token::LeftParen(PerenthesisType::Round);
                pos = pos + 1;
            } else if c == ')' {
                produced = Token::RightParen(PerenthesisType::Round);
                pos = pos + 1;
            } else if c == '[' {
                produced = Token::LeftParen(PerenthesisType::Square);
                pos = pos + 1;
            } else if c == ']' {
                produced = Token::RightParen(PerenthesisType::Square);
                pos = pos + 1;
            } else if c == '{' {
                produced = Token::LeftBrace;
                pos = pos + 1;
            } else if c == '}' {
                produced = Token::RightBrace;
                pos = pos + 1;
            } else if c == '^' {
                produced = Token::Superscript;
                pos = pos + 1;
            } else if c == '_' {
                produced = Token::Subscript;
                pos = pos + 1;
            } else {
                return Err(ParseError::UnexpectedCharacter { ch: c, pos });
            }
            tokens.push(produced);
            proof {
                assert(token_views(tokens@) =~= token_views(prev).push(produced@));
                assert(spec_tokenize_at(input@, at) == token_cons(
                    produced@,
                    spec_tokenize_at(input@, pos as int),
                ));
                if spec_tokenize_at(input@, pos as int) is Ok {
                    let rest = spec_tokenize_at(input@, pos as int)->Ok_0;
                    assert(token_views(prev) + (seq![produced@] + rest) =~= token_views(tokens@)
                        + rest);
                }
            }
        }
    }
    Ok(tokens)
}

} // verus!
