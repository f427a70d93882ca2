//! Lexer for the PBRT scene-description format. Returns a flat stream of
//! `Token`s; the parser layer interprets them into directives.
//!
//! Tokens:
//! - Identifiers: unquoted keywords like `LookAt`, `Camera`, `WorldBegin`.
//! - Strings: `"..."`. PBRT uses these both for positional string args
//!   (`Camera "perspective"`) and for parameter headers (`"float fov"`).
//! - Numbers: integers and floats. An integer lexeme that fits `i64` is an
//!   `Integer` token so `"integer indices"` arrays keep their precision; any
//!   other numeric lexeme is a `Float` token that carries its literal text.
//! - Brackets: `[` and `]` delimit parameter value arrays.
//!
//! Whitespace and `#`-to-end-of-line comments are skipped.

use vstd::prelude::*;
use vstd::utf8::*;
use vstd::string::*;
use super::number::{
    all_digits, digits_value, is_digit, spec_parse_i64, is_float_literal, parse_i64,
    check_float_literal, law_signed_integers,
};
use super::text::{ascii_delimited, text_between, decimal_text, decimal_string};

verus! {

#[derive(Debug, Clone)]
pub enum Token {
    Identifier(String),
    String(String),
    Integer(i64),
    /// A decimal floating-point literal, as written.
    Float(String),
    LBracket,
    RBracket,
}

/// One-based line and byte column of a token.
#[derive(Debug, Clone, Copy, PartialEq, Eq, Structural)]
pub struct Pos {
    pub line: u32,
    pub col: u32,
}

#[derive(Debug, Clone)]
pub struct Spanned {
    pub token: Token,
    pub pos: Pos,
}

#[derive(Debug, Clone)]
pub enum LexError {
    UnterminatedString { pos: Pos },
    UnexpectedChar { pos: Pos, ch: char },
    InvalidNumber { pos: Pos, text: String },
}

/// A token with its text as characters.
pub enum TokenView {
    Identifier(Seq<char>),
    Str(Seq<char>),
    Integer(i64),
    Float(Seq<char>),
    LBracket,
    RBracket,
}

pub struct SpannedView {
    pub token: TokenView,
    pub pos: Pos,
}

pub enum LexErrorView {
    UnterminatedString { pos: Pos },
    UnexpectedChar { pos: Pos, ch: char },
    InvalidNumber { pos: Pos, text: Seq<char> },
}

impl Pos {
    /// `line L, col C`.
    pub fn describe(&self) -> (s: String)
        ensures
            s@ == "line "@ + decimal_text(self.line as nat) + ", col "@ + decimal_text(
                self.col as nat,
            ),
    {
        let mut s = "line ".to_owned();
        s.append(decimal_string(self.line as usize).as_str());
        s.append(", col ");
        s.append(decimal_string(self.col as usize).as_str());
        s
    }
}

impl View for Token {
    type V = TokenView;

    open spec fn view(&self) -> TokenView {
        match self {
            Token::Identifier(s) => TokenView::Identifier(s@),
            Token::String(s) => TokenView::Str(s@),
            Token::Integer(v) => TokenView::Integer(*v),
            Token::Float(s) => TokenView::Float(s@),
            Token::LBracket => TokenView::LBracket,
            Token::RBracket => TokenView::RBracket,
        }
    }
}

impl View for Spanned {
    type V = SpannedView;

    open spec fn view(&self) -> SpannedView {
        SpannedView { token: self.token@, pos: self.pos }
    }
}

impl View for LexError {
    type V = LexErrorView;

    open spec fn view(&self) -> LexErrorView {
        match self {
            LexError::UnterminatedString { pos } => LexErrorView::UnterminatedString { pos: *pos },
            LexError::UnexpectedChar { pos, ch } => LexErrorView::UnexpectedChar {
                pos: *pos,
                ch: *ch,
            },
            LexError::InvalidNumber { pos, text } => LexErrorView::InvalidNumber {
                pos: *pos,
                text: text@,
            },
        }
    }
}

pub open spec fn spanned_views(toks: Seq<Spanned>) -> Seq<SpannedView> {
    toks.map_values(|t: Spanned| t@)
}

pub open spec fn lex_result_view(r: Result<Vec<Spanned>, LexError>) -> Result<
    Seq<SpannedView>,
    LexErrorView,
> {
    match r {
        Ok(toks) => Ok(spanned_views(toks@)),
        Err(e) => Err(e@),
    }
}

// ---------------------------------------------------------------------------
// Character classes
// ---------------------------------------------------------------------------

pub open spec fn spec_is_number_start(c: u8) -> bool {
    is_digit(c) || c == 0x2d || c == 0x2b || c == 0x2e
}

pub open spec fn spec_is_number_body(c: u8) -> bool {
    spec_is_number_start(c) || c == 0x65 || c == 0x45
}

pub open spec fn spec_is_ident_start(c: u8) -> bool {
    (0x61 <= c <= 0x7a) || (0x41 <= c <= 0x5a) || c == 0x5f
}

pub open spec fn spec_is_ident_body(c: u8) -> bool {
    spec_is_ident_start(c) || is_digit(c)
}

/// A byte that can start a number: a digit, a sign or a decimal point.
pub fn is_number_start(c: u8) -> (r: bool)
    ensures
        r == spec_is_number_start(c),
{
    (0x30 <= c && c <= 0x39) || c == 0x2d || c == 0x2b || c == 0x2e
}

/// A byte that can continue a number: those that start one, and the
/// exponent markers `e` / `E`.
pub fn is_number_body(c: u8) -> (r: bool)
    ensures
        r == spec_is_number_body(c),
{
    (0x30 <= c && c <= 0x39) || c == 0x2d || c == 0x2b || c == 0x2e || c == 0x65 || c == 0x45
}

/// A byte that can start an identifier: an ASCII letter or `_`.
pub fn is_ident_start(c: u8) -> (r: bool)
    ensures
        r == spec_is_ident_start(c),
{
    (0x61 <= c && c <= 0x7a) || (0x41 <= c && c <= 0x5a) || c == 0x5f
}

/// A byte that can continue an identifier: those that start one, and digits.
pub fn is_ident_body(c: u8) -> (r: bool)
    ensures
        r == spec_is_ident_body(c),
{
    (0x61 <= c && c <= 0x7a) || (0x41 <= c && c <= 0x5a) || c == 0x5f || (0x30 <= c && c <= 0x39)
}

/// The runs of bytes that the lexer consumes as a whole.
pub enum Run {
    /// Comment text: everything up to the end of the line.
    Comment,
    /// The inside of a string literal: up to a quote or a line end.
    Quoted,
    Number,
    Ident,
}

pub open spec fn in_run(kind: Run, c: u8) -> bool {
    match kind {
        Run::Comment => c != 0x0a,
        Run::Quoted => c != 0x22 && c != 0x0a,
        Run::Number => spec_is_number_body(c),
        Run::Ident => spec_is_ident_body(c),
    }
}

/// The first index at or after `i` whose byte does not continue the run.
pub open spec fn run_end(b: Seq<u8>, i: int, kind: Run) -> int
    decreases b.len() - i,
{
    if 0 <= i < b.len() && in_run(kind, b[i]) {
        run_end(b, i + 1, kind)
    } else {
        i
    }
}

pub proof fn lemma_run_end(b: Seq<u8>, i: int, kind: Run)
    requires
        0 <= i <= b.len(),
    ensures
        i <= run_end(b, i, kind) <= b.len(),
        forall|j: int| i <= j < run_end(b, i, kind) ==> in_run(kind, #[trigger] b[j]),
        run_end(b, i, kind) < b.len() ==> !in_run(kind, b[run_end(b, i, kind)]),
    decreases b.len() - i,
{
    if i < b.len() && in_run(kind, b[i]) {
        lemma_run_end(b, i + 1, kind);
    }
}

fn continues_run(kind: &Run, c: u8) -> (r: bool)
    ensures
        r == in_run(*kind, c),
{
    match kind {
        Run::Comment => c != 0x0a,
        Run::Quoted => c != 0x22 && c != 0x0a,
        Run::Number => is_number_body(c),
        Run::Ident => is_ident_body(c),
    }
}

fn scan_run(bytes: &[u8], i: usize, kind: Run) -> (e: usize)
    requires
        i <= bytes@.len(),
    ensures
        e == run_end(bytes@, i as int, kind),
        i <= e <= bytes@.len(),
{
    proof {
        lemma_run_end(bytes@, i as int, kind);
    }
    let mut k = i;
    while k < bytes.len() && continues_run(&kind, bytes[k])
        invariant
            i <= k <= bytes@.len(),
            run_end(bytes@, k as int, kind) == run_end(bytes@, i as int, kind),
        decreases bytes@.len() - k,
    {
        k = k + 1;
    }
    k
}

// ---------------------------------------------------------------------------
// The token stream
// ---------------------------------------------------------------------------

pub open spec fn has_float_marker(t: Seq<u8>) -> bool {
    t.contains(0x2e) || t.contains(0x65) || t.contains(0x45)
}

/// The token of a numeric lexeme: with a `.`, `e` or `E` it must be a float
/// literal; otherwise an integer when `i64` holds it, else a float literal;
/// `None` when it is neither.
pub open spec fn number_token(t: Seq<u8>) -> Option<TokenView> {
    if has_float_marker(t) {
        if is_float_literal(t) {
            Some(TokenView::Float(decode_utf8(t)))
        } else {
            None
        }
    } else {
        match spec_parse_i64(t) {
            Some(v) => Some(TokenView::Integer(v)),
            None => if is_float_literal(t) {
                Some(TokenView::Float(decode_utf8(t)))
            } else {
                None
            },
        }
    }
}

pub open spec fn cons(
    x: SpannedView,
    r: Result<Seq<SpannedView>, LexErrorView>,
) -> Result<Seq<SpannedView>, LexErrorView> {
    match r {
        Ok(s) => Ok(seq![x] + s),
        Err(e) => Err(e),
    }
}

pub open spec fn prepend(
    xs: Seq<SpannedView>,
    r: Result<Seq<SpannedView>, LexErrorView>,
) -> Result<Seq<SpannedView>, LexErrorView> {
    match r {
        Ok(s) => Ok(xs + s),
        Err(e) => Err(e),
    }
}

pub open spec fn pos_at(i: int, line: int, line_start: int) -> Pos {
    Pos { line: line as u32, col: (i - line_start + 1) as u32 }
}

/// Lexes `b` from byte `i`, on line `line` whose first byte is at
/// `line_start`.
pub open spec fn lex_from(b: Seq<u8>, i: int, line: int, line_start: int) -> Result<
    Seq<SpannedView>,
    LexErrorView,
>
    decreases b.len() - i,
{
    if i < 0 || i >= b.len() {
        Ok(seq![])
    } else {
        let pos = pos_at(i, line, line_start);
        let c = b[i];
        if c == 0x20 || c == 0x09 || c == 0x0d {
            lex_from(b, i + 1, line, line_start)
        } else if c == 0x0a {
            lex_from(b, i + 1, line + 1, i + 1)
        } else if c == 0x23 {
            let e = run_end(b, i + 1, Run::Comment);
            proof {
                lemma_run_end(b, i + 1, Run::Comment);
            }
            lex_from(b, e, line, line_start)
        } else if c == 0x5b {
            cons(SpannedView { token: TokenView::LBracket, pos }, lex_from(b, i + 1, line, line_start))
        } else if c == 0x5d {
            cons(SpannedView { token: TokenView::RBracket, pos }, lex_from(b, i + 1, line, line_start))
        } else if c == 0x22 {
            let e = run_end(b, i + 1, Run::Quoted);
            proof {
                lemma_run_end(b, i + 1, Run::Quoted);
            }
            if e >= b.len() || b[e] == 0x0a {
                Err(LexErrorView::UnterminatedString { pos })
            } else {
                cons(
                    SpannedView { token: TokenView::Str(decode_utf8(b.subrange(i + 1, e))), pos },
                    lex_from(b, e + 1, line, line_start),
                )
            }
        } else if spec_is_number_start(c) {
            let e = run_end(b, i + 1, Run::Number);
            proof {
                lemma_run_end(b, i + 1, Run::Number);
            }
            let t = b.subrange(i, e);
            match number_token(t) {
                Some(tok) => cons(SpannedView { token: tok, pos }, lex_from(b, e, line, line_start)),
                None => Err(LexErrorView::InvalidNumber { pos, text: decode_utf8(t) }),
            }
        } else if spec_is_ident_start(c) {
            let e = run_end(b, i + 1, Run::Ident);
            proof {
                lemma_run_end(b, i + 1, Run::Ident);
            }
            cons(
                SpannedView { token: TokenView::Identifier(decode_utf8(b.subrange(i, e))), pos },
                lex_from(b, e, line, line_start),
            )
        } else {
            Err(LexErrorView::UnexpectedChar { pos, ch: c as char })
        }
    }
}

/// The tokens of the UTF-8 bytes `b`, or the first lexing error.
pub open spec fn spec_tokenize(b: Seq<u8>) -> Result<Seq<SpannedView>, LexErrorView> {
    lex_from(b, 0, 1, 0)
}

proof fn lemma_prepend_push(xs: Seq<SpannedView>, x: SpannedView, r: Result<Seq<SpannedView>, LexErrorView>)
    ensures
        prepend(xs, cons(x, r)) == prepend(xs.push(x), r),
{
    if let Ok(s) = r {
        assert(xs + (seq![x] + s) =~= xs.push(x) + s);
    }
}

fn contains_byte(t: &[u8], c: u8) -> (r: bool)
    ensures
        r == t@.contains(c),
{
    let mut k: usize = 0;
    while k < t.len()
        invariant
            0 <= k <= t@.len(),
            forall|j: int| 0 <= j < k ==> t@[j] != c,
        decreases t@.len() - k,
    {
        if t[k] == c {
            assert(t@[k as int] == c);
            return true;
        }
        k = k + 1;
    }
    false
}

/// The token of a numeric lexeme (see [`number_token`]).
fn lex_number(bytes: &[u8], start: usize, end: usize) -> (r: Option<Token>)
    requires
        valid_utf8(bytes@),
        ascii_delimited(bytes@, start as int, end as int),
    ensures
        match r {
            Some(tok) => number_token(bytes@.subrange(start as int, end as int)) == Some(tok@),
            None => number_token(bytes@.subrange(start as int, end as int)) is None,
        },
{
    let t = vstd::slice::slice_subrange(bytes, start, end);
    let marked = contains_byte(t, 0x2e) || contains_byte(t, 0x65) || contains_byte(t, 0x45);
    if marked {
        if check_float_literal(t) {
            Some(Token::Float(text_between(bytes, start, end)))
        } else {
            None
        }
    } else {
        match parse_i64(t) {
            Some(v) => Some(Token::Integer(v)),
            None => if check_float_literal(t) {
                Some(Token::Float(text_between(bytes, start, end)))
            } else {
                None
            },
        }
    }
}

/// Splits PBRT source text into tokens, each with its line and byte column.
pub fn tokenize(input: &str) -> (res: Result<Vec<Spanned>, LexError>)
    requires
        input.spec_bytes().len() < u32::MAX,
    ensures
        lex_result_view(res) == spec_tokenize(input.spec_bytes()),
{
    let bytes = input.as_bytes();
    let ghost b = bytes@;
    proof {
        encode_utf8_valid_utf8(input@);
    }
    let n = bytes.len();
    let mut out: Vec<Spanned> = Vec::new();
    let mut i: usize = 0;
    let mut line: u32 = 1;
    let mut line_start: usize = 0;

    while i < n
        invariant
            b == bytes@,
            b == input.spec_bytes(),
            valid_utf8(b),
            n == b.len(),
            n < u32::MAX,
            0 <= line_start <= i <= n,
            1 <= line <= i + 1,
            spec_tokenize(b) == prepend(spanned_views(out@), lex_from(b, i as int, line as int, line_start as int)),
        decreases n - i,
    {
        let pos = Pos { line, col: (i - line_start) as u32 + 1 };
        assert(pos == pos_at(i as int, line as int, line_start as int));
        let c = bytes[i];
        let ghost rest = lex_from(b, i as int, line as int, line_start as int);
        if c == 0x20 || c == 0x09 || c == 0x0d {
            i = i + 1;
        } else if c == 0x0a {
            line = line + 1;
            i = i + 1;
            line_start = i;
        } else if c == 0x23 {
            // Comment to end of line.
            i = scan_run(bytes, i + 1, Run::Comment);
        } else if c == 0x5b || c == 0x5d {
            let token = if c == 0x5b {
                Token::LBracket
            } else {
                Token::RBracket
            };
            let sp = Spanned { token, pos };
            proof {
                lemma_prepend_push(spanned_views(out@), sp@, lex_from(b, i + 1, line as int, line_start as int));
            }
            let ghost before = out@;
            out.push(sp);
            assert(spanned_views(out@) =~= spanned_views(before).push(sp@));
            i = i + 1;
        } else if c == 0x22 {
            let e = scan_run(bytes, i + 1, Run::Quoted);
            proof {
                lemma_run_end(b, i + 1, Run::Quoted);
            }
            if e >= n || bytes[e] == 0x0a {
                return Err(LexError::UnterminatedString { pos });
            }
            let text = text_between(bytes, i + 1, e);
            let sp = Spanned { token: Token::String(text), pos };
            proof {
                lemma_prepend_push(spanned_views(out@), sp@, lex_from(b, e + 1, line as int, line_start as int));
            }
            let ghost before = out@;
            out.push(sp);
            assert(spanned_views(out@) =~= spanned_views(before).push(sp@));
            i = e + 1;
        } else if is_number_start(c) {
            let e = scan_run(bytes, i + 1, Run::Number);
            proof {
                lemma_run_end(b, i + 1, Run::Number);
                if e > i + 1 {
                    assert(in_run(Run::Number, b[e - 1]));
                }
            }
            match lex_number(bytes, i, e) {
                Some(token) => {
                    let sp = Spanned { token, pos };
                    proof {
                        lemma_prepend_push(spanned_views(out@), sp@, lex_from(b, e as int, line as int, line_start as int));
                    }
                    let ghost before = out@;
                    out.push(sp);
                    assert(spanned_views(out@) =~= spanned_views(before).push(sp@));
                    i = e;
                },
                None => {
                    return Err(LexError::InvalidNumber { pos, text: text_between(bytes, i, e) });
                },
            }
        } else if is_ident_start(c) {
            let e = scan_run(bytes, i + 1, Run::Ident);
            proof {
                lemma_run_end(b, i + 1, Run::Ident);
                if e > i + 1 {
                    assert(in_run(Run::Ident, b[e - 1]));
                }
            }
            let text = text_between(bytes, i, e);
            let sp = Spanned { token: Token::Identifier(text), pos };
            proof {
                lemma_prepend_push(spanned_views(out@), sp@, lex_from(b, e as int, line as int, line_start as int));
            }
            let ghost before = out@;
            out.push(sp);
            assert(spanned_views(out@) =~= spanned_views(before).push(sp@));
            i = e;
        } else {
            return Err(LexError::UnexpectedChar { pos, ch: c as char });
        }
    }
    proof {
        assert(spanned_views(out@) + seq![] =~= spanned_views(out@));
    }
    Ok(out)
}

/// A numeric lexeme of a `-` and decimal digits is the integer token of the
/// digits' value, negated, as long as `i64` holds it.
pub proof fn law_negative_integer_tokens(t: Seq<u8>)
    requires
        t.len() > 0,
        all_digits(t),
        digits_value(t) <= 0x8000_0000_0000_0000,
    ensures
        number_token(seq![0x2du8] + t) == Some(
            TokenView::Integer((-(digits_value(t) as int)) as i64),
        ),
{
    let m = seq![0x2du8] + t;
    assert forall|c: u8| c == 0x2e || c == 0x65 || c == 0x45 implies !m.contains(c) by {
        if m.contains(c) {
            let i = choose|i: int| 0 <= i < m.len() && m[i] == c;
            if i > 0 {
                assert(m[i] == t[i - 1]);
                assert(is_digit(t[i - 1]));
            }
        }
    }
    law_signed_integers(t);
}

} // verus!
