//! Parses a stream of PBRT tokens into a flat list of `Directive`s.
//! Each directive is a keyword (`LookAt`, `Camera`, ...) plus positional
//! arguments and parameter pairs. The builder layer interprets these
//! into scene primitives.
//!
//! PBRT parameters look like `"float fov" [39]`: the string token holds
//! the type + name separated by a space, the bracketed array holds the
//! values. A string token that contains a space is a parameter header; an
//! unspaced string is a positional argument. This matches the format spec
//! (type names are unspaced PBRT identifiers, parameter names are too).

use vstd::prelude::*;
use vstd::string::*;
use super::lexer::{Pos, Spanned, Token, SpannedView, TokenView, spanned_views};
use super::text::{str_eq, decimal_text, decimal_string};

verus! {

/// A numeric value as written in the scene file: an integer, or a decimal
/// floating-point literal.
#[derive(Debug, Clone)]
pub enum Number {
    Int(i64),
    Float(String),
}

#[derive(Debug, Clone)]
pub struct Directive {
    pub keyword: String,
    pub positional: Vec<PositionalArg>,
    pub params: Vec<Param>,
    pub pos: Pos,
}

#[derive(Debug, Clone)]
pub enum PositionalArg {
    Float(Number),
    String(String),
    /// `[ ... ]` array: only emitted for directives that genuinely take an
    /// array positional (`Transform`, `ConcatTransform`).
    FloatArray(Vec<Number>),
}

#[derive(Debug, Clone)]
pub struct Param {
    pub param_type: String,
    pub name: String,
    pub values: ParamValues,
    pub pos: Pos,
}

#[derive(Debug, Clone)]
pub enum ParamValues {
    Floats(Vec<Number>),
    Ints(Vec<i64>),
    Strings(Vec<String>),
}

#[derive(Debug, Clone)]
pub enum ParseError {
    Expected { pos: Pos, expected: String, found: String },
    Eof { pos: Pos },
    BadParamHeader { pos: Pos, raw: String },
    MixedTypes { pos: Pos },
}

// ---------------------------------------------------------------------------
// Views
// ---------------------------------------------------------------------------

pub enum NumberView {
    Int(i64),
    Float(Seq<char>),
}

pub enum PositionalArgView {
    Float(NumberView),
    Str(Seq<char>),
    FloatArray(Seq<NumberView>),
}

pub enum ParamValuesView {
    Floats(Seq<NumberView>),
    Ints(Seq<i64>),
    Strings(Seq<Seq<char>>),
}

pub struct ParamView {
    pub param_type: Seq<char>,
    pub name: Seq<char>,
    pub values: ParamValuesView,
    pub pos: Pos,
}

pub struct DirectiveView {
    pub keyword: Seq<char>,
    pub positional: Seq<PositionalArgView>,
    pub params: Seq<ParamView>,
    pub pos: Pos,
}

pub enum ParseErrorView {
    Expected { pos: Pos, expected: Seq<char>, found: Seq<char> },
    Eof { pos: Pos },
    BadParamHeader { pos: Pos, raw: Seq<char> },
    MixedTypes { pos: Pos },
}

impl View for Number {
    type V = NumberView;

    open spec fn view(&self) -> NumberView {
        match self {
            Number::Int(v) => NumberView::Int(*v),
            Number::Float(s) => NumberView::Float(s@),
        }
    }
}

pub open spec fn numbers_view(v: Seq<Number>) -> Seq<NumberView> {
    v.map_values(|n: Number| n@)
}

pub open spec fn strings_view(v: Seq<String>) -> Seq<Seq<char>> {
    v.map_values(|s: String| s@)
}

impl View for PositionalArg {
    type V = PositionalArgView;

    open spec fn view(&self) -> PositionalArgView {
        match self {
            PositionalArg::Float(n) => PositionalArgView::Float(n@),
            PositionalArg::String(s) => PositionalArgView::Str(s@),
            PositionalArg::FloatArray(a) => PositionalArgView::FloatArray(numbers_view(a@)),
        }
    }
}

impl View for ParamValues {
    type V = ParamValuesView;

    open spec fn view(&self) -> ParamValuesView {
        match self {
            ParamValues::Floats(v) => ParamValuesView::Floats(numbers_view(v@)),
            ParamValues::Ints(v) => ParamValuesView::Ints(v@),
            ParamValues::Strings(v) => ParamValuesView::Strings(strings_view(v@)),
        }
    }
}

impl View for Param {
    type V = ParamView;

    open spec fn view(&self) -> ParamView {
        ParamView {
            param_type: self.param_type@,
            name: self.name@,
            values: self.values@,
            pos: self.pos,
        }
    }
}

pub open spec fn args_view(v: Seq<PositionalArg>) -> Seq<PositionalArgView> {
    v.map_values(|a: PositionalArg| a@)
}

pub open spec fn params_view(v: Seq<Param>) -> Seq<ParamView> {
    v.map_values(|p: Param| p@)
}

impl View for Directive {
    type V = DirectiveView;

    open spec fn view(&self) -> DirectiveView {
        DirectiveView {
            keyword: self.keyword@,
            positional: args_view(self.positional@),
            params: params_view(self.params@),
            pos: self.pos,
        }
    }
}

pub open spec fn directives_view(v: Seq<Directive>) -> Seq<DirectiveView> {
    v.map_values(|d: Directive| d@)
}

impl View for ParseError {
    type V = ParseErrorView;

    open spec fn view(&self) -> ParseErrorView {
        match self {
            ParseError::Expected { pos, expected, found } => ParseErrorView::Expected {
                pos: *pos,
                expected: expected@,
                found: found@,
            },
            ParseError::Eof { pos } => ParseErrorView::Eof { pos: *pos },
            ParseError::BadParamHeader { pos, raw } => ParseErrorView::BadParamHeader {
                pos: *pos,
                raw: raw@,
            },
            ParseError::MixedTypes { pos } => ParseErrorView::MixedTypes { pos: *pos },
        }
    }
}

impl Directive {
    /// `Keyword (line L)`.
    pub fn describe(&self) -> (s: String)
        ensures
            s@ == self.keyword@ + " (line "@ + decimal_text(self.pos.line as nat) + ")"@,
    {
        let mut s = self.keyword.clone();
        s.append(" (line ");
        s.append(decimal_string(self.pos.line as usize).as_str());
        s.append(")");
        s
    }
}

// ---------------------------------------------------------------------------
// Accessors
// ---------------------------------------------------------------------------

impl Param {
    pub fn as_floats(&self) -> (r: Option<&[Number]>)
        ensures
            match self.values {
                ParamValues::Floats(v) => r matches Some(s) && s@ == v@,
                _ => r is None,
            },
    {
        if let ParamValues::Floats(v) = &self.values {
            Some(v.as_slice())
        } else {
            None
        }
    }

    pub fn as_ints(&self) -> (r: Option<&[i64]>)
        ensures
            match self.values {
                ParamValues::Ints(v) => r matches Some(s) && s@ == v@,
                _ => r is None,
            },
    {
        if let ParamValues::Ints(v) = &self.values {
            Some(v.as_slice())
        } else {
            None
        }
    }

    pub fn as_strings(&self) -> (r: Option<&[String]>)
        ensures
            match self.values {
                ParamValues::Strings(v) => r matches Some(s) && s@ == v@,
                _ => r is None,
            },
    {
        if let ParamValues::Strings(v) = &self.values {
            Some(v.as_slice())
        } else {
            None
        }
    }
}

// ---------------------------------------------------------------------------
// Parameter headers
// ---------------------------------------------------------------------------

/// `char::is_whitespace`: the characters with the Unicode `White_Space`
/// property.
pub open spec fn is_unicode_whitespace(c: char) -> bool {
    let u = c as u32;
    ||| 0x09 <= u <= 0x0d
    ||| u == 0x20
    ||| u == 0x85
    ||| u == 0xa0
    ||| u == 0x1680
    ||| 0x2000 <= u <= 0x200a
    ||| u == 0x2028
    ||| u == 0x2029
    ||| u == 0x202f
    ||| u == 0x205f
    ||| u == 0x3000
}

fn is_whitespace(c: char) -> (r: bool)
    ensures
        r == is_unicode_whitespace(c),
{
    let u = c as u32;
    (0x09 <= u && u <= 0x0d) || u == 0x20 || u == 0x85 || u == 0xa0 || u == 0x1680 || (0x2000
        <= u && u <= 0x200a) || u == 0x2028 || u == 0x2029 || u == 0x202f || u == 0x205f || u
        == 0x3000
}

/// The first index in `[i, hi)` holding whitespace (`== ws`) or not
/// holding whitespace (`!= ws`); `hi` when there is none.
pub open spec fn scan_ws(s: Seq<char>, i: int, hi: int, ws: bool) -> int
    decreases hi - i,
{
    if i < hi && is_unicode_whitespace(s[i]) != ws {
        scan_ws(s, i + 1, hi, ws)
    } else {
        i
    }
}

/// The end of `s[lo..hi]` once trailing whitespace is dropped.
pub open spec fn trail_end(s: Seq<char>, lo: int, hi: int) -> int
    decreases hi - lo,
{
    if lo < hi && is_unicode_whitespace(s[hi - 1]) {
        trail_end(s, lo, hi - 1)
    } else {
        hi
    }
}

/// `str::trim` of `s[lo..hi]`.
pub open spec fn trimmed(s: Seq<char>, lo: int, hi: int) -> Seq<char> {
    let a = scan_ws(s, lo, hi, false);
    s.subrange(a, trail_end(s, a, hi))
}

/// `header.splitn(2, char::is_whitespace)`, each part trimmed; `None`
/// unless both parts are non-empty.
pub open spec fn split_header(s: Seq<char>) -> Option<(Seq<char>, Seq<char>)> {
    let w = scan_ws(s, 0, s.len() as int, true);
    let ty = trimmed(s, 0, w);
    let nm = if w < s.len() {
        trimmed(s, w + 1, s.len() as int)
    } else {
        Seq::empty()
    };
    if ty.len() == 0 || nm.len() == 0 {
        None
    } else {
        Some((ty, nm))
    }
}

proof fn lemma_scan_ws(s: Seq<char>, i: int, hi: int, ws: bool)
    requires
        0 <= i <= hi <= s.len(),
    ensures
        i <= scan_ws(s, i, hi, ws) <= hi,
        scan_ws(s, i, hi, ws) < hi ==> is_unicode_whitespace(s[scan_ws(s, i, hi, ws)]) == ws,
    decreases hi - i,
{
    if i < hi && is_unicode_whitespace(s[i]) != ws {
        lemma_scan_ws(s, i + 1, hi, ws);
    }
}

proof fn lemma_trail_end(s: Seq<char>, lo: int, hi: int)
    requires
        0 <= lo <= hi <= s.len(),
    ensures
        lo <= trail_end(s, lo, hi) <= hi,
    decreases hi - lo,
{
    if lo < hi && is_unicode_whitespace(s[hi - 1]) {
        lemma_trail_end(s, lo, hi - 1);
    }
}

/// The characters of `s`.
fn chars_of(s: &str) -> (v: Vec<char>)
    ensures
        v@ == s@,
{
    let n = s.unicode_len();
    let mut v: Vec<char> = Vec::new();
    let mut i: usize = 0;
    while i < n
        invariant
            n == s@.len(),
            i <= n,
            v@ == s@.subrange(0, i as int),
        decreases n - i,
    {
        v.push(s.get_char(i));
        i = i + 1;
        assert(v@ =~= s@.subrange(0, i as int));
    }
    assert(s@.subrange(0, n as int) =~= s@);
    v
}

fn scan_ws_exec(cs: &Vec<char>, i: usize, hi: usize, ws: bool) -> (r: usize)
    requires
        i <= hi <= cs@.len(),
    ensures
        r == scan_ws(cs@, i as int, hi as int, ws),
        i <= r <= hi,
{
    proof {
        lemma_scan_ws(cs@, i as int, hi as int, ws);
    }
    let mut k = i;
    while k < hi && is_whitespace(cs[k]) != ws
        invariant
            i <= k <= hi <= cs@.len(),
            scan_ws(cs@, k as int, hi as int, ws) == scan_ws(cs@, i as int, hi as int, ws),
        decreases hi - k,
    {
        k = k + 1;
    }
    k
}

fn trail_end_exec(cs: &Vec<char>, lo: usize, hi: usize) -> (r: usize)
    requires
        lo <= hi <= cs@.len(),
    ensures
        r == trail_end(cs@, lo as int, hi as int),
        lo <= r <= hi,
{
    proof {
        lemma_trail_end(cs@, lo as int, hi as int);
    }
    let mut k = hi;
    while lo < k && is_whitespace(cs[k - 1])
        invariant
            lo <= k <= hi <= cs@.len(),
            trail_end(cs@, lo as int, k as int) == trail_end(cs@, lo as int, hi as int),
        decreases k - lo,
    {
        k = k - 1;
    }
    k
}

fn trimmed_exec(s: &str, cs: &Vec<char>, lo: usize, hi: usize) -> (r: String)
    requires
        cs@ == s@,
        lo <= hi <= cs@.len(),
    ensures
        r@ == trimmed(s@, lo as int, hi as int),
{
    let a = scan_ws_exec(cs, lo, hi, false);
    let z = trail_end_exec(cs, a, hi);
    s.substring_char(a, z).to_owned()
}

/// Splits a parameter header `"<type> <name>"` at its first whitespace,
/// trimming both parts; either part empty is a `BadParamHeader` error.
pub fn split_param_header(header: &str, pos: Pos) -> (r: Result<(String, String), ParseError>)
    ensures
        match split_header(header@) {
            Some((ty, nm)) => r matches Ok((a, b)) && a@ == ty && b@ == nm,
            None => r matches Err(e) && e@ == (ParseErrorView::BadParamHeader {
                pos,
                raw: header@,
            }),
        },
{
    let cs = chars_of(header);
    let n = cs.len();
    let w = scan_ws_exec(&cs, 0, n, true);
    let ty = trimmed_exec(header, &cs, 0, w);
    let nm = if w < n {
        trimmed_exec(header, &cs, w + 1, n)
    } else {
        String::new()
    };
    if ty.unicode_len() == 0 || nm.unicode_len() == 0 {
        return Err(ParseError::BadParamHeader { pos, raw: header.to_owned() });
    }
    Ok((ty, nm))
}

/// Parameter types whose values are real numbers: integers written for them
/// are read as numbers.
pub open spec fn is_float_type_view(t: Seq<char>) -> bool {
    ||| t == "float"@
    ||| t == "rgb"@
    ||| t == "color"@
    ||| t == "spectrum"@
    ||| t == "blackbody"@
    ||| t == "point"@
    ||| t == "point2"@
    ||| t == "point3"@
    ||| t == "vector"@
    ||| t == "vector2"@
    ||| t == "vector3"@
    ||| t == "normal"@
    ||| t == "normal3"@
    ||| t == "xyz"@
}

/// Whether integers written for a parameter of type `t` are read as numbers.
pub fn is_float_type(t: &str) -> (r: bool)
    ensures
        r == is_float_type_view(t@),
{
    str_eq(t, "float") || str_eq(t, "rgb") || str_eq(t, "color") || str_eq(t, "spectrum")
        || str_eq(t, "blackbody") || str_eq(t, "point") || str_eq(t, "point2") || str_eq(
        t,
        "point3",
    ) || str_eq(t, "vector") || str_eq(t, "vector2") || str_eq(t, "vector3") || str_eq(
        t,
        "normal",
    ) || str_eq(t, "normal3") || str_eq(t, "xyz")
}

fn contains_space(s: &str) -> (r: bool)
    ensures
        r == s@.contains(' '),
{
    let cs = chars_of(s);
    let mut k: usize = 0;
    while k < cs.len()
        invariant
            cs@ == s@,
            0 <= k <= cs@.len(),
            forall|j: int| 0 <= j < k ==> cs@[j] != ' ',
        decreases cs@.len() - k,
    {
        if cs[k] == ' ' {
            assert(s@[k as int] == ' ');
            return true;
        }
        k = k + 1;
    }
    false
}

// ---------------------------------------------------------------------------
// The directive grammar
// ---------------------------------------------------------------------------

pub open spec fn last_pos(toks: Seq<SpannedView>) -> Pos {
    if toks.len() > 0 {
        toks.last().pos
    } else {
        Pos { line: 1, col: 1 }
    }
}

pub open spec fn token_kind_view(t: TokenView) -> Seq<char> {
    match t {
        TokenView::Identifier(_) => "identifier"@,
        TokenView::Str(_) => "string"@,
        TokenView::Integer(_) => "integer"@,
        TokenView::Float(_) => "float"@,
        TokenView::LBracket => "`[`"@,
        TokenView::RBracket => "`]`"@,
    }
}

pub open spec fn is_number_token(t: TokenView) -> bool {
    t is Integer || t is Float
}

pub open spec fn number_of(t: TokenView) -> NumberView {
    match t {
        TokenView::Float(s) => NumberView::Float(s),
        TokenView::Integer(v) => NumberView::Int(v),
        _ => NumberView::Int(0),
    }
}

pub open spec fn ints_as_numbers(v: Seq<i64>) -> Seq<NumberView> {
    v.map_values(|i: i64| NumberView::Int(i))
}

/// Which kind of value a parameter array holds so far.
#[derive(Clone, Copy, PartialEq, Eq, Structural)]
pub enum Seen {
    Nothing,
    Floats,
    Ints,
    Strings,
}

pub struct ValuesAcc {
    pub seen: Seen,
    pub floats: Seq<NumberView>,
    pub ints: Seq<i64>,
    pub strings: Seq<Seq<char>>,
}

pub open spec fn empty_acc() -> ValuesAcc {
    ValuesAcc { seen: Seen::Nothing, floats: seq![], ints: seq![], strings: seq![] }
}

/// Adds one value token to a parameter array. A float after integers turns
/// the integers into numbers; an integer after numbers is a number; strings
/// mix with nothing else.
pub open spec fn accept_value(acc: ValuesAcc, t: SpannedView) -> Result<ValuesAcc, ParseErrorView> {
    match t.token {
        TokenView::Float(s) => if acc.seen == Seen::Strings {
            Err(ParseErrorView::MixedTypes { pos: t.pos })
        } else if acc.seen == Seen::Ints {
            Ok(
                ValuesAcc {
                    seen: Seen::Floats,
                    floats: ints_as_numbers(acc.ints).push(NumberView::Float(s)),
                    ints: seq![],
                    ..acc
                },
            )
        } else {
            Ok(
                ValuesAcc {
                    seen: Seen::Floats,
                    floats: acc.floats.push(NumberView::Float(s)),
                    ..acc
                },
            )
        },
        TokenView::Integer(v) => match acc.seen {
            Seen::Nothing => Ok(ValuesAcc { seen: Seen::Ints, ints: acc.ints.push(v), ..acc }),
            Seen::Floats => Ok(ValuesAcc { floats: acc.floats.push(NumberView::Int(v)), ..acc }),
            Seen::Ints => Ok(ValuesAcc { ints: acc.ints.push(v), ..acc }),
            Seen::Strings => Err(ParseErrorView::MixedTypes { pos: t.pos }),
        },
        TokenView::Str(s) => if acc.seen == Seen::Nothing || acc.seen == Seen::Strings {
            Ok(ValuesAcc { seen: Seen::Strings, strings: acc.strings.push(s), ..acc })
        } else {
            Err(ParseErrorView::MixedTypes { pos: t.pos })
        },
        _ => Ok(acc),
    }
}

pub open spec fn finish_values(acc: ValuesAcc, header_pos: Pos, next: int) -> Result<
    (ParamValuesView, int),
    ParseErrorView,
> {
    match acc.seen {
        Seen::Floats => Ok((ParamValuesView::Floats(acc.floats), next)),
        Seen::Ints => Ok((ParamValuesView::Ints(acc.ints), next)),
        Seen::Strings => Ok((ParamValuesView::Strings(acc.strings), next)),
        Seen::Nothing => Err(
            ParseErrorView::Expected {
                pos: header_pos,
                expected: "parameter value"@,
                found: "(empty)"@,
            },
        ),
    }
}

/// The values of a parameter from token `i` on: a bracketed array runs to
/// its `]`, a bare value is a single token. Gives the values and the index
/// of the first token after them.
pub open spec fn values_from(
    toks: Seq<SpannedView>,
    i: int,
    bracketed: bool,
    acc: ValuesAcc,
    header_pos: Pos,
) -> Result<(ParamValuesView, int), ParseErrorView>
    decreases toks.len() - i,
{
    if i < 0 || i >= toks.len() {
        if bracketed {
            Err(ParseErrorView::Eof { pos: last_pos(toks) })
        } else {
            finish_values(acc, header_pos, i)
        }
    } else {
        let t = toks[i];
        if bracketed && t.token is RBracket {
            finish_values(acc, header_pos, i + 1)
        } else if is_number_token(t.token) || t.token is Str {
            match accept_value(acc, t) {
                Err(e) => Err(e),
                Ok(acc2) => if bracketed {
                    values_from(toks, i + 1, true, acc2, header_pos)
                } else {
                    finish_values(acc2, header_pos, i + 1)
                },
            }
        } else if bracketed {
            Err(
                ParseErrorView::Expected {
                    pos: t.pos,
                    expected: "value or `]`"@,
                    found: token_kind_view(t.token),
                },
            )
        } else {
            finish_values(acc, header_pos, i)
        }
    }
}

pub open spec fn param_values_at(toks: Seq<SpannedView>, i: int, header_pos: Pos) -> Result<
    (ParamValuesView, int),
    ParseErrorView,
> {
    if 0 <= i < toks.len() && toks[i].token is LBracket {
        values_from(toks, i + 1, true, empty_acc(), header_pos)
    } else {
        values_from(toks, i, false, empty_acc(), header_pos)
    }
}

/// Float-class parameters written with bare integers hold numbers.
pub open spec fn promote(ty: Seq<char>, v: ParamValuesView) -> ParamValuesView {
    match v {
        ParamValuesView::Ints(ints) => if is_float_type_view(ty) {
            ParamValuesView::Floats(ints_as_numbers(ints))
        } else {
            v
        },
        _ => v,
    }
}

/// A bracketed array positional from token `i` (after its `[`).
pub open spec fn array_from(toks: Seq<SpannedView>, i: int, arr: Seq<NumberView>) -> Result<
    (Seq<NumberView>, int),
    ParseErrorView,
>
    decreases toks.len() - i,
{
    if i < 0 || i >= toks.len() {
        Err(ParseErrorView::Eof { pos: last_pos(toks) })
    } else {
        let t = toks[i];
        if t.token is RBracket {
            Ok((arr, i + 1))
        } else if is_number_token(t.token) {
            array_from(toks, i + 1, arr.push(number_of(t.token)))
        } else {
            Err(
                ParseErrorView::Expected {
                    pos: t.pos,
                    expected: "number or `]`"@,
                    found: token_kind_view(t.token),
                },
            )
        }
    }
}

pub proof fn lemma_values_from(
    toks: Seq<SpannedView>,
    i: int,
    bracketed: bool,
    acc: ValuesAcc,
    header_pos: Pos,
)
    requires
        0 <= i <= toks.len(),
    ensures
        values_from(toks, i, bracketed, acc, header_pos) matches Ok((_, j)) ==> i <= j
            <= toks.len(),
    decreases toks.len() - i,
{
    if i < toks.len() {
        let t = toks[i];
        if !(bracketed && t.token is RBracket) && (is_number_token(t.token) || t.token is Str) {
            if let Ok(acc2) = accept_value(acc, t) {
                if bracketed {
                    lemma_values_from(toks, i + 1, true, acc2, header_pos);
                }
            }
        }
    }
}

pub proof fn lemma_array_from(toks: Seq<SpannedView>, i: int, arr: Seq<NumberView>)
    requires
        0 <= i <= toks.len(),
    ensures
        array_from(toks, i, arr) matches Ok((_, j)) ==> i < j <= toks.len(),
    decreases toks.len() - i,
{
    if i < toks.len() && !(toks[i].token is RBracket) && is_number_token(toks[i].token) {
        lemma_array_from(toks, i + 1, arr.push(number_of(toks[i].token)));
    }
}

/// The arguments of directive `d` from token `i` up to the next identifier
/// (the next directive's keyword) or the end of the tokens.
pub open spec fn args_from(toks: Seq<SpannedView>, i: int, d: DirectiveView) -> Result<
    (DirectiveView, int),
    ParseErrorView,
>
    decreases toks.len() - i,
{
    if i < 0 || i >= toks.len() {
        Ok((d, i))
    } else {
        let t = toks[i];
        match t.token {
            TokenView::Identifier(_) => Ok((d, i)),
            TokenView::Str(s) => if s.contains(' ') {
                match split_header(s) {
                    None => Err(ParseErrorView::BadParamHeader { pos: t.pos, raw: s }),
                    Some((ty, nm)) => match param_values_at(toks, i + 1, t.pos) {
                        Err(e) => Err(e),
                        Ok((vals, j)) => {
                            proof {
                                if i + 1 < toks.len() && toks[i + 1].token is LBracket {
                                    lemma_values_from(toks, i + 2, true, empty_acc(), t.pos);
                                } else {
                                    lemma_values_from(toks, i + 1, false, empty_acc(), t.pos);
                                }
                            }
                            let p = ParamView {
                                param_type: ty,
                                name: nm,
                                values: promote(ty, vals),
                                pos: t.pos,
                            };
                            args_from(toks, j, DirectiveView { params: d.params.push(p), ..d })
                        },
                    },
                }
            } else {
                args_from(
                    toks,
                    i + 1,
                    DirectiveView { positional: d.positional.push(PositionalArgView::Str(s)), ..d },
                )
            },
            TokenView::Integer(_) | TokenView::Float(_) => args_from(
                toks,
                i + 1,
                DirectiveView {
                    positional: d.positional.push(PositionalArgView::Float(number_of(t.token))),
                    ..d
                },
            ),
            TokenView::LBracket => match array_from(toks, i + 1, seq![]) {
                Err(e) => Err(e),
                Ok((arr, j)) => {
                    proof {
                        lemma_array_from(toks, i + 1, seq![]);
                    }
                    args_from(
                        toks,
                        j,
                        DirectiveView {
                            positional: d.positional.push(PositionalArgView::FloatArray(arr)),
                            ..d
                        },
                    )
                },
            },
            TokenView::RBracket => Err(
                ParseErrorView::Expected {
                    pos: t.pos,
                    expected: "directive arg"@,
                    found: "`]`"@,
                },
            ),
        }
    }
}

pub proof fn lemma_args_from(toks: Seq<SpannedView>, i: int, d: DirectiveView)
    requires
        0 <= i <= toks.len(),
    ensures
        args_from(toks, i, d) matches Ok((_, j)) ==> i <= j <= toks.len(),
    decreases toks.len() - i,
{
    if i < toks.len() {
        let t = toks[i];
        match t.token {
            TokenView::Str(s) => {
                if s.contains(' ') {
                    if let Some((ty, nm)) = split_header(s) {
                        if i + 1 < toks.len() && toks[i + 1].token is LBracket {
                            lemma_values_from(toks, i + 2, true, empty_acc(), t.pos);
                        } else {
                            lemma_values_from(toks, i + 1, false, empty_acc(), t.pos);
                        }
                        if let Ok((vals, j)) = param_values_at(toks, i + 1, t.pos) {
                            let p = ParamView {
                                param_type: ty,
                                name: nm,
                                values: promote(ty, vals),
                                pos: t.pos,
                            };
                            lemma_args_from(toks, j, DirectiveView { params: d.params.push(p), ..d });
                        }
                    }
                } else {
                    lemma_args_from(
                        toks,
                        i + 1,
                        DirectiveView { positional: d.positional.push(PositionalArgView::Str(s)), ..d },
                    );
                }
            },
            TokenView::Integer(_) | TokenView::Float(_) => {
                lemma_args_from(
                    toks,
                    i + 1,
                    DirectiveView {
                        positional: d.positional.push(PositionalArgView::Float(number_of(t.token))),
                        ..d
                    },
                );
            },
            TokenView::LBracket => {
                lemma_array_from(toks, i + 1, seq![]);
                if let Ok((arr, j)) = array_from(toks, i + 1, seq![]) {
                    lemma_args_from(
                        toks,
                        j,
                        DirectiveView {
                            positional: d.positional.push(PositionalArgView::FloatArray(arr)),
                            ..d
                        },
                    );
                }
            },
            _ => {},
        }
    }
}

/// The directive that starts at token `i`.
pub open spec fn directive_at(toks: Seq<SpannedView>, i: int) -> Result<
    (DirectiveView, int),
    ParseErrorView,
> {
    if i < 0 || i >= toks.len() {
        Err(ParseErrorView::Eof { pos: last_pos(toks) })
    } else {
        let head = toks[i];
        match head.token {
            TokenView::Identifier(k) => args_from(
                toks,
                i + 1,
                DirectiveView { keyword: k, positional: seq![], params: seq![], pos: head.pos },
            ),
            _ => Err(
                ParseErrorView::Expected {
                    pos: head.pos,
                    expected: "directive keyword"@,
                    found: token_kind_view(head.token),
                },
            ),
        }
    }
}

/// The directives from token `i` to the end.
pub open spec fn directives_from(toks: Seq<SpannedView>, i: int) -> Result<
    Seq<DirectiveView>,
    ParseErrorView,
>
    decreases toks.len() - i,
{
    if i < 0 || i >= toks.len() {
        Ok(seq![])
    } else {
        match directive_at(toks, i) {
            Err(e) => Err(e),
            Ok((d, j)) => {
                proof {
                    if toks[i].token is Identifier {
                        lemma_args_from(
                            toks,
                            i + 1,
                            DirectiveView {
                                keyword: toks[i].token->Identifier_0,
                                positional: seq![],
                                params: seq![],
                                pos: toks[i].pos,
                            },
                        );
                    }
                }
                match directives_from(toks, j) {
                    Err(e) => Err(e),
                    Ok(ds) => Ok(seq![d] + ds),
                }
            },
        }
    }
}

/// The directives of a token stream, or the first parse error.
pub open spec fn spec_parse(toks: Seq<SpannedView>) -> Result<Seq<DirectiveView>, ParseErrorView> {
    directives_from(toks, 0)
}

// ---------------------------------------------------------------------------
// The parser
// ---------------------------------------------------------------------------

pub open spec fn parse_result_view(r: Result<Vec<Directive>, ParseError>) -> Result<
    Seq<DirectiveView>,
    ParseErrorView,
> {
    match r {
        Ok(ds) => Ok(directives_view(ds@)),
        Err(e) => Err(e@),
    }
}

struct Cursor<'a> {
    toks: &'a [Spanned],
    i: usize,
}

impl<'a> Cursor<'a> {
    fn peek(&self) -> (r: Option<&'a Spanned>)
        ensures
            self.i < self.toks@.len() ==> r == Some(&self.toks@[self.i as int]),
            self.i >= self.toks@.len() ==> r is None,
    {
        if self.i < self.toks.len() {
            Some(&self.toks[self.i])
        } else {
            None
        }
    }

    fn advance(&mut self) -> (r: Option<&'a Spanned>)
        ensures
            final(self).toks == old(self).toks,
            old(self).i < old(self).toks@.len() ==> r == Some(&old(self).toks@[old(self).i as int])
                && final(self).i == old(self).i + 1,
            old(self).i >= old(self).toks@.len() ==> r is None && final(self).i == old(self).i,
    {
        if self.i < self.toks.len() {
            let t = &self.toks[self.i];
            self.i = self.i + 1;
            Some(t)
        } else {
            None
        }
    }

    fn last_pos(&self) -> (p: Pos)
        ensures
            p == last_pos(spanned_views(self.toks@)),
    {
        if self.toks.len() > 0 {
            self.toks[self.toks.len() - 1].pos
        } else {
            Pos { line: 1, col: 1 }
        }
    }
}

fn token_kind(t: &Token) -> (r: &'static str)
    ensures
        r@ == token_kind_view(t@),
{
    match t {
        Token::Identifier(_) => "identifier",
        Token::String(_) => "string",
        Token::Integer(_) => "integer",
        Token::Float(_) => "float",
        Token::LBracket => "`[`",
        Token::RBracket => "`]`",
    }
}

fn token_to_number(t: &Token) -> (r: Number)
    requires
        is_number_token(t@),
    ensures
        r@ == number_of(t@),
{
    match t {
        Token::Integer(v) => Number::Int(*v),
        Token::Float(s) => Number::Float(s.clone()),
        _ => Number::Int(0),
    }
}

fn ints_to_numbers(v: &Vec<i64>) -> (r: Vec<Number>)
    ensures
        numbers_view(r@) == ints_as_numbers(v@),
{
    let mut r: Vec<Number> = Vec::new();
    let mut k: usize = 0;
    while k < v.len()
        invariant
            0 <= k <= v@.len(),
            numbers_view(r@) == ints_as_numbers(v@.subrange(0, k as int)),
        decreases v@.len() - k,
    {
        let ghost before = r@;
        r.push(Number::Int(v[k]));
        assert(numbers_view(r@) =~= numbers_view(before).push(NumberView::Int(v@[k as int])));
        assert(ints_as_numbers(v@.subrange(0, k + 1)) =~= ints_as_numbers(v@.subrange(0, k as int)).push(NumberView::Int(v@[k as int])));
        k = k + 1;
    }
    assert(v@.subrange(0, k as int) =~= v@);
    r
}

pub open spec fn acc_view(seen: Seen, floats: Seq<Number>, ints: Seq<i64>, strings: Seq<String>) -> ValuesAcc {
    ValuesAcc {
        seen,
        floats: numbers_view(floats),
        ints,
        strings: strings_view(strings),
    }
}

fn make_values(
    seen: Seen,
    floats: Vec<Number>,
    ints: Vec<i64>,
    strings: Vec<String>,
    header_pos: Pos,
    Ghost(next): Ghost<int>,
) -> (r: Result<ParamValues, ParseError>)
    ensures
        match finish_values(acc_view(seen, floats@, ints@, strings@), header_pos, next) {
            Ok((v, j)) => r matches Ok(rv) && rv@ == v,
            Err(e) => r matches Err(re) && re@ == e,
        },
{
    match seen {
        Seen::Floats => Ok(ParamValues::Floats(floats)),
        Seen::Ints => Ok(ParamValues::Ints(ints)),
        Seen::Strings => Ok(ParamValues::Strings(strings)),
        Seen::Nothing => Err(
            ParseError::Expected {
                pos: header_pos,
                expected: "parameter value".to_owned(),
                found: "(empty)".to_owned(),
            },
        ),
    }
}

fn parse_param_values(c: &mut Cursor<'_>, header_pos: Pos) -> (r: Result<ParamValues, ParseError>)
    requires
        old(c).i <= old(c).toks@.len(),
    ensures
        final(c).toks == old(c).toks,
        final(c).i <= final(c).toks@.len(),
        match param_values_at(spanned_views(old(c).toks@), old(c).i as int, header_pos) {
            Ok((v, j)) => r matches Ok(rv) && rv@ == v && j == final(c).i,
            Err(e) => r matches Err(re) && re@ == e,
        },
{
    let ghost tv = spanned_views(c.toks@);
    // The values list may be bracketed (`[1 2 3]`) or a single bare token
    // (e.g. `"float fov" 39`). Both are accepted.
    let bracketed = match c.peek() {
        Some(t) => match t.token {
            Token::LBracket => true,
            _ => false,
        },
        None => false,
    };
    if bracketed {
        c.advance();
    }
    let ghost start = c.i as int;
    let mut floats: Vec<Number> = Vec::new();
    let mut ints: Vec<i64> = Vec::new();
    let mut strings: Vec<String> = Vec::new();
    let mut seen = Seen::Nothing;
    assert(numbers_view(floats@) =~= Seq::<NumberView>::empty());
    assert(strings_view(strings@) =~= Seq::<Seq<char>>::empty());
    assert(ints@ =~= Seq::<i64>::empty());
    assert(acc_view(seen, floats@, ints@, strings@) == empty_acc());

    loop
        invariant
            c.toks == old(c).toks,
            tv == spanned_views(c.toks@),
            start <= c.i <= c.toks@.len(),
            param_values_at(tv, old(c).i as int, header_pos) == values_from(
                tv,
                c.i as int,
                bracketed,
                acc_view(seen, floats@, ints@, strings@),
                header_pos,
            ),
        decreases c.toks@.len() - c.i,
    {
        let ghost acc0 = acc_view(seen, floats@, ints@, strings@);
        let ghost i0 = c.i as int;
        let t = match c.peek() {
            Some(t) => t,
            None => {
                if bracketed {
                    return Err(ParseError::Eof { pos: c.last_pos() });
                }
                return make_values(seen, floats, ints, strings, header_pos, Ghost(c.i as int));
            },
        };
        assert(tv[i0] == t@);
        match &t.token {
            Token::RBracket if bracketed => {
                c.advance();
                return make_values(seen, floats, ints, strings, header_pos, Ghost(c.i as int));
            },
            Token::Float(v) => {
                if seen == Seen::Strings {
                    return Err(ParseError::MixedTypes { pos: t.pos });
                }
                // Integers read so far become numbers.
                if seen == Seen::Ints {
                    floats = ints_to_numbers(&ints);
                    ints = Vec::new();
                }
                seen = Seen::Floats;
                let ghost before = floats@;
                floats.push(Number::Float(v.clone()));
                assert(numbers_view(floats@) =~= numbers_view(before).push(NumberView::Float(v@)));
                c.advance();
            },
            Token::Integer(v) => {
                match seen {
                    Seen::Nothing => {
                        seen = Seen::Ints;
                        ints.push(*v);
                    },
                    Seen::Floats => {
                        let ghost before = floats@;
                        floats.push(Number::Int(*v));
                        assert(numbers_view(floats@) =~= numbers_view(before).push(NumberView::Int(*v)));
                    },
                    Seen::Ints => {
                        ints.push(*v);
                    },
                    Seen::Strings => {
                        return Err(ParseError::MixedTypes { pos: t.pos });
                    },
                }
                c.advance();
            },
            Token::String(s) => {
                if seen == Seen::Floats || seen == Seen::Ints {
                    return Err(ParseError::MixedTypes { pos: t.pos });
                }
                seen = Seen::Strings;
                let ghost before = strings@;
                strings.push(s.clone());
                assert(strings_view(strings@) =~= strings_view(before).push(s@));
                c.advance();
            },
            _ => {
                if bracketed {
                    return Err(
                        ParseError::Expected {
                            pos: t.pos,
                            expected: "value or `]`".to_owned(),
                            found: token_kind(&t.token).to_owned(),
                        },
                    );
                }
                return make_values(seen, floats, ints, strings, header_pos, Ghost(c.i as int));
            },
        }
        assert(accept_value(acc0, tv[i0]) == Ok::<ValuesAcc, ParseErrorView>(acc_view(seen, floats@, ints@, strings@)));
        if !bracketed {
            // Bare-value form: only one value.
            return make_values(seen, floats, ints, strings, header_pos, Ghost(c.i as int));
        }
    }
}

pub open spec fn directive_view_of(
    keyword: String,
    positional: Seq<PositionalArg>,
    params: Seq<Param>,
    pos: Pos,
) -> DirectiveView {
    DirectiveView {
        keyword: keyword@,
        positional: args_view(positional),
        params: params_view(params),
        pos,
    }
}

fn parse_directive(c: &mut Cursor<'_>) -> (r: Result<Directive, ParseError>)
    requires
        old(c).i <= old(c).toks@.len(),
    ensures
        final(c).toks == old(c).toks,
        final(c).i <= final(c).toks@.len(),
        r is Ok ==> final(c).i > old(c).i,
        match directive_at(spanned_views(old(c).toks@), old(c).i as int) {
            Ok((d, j)) => r matches Ok(rd) && rd@ == d && j == final(c).i,
            Err(e) => r matches Err(re) && re@ == e,
        },
{
    let ghost tv = spanned_views(c.toks@);
    let ghost i0 = c.i as int;
    let head = match c.advance() {
        Some(h) => h,
        None => {
            return Err(ParseError::Eof { pos: c.last_pos() });
        },
    };
    assert(tv[i0] == head@);
    let (keyword, pos) = match &head.token {
        Token::Identifier(s) => (s.clone(), head.pos),
        other => {
            return Err(
                ParseError::Expected {
                    pos: head.pos,
                    expected: "directive keyword".to_owned(),
                    found: token_kind(other).to_owned(),
                },
            );
        },
    };

    let mut positional: Vec<PositionalArg> = Vec::new();
    let mut params: Vec<Param> = Vec::new();
    assert(args_view(positional@) =~= Seq::<PositionalArgView>::empty());
    assert(params_view(params@) =~= Seq::<ParamView>::empty());

    // Consume arguments until the next identifier (the next directive) or
    // the end of the tokens.
    loop
        invariant
            c.toks == old(c).toks,
            tv == spanned_views(c.toks@),
            i0 == old(c).i,
            i0 < c.i <= c.toks@.len(),
            directive_at(tv, i0) == args_from(
                tv,
                c.i as int,
                directive_view_of(keyword, positional@, params@, pos),
            ),
        ensures
            c.toks == old(c).toks,
            i0 < c.i <= c.toks@.len(),
            directive_at(tv, i0) == Ok::<(DirectiveView, int), ParseErrorView>(
                (directive_view_of(keyword, positional@, params@, pos), c.i as int),
            ),
        decreases c.toks@.len() - c.i,
    {
        let ghost i1 = c.i as int;
        let ghost dv = directive_view_of(keyword, positional@, params@, pos);
        let t = match c.peek() {
            Some(t) => t,
            None => {
                break;
            },
        };
        assert(tv[i1] == t@);
        match &t.token {
            Token::Identifier(_) => {
                break;
            },
            Token::String(s) => {
                if contains_space(s.as_str()) {
                    // Parameter header: "<type> <name>"
                    c.advance();
                    let (param_type, name) = match split_param_header(s.as_str(), t.pos) {
                        Ok(pair) => pair,
                        Err(e) => {
                            return Err(e);
                        },
                    };
                    proof {
                        if i1 + 1 < tv.len() && tv[i1 + 1].token is LBracket {
                            lemma_values_from(tv, i1 + 2, true, empty_acc(), t.pos);
                        } else {
                            lemma_values_from(tv, i1 + 1, false, empty_acc(), t.pos);
                        }
                    }
                    let values = match parse_param_values(c, t.pos) {
                        Ok(v) => v,
                        Err(e) => {
                            return Err(e);
                        },
                    };
                    let ghost vals = values@;
                    // Float-typed parameters (`"rgb Kd" [15 15 15]`,
                    // `"point P" [-1 -1 -1 ...]`) can be written with bare
                    // integers; they hold numbers.
                    let values = if is_float_type(param_type.as_str()) {
                        match values {
                            ParamValues::Ints(v) => ParamValues::Floats(ints_to_numbers(&v)),
                            other => other,
                        }
                    } else {
                        values
                    };
                    assert(values@ == promote(param_type@, vals));
                    let p = Param { param_type, name, values, pos: t.pos };
                    let ghost before = params@;
                    params.push(p);
                    assert(params_view(params@) =~= params_view(before).push(p@));
                } else {
                    let ghost before = positional@;
                    let a = PositionalArg::String(s.clone());
                    positional.push(a);
                    assert(args_view(positional@) =~= args_view(before).push(a@));
                    c.advance();
                }
            },
            Token::Integer(_) | Token::Float(_) => {
                let a = PositionalArg::Float(token_to_number(&t.token));
                let ghost before = positional@;
                positional.push(a);
                assert(args_view(positional@) =~= args_view(before).push(a@));
                c.advance();
            },
            Token::LBracket => {
                // Array positional, used by `Transform` / `ConcatTransform`.
                c.advance();
                let ghost j0 = c.i as int;
                let mut arr: Vec<Number> = Vec::new();
                assert(numbers_view(arr@) =~= Seq::<NumberView>::empty());
                loop
                    invariant_except_break
                        array_from(tv, j0, seq![]) == array_from(tv, c.i as int, numbers_view(arr@)),
                    invariant
                        c.toks == old(c).toks,
                        tv == spanned_views(c.toks@),
                        i0 == old(c).i,
                        j0 == i1 + 1,
                        i0 < i1,
                        tv[i1].token is LBracket,
                        directive_at(tv, i0) == args_from(tv, i1, dv),
                        dv == directive_view_of(keyword, positional@, params@, pos),
                        j0 <= c.i <= c.toks@.len(),
                    ensures
                        c.toks == old(c).toks,
                        j0 < c.i <= c.toks@.len(),
                        array_from(tv, j0, seq![]) == Ok::<(Seq<NumberView>, int), ParseErrorView>(
                            (numbers_view(arr@), c.i as int),
                        ),
                    decreases c.toks@.len() - c.i,
                {
                    let ghost j1 = c.i as int;
                    let t = match c.peek() {
                        Some(t) => t,
                        None => {
                            return Err(ParseError::Eof { pos: c.last_pos() });
                        },
                    };
                    assert(tv[j1] == t@);
                    match &t.token {
                        Token::RBracket => {
                            c.advance();
                            break;
                        },
                        Token::Integer(_) | Token::Float(_) => {
                            let ghost before = arr@;
                            let n = token_to_number(&t.token);
                            arr.push(n);
                            assert(numbers_view(arr@) =~= numbers_view(before).push(n@));
                            c.advance();
                        },
                        other => {
                            return Err(
                                ParseError::Expected {
                                    pos: t.pos,
                                    expected: "number or `]`".to_owned(),
                                    found: token_kind(other).to_owned(),
                                },
                            );
                        },
                    }
                }
                let a = PositionalArg::FloatArray(arr);
                let ghost before = positional@;
                positional.push(a);
                assert(args_view(positional@) =~= args_view(before).push(a@));
            },
            Token::RBracket => {
                return Err(
                    ParseError::Expected {
                        pos: t.pos,
                        expected: "directive arg".to_owned(),
                        found: "`]`".to_owned(),
                    },
                );
            },
        }
    }

    Ok(Directive { keyword, positional, params, pos })
}

/// Parses a token stream into directives.
pub fn parse(toks: &[Spanned]) -> (r: Result<Vec<Directive>, ParseError>)
    ensures
        parse_result_view(r) == spec_parse(spanned_views(toks@)),
{
    let mut c = Cursor { toks, i: 0 };
    let ghost tv = spanned_views(toks@);
    let mut out: Vec<Directive> = Vec::new();
    assert(directives_view(out@) =~= Seq::<DirectiveView>::empty());
    while c.peek().is_some()
        invariant
            c.toks == toks,
            tv == spanned_views(toks@),
            c.i <= toks@.len(),
            spec_parse(tv) == match directives_from(tv, c.i as int) {
                Ok(ds) => Ok(directives_view(out@) + ds),
                Err(e) => Err(e),
            },
        decreases toks@.len() - c.i,
    {
        let ghost i0 = c.i as int;
        let d = match parse_directive(&mut c) {
            Ok(d) => d,
            Err(e) => {
                return Err(e);
            },
        };
        let ghost before = out@;
        out.push(d);
        proof {
            assert(directives_view(out@) =~= directives_view(before).push(d@));
            if let Ok(ds) = directives_from(tv, c.i as int) {
                assert(directives_view(before) + (seq![d@] + ds) =~= directives_view(out@) + ds);
            }
        }
    }
    assert(directives_view(out@) + Seq::<DirectiveView>::empty() =~= directives_view(out@));
    Ok(out)
}

// ---------------------------------------------------------------------------
// Laws of the parser
// ---------------------------------------------------------------------------

/// The texts of the identifier tokens from token `i` on.
pub open spec fn identifiers_from(toks: Seq<SpannedView>, i: int) -> Seq<Seq<char>>
    decreases toks.len() - i,
{
    if i < 0 || i >= toks.len() {
        seq![]
    } else {
        match toks[i].token {
            TokenView::Identifier(k) => seq![k] + identifiers_from(toks, i + 1),
            _ => identifiers_from(toks, i + 1),
        }
    }
}

pub open spec fn no_identifier_between(toks: Seq<SpannedView>, i: int, j: int) -> bool {
    forall|k: int| i <= k < j ==> !(#[trigger] toks[k].token is Identifier)
}

proof fn lemma_identifiers_skip(toks: Seq<SpannedView>, i: int, j: int)
    requires
        0 <= i <= j <= toks.len(),
        no_identifier_between(toks, i, j),
    ensures
        identifiers_from(toks, i) == identifiers_from(toks, j),
    decreases j - i,
{
    if i < j {
        assert(!(toks[i].token is Identifier));
        lemma_identifiers_skip(toks, i + 1, j);
    }
}

proof fn lemma_values_from_no_identifier(
    toks: Seq<SpannedView>,
    i: int,
    bracketed: bool,
    acc: ValuesAcc,
    header_pos: Pos,
)
    requires
        0 <= i <= toks.len(),
    ensures
        values_from(toks, i, bracketed, acc, header_pos) matches Ok((_, j)) ==> i <= j
            <= toks.len() && no_identifier_between(toks, i, j),
    decreases toks.len() - i,
{
    if i < toks.len() {
        let t = toks[i];
        if !(bracketed && t.token is RBracket) && (is_number_token(t.token) || t.token is Str) {
            if let Ok(acc2) = accept_value(acc, t) {
                if bracketed {
                    lemma_values_from_no_identifier(toks, i + 1, true, acc2, header_pos);
                }
            }
        }
    }
}

proof fn lemma_array_from_no_identifier(toks: Seq<SpannedView>, i: int, arr: Seq<NumberView>)
    requires
        0 <= i <= toks.len(),
    ensures
        array_from(toks, i, arr) matches Ok((_, j)) ==> i < j <= toks.len() && no_identifier_between(
            toks,
            i,
            j,
        ),
    decreases toks.len() - i,
{
    if i < toks.len() && !(toks[i].token is RBracket) && is_number_token(toks[i].token) {
        lemma_array_from_no_identifier(toks, i + 1, arr.push(number_of(toks[i].token)));
    }
}

proof fn lemma_args_from_no_identifier(toks: Seq<SpannedView>, i: int, d: DirectiveView)
    requires
        0 <= i <= toks.len(),
    ensures
        args_from(toks, i, d) matches Ok((d2, j)) ==> {
            &&& i <= j <= toks.len()
            &&& d2.keyword == d.keyword
            &&& d2.pos == d.pos
            &&& no_identifier_between(toks, i, j)
        },
    decreases toks.len() - i,
{
    if i < toks.len() {
        let t = toks[i];
        match t.token {
            TokenView::Str(s) => {
                if s.contains(' ') {
                    if let Some((ty, nm)) = split_header(s) {
                        if i + 1 < toks.len() && toks[i + 1].token is LBracket {
                            lemma_values_from_no_identifier(toks, i + 2, true, empty_acc(), t.pos);
                        } else {
                            lemma_values_from_no_identifier(toks, i + 1, false, empty_acc(), t.pos);
                        }
                        if let Ok((vals, j)) = param_values_at(toks, i + 1, t.pos) {
                            let p = ParamView {
                                param_type: ty,
                                name: nm,
                                values: promote(ty, vals),
                                pos: t.pos,
                            };
                            lemma_args_from_no_identifier(
                                toks,
                                j,
                                DirectiveView { params: d.params.push(p), ..d },
                            );
                        }
                    }
                } else {
                    lemma_args_from_no_identifier(
                        toks,
                        i + 1,
                        DirectiveView { positional: d.positional.push(PositionalArgView::Str(s)), ..d },
                    );
                }
            },
            TokenView::Integer(_) | TokenView::Float(_) => {
                lemma_args_from_no_identifier(
                    toks,
                    i + 1,
                    DirectiveView {
                        positional: d.positional.push(PositionalArgView::Float(number_of(t.token))),
                        ..d
                    },
                );
            },
            TokenView::LBracket => {
                lemma_array_from_no_identifier(toks, i + 1, seq![]);
                if let Ok((arr, j)) = array_from(toks, i + 1, seq![]) {
                    lemma_args_from_no_identifier(
                        toks,
                        j,
                        DirectiveView {
                            positional: d.positional.push(PositionalArgView::FloatArray(arr)),
                            ..d
                        },
                    );
                }
            },
            _ => {},
        }
    }
}

proof fn lemma_directives_from_keywords(toks: Seq<SpannedView>, i: int)
    requires
        0 <= i <= toks.len(),
    ensures
        directives_from(toks, i) matches Ok(ds) ==> ds.map_values(|d: DirectiveView| d.keyword)
            == identifiers_from(toks, i),
    decreases toks.len() - i,
{
    if i < toks.len() {
        if let TokenView::Identifier(k) = toks[i].token {
            let d0 = DirectiveView { keyword: k, positional: seq![], params: seq![], pos: toks[i].pos };
            lemma_args_from_no_identifier(toks, i + 1, d0);
            if let Ok((d, j)) = args_from(toks, i + 1, d0) {
                lemma_identifiers_skip(toks, i + 1, j);
                lemma_directives_from_keywords(toks, j);
                if let Ok(rest) = directives_from(toks, j) {
                    let ds = seq![d] + rest;
                    assert(ds.map_values(|x: DirectiveView| x.keyword) =~= seq![k] + rest.map_values(
                        |x: DirectiveView| x.keyword,
                    ));
                }
            }
        }
    }
}

/// Every directive starts at an identifier and identifiers appear nowhere
/// else: on success, the keywords of the directives are the identifier
/// tokens in order.
pub proof fn law_keywords_are_the_identifiers(toks: Seq<SpannedView>)
    ensures
        spec_parse(toks) matches Ok(ds) ==> ds.map_values(|d: DirectiveView| d.keyword)
            == identifiers_from(toks, 0),
{
    lemma_directives_from_keywords(toks, 0);
}

/// No parameter of a float class holds integers.
pub open spec fn float_params_hold_numbers(ps: Seq<ParamView>) -> bool {
    forall|i: int|
        0 <= i < ps.len() && is_float_type_view((#[trigger] ps[i]).param_type) ==> !(
        ps[i].values is Ints)
}

proof fn lemma_args_from_promoted(toks: Seq<SpannedView>, i: int, d: DirectiveView)
    requires
        0 <= i <= toks.len(),
        float_params_hold_numbers(d.params),
    ensures
        args_from(toks, i, d) matches Ok((d2, _)) ==> float_params_hold_numbers(d2.params),
    decreases toks.len() - i,
{
    if i < toks.len() {
        let t = toks[i];
        match t.token {
            TokenView::Str(s) => {
                if s.contains(' ') {
                    if let Some((ty, nm)) = split_header(s) {
                        if i + 1 < toks.len() && toks[i + 1].token is LBracket {
                            lemma_values_from(toks, i + 2, true, empty_acc(), t.pos);
                        } else {
                            lemma_values_from(toks, i + 1, false, empty_acc(), t.pos);
                        }
                        if let Ok((vals, j)) = param_values_at(toks, i + 1, t.pos) {
                            let p = ParamView {
                                param_type: ty,
                                name: nm,
                                values: promote(ty, vals),
                                pos: t.pos,
                            };
                            let ps = d.params.push(p);
                            assert forall|k: int|
                                0 <= k < ps.len() && is_float_type_view(
                                    (#[trigger] ps[k]).param_type,
                                ) implies !(ps[k].values is Ints) by {
                                if k < d.params.len() {
                                    assert(ps[k] == d.params[k]);
                                }
                            }
                            lemma_args_from_promoted(toks, j, DirectiveView { params: ps, ..d });
                        }
                    }
                } else {
                    lemma_args_from_promoted(
                        toks,
                        i + 1,
                        DirectiveView { positional: d.positional.push(PositionalArgView::Str(s)), ..d },
                    );
                }
            },
            TokenView::Integer(_) | TokenView::Float(_) => {
                lemma_args_from_promoted(
                    toks,
                    i + 1,
                    DirectiveView {
                        positional: d.positional.push(PositionalArgView::Float(number_of(t.token))),
                        ..d
                    },
                );
            },
            TokenView::LBracket => {
                lemma_array_from(toks, i + 1, seq![]);
                if let Ok((arr, j)) = array_from(toks, i + 1, seq![]) {
                    lemma_args_from_promoted(
                        toks,
                        j,
                        DirectiveView {
                            positional: d.positional.push(PositionalArgView::FloatArray(arr)),
                            ..d
                        },
                    );
                }
            },
            _ => {},
        }
    }
}

proof fn lemma_directives_from_promoted(toks: Seq<SpannedView>, i: int)
    requires
        0 <= i <= toks.len(),
    ensures
        directives_from(toks, i) matches Ok(ds) ==> forall|n: int|
            0 <= n < ds.len() ==> float_params_hold_numbers((#[trigger] ds[n]).params),
    decreases toks.len() - i,
{
    if i < toks.len() {
        if let TokenView::Identifier(k) = toks[i].token {
            let d0 = DirectiveView { keyword: k, positional: seq![], params: seq![], pos: toks[i].pos };
            lemma_args_from_promoted(toks, i + 1, d0);
            lemma_args_from(toks, i + 1, d0);
            if let Ok((d, j)) = args_from(toks, i + 1, d0) {
                lemma_directives_from_promoted(toks, j);
                if let Ok(rest) = directives_from(toks, j) {
                    let ds = seq![d] + rest;
                    assert forall|n: int| 0 <= n < ds.len() implies float_params_hold_numbers(
                        (#[trigger] ds[n]).params,
                    ) by {
                        if n > 0 {
                            assert(ds[n] == rest[n - 1]);
                        }
                    }
                }
            }
        }
    }
}

/// Float-class parameters written with bare integers hold numbers: on
/// success no parameter of a float type holds integers.
pub proof fn law_float_params_hold_numbers(toks: Seq<SpannedView>)
    ensures
        spec_parse(toks) matches Ok(ds) ==> forall|n: int|
            0 <= n < ds.len() ==> float_params_hold_numbers((#[trigger] ds[n]).params),
{
    lemma_directives_from_promoted(toks, 0);
}

/// Strings without a space are positional arguments and every parameter
/// has a non-empty type and name.
pub open spec fn args_split_by_spaces(d: DirectiveView) -> bool {
    &&& forall|i: int|
        0 <= i < d.positional.len() ==> ((#[trigger] d.positional[i]) matches PositionalArgView::Str(
            s,
        ) ==> !s.contains(' '))
    &&& forall|i: int|
        0 <= i < d.params.len() ==> (#[trigger] d.params[i]).param_type.len() > 0
            && d.params[i].name.len() > 0
}

proof fn lemma_push_positional(d: DirectiveView, a: PositionalArgView)
    requires
        args_split_by_spaces(d),
        a matches PositionalArgView::Str(s) ==> !s.contains(' '),
    ensures
        args_split_by_spaces(DirectiveView { positional: d.positional.push(a), ..d }),
{
    let ps = d.positional.push(a);
    assert forall|i: int| 0 <= i < ps.len() implies ((#[trigger] ps[i]) matches PositionalArgView::Str(
        s,
    ) ==> !s.contains(' ')) by {
        if i < d.positional.len() {
            assert(ps[i] == d.positional[i]);
        }
    }
}

proof fn lemma_args_from_split(toks: Seq<SpannedView>, i: int, d: DirectiveView)
    requires
        0 <= i <= toks.len(),
        args_split_by_spaces(d),
    ensures
        args_from(toks, i, d) matches Ok((d2, _)) ==> args_split_by_spaces(d2),
    decreases toks.len() - i,
{
    if i < toks.len() {
        let t = toks[i];
        match t.token {
            TokenView::Str(s) => {
                if s.contains(' ') {
                    if let Some((ty, nm)) = split_header(s) {
                        if i + 1 < toks.len() && toks[i + 1].token is LBracket {
                            lemma_values_from(toks, i + 2, true, empty_acc(), t.pos);
                        } else {
                            lemma_values_from(toks, i + 1, false, empty_acc(), t.pos);
                        }
                        if let Ok((vals, j)) = param_values_at(toks, i + 1, t.pos) {
                            let p = ParamView {
                                param_type: ty,
                                name: nm,
                                values: promote(ty, vals),
                                pos: t.pos,
                            };
                            let ps = d.params.push(p);
                            assert forall|k: int| 0 <= k < ps.len() implies (#[trigger] ps[k]).param_type.len()
                                > 0 && ps[k].name.len() > 0 by {
                                if k < d.params.len() {
                                    assert(ps[k] == d.params[k]);
                                }
                            }
                            lemma_args_from_split(toks, j, DirectiveView { params: ps, ..d });
                        }
                    }
                } else {
                    lemma_push_positional(d, PositionalArgView::Str(s));
                    lemma_args_from_split(
                        toks,
                        i + 1,
                        DirectiveView { positional: d.positional.push(PositionalArgView::Str(s)), ..d },
                    );
                }
            },
            TokenView::Integer(_) | TokenView::Float(_) => {
                lemma_push_positional(d, PositionalArgView::Float(number_of(t.token)));
                lemma_args_from_split(
                    toks,
                    i + 1,
                    DirectiveView {
                        positional: d.positional.push(PositionalArgView::Float(number_of(t.token))),
                        ..d
                    },
                );
            },
            TokenView::LBracket => {
                lemma_array_from(toks, i + 1, seq![]);
                if let Ok((arr, j)) = array_from(toks, i + 1, seq![]) {
                    lemma_push_positional(d, PositionalArgView::FloatArray(arr));
                    lemma_args_from_split(
                        toks,
                        j,
                        DirectiveView {
                            positional: d.positional.push(PositionalArgView::FloatArray(arr)),
                            ..d
                        },
                    );
                }
            },
            _ => {},
        }
    }
}

proof fn lemma_directives_from_split(toks: Seq<SpannedView>, i: int)
    requires
        0 <= i <= toks.len(),
    ensures
        directives_from(toks, i) matches Ok(ds) ==> forall|n: int|
            0 <= n < ds.len() ==> args_split_by_spaces(#[trigger] ds[n]),
    decreases toks.len() - i,
{
    if i < toks.len() {
        if let TokenView::Identifier(k) = toks[i].token {
            let d0 = DirectiveView { keyword: k, positional: seq![], params: seq![], pos: toks[i].pos };
            lemma_args_from_split(toks, i + 1, d0);
            lemma_args_from(toks, i + 1, d0);
            if let Ok((d, j)) = args_from(toks, i + 1, d0) {
                lemma_directives_from_split(toks, j);
                if let Ok(rest) = directives_from(toks, j) {
                    let ds = seq![d] + rest;
                    assert forall|n: int| 0 <= n < ds.len() implies args_split_by_spaces(
                        #[trigger] ds[n],
                    ) by {
                        if n > 0 {
                            assert(ds[n] == rest[n - 1]);
                        }
                    }
                }
            }
        }
    }
}

/// A string argument with a space is a parameter header, one without is a
/// positional argument: on success no positional string holds a space, and
/// every parameter has a type and a name.
pub proof fn law_strings_split_by_spaces(toks: Seq<SpannedView>)
    ensures
        spec_parse(toks) matches Ok(ds) ==> forall|n: int|
            0 <= n < ds.len() ==> args_split_by_spaces(#[trigger] ds[n]),
{
    lemma_directives_from_split(toks, 0);
}

/// The strings of tokens `i..j`.
pub open spec fn strings_of(toks: Seq<SpannedView>, i: int, j: int) -> Seq<Seq<char>> {
    Seq::new((j - i) as nat, |k: int| toks[i + k].token->Str_0)
}

proof fn lemma_string_values(
    toks: Seq<SpannedView>,
    j: int,
    end: int,
    acc: ValuesAcc,
    header_pos: Pos,
)
    requires
        0 <= j <= end < toks.len(),
        forall|k: int| j <= k < end ==> (#[trigger] toks[k]).token is Str,
        toks[end].token is RBracket,
        acc.seen == Seen::Strings || (acc.seen == Seen::Nothing && j < end),
    ensures
        values_from(toks, j, true, acc, header_pos) == Ok::<(ParamValuesView, int), ParseErrorView>(
            (ParamValuesView::Strings(acc.strings + strings_of(toks, j, end)), end + 1),
        ),
    decreases end - j,
{
    if j == end {
        assert(acc.strings + strings_of(toks, j, end) =~= acc.strings);
    } else {
        let t = toks[j];
        let s = t.token->Str_0;
        let acc2 = ValuesAcc { seen: Seen::Strings, strings: acc.strings.push(s), ..acc };
        assert(accept_value(acc, t) == Ok::<ValuesAcc, ParseErrorView>(acc2));
        lemma_string_values(toks, j + 1, end, acc2, header_pos);
        assert(acc2.strings + strings_of(toks, j + 1, end) =~= acc.strings + strings_of(
            toks,
            j,
            end,
        ));
    }
}

/// A bracketed parameter array of one or more string tokens holds exactly
/// those strings, in order, and parsing resumes after its `]`.
pub proof fn law_string_arrays_keep_every_string(
    toks: Seq<SpannedView>,
    i: int,
    end: int,
    header_pos: Pos,
)
    requires
        0 <= i,
        i + 1 < end < toks.len(),
        toks[i].token is LBracket,
        forall|k: int| i < k < end ==> (#[trigger] toks[k]).token is Str,
        toks[end].token is RBracket,
    ensures
        param_values_at(toks, i, header_pos) == Ok::<(ParamValuesView, int), ParseErrorView>(
            (ParamValuesView::Strings(strings_of(toks, i + 1, end)), end + 1),
        ),
        strings_of(toks, i + 1, end).len() == end - i - 1,
        forall|k: int|
            0 <= k < end - i - 1 ==> toks[i + 1 + k].token == TokenView::Str(
                #[trigger] strings_of(toks, i + 1, end)[k],
            ),
{
    lemma_string_values(toks, i + 1, end, empty_acc(), header_pos);
    assert(seq![] + strings_of(toks, i + 1, end) =~= strings_of(toks, i + 1, end));
    assert forall|k: int| 0 <= k < end - i - 1 implies toks[i + 1 + k].token == TokenView::Str(
        #[trigger] strings_of(toks, i + 1, end)[k],
    ) by {
        assert(toks[i + 1 + k].token is Str);
    }
}

} // verus!
