//! S-expressions and the reader that turns text into them.
//!
//! The reader mirrors the shape of the surface syntax: numbers, booleans
//! (`#t`, `#true`, `#f`, `#false`), symbols and lists in braces.

use vstd::prelude::*;
use crate::text::{
    char_is_alphabetic, char_is_digit, chars_of, int_decimal, is_alphabetic, is_digit,
    is_whitespace, lemma_trim_start, lemma_trim_start_idempotent, nat_decimal, skip_whitespace,
    starts_with, starts_with_at, trim_start,
};

verus! {

/// An s-expression as read from text.
#[derive(Debug, PartialEq, Eq)]
pub enum SExp {
    Number(i32),
    Boolean(bool),
    Symbol(String),
    List(Vec<SExp>),
}

/// The mathematical value of an [`SExp`].
pub enum SExpModel {
    Number(i32),
    Boolean(bool),
    Symbol(Seq<char>),
    List(Seq<SExpModel>),
}

pub open spec fn sexp_model(s: SExp) -> SExpModel
    decreases s,
{
    match s {
        SExp::Number(n) => SExpModel::Number(n),
        SExp::Boolean(b) => SExpModel::Boolean(b),
        SExp::Symbol(x) => SExpModel::Symbol(x@),
        SExp::List(v) => SExpModel::List(
            Seq::new(
                v.len() as nat,
                |i: int|
                    if 0 <= i < v.len() {
                        sexp_model(v[i])
                    } else {
                        SExpModel::Number(0)
                    },
            ),
        ),
    }
}

impl View for SExp {
    type V = SExpModel;

    open spec fn view(&self) -> SExpModel {
        sexp_model(*self)
    }
}

/// How a decimal token failed to be an `i32` (the kinds of `ParseIntError`
/// that such a token can give).
#[derive(Debug, Clone, Copy, PartialEq, Eq)]
pub enum IntErrorKind {
    Empty,
    InvalidDigit,
    PosOverflow,
    NegOverflow,
}

/// Why text could not be read as an s-expression.
#[derive(Debug, PartialEq, Eq)]
pub enum ReadError {
    /// Only white space was left to read.
    EmptyInput,
    /// The text starts with a character that begins no s-expression.
    Unrecognized(String),
    /// The text does not start with a boolean.
    ExpectedBoolean(String),
    /// The text does not start with a number.
    ExpectedNumber(String),
    /// The number token is not an `i32`.
    InvalidNumber(IntErrorKind),
    /// The text does not start with a symbol.
    ExpectedSymbol(String),
    /// A list must start with `{`.
    MissingBrace,
    /// The text ended inside a list.
    UnterminatedList,
}

pub enum ReadErrorModel {
    EmptyInput,
    Unrecognized(Seq<char>),
    ExpectedBoolean(Seq<char>),
    ExpectedNumber(Seq<char>),
    InvalidNumber(IntErrorKind),
    ExpectedSymbol(Seq<char>),
    MissingBrace,
    UnterminatedList,
}

impl View for ReadError {
    type V = ReadErrorModel;

    open spec fn view(&self) -> ReadErrorModel {
        match self {
            ReadError::EmptyInput => ReadErrorModel::EmptyInput,
            ReadError::Unrecognized(s) => ReadErrorModel::Unrecognized(s@),
            ReadError::ExpectedBoolean(s) => ReadErrorModel::ExpectedBoolean(s@),
            ReadError::ExpectedNumber(s) => ReadErrorModel::ExpectedNumber(s@),
            ReadError::InvalidNumber(k) => ReadErrorModel::InvalidNumber(*k),
            ReadError::ExpectedSymbol(s) => ReadErrorModel::ExpectedSymbol(s@),
            ReadError::MissingBrace => ReadErrorModel::MissingBrace,
            ReadError::UnterminatedList => ReadErrorModel::UnterminatedList,
        }
    }
}

/// What reading gives: the s-expression and the text after it, or an error.
pub type ReadResult = Result<(SExpModel, Seq<char>), ReadErrorModel>;

pub open spec fn read_view(r: Result<(SExp, &str), ReadError>) -> ReadResult {
    match r {
        Ok((x, rest)) => Ok((x@, rest@)),
        Err(e) => Err(e@),
    }
}

/// A character that may stand in a number token; `first` tells whether it
/// is the token's first character.
pub open spec fn numeric_char(first: bool, c: char) -> bool {
    is_digit(c) || (first && c == '-')
}

/// A character that may stand in a symbol; digits may not start one.
pub open spec fn symbol_char(first: bool, c: char) -> bool {
    is_alphabetic(c) || c == '+' || c == '-' || c == '*' || c == '/' || (!first && is_digit(c))
}

pub open spec fn token_char(numeric: bool, first: bool, c: char) -> bool {
    if numeric {
        numeric_char(first, c)
    } else {
        symbol_char(first, c)
    }
}

/// The end of the token that starts the text: the index of the first
/// character at or after `i` that cannot stand in it.
pub open spec fn token_end(s: Seq<char>, i: int, numeric: bool) -> int
    decreases s.len() - i,
{
    if 0 <= i < s.len() && token_char(numeric, i == 0, s[i]) {
        token_end(s, i + 1, numeric)
    } else {
        i
    }
}

pub open spec fn all_digits(d: Seq<char>) -> bool {
    forall|i: int| 0 <= i < d.len() ==> is_digit(#[trigger] d[i])
}

/// The value of a string of decimal digits.
pub open spec fn digits_value(d: Seq<char>) -> int
    decreases d.len(),
{
    if d.len() == 0 {
        0
    } else {
        digits_value(d.drop_last()) * 10 + (d.last() as int - '0' as int)
    }
}

/// `i32::from_str` on a token made of an optional leading `-` and digits.
pub open spec fn token_value(t: Seq<char>) -> Result<i32, IntErrorKind> {
    if t.len() == 0 {
        Err(IntErrorKind::Empty)
    } else if t[0] == '-' {
        let d = t.drop_first();
        if d.len() == 0 || !all_digits(d) {
            Err(IntErrorKind::InvalidDigit)
        } else if digits_value(d) > 0x8000_0000 {
            Err(IntErrorKind::NegOverflow)
        } else {
            Ok((-digits_value(d)) as i32)
        }
    } else if !all_digits(t) {
        Err(IntErrorKind::InvalidDigit)
    } else if digits_value(t) > 0x7fff_ffff {
        Err(IntErrorKind::PosOverflow)
    } else {
        Ok(digits_value(t) as i32)
    }
}

/// Reading a boolean: `#true`, `#t`, `#false` or `#f`, tried in that order.
pub open spec fn spec_read_boolean(s: Seq<char>) -> ReadResult {
    if starts_with(s, seq!['#', 't', 'r', 'u', 'e']) {
        Ok((SExpModel::Boolean(true), s.skip(5)))
    } else if starts_with(s, seq!['#', 't']) {
        Ok((SExpModel::Boolean(true), s.skip(2)))
    } else if starts_with(s, seq!['#', 'f', 'a', 'l', 's', 'e']) {
        Ok((SExpModel::Boolean(false), s.skip(6)))
    } else if starts_with(s, seq!['#', 'f']) {
        Ok((SExpModel::Boolean(false), s.skip(2)))
    } else {
        Err(ReadErrorModel::ExpectedBoolean(s))
    }
}

/// Reading a number: the longest run of number characters, which must be
/// an `i32`.
pub open spec fn spec_read_number(s: Seq<char>) -> ReadResult {
    let r = token_end(s, 0, true);
    if r == 0 && s.len() > 0 {
        Err(ReadErrorModel::ExpectedNumber(s))
    } else {
        match token_value(s.take(r)) {
            Ok(n) => Ok((SExpModel::Number(n), s.skip(r))),
            Err(k) => Err(ReadErrorModel::InvalidNumber(k)),
        }
    }
}

/// Reading a symbol: the longest run of symbol characters.
pub open spec fn spec_read_symbol(s: Seq<char>) -> ReadResult {
    let r = token_end(s, 0, false);
    if r == 0 && s.len() > 0 {
        Err(ReadErrorModel::ExpectedSymbol(s))
    } else {
        Ok((SExpModel::Symbol(s.take(r)), s.skip(r)))
    }
}

/// Reading any s-expression after skipping white space.
pub open spec fn spec_read_sexp(s: Seq<char>) -> ReadResult
    decreases s.len(), 0int,
{
    let t = trim_start(s);
    proof {
        lemma_trim_start(s);
    }
    if t.len() == 0 {
        Err(ReadErrorModel::EmptyInput)
    } else if is_digit(t[0]) {
        spec_read_number(t)
    } else if t[0] == '-' {
        if t.len() > 1 && is_digit(t[1]) {
            spec_read_number(t)
        } else {
            spec_read_symbol(t)
        }
    } else if t[0] == '#' {
        spec_read_boolean(t)
    } else if t[0] == '{' {
        spec_read_items(t.drop_first(), seq![])
    } else if symbol_char(true, t[0]) {
        spec_read_symbol(t)
    } else {
        Err(ReadErrorModel::Unrecognized(t))
    }
}

/// Reading the items of a list whose `{` and first items (`items`) have been
/// read already, up to and including its `}`. A read that succeeds always
/// consumes text ([`lemma_read_sexp_consumes`]), so the last branch, which
/// only makes the recursion visibly finite, is never taken.
pub open spec fn spec_read_items(s: Seq<char>, items: Seq<SExpModel>) -> ReadResult
    decreases s.len(), 1int,
{
    let t = trim_start(s);
    proof {
        lemma_trim_start(s);
    }
    if t.len() == 0 {
        Err(ReadErrorModel::UnterminatedList)
    } else if t[0] == '}' {
        Ok((SExpModel::List(items), t.drop_first()))
    } else {
        match spec_read_sexp(t) {
            Err(e) => Err(e),
            Ok((x, rest)) => if rest.len() < t.len() {
                spec_read_items(rest, items.push(x))
            } else {
                Err(ReadErrorModel::UnterminatedList)
            },
        }
    }
}

/// Reading a list: `{`, then s-expressions up to the matching `}`.
pub open spec fn spec_read_list(s: Seq<char>) -> ReadResult {
    if s.len() > 0 && s[0] == '{' {
        spec_read_items(s.drop_first(), seq![])
    } else {
        Err(ReadErrorModel::MissingBrace)
    }
}

/// The text being read, with its characters at hand by index.
struct Source<'a> {
    text: &'a str,
    chars: Vec<char>,
}

impl<'a> Source<'a> {
    spec fn wf(&self) -> bool {
        self.chars@ == self.text@
    }

    spec fn at(&self, pos: int) -> Seq<char> {
        self.chars@.skip(pos)
    }

    fn new(text: &'a str) -> (src: Source<'a>)
        ensures
            src.wf(),
            src.text == text,
    {
        Source { text, chars: chars_of(text) }
    }

    /// The text from `pos` on.
    fn suffix(&self, pos: usize) -> (r: &'a str)
        requires
            self.wf(),
            pos <= self.chars.len(),
        ensures
            r@ == self.at(pos as int),
    {
        self.text.substring_char(pos, self.chars.len())
    }

    /// The characters from `from` up to `to`, as a new string.
    fn slice(&self, from: usize, to: usize) -> (r: String)
        requires
            self.wf(),
            from <= to <= self.chars.len(),
        ensures
            r@ == self.chars@.subrange(from as int, to as int),
    {
        self.text.substring_char(from, to).to_owned()
    }
}

/// Whether the character `c` at index `i` of a token may stand in a number.
pub fn is_numeric_char(ic: &(usize, char)) -> (b: bool)
    ensures
        b == numeric_char(ic.0 == 0, ic.1),
{
    let (i, c) = *ic;
    char_is_digit(c) || (i == 0 && c == '-')
}

/// Whether the character `c` at index `i` of a token may stand in a symbol.
pub fn is_symbol_char(ic: &(usize, char)) -> (b: bool)
    ensures
        b == symbol_char(ic.0 == 0, ic.1),
{
    let (i, c) = *ic;
    char_is_alphabetic(c) || c == '+' || c == '-' || c == '*' || c == '/' || (i > 0
        && char_is_digit(c))
}

fn is_token_char(numeric: bool, i: usize, c: char) -> (b: bool)
    ensures
        b == token_char(numeric, i == 0, c),
{
    if numeric {
        is_numeric_char(&(i, c))
    } else {
        is_symbol_char(&(i, c))
    }
}

/// The end of the token of the given kind that starts at `pos`.
fn scan_token(cs: &Vec<char>, pos: usize, numeric: bool) -> (end: usize)
    requires
        pos <= cs.len(),
    ensures
        pos <= end <= cs.len(),
        end - pos == token_end(cs@.skip(pos as int), 0, numeric),
        forall|k: int| pos <= k < end ==> token_char(numeric, k == pos, #[trigger] cs@[k]),
{
    let ghost s = cs@.skip(pos as int);
    let mut i = pos;
    while i < cs.len() && is_token_char(numeric, i - pos, cs[i])
        invariant
            pos <= i <= cs.len(),
            s == cs@.skip(pos as int),
            token_end(s, i - pos, numeric) == token_end(s, 0, numeric),
            forall|k: int| pos <= k < i ==> token_char(numeric, k == pos, #[trigger] cs@[k]),
        decreases cs.len() - i,
    {
        assert(s[i - pos] == cs@[i as int]);
        i = i + 1;
    }
    if i < cs.len() {
        assert(s[i - pos] == cs@[i as int]);
    }
    i
}

proof fn lemma_digits_value_nonneg(d: Seq<char>)
    requires
        all_digits(d),
    ensures
        digits_value(d) >= 0,
    decreases d.len(),
{
    if d.len() > 0 {
        assert(all_digits(d.drop_last())) by {
            assert forall|i: int| 0 <= i < d.drop_last().len() implies is_digit(
                #[trigger] d.drop_last()[i],
            ) by {
                assert(d.drop_last()[i] == d[i]);
            }
        }
        lemma_digits_value_nonneg(d.drop_last());
        assert(is_digit(d[d.len() - 1]));
    }
}

/// A prefix of a string of digits never has a greater value than the whole.
proof fn lemma_digits_value_prefix(d: Seq<char>, k: int)
    requires
        all_digits(d),
        0 <= k <= d.len(),
    ensures
        digits_value(d.take(k)) <= digits_value(d),
    decreases d.len(),
{
    if k < d.len() {
        let e = d.drop_last();
        assert(all_digits(e)) by {
            assert forall|i: int| 0 <= i < e.len() implies is_digit(#[trigger] e[i]) by {
                assert(e[i] == d[i]);
            }
        }
        lemma_digits_value_prefix(e, k);
        assert(e.take(k) =~= d.take(k));
        lemma_digits_value_nonneg(e);
        assert(is_digit(d[d.len() - 1]));
    } else {
        assert(d.take(k) =~= d);
    }
}

/// The `i32` that a number token spells.
fn token_to_i32(cs: &Vec<char>, from: usize, to: usize) -> (r: Result<i32, IntErrorKind>)
    requires
        from <= to <= cs.len(),
        forall|k: int| from <= k < to ==> numeric_char(k == from, #[trigger] cs@[k]),
    ensures
        r == token_value(cs@.subrange(from as int, to as int)),
{
    let ghost t = cs@.subrange(from as int, to as int);
    if from == to {
        return Err(IntErrorKind::Empty);
    }
    let neg = cs[from] == '-';
    let start = if neg { from + 1 } else { from };
    let ghost d = cs@.subrange(start as int, to as int);
    assert(all_digits(d)) by {
        assert forall|i: int| 0 <= i < d.len() implies is_digit(#[trigger] d[i]) by {
            assert(d[i] == cs@[start + i]);
            assert(numeric_char(start + i == from, cs@[start + i]));
        }
    }
    if neg {
        assert(t.drop_first() =~= d);
    } else {
        assert(t =~= d);
    }
    if start == to {
        return Err(IntErrorKind::InvalidDigit);
    }
    let mut acc: u64 = 0;
    let mut i = start;
    while i < to
        invariant
            start <= i <= to <= cs.len(),
            d == cs@.subrange(start as int, to as int),
            all_digits(d),
            acc == digits_value(cs@.subrange(start as int, i as int)),
            acc <= 0x8000_0000,
            t == cs@.subrange(from as int, to as int),
            t.len() > 0,
            (t[0] == '-') == neg,
            neg ==> t.drop_first() == d,
            !neg ==> t == d,
            d.len() > 0,
        decreases to - i,
    {
        assert(is_digit(d[i - start]));
        assert(d[i - start] == cs@[i as int]);
        let digit = (cs[i] as u32 - '0' as u32) as u64;
        let next = acc * 10 + digit;
        proof {
            let p = cs@.subrange(start as int, i + 1);
            assert(p.drop_last() =~= cs@.subrange(start as int, i as int));
            assert(p =~= d.take(i + 1 - start));
            assert(digits_value(p) == next);
            lemma_digits_value_prefix(d, i + 1 - start);
        }
        if next > 0x8000_0000 {
            if neg {
                return Err(IntErrorKind::NegOverflow);
            } else {
                return Err(IntErrorKind::PosOverflow);
            }
        }
        acc = next;
        i = i + 1;
    }
    assert(cs@.subrange(start as int, to as int) =~= d);
    if neg {
        if acc == 0x8000_0000 {
            Ok(i32::MIN)
        } else {
            Ok(-(acc as i32))
        }
    } else if acc > 0x7fff_ffff {
        Err(IntErrorKind::PosOverflow)
    } else {
        Ok(acc as i32)
    }
}

/// What reading at a position gives, with the position after the
/// s-expression turned into the text that is left.
spec fn at_view(cs: Seq<char>, r: Result<(SExp, usize), ReadError>) -> ReadResult {
    match r {
        Ok((x, p)) => Ok((x@, cs.skip(p as int))),
        Err(e) => Err(e@),
    }
}

fn read_boolean_at(src: &Source, pos: usize) -> (r: Result<(SExp, usize), ReadError>)
    requires
        src.wf(),
        pos <= src.chars.len(),
    ensures
        at_view(src.chars@, r) == spec_read_boolean(src.at(pos as int)),
        r matches Ok((_, p)) ==> pos < p <= src.chars.len(),
{
    let ghost s = src.at(pos as int);
    let cs = &src.chars;
    if starts_with_at(cs, pos, &['#', 't', 'r', 'u', 'e']) {
        assert(cs@.skip(pos + 5) =~= s.skip(5));
        Ok((SExp::Boolean(true), pos + 5))
    } else if starts_with_at(cs, pos, &['#', 't']) {
        assert(cs@.skip(pos + 2) =~= s.skip(2));
        Ok((SExp::Boolean(true), pos + 2))
    } else if starts_with_at(cs, pos, &['#', 'f', 'a', 'l', 's', 'e']) {
        assert(cs@.skip(pos + 6) =~= s.skip(6));
        Ok((SExp::Boolean(false), pos + 6))
    } else if starts_with_at(cs, pos, &['#', 'f']) {
        assert(cs@.skip(pos + 2) =~= s.skip(2));
        Ok((SExp::Boolean(false), pos + 2))
    } else {
        Err(ReadError::ExpectedBoolean(src.slice(pos, cs.len())))
    }
}

fn read_number_at(src: &Source, pos: usize) -> (r: Result<(SExp, usize), ReadError>)
    requires
        src.wf(),
        pos <= src.chars.len(),
    ensures
        at_view(src.chars@, r) == spec_read_number(src.at(pos as int)),
        r matches Ok((_, p)) ==> pos < p <= src.chars.len(),
{
    let ghost s = src.at(pos as int);
    let cs = &src.chars;
    let end = scan_token(cs, pos, true);
    assert(s.take(end - pos) =~= cs@.subrange(pos as int, end as int));
    assert(s.skip(end - pos) =~= cs@.skip(end as int));
    if end == pos && pos < cs.len() {
        return Err(ReadError::ExpectedNumber(src.slice(pos, cs.len())));
    }
    match token_to_i32(cs, pos, end) {
        Ok(n) => Ok((SExp::Number(n), end)),
        Err(k) => Err(ReadError::InvalidNumber(k)),
    }
}

fn read_symbol_at(src: &Source, pos: usize) -> (r: Result<(SExp, usize), ReadError>)
    requires
        src.wf(),
        pos <= src.chars.len(),
    ensures
        at_view(src.chars@, r) == spec_read_symbol(src.at(pos as int)),
        r matches Ok((_, p)) ==> pos <= p <= src.chars.len() && (pos < src.chars.len() ==> pos
            < p),
{
    let ghost s = src.at(pos as int);
    let cs = &src.chars;
    let end = scan_token(cs, pos, false);
    assert(s.take(end - pos) =~= cs@.subrange(pos as int, end as int));
    assert(s.skip(end - pos) =~= cs@.skip(end as int));
    if end == pos && pos < cs.len() {
        return Err(ReadError::ExpectedSymbol(src.slice(pos, cs.len())));
    }
    Ok((SExp::Symbol(src.slice(pos, end)), end))
}

/// The models of a sequence of s-expressions.
pub open spec fn sexps_model(v: Seq<SExp>) -> Seq<SExpModel> {
    Seq::new(v.len(), |i: int| v[i]@)
}

fn read_sexp_at(src: &Source, pos: usize) -> (r: Result<(SExp, usize), ReadError>)
    requires
        src.wf(),
        pos <= src.chars.len(),
    ensures
        at_view(src.chars@, r) == spec_read_sexp(src.at(pos as int)),
        r matches Ok((_, p)) ==> pos < p <= src.chars.len(),
    decreases src.chars.len() - pos, 2int,
{
    let ghost s = src.at(pos as int);
    let cs = &src.chars;
    let t = skip_whitespace(cs, pos);
    let ghost ts = cs@.skip(t as int);
    assert(ts == trim_start(s));
    if t == cs.len() {
        return Err(ReadError::EmptyInput);
    }
    assert(ts[0] == cs@[t as int]);
    let c = cs[t];
    if char_is_digit(c) {
        read_number_at(src, t)
    } else if c == '-' {
        if t + 1 < cs.len() && char_is_digit(cs[t + 1]) {
            assert(ts[1] == cs@[t + 1]);
            read_number_at(src, t)
        } else {
            assert(ts.len() > 1 ==> ts[1] == cs@[t + 1]);
            read_symbol_at(src, t)
        }
    } else if c == '#' {
        read_boolean_at(src, t)
    } else if c == '{' {
        read_list_at(src, t)
    } else if is_symbol_char(&(0, c)) {
        read_symbol_at(src, t)
    } else {
        Err(ReadError::Unrecognized(src.slice(t, cs.len())))
    }
}

fn read_list_at(src: &Source, pos: usize) -> (r: Result<(SExp, usize), ReadError>)
    requires
        src.wf(),
        pos <= src.chars.len(),
    ensures
        at_view(src.chars@, r) == spec_read_list(src.at(pos as int)),
        r matches Ok((_, p)) ==> pos < p <= src.chars.len(),
    decreases src.chars.len() - pos, 1int,
{
    let ghost s = src.at(pos as int);
    let cs = &src.chars;
    if pos >= cs.len() || cs[pos] != '{' {
        return Err(ReadError::MissingBrace);
    }
    assert(s[0] == cs@[pos as int]);
    assert(s.drop_first() =~= cs@.skip(pos + 1));
    let mut items: Vec<SExp> = Vec::new();
    let mut cur = pos + 1;
    assert(sexps_model(items@) =~= seq![]);
    loop
        invariant
            src.wf(),
            cs == &src.chars,
            pos < cur <= cs.len(),
            s == src.at(pos as int),
            spec_read_list(s) == spec_read_items(cs@.skip(cur as int), sexps_model(items@)),
        decreases cs.len() - cur,
    {
        let t = skip_whitespace(cs, cur);
        let ghost ts = cs@.skip(t as int);
        if t == cs.len() {
            return Err(ReadError::UnterminatedList);
        }
        assert(ts[0] == cs@[t as int]);
        if cs[t] == '}' {
            assert(ts.drop_first() =~= cs@.skip(t + 1));
            assert(SExp::List(items)@ == SExpModel::List(sexps_model(items@))) by {
                assert(SExp::List(items)@->List_0 =~= sexps_model(items@));
            }
            return Ok((SExp::List(items), t + 1));
        }
        match read_sexp_at(src, t) {
            Err(e) => {
                return Err(e);
            },
            Ok((x, p)) => {
                let ghost before = items@;
                items.push(x);
                assert(sexps_model(items@) =~= sexps_model(before).push(x@));
                cur = p;
            },
        }
    }
}

/// Reads one s-expression from the start of `s`, after skipping white space,
/// and gives it with the text after it.
pub fn read_sexp<'a>(s: &'a str) -> (r: Result<(SExp, &'a str), ReadError>)
    ensures
        read_view(r) == spec_read_sexp(s@),
{
    let src = Source::new(s);
    assert(src.at(0) =~= s@);
    match read_sexp_at(&src, 0) {
        Ok((x, p)) => Ok((x, src.suffix(p))),
        Err(e) => Err(e),
    }
}

/// Reads a boolean at the very start of `s` (white space first is an error).
pub fn read_boolean<'a>(s: &'a str) -> (r: Result<(SExp, &'a str), ReadError>)
    ensures
        read_view(r) == spec_read_boolean(s@),
{
    let src = Source::new(s);
    assert(src.at(0) =~= s@);
    match read_boolean_at(&src, 0) {
        Ok((x, p)) => Ok((x, src.suffix(p))),
        Err(e) => Err(e),
    }
}

/// Reads a number at the very start of `s` (white space first is an error).
pub fn read_number<'a>(s: &'a str) -> (r: Result<(SExp, &'a str), ReadError>)
    ensures
        read_view(r) == spec_read_number(s@),
{
    let src = Source::new(s);
    assert(src.at(0) =~= s@);
    match read_number_at(&src, 0) {
        Ok((x, p)) => Ok((x, src.suffix(p))),
        Err(e) => Err(e),
    }
}

/// Reads a symbol at the very start of `s` (white space first is an error).
pub fn read_symbol<'a>(s: &'a str) -> (r: Result<(SExp, &'a str), ReadError>)
    ensures
        read_view(r) == spec_read_symbol(s@),
{
    let src = Source::new(s);
    assert(src.at(0) =~= s@);
    match read_symbol_at(&src, 0) {
        Ok((x, p)) => Ok((x, src.suffix(p))),
        Err(e) => Err(e),
    }
}

/// Reads a list at the very start of `s` (white space first is an error).
pub fn read_list<'a>(s: &'a str) -> (r: Result<(SExp, &'a str), ReadError>)
    ensures
        read_view(r) == spec_read_list(s@),
{
    let src = Source::new(s);
    assert(src.at(0) =~= s@);
    match read_list_at(&src, 0) {
        Ok((x, p)) => Ok((x, src.suffix(p))),
        Err(e) => Err(e),
    }
}

impl SExp {
    /// A copy of this s-expression.
    pub fn duplicate(&self) -> (r: SExp)
        ensures
            r@ == self@,
        decreases self,
    {
        match self {
            SExp::Number(n) => SExp::Number(*n),
            SExp::Boolean(b) => SExp::Boolean(*b),
            SExp::Symbol(x) => SExp::Symbol(x.clone()),
            SExp::List(v) => {
                let mut out: Vec<SExp> = Vec::new();
                for i in 0..v.len()
                    invariant
                        out@.len() == i,
                        forall|j: int| 0 <= j < i ==> (#[trigger] out@[j])@ == v@[j]@,
                        *self is List,
                        (*self)->List_0 == *v,
                {
                    proof {
                        assert(*v == (*self)->List_0);
                        assert(decreases_to!(*self => (*self)->List_0));
                        assert(decreases_to!(*v => v@));
                        assert(decreases_to!(v@ => v@[i as int]));
                    }
                    out.push(v[i].duplicate());
                }
                assert(SExp::List(out)@->List_0 =~= self@->List_0);
                SExp::List(out)
            },
        }
    }
}

proof fn lemma_token_end_bounds(s: Seq<char>, i: int, numeric: bool)
    requires
        0 <= i <= s.len(),
    ensures
        i <= token_end(s, i, numeric) <= s.len(),
    decreases s.len() - i,
{
    if i < s.len() && token_char(numeric, i == 0, s[i]) {
        lemma_token_end_bounds(s, i + 1, numeric);
    }
}

/// A suffix of `s`, strictly shorter than it.
pub open spec fn proper_suffix(rest: Seq<char>, s: Seq<char>) -> bool {
    rest.len() < s.len() && rest == s.skip(s.len() - rest.len())
}

proof fn lemma_suffix_trans(a: Seq<char>, b: Seq<char>, c: Seq<char>)
    requires
        a.len() <= b.len() <= c.len(),
        a == b.skip(b.len() - a.len()),
        b == c.skip(c.len() - b.len()),
    ensures
        a == c.skip(c.len() - a.len()),
{
    assert(a =~= c.skip(c.len() - a.len()));
}

/// Reading a number, a symbol or a boolean from non-empty text consumes
/// at least one character and leaves the rest of the text.
proof fn lemma_read_token_consumes(s: Seq<char>)
    requires
        s.len() > 0,
    ensures
        spec_read_number(s) matches Ok((_, rest)) ==> proper_suffix(rest, s),
        spec_read_symbol(s) matches Ok((_, rest)) ==> proper_suffix(rest, s),
        spec_read_boolean(s) matches Ok((_, rest)) ==> proper_suffix(rest, s),
{
    lemma_token_end_bounds(s, 0, true);
    lemma_token_end_bounds(s, 0, false);
}

/// Reading an s-expression that succeeds consumes at least one character and
/// gives back the rest of the text.
pub proof fn lemma_read_sexp_consumes(s: Seq<char>)
    ensures
        spec_read_sexp(s) matches Ok((_, rest)) ==> proper_suffix(rest, s),
    decreases s.len(), 0int,
{
    let t = trim_start(s);
    lemma_trim_start(s);
    if t.len() > 0 {
        lemma_read_token_consumes(t);
        if let Ok((_, rest)) = spec_read_sexp(s) {
            if t[0] == '{' && !is_digit(t[0]) {
                lemma_read_items_consumes(t.drop_first(), seq![]);
                lemma_suffix_trans(rest, t.drop_first(), t);
            }
            lemma_suffix_trans(rest, t, s);
        }
    }
}

/// Reading the rest of a list that succeeds gives back a suffix of the text.
pub proof fn lemma_read_items_consumes(s: Seq<char>, items: Seq<SExpModel>)
    ensures
        spec_read_items(s, items) matches Ok((_, rest)) ==> proper_suffix(rest, s),
    decreases s.len(), 1int,
{
    let t = trim_start(s);
    lemma_trim_start(s);
    if t.len() > 0 && t[0] != '}' {
        lemma_read_sexp_consumes(t);
        if let Ok((x, r)) = spec_read_sexp(t) {
            if r.len() < t.len() {
                lemma_read_items_consumes(r, items.push(x));
                if let Ok((_, rest)) = spec_read_items(s, items) {
                    lemma_suffix_trans(rest, r, t);
                    lemma_suffix_trans(rest, t, s);
                }
            }
        }
    } else if t.len() > 0 {
        if let Ok((_, rest)) = spec_read_items(s, items) {
            lemma_suffix_trans(rest, t, s);
        }
    }
}

/// White space before an s-expression makes no difference to reading it.
pub proof fn lemma_read_sexp_skips_whitespace(s: Seq<char>)
    ensures
        spec_read_sexp(s) == spec_read_sexp(trim_start(s)),
{
    lemma_trim_start_idempotent(s);
}

/// Reading a boolean, a number, a symbol or a list directly fails on text
/// that starts with white space.
pub proof fn lemma_leading_whitespace_fails(s: Seq<char>)
    requires
        s.len() > 0,
        is_whitespace(s[0]),
    ensures
        spec_read_boolean(s) is Err,
        spec_read_number(s) is Err,
        spec_read_symbol(s) is Err,
        spec_read_list(s) is Err,
{
    if s.len() >= 2 {
        assert(s.take(2)[0] == s[0]);
    }
    if s.len() >= 5 {
        assert(s.take(5)[0] == s[0]);
    }
    if s.len() >= 6 {
        assert(s.take(6)[0] == s[0]);
    }
}

/// On text that starts with something other than white space, reading an
/// s-expression reads what the first character announces: a number for a
/// digit, a boolean for `#`, a list for `{`, a symbol for a letter.
pub proof fn lemma_read_sexp_dispatch(s: Seq<char>)
    requires
        s.len() > 0,
        !is_whitespace(s[0]),
    ensures
        is_digit(s[0]) ==> spec_read_sexp(s) == spec_read_number(s),
        s[0] == '#' ==> spec_read_sexp(s) == spec_read_boolean(s),
        s[0] == '{' ==> spec_read_sexp(s) == spec_read_list(s),
        is_alphabetic(s[0]) ==> spec_read_sexp(s) == spec_read_symbol(s),
{
}

proof fn lemma_nat_decimal(m: nat)
    ensures
        nat_decimal(m).len() >= 1,
        all_digits(nat_decimal(m)),
        digits_value(nat_decimal(m)) == m,
    decreases m,
{
    let d = nat_decimal(m);
    if m < 10 {
        assert(d.drop_last() =~= Seq::<char>::empty());
        assert(digits_value(d.drop_last()) == 0);
    } else {
        lemma_nat_decimal(m / 10);
        let p = nat_decimal(m / 10);
        assert(d.drop_last() =~= p);
        assert(all_digits(d)) by {
            assert forall|i: int| 0 <= i < d.len() implies is_digit(#[trigger] d[i]) by {
                if i < p.len() {
                    assert(d[i] == p[i]);
                }
            }
        }
        assert(m == (m / 10) * 10 + m % 10);
    }
}

proof fn lemma_token_end_covers(s: Seq<char>, i: int)
    requires
        0 <= i <= s.len(),
        forall|k: int| i <= k < s.len() ==> numeric_char(k == 0, #[trigger] s[k]),
    ensures
        token_end(s, i, true) == s.len(),
    decreases s.len() - i,
{
    if i < s.len() {
        lemma_token_end_covers(s, i + 1);
    }
}

/// Numbers are read back from the form in which they are shown: reading the
/// decimal form of any `i32` gives that number, with nothing left over.
pub proof fn lemma_read_decimal_roundtrip(n: i32)
    ensures
        spec_read_sexp(int_decimal(n as int)) == Ok::<(SExpModel, Seq<char>), ReadErrorModel>(
            (SExpModel::Number(n), Seq::empty()),
        ),
{
    let t = int_decimal(n as int);
    let m: nat = if n < 0 {
        (-n) as nat
    } else {
        n as nat
    };
    lemma_nat_decimal(m);
    let d = nat_decimal(m);
    if n < 0 {
        assert(t.drop_first() =~= d);
        assert(t[0] == '-');
        assert(t[1] == d[0]);
    } else {
        assert(t =~= d);
    }
    assert(forall|k: int| 0 <= k < t.len() ==> numeric_char(k == 0, #[trigger] t[k])) by {
        assert forall|k: int| 0 <= k < t.len() implies numeric_char(k == 0, #[trigger] t[k]) by {
            if n < 0 {
                if k > 0 {
                    assert(t[k] == d[k - 1]);
                }
            } else {
                assert(t[k] == d[k]);
            }
        }
    }
    lemma_token_end_covers(t, 0);
    assert(t.take(t.len() as int) =~= t);
    assert(t.skip(t.len() as int) =~= Seq::<char>::empty());
    assert(!is_whitespace(t[0]));
    assert(trim_start(t) == t);
}

} // verus!
