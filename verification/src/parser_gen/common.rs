//! Parsers on text and the combinators that join them: the `Parser` trait,
//! primitive parsers for literals, identifiers, single characters, whitespace
//! and quoted strings, and `pair`, `left`, `right`, `either`, `one_of`,
//! `optional`, `zero_or_more`, `one_or_more`, `pred`, `map` and `and_then`.
//! Each parser reads from the start of its input and gives what is left after
//! what it read, or fails with the input it could not read.
use vstd::prelude::*;
use std::marker::PhantomData;
use crate::cdl_lexer::{has_boundary, char_index, lemma_char_index};
use crate::text::{
    spec_is_alphabetic, spec_is_alphanumeric, spec_is_whitespace, is_alphabetic, is_alphanumeric,
    is_whitespace, utf8_len, span_len, char_width, char_len_utf8, chars_of, string_push,
    lemma_span_len_bound, lemma_span_len_unique, lemma_utf8_len_push,
};

verus! {

/// What a parser gives: what is left of the input with the value read, or
/// the input that it could not read.
pub type ParseResult<'a, Output> = Result<(&'a str, Output), &'a str>;

/// The characters that follow the first of an identifier.
pub open spec fn ident_tail(c: char) -> bool {
    spec_is_alphanumeric(c) || c == '-'
}

/// The number of characters of the identifier at index `i` of `s`: an
/// alphabetic character and the alphanumeric characters and dashes after
/// it; `0` where there is none.
pub open spec fn ident_len(s: Seq<char>, i: nat) -> nat {
    if i < s.len() && spec_is_alphabetic(s[i as int]) {
        1 + span_len(s.skip((i + 1) as int), |c: char| ident_tail(c))
    } else {
        0
    }
}

/// The number of whitespace characters at index `i` of `s`.
pub open spec fn ws_len(s: Seq<char>, i: nat) -> nat {
    span_len(s.skip(i as int), |c: char| spec_is_whitespace(c))
}

/// `s` holds `lit` at index `i`.
pub open spec fn lit_at(s: Seq<char>, i: nat, lit: Seq<char>) -> bool {
    i + lit.len() <= s.len() && s.subrange(i as int, (i + lit.len()) as int) == lit
}

/// The number of characters of the quoted string at index `i` of `s`,
/// quotes included: a `"`, characters other than `"`, and a closing `"`.
pub open spec fn quoted_len(s: Seq<char>, i: nat) -> Option<nat> {
    let n = span_len(s.skip((i + 1) as int), |c: char| c != '"');
    if i < s.len() && s[i as int] == '"' && i + 1 + n < s.len() {
        Some(n + 2)
    } else {
        None
    }
}

/// Calls `str::get(bytes..)`: the part of `s` after its first `bytes`
/// bytes. Where the first `k` characters take `bytes` bytes, that part
/// holds the characters of `s` from index `k` on; `get` gives `None` only
/// off a character boundary, which the requirement rules out.
#[verifier::external_body]
pub(crate) fn str_from<'a>(s: &'a str, bytes: usize) -> (r: &'a str)
    requires
        has_boundary(s@, bytes as nat),
    ensures
        r@ == s@.skip(char_index(s@, bytes as nat)),
{
    s.get(bytes..).unwrap()
}

/// The byte length of the first `k` characters of `chars`.
pub fn byte_offset(chars: &Vec<char>, k: usize) -> (n: usize)
    requires
        k <= chars@.len(),
        utf8_len(chars@) <= usize::MAX,
    ensures
        n == utf8_len(chars@.take(k as int)),
{
    let mut n: usize = 0;
    let mut i: usize = 0;
    while i < k
        invariant
            i <= k <= chars@.len(),
            utf8_len(chars@) <= usize::MAX,
            n == utf8_len(chars@.take(i as int)),
        decreases k - i,
    {
        proof {
            lemma_utf8_len_push(chars@.take(i as int), chars@[i as int]);
            assert(chars@.take(i + 1) =~= chars@.take(i as int).push(chars@[i as int]));
            if i + 1 < chars@.len() {
                crate::text::lemma_utf8_len_take_mono(chars@, i + 1, chars@.len() as int);
            } else {
                assert(chars@.take(i + 1) =~= chars@);
            }
            assert(chars@.take(chars@.len() as int) =~= chars@);
        }
        n = n + char_len_utf8(chars[i]);
        i = i + 1;
    }
    n
}

/// The part of `input` (whose characters are `chars`) from character
/// index `k` on.
pub fn rest_at<'a>(input: &'a str, chars: &Vec<char>, k: usize) -> (r: &'a str)
    requires
        chars@ == input@,
        k <= chars@.len(),
        utf8_len(chars@) <= usize::MAX,
    ensures
        r@ == input@.skip(k as int),
{
    let n = byte_offset(chars, k);
    proof {
        lemma_char_index(input@, n as nat, k as int);
    }
    str_from(input, n)
}

/// The number of characters at index `pos` that are whitespace (`kind`
/// `0`) or may follow the first of an identifier (`kind` `1`).
pub fn run_at(chars: &Vec<char>, pos: usize, kind: u8) -> (n: usize)
    requires
        pos <= chars@.len(),
    ensures
        kind == 0 ==> n == ws_len(chars@, pos as nat),
        kind != 0 ==> n == span_len(chars@.skip(pos as int), |c: char| ident_tail(c)),
        pos + n <= chars@.len(),
{
    let ghost s = chars@.skip(pos as int);
    let ghost p = if kind == 0 {
        |c: char| spec_is_whitespace(c)
    } else {
        |c: char| ident_tail(c)
    };
    let mut i = pos;
    while i < chars.len()
        invariant
            pos <= i <= chars@.len(),
            s == chars@.skip(pos as int),
            p == (if kind == 0 {
                |c: char| spec_is_whitespace(c)
            } else {
                |c: char| ident_tail(c)
            }),
            forall|j: int| 0 <= j < i - pos ==> #[trigger] p(s[j]),
        ensures
            pos <= i <= chars@.len(),
            forall|j: int| 0 <= j < i - pos ==> #[trigger] p(s[j]),
            i < chars@.len() ==> !p(s[i - pos]),
        decreases chars@.len() - i,
    {
        let c = chars[i];
        let ok = if kind == 0 {
            is_whitespace(c)
        } else {
            is_alphanumeric(c) || c == '-'
        };
        if !ok {
            break;
        }
        i = i + 1;
    }
    proof {
        lemma_span_len_unique(s, p, i - pos);
    }
    i - pos
}

/// Whether `chars` holds the characters `lit` at index `pos`.
pub fn lit_at_exec(chars: &Vec<char>, pos: usize, lit: &Vec<char>) -> (r: bool)
    requires
        pos <= chars@.len(),
    ensures
        r == lit_at(chars@, pos as nat, lit@),
{
    if lit.len() > chars.len() - pos {
        return false;
    }
    let n = chars.len();
    let mut i: usize = 0;
    while i < lit.len()
        invariant
            i <= lit@.len(),
            n == chars@.len(),
            pos + lit@.len() <= chars@.len(),
            forall|j: int| 0 <= j < i ==> chars@[pos + j] == #[trigger] lit@[j],
        decreases lit@.len() - i,
    {
        if chars[pos + i] != lit[i] {
            proof {
                assert(chars@.subrange(pos as int, pos + lit@.len())[i as int] != lit@[i as int]);
            }
            return false;
        }
        i = i + 1;
    }
    proof {
        assert(chars@.subrange(pos as int, pos + lit@.len()) =~= lit@);
    }
    true
}

/// The identifier at index `pos`, with its number of characters; `None`
/// where there is none.
pub fn identifier_at(chars: &Vec<char>, pos: usize) -> (r: Option<(usize, String)>)
    requires
        pos <= chars@.len(),
    ensures
        match r {
            Some((n, id)) => n == ident_len(chars@, pos as nat) && n > 0 && pos + n <= chars@.len()
                && id@ == chars@.subrange(pos as int, pos + n),
            None => ident_len(chars@, pos as nat) == 0,
        },
{
    if pos >= chars.len() || !is_alphabetic(chars[pos]) {
        return None;
    }
    let tail = run_at(chars, pos + 1, 1);
    let n = tail + 1;
    let len = chars.len();
    let mut id = String::new();
    let mut i: usize = 0;
    while i < n
        invariant
            i <= n,
            n == tail + 1,
            len == chars@.len(),
            pos + n <= chars@.len(),
            id@ == chars@.subrange(pos as int, pos + i),
        decreases n - i,
    {
        string_push(&mut id, chars[pos + i]);
        proof {
            assert(chars@.subrange(pos as int, pos + i + 1) =~= chars@.subrange(pos as int, pos + i).push(
                chars@[pos + i],
            ));
        }
        i = i + 1;
    }
    Some((n, id))
}

/// The quoted string at index `pos` (its characters between the quotes),
/// with the number of characters read, quotes included.
pub fn quoted_at(chars: &Vec<char>, pos: usize) -> (r: Option<(usize, String)>)
    requires
        pos <= chars@.len(),
    ensures
        match r {
            Some((n, s)) => quoted_len(chars@, pos as nat) == Some(n as nat) && pos + n <= chars@.len()
                && s@ == chars@.subrange(pos + 1, pos + n - 1),
            None => quoted_len(chars@, pos as nat) is None,
        },
{
    if pos >= chars.len() || chars[pos] != '"' {
        return None;
    }
    let ghost s = chars@.skip(pos + 1);
    let mut text = String::new();
    let mut i = pos + 1;
    while i < chars.len()
        invariant
            pos + 1 <= i <= chars@.len(),
            s == chars@.skip(pos + 1),
            text@ == chars@.subrange(pos + 1, i as int),
            forall|j: int| 0 <= j < i - pos - 1 ==> #[trigger] s[j] != '"',
        ensures
            pos + 1 <= i <= chars@.len(),
            text@ == chars@.subrange(pos + 1, i as int),
            forall|j: int| 0 <= j < i - pos - 1 ==> #[trigger] s[j] != '"',
            i < chars@.len() ==> s[i - pos - 1] == '"',
        decreases chars@.len() - i,
    {
        let c = chars[i];
        if c == '"' {
            break;
        }
        string_push(&mut text, c);
        proof {
            assert(chars@.subrange(pos + 1, i + 1) =~= chars@.subrange(pos + 1, i as int).push(c));
        }
        i = i + 1;
    }
    proof {
        lemma_span_len_unique(s, |c: char| c != '"', i - pos - 1);
    }
    if i >= chars.len() {
        return None;
    }
    Some((i - pos + 1, text))
}

/// The value of a parser's result: what is left with the value read, or
/// the input where it failed.
pub open spec fn result_view<'a, O: DeepView>(r: ParseResult<'a, O>) -> Result<(Seq<char>, O::V), Seq<char>> {
    match r {
        Ok((rest, o)) => Ok((rest@, o.deep_view())),
        Err(e) => Err(e@),
    }
}

/// A parser: it reads from the start of its input and gives what is left
/// with the value read, or fails with the input where it stopped.
pub trait Parser<Output: DeepView> {
    /// What the parser is built from can run, and gives one result for each
    /// input.
    spec fn ready(&self) -> bool;

    /// What the parser gives on `input`.
    spec fn outcome(&self, input: Seq<char>) -> Result<(Seq<char>, Output::V), Seq<char>>;

    fn parse<'a>(&self, input: &'a str) -> (r: ParseResult<'a, Output>)
        requires
            self.ready(),
        ensures
            result_view(r) == self.outcome(input@),
    ;

    /// This parser with its value passed through `map_fn` (see `map`).
    fn map<F>(self, map_fn: F) -> (p: MapParser<Self, F, Output>) where Self: Sized
        ensures
            p.parser == self,
            p.map_fn == map_fn,
    {
        MapParser { parser: self, map_fn, input_type: PhantomData }
    }

    /// This parser where its value passes `pred_fn` (see `pred`).
    fn pred<F>(self, pred_fn: F) -> (p: Pred<Self, F>) where Self: Sized
        ensures
            p.parser == self,
            p.predicate == pred_fn,
    {
        Pred { parser: self, predicate: pred_fn }
    }

    /// This parser, then the parser `f` makes of its value (see `and_then`).
    fn and_then<F, N>(self, f: F) -> (p: AndThen<Self, F, Output, N>) where Self: Sized
        ensures
            p.parser == self,
            p.f == f,
    {
        AndThen { parser: self, f, types: PhantomData }
    }
}

/// What reading `lit` from the start of `input` gives.
pub open spec fn literal_result(lit: Seq<char>, input: Seq<char>) -> Result<(Seq<char>, ()), Seq<char>> {
    if lit_at(input, 0, lit) {
        Ok((input.skip(lit.len() as int), ()))
    } else {
        Err(input)
    }
}

/// What reading an identifier from the start of `input` gives: an
/// alphabetic character, then alphanumeric characters and dashes.
pub open spec fn identifier_result(input: Seq<char>) -> Result<(Seq<char>, Seq<char>), Seq<char>> {
    let n = ident_len(input, 0);
    if n > 0 {
        Ok((input.skip(n as int), input.take(n as int)))
    } else {
        Err(input)
    }
}

/// What reading one character from the start of `input` gives.
pub open spec fn any_char_result(input: Seq<char>) -> Result<(Seq<char>, char), Seq<char>> {
    if input.len() > 0 {
        Ok((input.skip(1), input[0]))
    } else {
        Err(input)
    }
}

/// What reading one whitespace character from the start of `input` gives.
pub open spec fn whitespace_char_result(input: Seq<char>) -> Result<(Seq<char>, char), Seq<char>> {
    if input.len() > 0 && spec_is_whitespace(input[0]) {
        Ok((input.skip(1), input[0]))
    } else {
        Err(input)
    }
}

/// What reading the whitespace at the start of `input` gives, at least
/// `min` characters of it.
pub open spec fn space_result(input: Seq<char>, min: nat) -> Result<(Seq<char>, Seq<char>), Seq<char>> {
    let n = ws_len(input, 0);
    if n >= min {
        Ok((input.skip(n as int), input.take(n as int)))
    } else {
        Err(input)
    }
}

/// What reading a quoted string from the start of `input` gives: the
/// characters between the quotes; where the closing quote is missing, it
/// fails at the end of the input.
pub open spec fn quoted_result(input: Seq<char>) -> Result<(Seq<char>, Seq<char>), Seq<char>> {
    match quoted_len(input, 0) {
        Some(n) => Ok((input.skip(n as int), input.subrange(1, n - 1))),
        None => if input.len() > 0 && input[0] == '"' {
            Err(Seq::empty())
        } else {
            Err(input)
        },
    }
}

/// Reads a fixed text.
pub struct MatchLiteral {
    pub expected: &'static str,
}

/// The parser that reads `expected`.
pub fn match_literal(expected: &'static str) -> (p: MatchLiteral)
    ensures
        p.expected@ == expected@,
{
    MatchLiteral { expected }
}

impl Parser<()> for MatchLiteral {
    open spec fn ready(&self) -> bool {
        true
    }

    open spec fn outcome(&self, input: Seq<char>) -> Result<(Seq<char>, ()), Seq<char>> {
        literal_result(self.expected@, input)
    }

    fn parse<'a>(&self, input: &'a str) -> (r: ParseResult<'a, ()>) {
        let (chars, _n) = chars_of(input);
        let (lit, _m) = chars_of(self.expected);
        if lit_at_exec(&chars, 0, &lit) {
            Ok((rest_at(input, &chars, lit.len()), ()))
        } else {
            Err(input)
        }
    }
}

/// Reads an identifier from the start of `input`: an alphabetic character,
/// then alphanumeric characters and dashes.
pub fn identifier<'a>(input: &'a str) -> (r: ParseResult<'a, String>)
    ensures
        result_view(r) == identifier_result(input@),
{
    let (chars, _n) = chars_of(input);
    match identifier_at(&chars, 0) {
        Some((k, id)) => Ok((rest_at(input, &chars, k), id)),
        None => Err(input),
    }
}

/// `identifier` as a parser value.
pub struct Identifier;

impl Parser<String> for Identifier {
    open spec fn ready(&self) -> bool {
        true
    }

    open spec fn outcome(&self, input: Seq<char>) -> Result<(Seq<char>, Seq<char>), Seq<char>> {
        identifier_result(input)
    }

    fn parse<'a>(&self, input: &'a str) -> (r: ParseResult<'a, String>) {
        identifier(input)
    }
}

/// Reads one character.
pub fn any_char<'a>(input: &'a str) -> (r: ParseResult<'a, char>)
    ensures
        result_view(r) == any_char_result(input@),
{
    let (chars, _n) = chars_of(input);
    if chars.len() > 0 {
        Ok((rest_at(input, &chars, 1), chars[0]))
    } else {
        Err(input)
    }
}

/// `any_char` as a parser value.
pub struct AnyChar;

impl Parser<char> for AnyChar {
    open spec fn ready(&self) -> bool {
        true
    }

    open spec fn outcome(&self, input: Seq<char>) -> Result<(Seq<char>, char), Seq<char>> {
        any_char_result(input)
    }

    fn parse<'a>(&self, input: &'a str) -> (r: ParseResult<'a, char>) {
        any_char(input)
    }
}

/// Reads one whitespace character.
pub struct WhitespaceChar;

/// The parser that reads one whitespace character.
pub fn whitespace_char() -> WhitespaceChar {
    WhitespaceChar
}

impl Parser<char> for WhitespaceChar {
    open spec fn ready(&self) -> bool {
        true
    }

    open spec fn outcome(&self, input: Seq<char>) -> Result<(Seq<char>, char), Seq<char>> {
        whitespace_char_result(input)
    }

    fn parse<'a>(&self, input: &'a str) -> (r: ParseResult<'a, char>) {
        match any_char(input) {
            Ok((rest, c)) => {
                if is_whitespace(c) {
                    Ok((rest, c))
                } else {
                    Err(input)
                }
            },
            Err(e) => Err(e),
        }
    }
}

/// Reads the whitespace at the start of the input, at least `min`
/// characters of it (`min` is `0` or `1`).
pub struct Space {
    pub min: usize,
}

/// The parser that reads any whitespace, none included.
pub fn space0() -> (p: Space)
    ensures
        p.min == 0,
{
    Space { min: 0 }
}

/// The parser that reads whitespace, at least one character.
pub fn space1() -> (p: Space)
    ensures
        p.min == 1,
{
    Space { min: 1 }
}

impl Parser<Vec<char>> for Space {
    open spec fn ready(&self) -> bool {
        true
    }

    open spec fn outcome(&self, input: Seq<char>) -> Result<(Seq<char>, Seq<char>), Seq<char>> {
        space_result(input, self.min as nat)
    }

    fn parse<'a>(&self, input: &'a str) -> (r: ParseResult<'a, Vec<char>>) {
        let (chars, _n) = chars_of(input);
        let k = run_at(&chars, 0, 0);
        if k < self.min {
            return Err(input);
        }
        let mut ws: Vec<char> = Vec::new();
        let mut i: usize = 0;
        while i < k
            invariant
                i <= k <= chars@.len(),
                ws@ == chars@.take(i as int),
            decreases k - i,
        {
            ws.push(chars[i]);
            proof {
                assert(chars@.take(i + 1) =~= chars@.take(i as int).push(chars@[i as int]));
            }
            i = i + 1;
        }
        proof {
            assert(chars@.skip(0) =~= chars@);
            assert(ws.deep_view() =~= ws@);
        }
        Ok((rest_at(input, &chars, k), ws))
    }
}

/// Reads a quoted string and gives the characters between the quotes.
pub struct QuotedString;

/// The parser that reads a quoted string.
pub fn quoted_string() -> QuotedString {
    QuotedString
}

impl Parser<String> for QuotedString {
    open spec fn ready(&self) -> bool {
        true
    }

    open spec fn outcome(&self, input: Seq<char>) -> Result<(Seq<char>, Seq<char>), Seq<char>> {
        quoted_result(input)
    }

    fn parse<'a>(&self, input: &'a str) -> (r: ParseResult<'a, String>) {
        let (chars, _n) = chars_of(input);
        match quoted_at(&chars, 0) {
            Some((k, s)) => Ok((rest_at(input, &chars, k), s)),
            None => {
                if chars.len() > 0 && chars[0] == '"' {
                    let e = rest_at(input, &chars, chars.len());
                    proof {
                        assert(e@ =~= Seq::<char>::empty());
                    }
                    Err(e)
                } else {
                    Err(input)
                }
            },
        }
    }
}

/// Two parsers in turn; gives both values.
pub struct Pair<P1, P2> {
    pub parser1: P1,
    pub parser2: P2,
}

/// `parser1`, then `parser2` on what it left.
pub fn pair<P1, P2>(parser1: P1, parser2: P2) -> (p: Pair<P1, P2>)
    ensures
        p.parser1 == parser1,
        p.parser2 == parser2,
{
    Pair { parser1, parser2 }
}

impl<R1: DeepView, R2: DeepView, P1: Parser<R1>, P2: Parser<R2>> Parser<(R1, R2)> for Pair<P1, P2> {
    open spec fn ready(&self) -> bool {
        self.parser1.ready() && self.parser2.ready()
    }

    /// The first failure, or what the second parser left with both values.
    open spec fn outcome(&self, input: Seq<char>) -> Result<(Seq<char>, (R1::V, R2::V)), Seq<char>> {
        match self.parser1.outcome(input) {
            Err(e) => Err(e),
            Ok((rest1, v1)) => match self.parser2.outcome(rest1) {
                Err(e) => Err(e),
                Ok((rest2, v2)) => Ok((rest2, (v1, v2))),
            },
        }
    }

    fn parse<'a>(&self, input: &'a str) -> (r: ParseResult<'a, (R1, R2)>) {
        match self.parser1.parse(input) {
            Err(e) => Err(e),
            Ok((next_input, result1)) => match self.parser2.parse(next_input) {
                Err(e) => Err(e),
                Ok((last_input, result2)) => Ok((last_input, (result1, result2))),
            },
        }
    }
}

/// Three parsers in turn; gives the three values.
pub struct Three<P1, P2, P3> {
    pub parser1: P1,
    pub parser2: P2,
    pub parser3: P3,
}

/// `parser1`, `parser2` and `parser3`, each on what the one before left.
pub fn three<P1, P2, P3>(parser1: P1, parser2: P2, parser3: P3) -> (p: Three<P1, P2, P3>)
    ensures
        p.parser1 == parser1,
        p.parser2 == parser2,
        p.parser3 == parser3,
{
    Three { parser1, parser2, parser3 }
}

impl<
    R1: DeepView,
    R2: DeepView,
    R3: DeepView,
    P1: Parser<R1>,
    P2: Parser<R2>,
    P3: Parser<R3>,
> Parser<(R1, R2, R3)> for Three<P1, P2, P3> {
    open spec fn ready(&self) -> bool {
        self.parser1.ready() && self.parser2.ready() && self.parser3.ready()
    }

    /// The first failure, or what the third parser left with the three
    /// values.
    open spec fn outcome(&self, input: Seq<char>) -> Result<(Seq<char>, (R1::V, R2::V, R3::V)), Seq<char>> {
        match self.parser1.outcome(input) {
            Err(e) => Err(e),
            Ok((rest1, v1)) => match self.parser2.outcome(rest1) {
                Err(e) => Err(e),
                Ok((rest2, v2)) => match self.parser3.outcome(rest2) {
                    Err(e) => Err(e),
                    Ok((rest3, v3)) => Ok((rest3, (v1, v2, v3))),
                },
            },
        }
    }

    fn parse<'a>(&self, input: &'a str) -> (r: ParseResult<'a, (R1, R2, R3)>) {
        match self.parser1.parse(input) {
            Err(e) => Err(e),
            Ok((second_input, result1)) => match self.parser2.parse(second_input) {
                Err(e) => Err(e),
                Ok((third_input, result2)) => match self.parser3.parse(third_input) {
                    Err(e) => Err(e),
                    Ok((last_input, result3)) => Ok((last_input, (result1, result2, result3))),
                },
            },
        }
    }
}

/// Four parsers in turn; gives the four values.
pub struct Four<P1, P2, P3, P4> {
    pub parser1: P1,
    pub parser2: P2,
    pub parser3: P3,
    pub parser4: P4,
}

/// The four parsers, each on what the one before left.
pub fn four<P1, P2, P3, P4>(parser1: P1, parser2: P2, parser3: P3, parser4: P4) -> (p: Four<P1, P2, P3, P4>)
    ensures
        p.parser1 == parser1,
        p.parser2 == parser2,
        p.parser3 == parser3,
        p.parser4 == parser4,
{
    Four { parser1, parser2, parser3, parser4 }
}

impl<
    R1: DeepView,
    R2: DeepView,
    R3: DeepView,
    R4: DeepView,
    P1: Parser<R1>,
    P2: Parser<R2>,
    P3: Parser<R3>,
    P4: Parser<R4>,
> Parser<(R1, R2, R3, R4)> for Four<P1, P2, P3, P4> {
    open spec fn ready(&self) -> bool {
        self.parser1.ready() && self.parser2.ready() && self.parser3.ready() && self.parser4.ready()
    }

    /// The first failure, or what the fourth parser left with the four
    /// values.
    open spec fn outcome(&self, input: Seq<char>) -> Result<(Seq<char>, (R1::V, R2::V, R3::V, R4::V)), Seq<char>> {
        match self.parser1.outcome(input) {
            Err(e) => Err(e),
            Ok((rest1, v1)) => match self.parser2.outcome(rest1) {
                Err(e) => Err(e),
                Ok((rest2, v2)) => match self.parser3.outcome(rest2) {
                    Err(e) => Err(e),
                    Ok((rest3, v3)) => match self.parser4.outcome(rest3) {
                        Err(e) => Err(e),
                        Ok((rest4, v4)) => Ok((rest4, (v1, v2, v3, v4))),
                    },
                },
            },
        }
    }

    fn parse<'a>(&self, input: &'a str) -> (r: ParseResult<'a, (R1, R2, R3, R4)>) {
        match self.parser1.parse(input) {
            Err(e) => Err(e),
            Ok((second_input, result1)) => match self.parser2.parse(second_input) {
                Err(e) => Err(e),
                Ok((third_input, result2)) => match self.parser3.parse(third_input) {
                    Err(e) => Err(e),
                    Ok((fourth_input, result3)) => match self.parser4.parse(fourth_input) {
                        Err(e) => Err(e),
                        Ok((last_input, result4)) => Ok((last_input, (result1, result2, result3, result4))),
                    },
                },
            },
        }
    }
}

/// Two parsers in turn; gives the first value.
pub struct Left<P1, P2, R2> {
    pub parser1: P1,
    pub parser2: P2,
    pub dropped: PhantomData<R2>,
}

/// `parser1`, then `parser2` on what it left; keeps the first value.
pub fn left<P1, P2, R2>(parser1: P1, parser2: P2) -> (p: Left<P1, P2, R2>)
    ensures
        p.parser1 == parser1,
        p.parser2 == parser2,
{
    Left { parser1, parser2, dropped: PhantomData }
}

impl<R1: DeepView, R2: DeepView, P1: Parser<R1>, P2: Parser<R2>> Parser<R1> for Left<P1, P2, R2> {
    open spec fn ready(&self) -> bool {
        self.parser1.ready() && self.parser2.ready()
    }

    /// What the two give in turn, keeping the first value.
    open spec fn outcome(&self, input: Seq<char>) -> Result<(Seq<char>, R1::V), Seq<char>> {
        match self.parser1.outcome(input) {
            Err(e) => Err(e),
            Ok((rest1, v1)) => match self.parser2.outcome(rest1) {
                Err(e) => Err(e),
                Ok((rest2, _)) => Ok((rest2, v1)),
            },
        }
    }

    fn parse<'a>(&self, input: &'a str) -> (r: ParseResult<'a, R1>) {
        match self.parser1.parse(input) {
            Err(e) => Err(e),
            Ok((next_input, result1)) => match self.parser2.parse(next_input) {
                Err(e) => Err(e),
                Ok((last_input, _result2)) => Ok((last_input, result1)),
            },
        }
    }
}

/// Two parsers in turn; gives the second value.
pub struct Right<P1, P2, R1> {
    pub parser1: P1,
    pub parser2: P2,
    pub dropped: PhantomData<R1>,
}

/// `parser1`, then `parser2` on what it left; keeps the second value.
pub fn right<P1, P2, R1>(parser1: P1, parser2: P2) -> (p: Right<P1, P2, R1>)
    ensures
        p.parser1 == parser1,
        p.parser2 == parser2,
{
    Right { parser1, parser2, dropped: PhantomData }
}

impl<R1: DeepView, R2: DeepView, P1: Parser<R1>, P2: Parser<R2>> Parser<R2> for Right<P1, P2, R1> {
    open spec fn ready(&self) -> bool {
        self.parser1.ready() && self.parser2.ready()
    }

    /// What the two give in turn, keeping the second value.
    open spec fn outcome(&self, input: Seq<char>) -> Result<(Seq<char>, R2::V), Seq<char>> {
        match self.parser1.outcome(input) {
            Err(e) => Err(e),
            Ok((rest1, _)) => self.parser2.outcome(rest1),
        }
    }

    fn parse<'a>(&self, input: &'a str) -> (r: ParseResult<'a, R2>) {
        match self.parser1.parse(input) {
            Err(e) => Err(e),
            Ok((next_input, _result1)) => self.parser2.parse(next_input),
        }
    }
}

/// A parser, and another tried on the input where the first fails.
pub struct Either<P1, P2> {
    pub parser1: P1,
    pub parser2: P2,
}

/// `parser1`, or where it fails `parser2`.
pub fn either<P1, P2>(parser1: P1, parser2: P2) -> (p: Either<P1, P2>)
    ensures
        p.parser1 == parser1,
        p.parser2 == parser2,
{
    Either { parser1, parser2 }
}

impl<A: DeepView, P1: Parser<A>, P2: Parser<A>> Parser<A> for Either<P1, P2> {
    open spec fn ready(&self) -> bool {
        self.parser1.ready() && self.parser2.ready()
    }

    open spec fn outcome(&self, input: Seq<char>) -> Result<(Seq<char>, A::V), Seq<char>> {
        match self.parser1.outcome(input) {
            Ok(x) => Ok(x),
            Err(_) => self.parser2.outcome(input),
        }
    }

    fn parse<'a>(&self, input: &'a str) -> (r: ParseResult<'a, A>) {
        match self.parser1.parse(input) {
            Ok(x) => Ok(x),
            Err(_) => self.parser2.parse(input),
        }
    }
}

/// What the first of `ps[i..]` to succeed on `input` gives; fails with the
/// input where none does.
pub open spec fn first_success<A: DeepView, P: Parser<A>>(ps: Seq<P>, i: int, input: Seq<char>) -> Result<
    (Seq<char>, A::V),
    Seq<char>,
>
    decreases ps.len() - i,
{
    if i < 0 || i >= ps.len() {
        Err(input)
    } else {
        match ps[i].outcome(input) {
            Ok(x) => Ok(x),
            Err(_) => first_success::<A, P>(ps, i + 1, input),
        }
    }
}

/// Parsers tried in order on the input; gives what the first to succeed
/// gives.
pub struct OneOf<P> {
    pub parsers: Vec<P>,
}

/// The parsers, tried in order.
pub fn one_of<P>(parsers: Vec<P>) -> (p: OneOf<P>)
    ensures
        p.parsers@ == parsers@,
{
    OneOf { parsers }
}

impl<A: DeepView, P: Parser<A>> Parser<A> for OneOf<P> {
    open spec fn ready(&self) -> bool {
        forall|i: int| 0 <= i < self.parsers@.len() ==> (#[trigger] self.parsers@[i]).ready()
    }

    open spec fn outcome(&self, input: Seq<char>) -> Result<(Seq<char>, A::V), Seq<char>> {
        first_success::<A, P>(self.parsers@, 0, input)
    }

    fn parse<'a>(&self, input: &'a str) -> (r: ParseResult<'a, A>) {
        let mut i: usize = 0;
        while i < self.parsers.len()
            invariant
                i <= self.parsers@.len(),
                self.ready(),
                first_success::<A, P>(self.parsers@, i as int, input@) == first_success::<A, P>(
                    self.parsers@,
                    0,
                    input@,
                ),
            decreases self.parsers@.len() - i,
        {
            match self.parsers[i].parse(input) {
                Ok(x) => {
                    return Ok(x);
                },
                Err(_) => {},
            }
            i = i + 1;
        }
        Err(input)
    }
}

/// A parser, with a value given where it fails.
pub struct Optional<P, R> {
    pub parser: P,
    pub default: R,
}

/// `parser`, or, where it fails, nothing read and a copy of `default`.
pub fn optional<P, R>(parser: P, default: R) -> (p: Optional<P, R>)
    ensures
        p.parser == parser,
        p.default == default,
{
    Optional { parser, default }
}

impl<R: DeepView + Clone, P: Parser<R>> Parser<R> for Optional<P, R> {
    /// The parser can run, and a clone of the default looks like it.
    open spec fn ready(&self) -> bool {
        &&& self.parser.ready()
        &&& forall|c: R| #[trigger] vstd::pervasive::strictly_cloned(self.default, c) ==> c.deep_view() == self.default.deep_view()
    }

    open spec fn outcome(&self, input: Seq<char>) -> Result<(Seq<char>, R::V), Seq<char>> {
        match self.parser.outcome(input) {
            Ok(x) => Ok(x),
            Err(_) => Ok((input, self.default.deep_view())),
        }
    }

    fn parse<'a>(&self, input: &'a str) -> (r: ParseResult<'a, R>) {
        match self.parser.parse(input) {
            Ok(x) => Ok(x),
            Err(_) => {
                let c = self.default.clone();
                assert(vstd::pervasive::strictly_cloned(self.default, c));
                Ok((input, c))
            },
        }
    }
}

/// The values read by `p` over and over from `input` until it fails, and
/// what is left (where `p` succeeds without reading, it stops there).
pub open spec fn repeated<A: DeepView, P: Parser<A>>(p: P, input: Seq<char>) -> (Seq<char>, Seq<A::V>)
    decreases input.len(),
{
    match p.outcome(input) {
        Ok((rest, v)) => if rest.len() < input.len() {
            let (last, vs) = repeated::<A, P>(p, rest);
            (last, seq![v] + vs)
        } else {
            (input, Seq::empty())
        },
        Err(_) => (input, Seq::empty()),
    }
}

/// Each time `p` succeeds it reads at least one character.
pub open spec fn progresses<A: DeepView, P: Parser<A>>(p: P) -> bool {
    forall|s: Seq<char>| (#[trigger] p.outcome(s)) matches Ok((rest, _)) ==> rest.len() < s.len()
}

/// A parser run until it fails; gives the values read, possibly none.
pub struct ZeroOrMore<P> {
    pub parser: P,
}

/// `parser` over and over until it fails.
pub fn zero_or_more<P>(parser: P) -> (p: ZeroOrMore<P>)
    ensures
        p.parser == parser,
{
    ZeroOrMore { parser }
}

/// Runs `p` from `input` until it fails, after the values `vs` were read.
fn repeat<'a, A: DeepView, P: Parser<A>>(p: &P, input: &'a str, vs: Vec<A>) -> (r: (&'a str, Vec<A>))
    requires
        p.ready(),
        progresses::<A, P>(*p),
    ensures
        r.0@ == repeated::<A, P>(*p, input@).0,
        r.1.deep_view() == vs.deep_view() + repeated::<A, P>(*p, input@).1,
    decreases input@.len(),
{
    match p.parse(input) {
        Ok((next_input, item)) => {
            let mut vs = vs;
            let ghost before = vs.deep_view();
            let ghost iv = item.deep_view();
            vs.push(item);
            proof {
                assert(vs.deep_view() =~= before.push(iv));
            }
            let (last, all) = repeat(p, next_input, vs);
            proof {
                let rv = repeated::<A, P>(*p, next_input@).1;
                assert(before.push(iv) + rv =~= before + (seq![iv] + rv));
            }
            (last, all)
        },
        Err(_) => {
            proof {
                assert(vs.deep_view() =~= vs.deep_view() + Seq::<A::V>::empty());
            }
            (input, vs)
        },
    }
}

impl<A: DeepView, P: Parser<A>> Parser<Vec<A>> for ZeroOrMore<P> {
    open spec fn ready(&self) -> bool {
        self.parser.ready() && progresses::<A, P>(self.parser)
    }

    /// Never fails: the values read until the parser fails, and what is left.
    open spec fn outcome(&self, input: Seq<char>) -> Result<(Seq<char>, Seq<A::V>), Seq<char>> {
        let (rest, vs) = repeated::<A, P>(self.parser, input);
        Ok((rest, vs))
    }

    fn parse<'a>(&self, input: &'a str) -> (r: ParseResult<'a, Vec<A>>) {
        let start: Vec<A> = Vec::new();
        proof {
            assert(start.deep_view() =~= Seq::<A::V>::empty());
        }
        let (rest, result) = repeat(&self.parser, input, start);
        proof {
            assert(result.deep_view() =~= repeated::<A, P>(self.parser, input@).1);
        }
        Ok((rest, result))
    }
}

/// A parser run until it fails, at least once; gives the values read.
pub struct OneOrMore<P> {
    pub parser: P,
}

/// `parser` over and over until it fails, where it succeeds at least once.
pub fn one_or_more<P>(parser: P) -> (p: OneOrMore<P>)
    ensures
        p.parser == parser,
{
    OneOrMore { parser }
}

impl<A: DeepView, P: Parser<A>> Parser<Vec<A>> for OneOrMore<P> {
    open spec fn ready(&self) -> bool {
        self.parser.ready() && progresses::<A, P>(self.parser)
    }

    /// Fails with the input where the parser fails at once; otherwise the
    /// values read until it fails, and what is left.
    open spec fn outcome(&self, input: Seq<char>) -> Result<(Seq<char>, Seq<A::V>), Seq<char>> {
        match self.parser.outcome(input) {
            Err(_) => Err(input),
            Ok(_) => {
                let (rest, vs) = repeated::<A, P>(self.parser, input);
                Ok((rest, vs))
            },
        }
    }

    fn parse<'a>(&self, input: &'a str) -> (r: ParseResult<'a, Vec<A>>) {
        match self.parser.parse(input) {
            Err(_) => Err(input),
            Ok((next_input, first_item)) => {
                let ghost iv = first_item.deep_view();
                let mut result = Vec::new();
                result.push(first_item);
                proof {
                    assert(result.deep_view() =~= seq![iv]);
                }
                let (rest, all) = repeat(&self.parser, next_input, result);
                Ok((rest, all))
            },
        }
    }
}

/// The parser whose values pass a test.
pub struct Pred<P, F> {
    pub parser: P,
    pub predicate: F,
}

/// `parser`, where the value read passes `predicate`; fails with the input
/// otherwise.
pub fn pred<P, F>(parser: P, predicate: F) -> (p: Pred<P, F>)
    ensures
        p.parser == parser,
        p.predicate == predicate,
{
    Pred { parser, predicate }
}

/// `f` passes a value that looks like `v`.
pub open spec fn passes<A: DeepView, F: Fn(&A) -> bool>(f: F, v: A::V) -> bool {
    exists|a: A| #[trigger] call_ensures(f, (&a,), true) && a.deep_view() == v
}

impl<A: DeepView, P: Parser<A>, F: Fn(&A) -> bool> Parser<A> for Pred<P, F> {
    /// The parser can run, and the test can be called on any value and
    /// answers alike for values that look alike.
    open spec fn ready(&self) -> bool {
        &&& self.parser.ready()
        &&& forall|a: A| call_requires(self.predicate, (&a,))
        &&& forall|a1: A, a2: A, b1: bool, b2: bool|
            a1.deep_view() == a2.deep_view() && call_ensures(self.predicate, (&a1,), b1) && call_ensures(
                self.predicate,
                (&a2,),
                b2,
            ) ==> b1 == b2
    }

    open spec fn outcome(&self, input: Seq<char>) -> Result<(Seq<char>, A::V), Seq<char>> {
        match self.parser.outcome(input) {
            Ok((rest, v)) => if passes::<A, F>(self.predicate, v) {
                Ok((rest, v))
            } else {
                Err(input)
            },
            Err(_) => Err(input),
        }
    }

    fn parse<'a>(&self, input: &'a str) -> (r: ParseResult<'a, A>) {
        match self.parser.parse(input) {
            Ok((next_input, value)) => {
                let ok = (self.predicate)(&value);
                if ok {
                    Ok((next_input, value))
                } else {
                    Err(input)
                }
            },
            Err(_) => Err(input),
        }
    }
}

/// The parser whose values are passed through a function.
pub struct MapParser<P, F, A> {
    pub parser: P,
    pub map_fn: F,
    pub input_type: PhantomData<A>,
}

/// `parser`, with its value passed through `map_fn`.
pub fn map<P, F, A>(parser: P, map_fn: F) -> (p: MapParser<P, F, A>)
    ensures
        p.parser == parser,
        p.map_fn == map_fn,
{
    MapParser { parser, map_fn, input_type: PhantomData }
}

/// `f` can give `b` for a value that looks like `v`.
pub open spec fn gives_for<A: DeepView, B, F: Fn(A) -> B>(f: F, v: A::V, b: B) -> bool {
    exists|a: A| #[trigger] call_ensures(f, (a,), b) && a.deep_view() == v
}

/// What `f` gives for a value that looks like `v`.
pub open spec fn mapped<A: DeepView, B: DeepView, F: Fn(A) -> B>(f: F, v: A::V) -> B::V {
    (choose|b: B| #[trigger] gives_for::<A, B, F>(f, v, b)).deep_view()
}

impl<A: DeepView, B: DeepView, P: Parser<A>, F: Fn(A) -> B> Parser<B> for MapParser<P, F, A> {
    /// The parser can run, and the function can be called on any value and
    /// gives values that look alike for values that look alike.
    open spec fn ready(&self) -> bool {
        &&& self.parser.ready()
        &&& forall|a: A| call_requires(self.map_fn, (a,))
        &&& forall|a1: A, a2: A, b1: B, b2: B|
            a1.deep_view() == a2.deep_view() && call_ensures(self.map_fn, (a1,), b1) && call_ensures(
                self.map_fn,
                (a2,),
                b2,
            ) ==> b1.deep_view() == b2.deep_view()
    }

    open spec fn outcome(&self, input: Seq<char>) -> Result<(Seq<char>, B::V), Seq<char>> {
        match self.parser.outcome(input) {
            Ok((rest, v)) => Ok((rest, mapped::<A, B, F>(self.map_fn, v))),
            Err(e) => Err(e),
        }
    }

    fn parse<'a>(&self, input: &'a str) -> (r: ParseResult<'a, B>) {
        match self.parser.parse(input) {
            Ok((next_input, result)) => {
                let ghost a0 = result;
                let b = (self.map_fn)(result);
                proof {
                    assert(gives_for::<A, B, F>(self.map_fn, a0.deep_view(), b));
                }
                Ok((next_input, b))
            },
            Err(e) => Err(e),
        }
    }
}

/// A parser, then the parser that a function makes of its value, on what
/// the first left.
pub struct AndThen<P, F, A, N> {
    pub parser: P,
    pub f: F,
    pub types: PhantomData<(A, N)>,
}

/// `parser`, then `f` of its value, on what `parser` left.
pub fn and_then<P, F, A, N>(parser: P, f: F) -> (p: AndThen<P, F, A, N>)
    ensures
        p.parser == parser,
        p.f == f,
{
    AndThen { parser, f, types: PhantomData }
}

/// The two parsers give the same on every input.
pub open spec fn same_outcomes<B: DeepView, N: Parser<B>>(n1: N, n2: N) -> bool {
    forall|s: Seq<char>| #[trigger] n1.outcome(s) == n2.outcome(s)
}

/// The parser that `f` makes of a value that looks like `v`.
pub open spec fn made<A: DeepView, N, F: Fn(A) -> N>(f: F, v: A::V) -> N {
    choose|n: N| #[trigger] gives_for::<A, N, F>(f, v, n)
}

impl<A: DeepView, B: DeepView, N: Parser<B>, P: Parser<A>, F: Fn(A) -> N> Parser<B> for AndThen<P, F, A, N> {
    /// The parser can run, the function can be called on any value, and the
    /// parsers it makes can run and give alike for values that look alike.
    open spec fn ready(&self) -> bool {
        &&& self.parser.ready()
        &&& forall|a: A| call_requires(self.f, (a,))
        &&& forall|a: A, n: N| call_ensures(self.f, (a,), n) ==> n.ready()
        &&& forall|a1: A, a2: A, n1: N, n2: N|
            a1.deep_view() == a2.deep_view() && #[trigger] call_ensures(self.f, (a1,), n1) && #[trigger] call_ensures(
                self.f,
                (a2,),
                n2,
            ) ==> same_outcomes::<B, N>(n1, n2)
    }

    open spec fn outcome(&self, input: Seq<char>) -> Result<(Seq<char>, B::V), Seq<char>> {
        match self.parser.outcome(input) {
            Ok((rest, v)) => made::<A, N, F>(self.f, v).outcome(rest),
            Err(e) => Err(e),
        }
    }

    fn parse<'a>(&self, input: &'a str) -> (r: ParseResult<'a, B>) {
        match self.parser.parse(input) {
            Ok((next_input, result)) => {
                let ghost a0 = result;
                let next = (self.f)(result);
                proof {
                    assert(gives_for::<A, N, F>(self.f, a0.deep_view(), next));
                }
                next.parse(next_input)
            },
            Err(e) => Err(e),
        }
    }
}

/// `parser`, with any whitespace before and after it read too.
pub fn whitespace_wrap<P>(parser: P) -> (p: Right<Space, Left<P, Space, Vec<char>>, Vec<char>>)
    ensures
        p.parser1.min == 0,
        p.parser2.parser1 == parser,
        p.parser2.parser2.min == 0,
{
    right(space0(), left(parser, space0()))
}

/// Keeping either value of two parsers run in turn is running the pair and
/// keeping that value: `left` and `right` agree with `pair`.
pub proof fn lemma_left_right_of_pair<R1: DeepView, R2: DeepView, P1: Parser<R1>, P2: Parser<R2>>(
    parser1: P1,
    parser2: P2,
    input: Seq<char>,
)
    ensures
        ({
            let both = Pair { parser1, parser2 }.outcome(input);
            let l = Left::<P1, P2, R2> { parser1, parser2, dropped: PhantomData }.outcome(input);
            let r = Right::<P1, P2, R1> { parser1, parser2, dropped: PhantomData }.outcome(input);
            &&& both matches Err(e) ==> l == Err::<(Seq<char>, R1::V), Seq<char>>(e) && r == Err::<
                (Seq<char>, R2::V),
                Seq<char>,
            >(e)
            &&& both matches Ok((rest, (v1, v2))) ==> l == Ok::<(Seq<char>, R1::V), Seq<char>>((rest, v1)) && r
                == Ok::<(Seq<char>, R2::V), Seq<char>>((rest, v2))
        }),
{
}

/// A literal of at least one character reads something whenever it
/// succeeds, so it can be repeated.
pub proof fn lemma_literal_progresses(p: MatchLiteral)
    requires
        p.expected@.len() > 0,
    ensures
        progresses::<(), MatchLiteral>(p),
{
}

/// Reading one character, whitespace or any, reads something whenever it
/// succeeds.
pub proof fn lemma_char_parsers_progress()
    ensures
        progresses::<char, AnyChar>(AnyChar),
        progresses::<char, WhitespaceChar>(WhitespaceChar),
{
}

} // verus!
