//! Token matchers of the CDL lexer and the lexer that runs them over a script.
//!
//! Every matcher looks at the start of its input and reports how many bytes of
//! it form its token (0 when the input does not start with one). The lexer
//! skips blanks, asks the matchers in order, and records a token for the first
//! one that matches, or an error for a character that none matches.
use vstd::prelude::*;
use crate::text::{
    spec_is_alphabetic, spec_is_numeric, spec_is_whitespace, spec_is_alphanumeric,
    is_alphabetic, is_numeric, is_whitespace, is_alphanumeric, utf8_len, span_len,
    char_len_utf8, chars_of, string_push_str, push_decimal, decimal, lemma_utf8_len_concat, lemma_utf8_len_push,
    lemma_utf8_len_take, lemma_span_len_unique, lemma_span_len_bound, lemma_utf8_len_take_mono, lemma_utf8_len_split, lemma_utf8_len_ge_len,
};

verus! {

/// Blank characters that the lexer skips; a newline is a token of its own.
pub open spec fn blank_char(c: char) -> bool {
    spec_is_whitespace(c) && c != '\n'
}

/// Characters that may follow the first character of an identifier.
pub open spec fn ident_tail_char(c: char) -> bool {
    spec_is_alphanumeric(c) || c == '-' || c == '_'
}

/// Characters that may follow the `@` of a reference.
pub open spec fn ref_tail_char(c: char) -> bool {
    ident_tail_char(c) || c == '.'
}

/// Outcome of a matcher whose token is one character satisfying `lead`
/// followed by the longest run satisfying `tail`: `None` on empty input
/// (the matcher's error), else the byte length of the token, 0 for no token.
pub open spec fn led_span(s: Seq<char>, lead: spec_fn(char) -> bool, tail: spec_fn(char) -> bool) -> Option<nat> {
    if s.len() == 0 {
        None
    } else if !lead(s[0]) {
        Some(0)
    } else {
        Some(utf8_len(s.take(1 + span_len(s.drop_first(), tail) as int)))
    }
}

/// Outcome of the quoted-string matcher: the bytes between the opening quote
/// and the next quote (or the end of input), plus two for the quotes.
pub open spec fn quoted_span(s: Seq<char>, quote: char) -> Option<nat> {
    if s.len() == 0 {
        None
    } else if s[0] != quote {
        Some(0)
    } else {
        Some(utf8_len(s.drop_first().take(span_len(s.drop_first(), not_char(quote)) as int)) + 2)
    }
}

/// Characters other than `q`.
pub open spec fn not_char(q: char) -> spec_fn(char) -> bool {
    |c: char| c != q
}

/// Whether some prefix of `s` has exactly `n` bytes.
pub open spec fn has_boundary(s: Seq<char>, n: nat) -> bool {
    exists|j: int| 0 <= j <= s.len() && utf8_len(#[trigger] s.take(j)) == n
}

/// Outcome of the literal matcher: the literal's byte length when `s` starts
/// with it; 0 when the first bytes of `s` as long as the literal hold other
/// characters; `None` when `s` has no prefix of that many bytes.
pub open spec fn literal_span(s: Seq<char>, lit: Seq<char>) -> Option<nat> {
    if lit.len() <= s.len() && s.take(lit.len() as int) == lit {
        Some(utf8_len(lit))
    } else if has_boundary(s, utf8_len(lit)) {
        Some(0)
    } else {
        None
    }
}

/// Classes of characters that the matchers scan runs of.
pub enum CharClass {
    IdentTail,
    RefTail,
    Numeric,
    NotQuote(char),
    Blank,
    Whitespace,
}

impl CharClass {
    pub open spec fn holds(self) -> spec_fn(char) -> bool {
        match self {
            CharClass::IdentTail => |c: char| ident_tail_char(c),
            CharClass::RefTail => |c: char| ref_tail_char(c),
            CharClass::Numeric => |c: char| spec_is_numeric(c),
            CharClass::NotQuote(q) => not_char(q),
            CharClass::Blank => |c: char| blank_char(c),
            CharClass::Whitespace => |c: char| spec_is_whitespace(c),
        }
    }

    pub fn test(&self, c: char) -> (r: bool)
        ensures
            r == (self.holds())(c),
    {
        match self {
            CharClass::IdentTail => is_alphanumeric(c) || c == '-' || c == '_',
            CharClass::RefTail => is_alphanumeric(c) || c == '-' || c == '_' || c == '.',
            CharClass::Numeric => is_numeric(c),
            CharClass::NotQuote(q) => c != *q,
            CharClass::Blank => is_whitespace(c) && c != '\n',
            CharClass::Whitespace => is_whitespace(c),
        }
    }
}

/// Scans the run of `class` characters starting at `start`; returns its
/// length in characters and in bytes.
pub fn scan_run(chars: &Vec<char>, start: usize, class: &CharClass) -> (res: (usize, usize))
    requires
        start <= chars@.len(),
        utf8_len(chars@) <= usize::MAX,
    ensures
        res.0 == span_len(chars@.skip(start as int), class.holds()),
        res.1 == utf8_len(chars@.skip(start as int).take(res.0 as int)),
        start + res.0 <= chars@.len(),
{
    let ghost s = chars@.skip(start as int);
    let ghost p = class.holds();
    let mut k: usize = start;
    let mut bytes: usize = 0;
    proof {
        assert(s.take(0) =~= Seq::<char>::empty());
        assert(chars@ =~= chars@.take(start as int) + s);
        lemma_utf8_len_concat(chars@.take(start as int), s);
        lemma_utf8_len_take(s, 0);
    }
    while k < chars.len()
        invariant
            start <= k <= chars@.len(),
            s == chars@.skip(start as int),
            p == class.holds(),
            forall|i: int| 0 <= i < k - start ==> #[trigger] p(s[i]),
            bytes == utf8_len(s.take(k - start)),
            utf8_len(s) <= usize::MAX,
        ensures
            start <= k <= chars@.len(),
            forall|i: int| 0 <= i < k - start ==> #[trigger] p(s[i]),
            bytes == utf8_len(s.take(k - start)),
            k < chars@.len() ==> !p(s[k - start]),
        decreases chars@.len() - k,
    {
        if !class.test(chars[k]) {
            break;
        }
        proof {
            assert(s.take(k - start + 1) =~= s.take(k - start).push(s[k - start]));
            lemma_utf8_len_push(s.take(k - start), s[k - start]);
            lemma_utf8_len_take(s, k - start + 1);
        }
        bytes = bytes + char_len_utf8(chars[k]);
        k = k + 1;
    }
    proof {
        lemma_span_len_unique(s, p, k - start);
    }
    (k - start, bytes)
}

/// Matches an identifier: a letter, then letters, digits, `-` and `_`.
#[derive(Debug)]
pub struct IdentifierMatcher {}

/// Matches a reference: `@`, then letters, digits, `-`, `_` and `.`.
#[derive(Debug)]
pub struct ReferenceMatcher {}

/// Matches an entity id: `#`, then letters, digits, `-` and `_`.
#[derive(Debug)]
pub struct EntityIdMatcher {}

/// Matches a run of numeric characters.
#[derive(Debug)]
pub struct NumberMatcher {}

/// Matches a string between two `quote_char`s.
#[derive(Debug)]
pub struct StringMatcher {
    pub quote_char: char,
}

/// Matches one fixed literal.
#[derive(Debug)]
pub struct LiteralMatcher {
    pub literal: &'static str,
}

/// Counts the blanks at the start of the input.
#[derive(Debug)]
pub struct WhitespaceMatcher {}

/// Shared body of the matchers that take one leading character and a run.
fn led_span_at(chars: &Vec<char>, start: usize, lead_ok: bool, tail: &CharClass) -> (res: Result<usize, &'static str>)
    requires
        start <= chars@.len(),
        utf8_len(chars@) <= usize::MAX,
    ensures
        start == chars@.len() ==> res is Err,
        start < chars@.len() && !lead_ok ==> res == Ok::<usize, &'static str>(0),
        start < chars@.len() && lead_ok ==> (res matches Ok(n) && n == utf8_len(
            chars@.skip(start as int).take(1 + span_len(chars@.skip(start as int).drop_first(), tail.holds()) as int))),
        res matches Err(e) ==> e@ == "EOF"@,
{
    if start >= chars.len() {
        return Err("EOF");
    }
    if !lead_ok {
        return Ok(0);
    }
    let (k, bytes) = scan_run(chars, start + 1, tail);
    let ghost s = chars@.skip(start as int);
    proof {
        assert(chars@.skip(start + 1) =~= s.drop_first());
        assert(s.take(1 + k) =~= seq![s[0]] + s.drop_first().take(k as int));
        lemma_utf8_len_concat(seq![s[0]], s.drop_first().take(k as int));
        lemma_utf8_len_push(Seq::<char>::empty(), s[0]);
        assert(seq![s[0]] =~= Seq::<char>::empty().push(s[0]));
        assert(chars@ =~= chars@.take(start as int) + s);
        lemma_utf8_len_concat(chars@.take(start as int), s);
        lemma_utf8_len_take(s, 1 + k);
    }
    Ok(char_len_utf8(chars[start]) + bytes)
}

impl IdentifierMatcher {
    pub fn new() -> (m: IdentifierMatcher) {
        IdentifierMatcher {  }
    }

    pub open spec fn outcome(s: Seq<char>) -> Option<nat> {
        led_span(s, |c: char| spec_is_alphabetic(c), |c: char| ident_tail_char(c))
    }

    /// The matcher run at char index `start` of `chars`.
    pub fn check_at(&self, chars: &Vec<char>, start: usize) -> (res: Result<usize, &'static str>)
        requires
            start <= chars@.len(),
            utf8_len(chars@) <= usize::MAX,
        ensures
            Self::outcome(chars@.skip(start as int)) == (match res {
                Ok(n) => Some(n as nat),
                Err(_) => None,
            }),
            res matches Err(e) ==> e@ == "EOF"@,
    {
        let lead = start < chars.len() && is_alphabetic(chars[start]);
        let res = led_span_at(chars, start, lead, &CharClass::IdentTail);
        proof {
            let s = chars@.skip(start as int);
            assert((CharClass::IdentTail.holds()) == (|c: char| ident_tail_char(c)));
        }
        res
    }
}

/// Finds the number of leading characters of `chars[start..]` that take
/// exactly `target` bytes.
pub fn boundary_index(chars: &Vec<char>, start: usize, target: usize) -> (res: Option<usize>)
    requires
        start <= chars@.len(),
        utf8_len(chars@) <= usize::MAX,
    ensures
        res matches Some(j) ==> j <= chars@.skip(start as int).len() && utf8_len(
            chars@.skip(start as int).take(j as int),
        ) == target,
        res is None ==> !has_boundary(chars@.skip(start as int), target as nat),
{
    let ghost s = chars@.skip(start as int);
    let n = chars.len();
    let mut j: usize = 0;
    let mut b: usize = 0;
    proof {
        assert(s.take(0) =~= Seq::<char>::empty());
        assert(chars@ =~= chars@.take(start as int) + s);
        lemma_utf8_len_concat(chars@.take(start as int), s);
    }
    while start + j < n && b < target
        invariant
            n == chars@.len(),
            start <= chars@.len(),
            s == chars@.skip(start as int),
            j <= s.len(),
            start + j <= chars@.len(),
            s.len() == chars@.len() - start,
            b == utf8_len(s.take(j as int)),
            utf8_len(s) <= usize::MAX,
            forall|i: int| 0 <= i < j ==> utf8_len(#[trigger] s.take(i)) < target,
        decreases s.len() - j,
    {
        proof {
            assert(s.take(j + 1) =~= s.take(j as int).push(s[j as int]));
            lemma_utf8_len_push(s.take(j as int), s[j as int]);
            lemma_utf8_len_take(s, j + 1);
        }
        b = b + char_len_utf8(chars[start + j]);
        j = j + 1;
    }
    if b == target {
        Some(j)
    } else {
        proof {
            assert forall|i: int| 0 <= i <= s.len() implies utf8_len(#[trigger] s.take(i)) != target by {
                if i > j {
                    lemma_utf8_len_take_mono(s, j as int, i);
                }
            }
        }
        None
    }
}

impl ReferenceMatcher {
    pub fn new() -> (m: ReferenceMatcher) {
        ReferenceMatcher {  }
    }

    pub open spec fn outcome(s: Seq<char>) -> Option<nat> {
        led_span(s, |c: char| c == '@', |c: char| ref_tail_char(c))
    }

    /// The matcher run at char index `start` of `chars`.
    pub fn check_at(&self, chars: &Vec<char>, start: usize) -> (res: Result<usize, &'static str>)
        requires
            start <= chars@.len(),
            utf8_len(chars@) <= usize::MAX,
        ensures
            Self::outcome(chars@.skip(start as int)) == (match res {
                Ok(n) => Some(n as nat),
                Err(_) => None,
            }),
            res matches Err(e) ==> e@ == "EOF"@,
    {
        let lead = start < chars.len() && chars[start] == '@';
        let res = led_span_at(chars, start, lead, &CharClass::RefTail);
        proof {
            assert((CharClass::RefTail.holds()) == (|c: char| ref_tail_char(c)));
        }
        res
    }
}

impl EntityIdMatcher {
    pub fn new() -> (m: EntityIdMatcher) {
        EntityIdMatcher {  }
    }

    pub open spec fn outcome(s: Seq<char>) -> Option<nat> {
        led_span(s, |c: char| c == '#', |c: char| ident_tail_char(c))
    }

    /// The matcher run at char index `start` of `chars`.
    pub fn check_at(&self, chars: &Vec<char>, start: usize) -> (res: Result<usize, &'static str>)
        requires
            start <= chars@.len(),
            utf8_len(chars@) <= usize::MAX,
        ensures
            Self::outcome(chars@.skip(start as int)) == (match res {
                Ok(n) => Some(n as nat),
                Err(_) => None,
            }),
            res matches Err(e) ==> e@ == "EOF"@,
    {
        let lead = start < chars.len() && chars[start] == '#';
        let res = led_span_at(chars, start, lead, &CharClass::IdentTail);
        proof {
            assert((CharClass::IdentTail.holds()) == (|c: char| ident_tail_char(c)));
        }
        res
    }
}

impl NumberMatcher {
    pub fn new() -> (m: NumberMatcher) {
        NumberMatcher {  }
    }

    pub open spec fn outcome(s: Seq<char>) -> Option<nat> {
        led_span(s, |c: char| spec_is_numeric(c), |c: char| spec_is_numeric(c))
    }

    /// The matcher run at char index `start` of `chars`.
    pub fn check_at(&self, chars: &Vec<char>, start: usize) -> (res: Result<usize, &'static str>)
        requires
            start <= chars@.len(),
            utf8_len(chars@) <= usize::MAX,
        ensures
            Self::outcome(chars@.skip(start as int)) == (match res {
                Ok(n) => Some(n as nat),
                Err(_) => None,
            }),
            res matches Err(e) ==> e@ == "EOF"@,
    {
        let lead = start < chars.len() && is_numeric(chars[start]);
        let res = led_span_at(chars, start, lead, &CharClass::Numeric);
        proof {
            assert((CharClass::Numeric.holds()) == (|c: char| spec_is_numeric(c)));
        }
        res
    }
}

impl StringMatcher {
    pub fn new(quote_char: char) -> (m: StringMatcher)
        ensures
            m.quote_char == quote_char,
    {
        StringMatcher { quote_char }
    }

    pub open spec fn outcome(&self, s: Seq<char>) -> Option<nat> {
        quoted_span(s, self.quote_char)
    }

    /// The matcher run at char index `start` of `chars`.
    pub fn check_at(&self, chars: &Vec<char>, start: usize) -> (res: Result<usize, &'static str>)
        requires
            start <= chars@.len(),
            utf8_len(chars@) < usize::MAX,
        ensures
            self.outcome(chars@.skip(start as int)) == (match res {
                Ok(n) => Some(n as nat),
                Err(_) => None,
            }),
            res matches Err(e) ==> e@ == "EOF"@,
    {
        if start >= chars.len() {
            return Err("EOF");
        }
        if chars[start] != self.quote_char {
            return Ok(0);
        }
        let class = CharClass::NotQuote(self.quote_char);
        let (k, bytes) = scan_run(chars, start + 1, &class);
        let ghost s = chars@.skip(start as int);
        proof {
            assert(chars@.skip(start + 1) =~= s.drop_first());
            assert(chars@ =~= chars@.take(start as int) + s);
            lemma_utf8_len_concat(chars@.take(start as int), s);
            assert(s =~= seq![s[0]] + s.drop_first());
            lemma_utf8_len_concat(seq![s[0]], s.drop_first());
            assert(seq![s[0]] =~= Seq::<char>::empty().push(s[0]));
            lemma_utf8_len_push(Seq::<char>::empty(), s[0]);
            lemma_utf8_len_take(s.drop_first(), k as int);
        }
        Ok(bytes + 2)
    }
}

impl LiteralMatcher {
    pub fn new(literal: &'static str) -> (m: LiteralMatcher)
        ensures
            m.literal@ == literal@,
    {
        LiteralMatcher { literal }
    }

    pub open spec fn outcome(&self, s: Seq<char>) -> Option<nat> {
        literal_span(s, self.literal@)
    }

    /// The matcher run at char index `start` of `chars`.
    pub fn check_at(&self, chars: &Vec<char>, start: usize) -> (res: Result<usize, &'static str>)
        requires
            start <= chars@.len(),
            utf8_len(chars@) <= usize::MAX,
        ensures
            self.outcome(chars@.skip(start as int)) == (match res {
                Ok(n) => Some(n as nat),
                Err(_) => None,
            }),
            res matches Err(e) ==> e@ == "unexpected end of input"@,
    {
        let ghost s = chars@.skip(start as int);
        let (lit, lit_bytes) = chars_of(self.literal);
        let n = chars.len();
        let mut same = lit.len() <= n - start;
        let mut i: usize = 0;
        while same && i < lit.len()
            invariant
                start <= chars@.len(),
                s == chars@.skip(start as int),
                same ==> lit@.len() <= s.len(),
                n == chars@.len(),
                s.len() == chars@.len() - start,
                !same ==> !(lit@.len() <= s.len() && s.take(lit@.len() as int) == lit@),
                same ==> start + lit@.len() <= chars@.len(),
                same ==> i <= lit@.len() && forall|k: int| 0 <= k < i ==> s[k] == lit@[k],
            decreases lit@.len() - i + (if same { 1int } else { 0int }),
        {
            if chars[start + i] != lit[i] {
                same = false;
                proof {
                    assert(s.take(lit@.len() as int)[i as int] != lit@[i as int]);
                }
            } else {
                i = i + 1;
            }
        }
        if same {
            proof {
                assert(s.take(lit@.len() as int) =~= lit@);
            }
            Ok(lit_bytes)
        } else {
            match boundary_index(chars, start, lit_bytes) {
                Some(_) => Ok(0),
                None => Err("unexpected end of input"),
            }
        }
    }
}

/// Result of a matcher run at the start of a string.
pub trait Matcher {
    fn check(&self, input: &str) -> Result<usize, &'static str>;
}

impl Matcher for IdentifierMatcher {
    /// Byte length of the identifier at the start of `input`.
    fn check(&self, input: &str) -> (res: Result<usize, &'static str>)
        ensures
            Self::outcome(input@) == (match res {
                Ok(n) => Some(n as nat),
                Err(_) => None,
            }),
            res matches Err(e) ==> e@ == "EOF"@,
    {
        let (chars, _n) = chars_of(input);
        proof {
            assert(chars@.skip(0) =~= chars@);
        }
        self.check_at(&chars, 0)
    }
}

impl Matcher for ReferenceMatcher {
    /// Byte length of the reference at the start of `input`.
    fn check(&self, input: &str) -> (res: Result<usize, &'static str>)
        ensures
            Self::outcome(input@) == (match res {
                Ok(n) => Some(n as nat),
                Err(_) => None,
            }),
            res matches Err(e) ==> e@ == "EOF"@,
    {
        let (chars, _n) = chars_of(input);
        proof {
            assert(chars@.skip(0) =~= chars@);
        }
        self.check_at(&chars, 0)
    }
}

impl Matcher for EntityIdMatcher {
    /// Byte length of the entity id at the start of `input`.
    fn check(&self, input: &str) -> (res: Result<usize, &'static str>)
        ensures
            Self::outcome(input@) == (match res {
                Ok(n) => Some(n as nat),
                Err(_) => None,
            }),
            res matches Err(e) ==> e@ == "EOF"@,
    {
        let (chars, _n) = chars_of(input);
        proof {
            assert(chars@.skip(0) =~= chars@);
        }
        self.check_at(&chars, 0)
    }
}

impl Matcher for NumberMatcher {
    /// Byte length of the number at the start of `input`.
    fn check(&self, input: &str) -> (res: Result<usize, &'static str>)
        ensures
            Self::outcome(input@) == (match res {
                Ok(n) => Some(n as nat),
                Err(_) => None,
            }),
            res matches Err(e) ==> e@ == "EOF"@,
    {
        let (chars, _n) = chars_of(input);
        proof {
            assert(chars@.skip(0) =~= chars@);
        }
        self.check_at(&chars, 0)
    }
}

impl Matcher for LiteralMatcher {
    /// Byte length of the literal when `input` starts with it.
    fn check(&self, input: &str) -> (res: Result<usize, &'static str>)
        ensures
            self.outcome(input@) == (match res {
                Ok(n) => Some(n as nat),
                Err(_) => None,
            }),
            res matches Err(e) ==> e@ == "unexpected end of input"@,
    {
        let (chars, _n) = chars_of(input);
        proof {
            assert(chars@.skip(0) =~= chars@);
        }
        self.check_at(&chars, 0)
    }
}

impl StringMatcher {
    /// Byte length of the quoted string at the start of `input`.
    pub fn check(&self, input: &str) -> (res: Result<usize, &'static str>)
        requires
            utf8_len(input@) < usize::MAX,
        ensures
            self.outcome(input@) == (match res {
                Ok(n) => Some(n as nat),
                Err(_) => None,
            }),
            res matches Err(e) ==> e@ == "EOF"@,
    {
        let (chars, _n) = chars_of(input);
        proof {
            assert(chars@.skip(0) =~= chars@);
        }
        self.check_at(&chars, 0)
    }
}

impl WhitespaceMatcher {
    pub fn new() -> (m: WhitespaceMatcher) {
        WhitespaceMatcher {  }
    }

    /// The number of characters (not bytes) in the run of blanks at char index `start`.
    pub fn check_at(&self, chars: &Vec<char>, start: usize) -> (n: usize)
        requires
            start <= chars@.len(),
            utf8_len(chars@) <= usize::MAX,
        ensures
            n == span_len(chars@.skip(start as int), |c: char| blank_char(c)),
            start + n <= chars@.len(),
    {
        let (k, _bytes) = scan_run(chars, start, &CharClass::Blank);
        proof {
            assert((CharClass::Blank.holds()) == (|c: char| blank_char(c)));
        }
        k
    }

    /// The number of characters in the run of blanks at the start of `input`;
    /// it never fails.
    pub fn check(&self, input: &str) -> (res: Result<(usize, Option<String>), &'static str>)
        ensures
            res matches Ok((n, None)) && n == span_len(input@, |c: char| blank_char(c)),
    {
        let (chars, _n) = chars_of(input);
        proof {
            assert(chars@.skip(0) =~= chars@);
        }
        Ok((self.check_at(&chars, 0), None))
    }
}

/// Kinds of tokens of a CDL script.
#[derive(Debug, PartialEq, Eq, Copy, Clone)]
pub enum TokenType {
    Identifier,
    EntityId,
    Reference,
    String,
    Number,
    Colon,
    Comma,
    Equal,
    LessThan,
    MoreThan,
    Percent,
    OpenBracket,
    CloseBracket,
    OpenParen,
    CloseParen,
    Plus,
    Minus,
    Hash,
    Div,
    Mul,
    EOL,
}

/// A token: its kind and the byte range `start..end` of the script it covers.
#[derive(Debug, PartialEq)]
pub struct Token {
    pub start: usize,
    pub end: usize,
    pub kind: TokenType,
}

/// One of the matchers that the lexer runs.
pub enum AnyMatcher {
    Identifier(IdentifierMatcher),
    Reference(ReferenceMatcher),
    EntityId(EntityIdMatcher),
    Number(NumberMatcher),
    Str(StringMatcher),
    Literal(LiteralMatcher),
}

impl AnyMatcher {
    pub open spec fn outcome(&self, s: Seq<char>) -> Option<nat> {
        match self {
            AnyMatcher::Identifier(_) => IdentifierMatcher::outcome(s),
            AnyMatcher::Reference(_) => ReferenceMatcher::outcome(s),
            AnyMatcher::EntityId(_) => EntityIdMatcher::outcome(s),
            AnyMatcher::Number(_) => NumberMatcher::outcome(s),
            AnyMatcher::Str(m) => m.outcome(s),
            AnyMatcher::Literal(m) => m.outcome(s),
        }
    }

    pub fn check_at(&self, chars: &Vec<char>, start: usize) -> (res: Result<usize, &'static str>)
        requires
            start <= chars@.len(),
            utf8_len(chars@) < usize::MAX,
        ensures
            self.outcome(chars@.skip(start as int)) == (match res {
                Ok(n) => Some(n as nat),
                Err(_) => None,
            }),
            res matches Ok(n) ==> n <= utf8_len(chars@.skip(start as int)) + 1,
    {
        let ghost s = chars@.skip(start as int);
        let res = match self {
            AnyMatcher::Identifier(m) => m.check_at(chars, start),
            AnyMatcher::Reference(m) => m.check_at(chars, start),
            AnyMatcher::EntityId(m) => m.check_at(chars, start),
            AnyMatcher::Number(m) => m.check_at(chars, start),
            AnyMatcher::Str(m) => m.check_at(chars, start),
            AnyMatcher::Literal(m) => m.check_at(chars, start),
        };
        proof {
            if s.len() > 0 {
                lemma_span_len_bound(s.drop_first(), |c: char| ident_tail_char(c));
                lemma_span_len_bound(s.drop_first(), |c: char| ref_tail_char(c));
                lemma_span_len_bound(s.drop_first(), |c: char| spec_is_numeric(c));
                lemma_utf8_len_take(s, 1 + span_len(s.drop_first(), |c: char| ident_tail_char(c)) as int);
                lemma_utf8_len_take(s, 1 + span_len(s.drop_first(), |c: char| ref_tail_char(c)) as int);
                lemma_utf8_len_take(s, 1 + span_len(s.drop_first(), |c: char| spec_is_numeric(c)) as int);
                if let AnyMatcher::Str(m) = self {
                    let q = m.quote_char;
                    lemma_span_len_bound(s.drop_first(), not_char(q));
                    lemma_utf8_len_take(s.drop_first(), span_len(s.drop_first(), not_char(q)) as int);
                    assert(s =~= seq![s[0]] + s.drop_first());
                    lemma_utf8_len_concat(seq![s[0]], s.drop_first());
                    assert(seq![s[0]] =~= Seq::<char>::empty().push(s[0]));
                    lemma_utf8_len_push(Seq::<char>::empty(), s[0]);
                }
            }
            if let AnyMatcher::Literal(m) = self {
                let lit = m.literal@;
                if lit.len() <= s.len() && s.take(lit.len() as int) == lit {
                    lemma_utf8_len_take(s, lit.len() as int);
                }
            }
        }
        res
    }
}

/// The token of the first matcher in `ms` that matches a non-empty prefix of `s`.
pub open spec fn first_match(ms: Seq<(AnyMatcher, TokenType)>, s: Seq<char>) -> Option<(nat, TokenType)>
    decreases ms.len(),
{
    if ms.len() == 0 {
        None
    } else {
        match ms[0].0.outcome(s) {
            Some(n) => if n > 0 {
                Some((n, ms[0].1))
            } else {
                first_match(ms.drop_first(), s)
            },
            None => first_match(ms.drop_first(), s),
        }
    }
}

pub proof fn lemma_first_match_positive(ms: Seq<(AnyMatcher, TokenType)>, s: Seq<char>)
    ensures
        first_match(ms, s) matches Some((n, _)) ==> n > 0,
    decreases ms.len(),
{
    if ms.len() > 0 {
        lemma_first_match_positive(ms.drop_first(), s);
    }
}

/// The number of characters of `s` whose encoding takes the first `p` bytes.
pub open spec fn char_index(s: Seq<char>, p: nat) -> int {
    choose|j: int| 0 <= j <= s.len() && utf8_len(#[trigger] s.take(j)) == p
}

/// Tokens and error positions that lexing `s` from byte `p` on produces, or
/// `None` when the lexer would cut `s` inside a character.
pub open spec fn lex_from(ms: Seq<(AnyMatcher, TokenType)>, s: Seq<char>, p: nat) -> Option<(Seq<Token>, Seq<usize>)>
    decreases utf8_len(s) - p,
{
    let len = utf8_len(s);
    if p >= len {
        Some((Seq::empty(), Seq::empty()))
    } else if !has_boundary(s, p) {
        None
    } else {
        let p1 = p + span_len(s.skip(char_index(s, p)), |c: char| blank_char(c));
        if p1 >= len {
            Some((Seq::empty(), Seq::empty()))
        } else if !has_boundary(s, p1) {
            None
        } else {
            match first_match(ms, s.skip(char_index(s, p1))) {
                Some((n, kind)) => {
                    proof {
                        lemma_first_match_positive(ms, s.skip(char_index(s, p1)));
                    }
                    let t = Token { start: p1 as usize, end: (p1 + n) as usize, kind: kind };
                    let rest = if p1 + n >= len {
                        Some((Seq::empty(), Seq::empty()))
                    } else {
                        lex_from(ms, s, p1 + n)
                    };
                    match rest {
                        Some((ts, es)) => Some((seq![t] + ts, es)),
                        None => None,
                    }
                },
                None => {
                    let rest = if p1 + 1 >= len {
                        Some((Seq::empty(), Seq::empty()))
                    } else {
                        lex_from(ms, s, p1 + 1)
                    };
                    match rest {
                        Some((ts, es)) => Some((ts, seq![p1 as usize] + es)),
                        None => None,
                    }
                },
            }
        }
    }
}

/// Prefixes tokens and error positions to a lexing outcome.
pub open spec fn glue(ts: Seq<Token>, es: Seq<usize>, r: Option<(Seq<Token>, Seq<usize>)>) -> Option<(Seq<Token>, Seq<usize>)> {
    match r {
        Some((ts2, es2)) => Some((ts + ts2, es + es2)),
        None => None,
    }
}

/// The message reported for a character that no matcher accepts.
pub open spec fn unknown_char_message(pos: usize) -> Seq<char> {
    "Unknown char at pos "@ + decimal(pos as nat)
}

/// `res` reports the tokens `ts` and the errors at byte positions `es`.
pub open spec fn lexed(out: (Seq<Token>, Seq<usize>), res: Result<Vec<Token>, (Vec<String>, Vec<Token>)>) -> bool {
    let (ts, es) = out;
    if es.len() == 0 {
        res matches Ok(v) && v@ == ts
    } else {
        res matches Err((msgs, v)) && v@ == ts && msgs@.len() == es.len()
            && forall|i: int| 0 <= i < es.len() ==> #[trigger] msgs@[i]@ == unknown_char_message(es[i])
    }
}

/// The matchers of the CDL lexer, in the order it tries them.
pub open spec fn standard_matchers(ms: Seq<(AnyMatcher, TokenType)>) -> bool {
    &&& ms.len() == 21
    &&& ms[0].0 is Identifier && ms[0].1 == TokenType::Identifier
    &&& ms[1].0 is Reference && ms[1].1 == TokenType::Reference
    &&& ms[2].0 is Number && ms[2].1 == TokenType::Number
    &&& ms[3].0 matches AnyMatcher::Str(m) && m.quote_char == '"' && ms[3].1 == TokenType::String
    &&& ms[4].0 matches AnyMatcher::Str(m) && m.quote_char == '\'' && ms[4].1 == TokenType::String
    &&& ms[5].0 matches AnyMatcher::Literal(m) && m.literal@ == ":"@ && ms[5].1 == TokenType::Colon
    &&& ms[6].0 matches AnyMatcher::Literal(m) && m.literal@ == ","@ && ms[6].1 == TokenType::Comma
    &&& ms[7].0 matches AnyMatcher::Literal(m) && m.literal@ == "="@ && ms[7].1 == TokenType::Equal
    &&& ms[8].0 matches AnyMatcher::Literal(m) && m.literal@ == "<"@ && ms[8].1 == TokenType::LessThan
    &&& ms[9].0 matches AnyMatcher::Literal(m) && m.literal@ == ">"@ && ms[9].1 == TokenType::MoreThan
    &&& ms[10].0 matches AnyMatcher::Literal(m) && m.literal@ == "%"@ && ms[10].1 == TokenType::Percent
    &&& ms[11].0 matches AnyMatcher::Literal(m) && m.literal@ == "{"@ && ms[11].1 == TokenType::OpenBracket
    &&& ms[12].0 matches AnyMatcher::Literal(m) && m.literal@ == "}"@ && ms[12].1 == TokenType::CloseBracket
    &&& ms[13].0 matches AnyMatcher::Literal(m) && m.literal@ == "("@ && ms[13].1 == TokenType::OpenParen
    &&& ms[14].0 matches AnyMatcher::Literal(m) && m.literal@ == ")"@ && ms[14].1 == TokenType::CloseParen
    &&& ms[15].0 matches AnyMatcher::Literal(m) && m.literal@ == "+"@ && ms[15].1 == TokenType::Plus
    &&& ms[16].0 matches AnyMatcher::Literal(m) && m.literal@ == "-"@ && ms[16].1 == TokenType::Minus
    &&& ms[17].0 matches AnyMatcher::Literal(m) && m.literal@ == "/"@ && ms[17].1 == TokenType::Div
    &&& ms[18].0 matches AnyMatcher::Literal(m) && m.literal@ == "*"@ && ms[18].1 == TokenType::Mul
    &&& ms[19].0 matches AnyMatcher::Literal(m) && m.literal@ == "#"@ && ms[19].1 == TokenType::Hash
    &&& ms[20].0 matches AnyMatcher::Literal(m) && m.literal@ == "\n"@ && ms[20].1 == TokenType::EOL
}

/// A prefix of `j` characters taking `p` bytes makes `j` the character index of `p`.
pub proof fn lemma_char_index(s: Seq<char>, p: nat, j: int)
    requires
        0 <= j <= s.len(),
        utf8_len(s.take(j)) == p,
    ensures
        has_boundary(s, p),
        char_index(s, p) == j,
{
    assert(has_boundary(s, p)) by {
        assert(utf8_len(s.take(j)) == p);
    }
    let c = char_index(s, p);
    if c < j {
        lemma_utf8_len_take_mono(s, c, j);
    } else if c > j {
        lemma_utf8_len_take_mono(s, j, c);
    }
}

/// Blank characters each take at least one byte, so a run of them that
/// starts at byte `utf8_len(s.take(i))` ends at or before the end of `s`.
pub proof fn lemma_blank_run_bytes(s: Seq<char>, i: int, k: int)
    requires
        0 <= i <= s.len(),
        0 <= k <= s.len() - i,
    ensures
        utf8_len(s.take(i)) + k <= utf8_len(s),
{
    lemma_utf8_len_split(s, i);
    lemma_utf8_len_ge_len(s.skip(i));
}

pub proof fn lemma_utf8_len_skip(s: Seq<char>, i: int)
    requires
        0 <= i <= s.len(),
    ensures
        utf8_len(s.skip(i)) == utf8_len(s) - utf8_len(s.take(i)),
{
    lemma_utf8_len_split(s, i);
}

/// The character index of byte `p`, found by scanning on from index `i`
/// at byte `b`.
pub fn sync_index(chars: &Vec<char>, i: usize, b: usize, p: usize) -> (res: Option<usize>)
    requires
        i <= chars@.len(),
        b == utf8_len(chars@.take(i as int)),
        b <= p,
        utf8_len(chars@) <= usize::MAX,
    ensures
        res is None <==> !has_boundary(chars@, p as nat),
        res matches Some(j) ==> i <= j <= chars@.len() && utf8_len(chars@.take(j as int)) == p
            && char_index(chars@, p as nat) == j,
{
    let ghost s = chars@;
    proof {
      if has_boundary(s, p as nat) {
        let j0 = choose|j: int| 0 <= j <= s.len() && utf8_len(#[trigger] s.take(j)) == p;
        if j0 < i {
            lemma_utf8_len_take_mono(s, j0, i as int);
        }
        assert(s.take(j0) =~= s.take(i as int) + s.skip(i as int).take(j0 - i));
        lemma_utf8_len_concat(s.take(i as int), s.skip(i as int).take(j0 - i));
        assert(utf8_len(s.skip(i as int).take(j0 - i)) == p - b);
      }
    }
    let n = chars.len();
    match boundary_index(chars, i, p - b) {
        Some(d) => {
            proof {
                assert(s.skip(i as int).len() == n - i);
                assert(s.take(i + d) =~= s.take(i as int) + s.skip(i as int).take(d as int));
                lemma_utf8_len_concat(s.take(i as int), s.skip(i as int).take(d as int));
                lemma_char_index(s, p as nat, i + d);
            }
            Some(i + d)
        },
        None => {
            proof {
                if has_boundary(s, p as nat) {
                    let j0 = choose|j: int| 0 <= j <= s.len() && utf8_len(#[trigger] s.take(j)) == p;
                    assert(utf8_len(s.skip(i as int).take(j0 - i)) == p - b);
                    assert(has_boundary(s.skip(i as int), (p - b) as nat));
                }
            }
            None
        },
    }
}

/// Splits CDL scripts into tokens with a list of matchers.
pub struct Lexer {
    pub matchers: Vec<(AnyMatcher, TokenType)>,
}

impl Lexer {
    /// The lexer with the standard matchers of CDL.
    pub fn new() -> (l: Lexer)
        ensures
            standard_matchers(l.matchers@),
    {
        let mut matchers: Vec<(AnyMatcher, TokenType)> = Vec::new();
        matchers.push((AnyMatcher::Identifier(IdentifierMatcher::new()), TokenType::Identifier));
        matchers.push((AnyMatcher::Reference(ReferenceMatcher::new()), TokenType::Reference));
        matchers.push((AnyMatcher::Number(NumberMatcher::new()), TokenType::Number));
        matchers.push((AnyMatcher::Str(StringMatcher::new('"')), TokenType::String));
        matchers.push((AnyMatcher::Str(StringMatcher::new('\'')), TokenType::String));
        matchers.push((AnyMatcher::Literal(LiteralMatcher::new(":")), TokenType::Colon));
        matchers.push((AnyMatcher::Literal(LiteralMatcher::new(",")), TokenType::Comma));
        matchers.push((AnyMatcher::Literal(LiteralMatcher::new("=")), TokenType::Equal));
        matchers.push((AnyMatcher::Literal(LiteralMatcher::new("<")), TokenType::LessThan));
        matchers.push((AnyMatcher::Literal(LiteralMatcher::new(">")), TokenType::MoreThan));
        matchers.push((AnyMatcher::Literal(LiteralMatcher::new("%")), TokenType::Percent));
        matchers.push((AnyMatcher::Literal(LiteralMatcher::new("{")), TokenType::OpenBracket));
        matchers.push((AnyMatcher::Literal(LiteralMatcher::new("}")), TokenType::CloseBracket));
        matchers.push((AnyMatcher::Literal(LiteralMatcher::new("(")), TokenType::OpenParen));
        matchers.push((AnyMatcher::Literal(LiteralMatcher::new(")")), TokenType::CloseParen));
        matchers.push((AnyMatcher::Literal(LiteralMatcher::new("+")), TokenType::Plus));
        matchers.push((AnyMatcher::Literal(LiteralMatcher::new("-")), TokenType::Minus));
        matchers.push((AnyMatcher::Literal(LiteralMatcher::new("/")), TokenType::Div));
        matchers.push((AnyMatcher::Literal(LiteralMatcher::new("*")), TokenType::Mul));
        matchers.push((AnyMatcher::Literal(LiteralMatcher::new("#")), TokenType::Hash));
        matchers.push((AnyMatcher::Literal(LiteralMatcher::new("\n")), TokenType::EOL));
        Lexer { matchers }
    }


    /// The first matcher that matches a non-empty prefix at char index `start`.
    fn find_match(&self, chars: &Vec<char>, start: usize) -> (res: Option<(usize, TokenType)>)
        requires
            start <= chars@.len(),
            utf8_len(chars@) < usize::MAX,
        ensures
            first_match(self.matchers@, chars@.skip(start as int)) == (match res {
                Some((n, k)) => Some((n as nat, k)),
                None => None,
            }),
            res matches Some((n, _)) ==> 0 < n <= utf8_len(chars@.skip(start as int)) + 1,
    {
        let ghost s = chars@.skip(start as int);
        let ghost ms = self.matchers@;
        let mut idx: usize = 0;
        proof {
            assert(ms.skip(0) =~= ms);
        }
        while idx < self.matchers.len()
            invariant
                idx <= ms.len(),
                ms == self.matchers@,
                s == chars@.skip(start as int),
                start <= chars@.len(),
                utf8_len(chars@) < usize::MAX,
                first_match(ms, s) == first_match(ms.skip(idx as int), s),
            decreases ms.len() - idx,
        {
            let entry = &self.matchers[idx];
            let r = entry.0.check_at(chars, start);
            proof {
                assert(ms.skip(idx as int)[0] == ms[idx as int]);
                assert(ms.skip(idx as int).drop_first() =~= ms.skip(idx + 1));
            }
            match r {
                Ok(n) => {
                    if n > 0 {
                        return Some((n, entry.1));
                    }
                },
                Err(_) => {},
            }
            idx = idx + 1;
        }
        proof {
            assert(ms.skip(idx as int) =~= Seq::<(AnyMatcher, TokenType)>::empty());
        }
        None
    }

    /// Lexes `input`, or gives `None` where the lexer would cut the script
    /// inside a character (or the script is as long as the address space).
    fn lex_core(&self, input: &str) -> (res: Option<Result<Vec<Token>, (Vec<String>, Vec<Token>)>>)
        ensures
            res is Some <==> (lex_from(self.matchers@, input@, 0) is Some && utf8_len(input@) < usize::MAX),
            res matches Some(r) ==> lexed(lex_from(self.matchers@, input@, 0)->0, r),
    {
        let ghost ms = self.matchers@;
        let (chars, len) = chars_of(input);
        if len == usize::MAX {
            return None;
        }
        let ghost s = chars@;
        let blanks = WhitespaceMatcher::new();
        let mut result: Vec<Token> = Vec::new();
        let mut errors: Vec<String> = Vec::new();
        let ghost mut error_pos: Seq<usize> = Seq::empty();
        let mut p: usize = 0;
        // `i` characters take `b` bytes, and `b <= p`.
        let mut i: usize = 0;
        let mut b: usize = 0;
        proof {
            assert(s.take(0) =~= Seq::<char>::empty());
        }
        while p < len
            invariant
                s == chars@,
                s == input@,
                len == utf8_len(s),
                len < usize::MAX,
                p <= len + 1,
                i <= s.len(),
                b == utf8_len(s.take(i as int)),
                b <= p,
                lex_from(ms, s, 0) == glue(result@, error_pos, lex_from(ms, s, p as nat)),
                errors@.len() == error_pos.len(),
                forall|j: int| 0 <= j < error_pos.len() ==> #[trigger] errors@[j]@ == unknown_char_message(error_pos[j]),
                ms == self.matchers@,
            ensures
                lex_from(ms, s, 0) == Some((result@, error_pos)),
                errors@.len() == error_pos.len(),
                forall|j: int| 0 <= j < error_pos.len() ==> #[trigger] errors@[j]@ == unknown_char_message(error_pos[j]),
            decreases len + 1 - p,
        {
            let ghost p0 = p as nat;
            let ghost old_result = result@;
            let ghost old_errs = error_pos;
            let j = match sync_index(&chars, i, b, p) {
                Some(j) => j,
                None => {
                    return None;
                },
            };
            i = j;
            b = p;
            let k = blanks.check_at(&chars, i);
            proof {
                lemma_blank_run_bytes(s, i as int, k as int);
            }
            p = p + k;
            let ghost p1 = p as nat;
            if p == len {
                proof {
                    assert(lex_from(ms, s, p0) == Some((Seq::<Token>::empty(), Seq::<usize>::empty())));
                    assert(result@ + Seq::<Token>::empty() =~= result@);
                    assert(error_pos + Seq::<usize>::empty() =~= error_pos);
                }
                break;
            }
            let j = match sync_index(&chars, i, b, p) {
                Some(j) => j,
                None => {
                    return None;
                },
            };
            i = j;
            b = p;
            proof {
                lemma_utf8_len_skip(s, i as int);
            }
            match self.find_match(&chars, i) {
                Some((n, kind)) => {
                    let t = Token { start: p, end: p + n, kind };
                    result.push(t);
                    p = p + n;
                    proof {
                        let rest = lex_from(ms, s, p as nat);
                        if p >= len {
                            assert(rest == Some((Seq::<Token>::empty(), Seq::<usize>::empty())));
                        }
                        assert(lex_from(ms, s, p0) == (match rest {
                            Some((ts, es)) => Some((seq![t] + ts, es)),
                            None => None,
                        }));
                        if let Some((ts, es)) = rest {
                            assert(old_result + (seq![t] + ts) =~= result@ + ts);
                        }
                    }
                },
                None => {
                    let mut msg = String::new();
                    string_push_str(&mut msg, "Unknown char at pos ");
                    push_decimal(&mut msg, p);
                    errors.push(msg);
                    proof {
                        error_pos = error_pos.push(p);
                    }
                    p = p + 1;
                    proof {
                        let rest = lex_from(ms, s, p as nat);
                        if p >= len {
                            assert(rest == Some((Seq::<Token>::empty(), Seq::<usize>::empty())));
                        }
                        assert(lex_from(ms, s, p0) == (match rest {
                            Some((ts, es)) => Some((ts, seq![p1 as usize] + es)),
                            None => None,
                        }));
                        if let Some((ts, es)) = rest {
                            assert(old_errs + (seq![p1 as usize] + es) =~= error_pos + es);
                        }
                        assert forall|j: int| 0 <= j < error_pos.len() implies #[trigger] errors@[j]@
                            == unknown_char_message(error_pos[j]) by {
                            if j < old_errs.len() {
                                assert(error_pos[j] == old_errs[j]);
                            }
                        }
                    }
                },
            }
        }
        proof {
            if p >= len {
                assert(lex_from(ms, s, p as nat) == Some((Seq::<Token>::empty(), Seq::<usize>::empty())));
                assert(result@ + Seq::<Token>::empty() =~= result@);
                assert(error_pos + Seq::<usize>::empty() =~= error_pos);
            }
        }
        if errors.len() > 0 {
            Some(Err((errors, result)))
        } else {
            Some(Ok(result))
        }
    }

    /// Splits `input` into tokens. Blanks are skipped; a character that no
    /// matcher accepts is reported by its byte position and skipped by one
    /// byte. Without such errors the tokens are returned, else the messages
    /// and the tokens found.
    pub fn lex(&self, input: String) -> (res: Result<Vec<Token>, (Vec<String>, Vec<Token>)>)
        requires
            lex_from(self.matchers@, input@, 0) is Some,
            utf8_len(input@) < usize::MAX,
        ensures
            lexed(lex_from(self.matchers@, input@, 0)->0, res),
    {
        match self.lex_core(input.as_str()) {
            Some(r) => r,
            None => Ok(Vec::new()),
        }
    }

    /// `lex` on the scripts on which it runs through; `None` on those where it
    /// would cut the script inside a character.
    pub fn try_lex(&self, input: &str) -> (res: Option<Result<Vec<Token>, (Vec<String>, Vec<Token>)>>)
        ensures
            res is Some <==> (lex_from(self.matchers@, input@, 0) is Some && utf8_len(input@) < usize::MAX),
            res matches Some(r) ==> lexed(lex_from(self.matchers@, input@, 0)->0, r),
    {
        self.lex_core(input)
    }
}

} // verus!
