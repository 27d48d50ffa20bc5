//! A small lexer that splits a script into identifiers separated by white
//! space, with the literal matcher it was grown with.
use vstd::prelude::*;
use crate::text::{
    spec_is_alphabetic, spec_is_whitespace, is_alphabetic, utf8_len, span_len, chars_of,
    lemma_span_len_bound, lemma_utf8_len_take, lemma_utf8_len_ge_len, lemma_utf8_len_split,
};
use crate::cdl_lexer::{
    CharClass, led_span, ident_tail_char, literal_span, has_boundary, char_index, scan_run,
    sync_index, lemma_blank_run_bytes, lemma_utf8_len_skip, IdentifierMatcher as CdlIdentifierMatcher,
    LiteralMatcher as CdlLiteralMatcher,
};

verus! {

/// The one kind of token this lexer produces.
#[derive(Debug, PartialEq, Eq, Copy, Clone)]
pub enum TokenType {
    Identifier,
}

/// An identifier token over the byte range `start..end`.
#[derive(Debug, PartialEq)]
pub struct Token {
    pub start: usize,
    pub end: usize,
    pub kind: TokenType,
}

/// Matches one fixed literal.
pub struct LiteralMatcher {
    pub literal: &'static str,
}

impl LiteralMatcher {
    pub fn new(literal: &'static str) -> (m: LiteralMatcher)
        ensures
            m.literal@ == literal@,
    {
        LiteralMatcher { literal }
    }

    /// The literal's byte length when `input` starts with it, 0 when the
    /// first bytes of `input` as long as the literal differ from it, and an
    /// error when `input` has no prefix of that many bytes.
    pub fn check(&self, input: &str) -> (res: Result<usize, &'static str>)
        ensures
            literal_span(input@, self.literal@) == (match res {
                Ok(n) => Some(n as nat),
                Err(_) => None,
            }),
            res matches Err(e) ==> e@ == "unexpected end of input"@,
    {
        let (chars, _n) = chars_of(input);
        proof {
            assert(chars@.skip(0) =~= chars@);
        }
        let m = CdlLiteralMatcher::new(self.literal);
        m.check_at(&chars, 0)
    }
}

/// Matches an identifier: a letter, then letters, digits, `-` and `_`.
pub struct IdentifierMatcher {}

impl IdentifierMatcher {
    pub fn new() -> (m: IdentifierMatcher) {
        IdentifierMatcher {  }
    }

    pub open spec fn outcome(s: Seq<char>) -> Option<nat> {
        led_span(s, |c: char| spec_is_alphabetic(c), |c: char| ident_tail_char(c))
    }

    /// The matcher run at char index `start` of `chars`.
    pub fn check_at(&self, chars: &Vec<char>, start: usize) -> (res: Result<usize, &'static str>)
        requires
            start <= chars@.len(),
            utf8_len(chars@) <= usize::MAX,
        ensures
            Self::outcome(chars@.skip(start as int)) == (match res {
                Ok(n) => Some(n as nat),
                Err(_) => None,
            }),
            res matches Err(e) ==> e@ == "EOF"@,
    {
        CdlIdentifierMatcher::new().check_at(chars, start)
    }

    /// Byte length of the identifier at the start of `input`.
    pub fn check(&self, input: &str) -> (res: Result<usize, &'static str>)
        ensures
            Self::outcome(input@) == (match res {
                Ok(n) => Some(n as nat),
                Err(_) => None,
            }),
            res matches Err(e) ==> e@ == "EOF"@,
    {
        let (chars, _n) = chars_of(input);
        proof {
            assert(chars@.skip(0) =~= chars@);
        }
        self.check_at(&chars, 0)
    }
}

/// The number of characters (not bytes) of white space, newlines included,
/// at the start of `input`; it never fails.
pub fn whitespace(input: &str) -> (res: Result<usize, &'static str>)
    ensures
        res matches Ok(n) && n == span_len(input@, |c: char| spec_is_whitespace(c)),
{
    let (chars, _n) = chars_of(input);
    let (k, _bytes) = scan_run(&chars, 0, &CharClass::Whitespace);
    proof {
        assert(chars@.skip(0) =~= chars@);
        assert((CharClass::Whitespace.holds()) == (|c: char| spec_is_whitespace(c)));
    }
    Ok(k)
}

/// Identifier tokens that lexing `s` from byte `p` on produces, or `None`
/// when the lexer would cut `s` inside a character or stop making progress
/// (at a character that is neither white space nor the start of an
/// identifier, where it would record empty tokens without end).
pub open spec fn ilex_from(s: Seq<char>, p: nat) -> Option<Seq<Token>>
    decreases utf8_len(s) - p,
{
    let len = utf8_len(s);
    if p >= len {
        Some(Seq::empty())
    } else if !has_boundary(s, p) {
        None
    } else {
        let p1 = p + span_len(s.skip(char_index(s, p)), |c: char| spec_is_whitespace(c));
        if p1 >= len {
            Some(Seq::empty())
        } else if !has_boundary(s, p1) {
            None
        } else {
            match IdentifierMatcher::outcome(s.skip(char_index(s, p1))) {
                Some(n) => if n == 0 {
                    None
                } else {
                    let t = Token { start: p1 as usize, end: (p1 + n) as usize, kind: TokenType::Identifier };
                    let rest = if p1 + n >= len {
                        Some(Seq::empty())
                    } else {
                        ilex_from(s, p1 + n)
                    };
                    match rest {
                        Some(ts) => Some(seq![t] + ts),
                        None => None,
                    }
                },
                None => None,
            }
        }
    }
}

/// Splits input into identifiers.
#[derive(Debug)]
pub struct Lexer {}

impl Lexer {
    pub fn new() -> (l: Lexer) {
        Lexer {  }
    }

    fn lex_core(&self, input: &str) -> (res: Option<Vec<Token>>)
        ensures
            res is Some <==> ilex_from(input@, 0) is Some,
            res matches Some(v) ==> v@ == ilex_from(input@, 0)->0,
    {
        let (chars, len) = chars_of(input);
        let ghost s = chars@;
        let ident = IdentifierMatcher::new();
        let mut result: Vec<Token> = Vec::new();
        let mut p: usize = 0;
        let mut i: usize = 0;
        let mut b: usize = 0;
        proof {
            assert(s.take(0) =~= Seq::<char>::empty());
            lemma_utf8_len_ge_len(s);
        }
        while p < len
            invariant
                s == chars@,
                s == input@,
                len == utf8_len(s),
                p <= len,
                i <= s.len(),
                b == utf8_len(s.take(i as int)),
                b <= p,
                ilex_from(s, 0) == (match ilex_from(s, p as nat) {
                    Some(ts) => Some(result@ + ts),
                    None => None,
                }),
            ensures
                ilex_from(s, 0) == Some(result@),
            decreases len - p,
        {
            let ghost p0 = p as nat;
            let ghost old_result = result@;
            let j = match sync_index(&chars, i, b, p) {
                Some(j) => j,
                None => {
                    return None;
                },
            };
            i = j;
            b = p;
            let (k, _bytes) = scan_run(&chars, i, &CharClass::Whitespace);
            proof {
                assert((CharClass::Whitespace.holds()) == (|c: char| spec_is_whitespace(c)));
                lemma_blank_run_bytes(s, i as int, k as int);
            }
            p = p + k;
            if p == len {
                proof {
                    assert(ilex_from(s, p0) == Some(Seq::<Token>::empty()));
                    assert(result@ + Seq::<Token>::empty() =~= result@);
                }
                break;
            }
            let j = match sync_index(&chars, i, b, p) {
                Some(j) => j,
                None => {
                    return None;
                },
            };
            i = j;
            b = p;
            proof {
                lemma_utf8_len_skip(s, i as int);
                let t = s.skip(i as int);
                if t.len() > 0 {
                    lemma_span_len_bound(t.drop_first(), |c: char| ident_tail_char(c));
                    lemma_utf8_len_take(t, 1 + span_len(t.drop_first(), |c: char| ident_tail_char(c)) as int);
                }
            }
            match ident.check_at(&chars, i) {
                Ok(n) => {
                    if n == 0 {
                        return None;
                    }
                    let t = Token { start: p, end: p + n, kind: TokenType::Identifier };
                    result.push(t);
                    p = p + n;
                    proof {
                        if p >= len {
                            assert(ilex_from(s, p as nat) == Some(Seq::<Token>::empty()));
                        }
                        if let Some(ts) = ilex_from(s, p as nat) {
                            assert(old_result + (seq![t] + ts) =~= result@ + ts);
                        }
                    }
                },
                Err(_) => {
                    return None;
                },
            }
        }
        proof {
            if p >= len {
                assert(ilex_from(s, p as nat) == Some(Seq::<Token>::empty()));
                assert(result@ + Seq::<Token>::empty() =~= result@);
            }
        }
        Some(result)
    }

    /// Splits `input` into identifier tokens, skipping white space.
    pub fn lex(&self, input: String) -> (res: Result<Vec<Token>, &'static str>)
        requires
            ilex_from(input@, 0) is Some,
        ensures
            res matches Ok(v) && v@ == ilex_from(input@, 0)->0,
    {
        match self.lex_core(input.as_str()) {
            Some(v) => Ok(v),
            None => Err("ran out of input lexing whitespace"),
        }
    }

    /// `lex` on the scripts on which it runs through; `None` on those where
    /// it would cut the script inside a character or run without end.
    pub fn try_lex(&self, input: &str) -> (res: Option<Vec<Token>>)
        ensures
            res is Some <==> ilex_from(input@, 0) is Some,
            res matches Some(v) ==> v@ == ilex_from(input@, 0)->0,
    {
        self.lex_core(input)
    }
}

} // verus!
