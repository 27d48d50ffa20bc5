//! Parser of selector tokens into a chain of selectors.
use vstd::prelude::*;
use crate::cdl_core::select_lex::{LexItem, SelTok, toks_view};

verus! {

/// A selector: optional main type, sub type and identifier, and an optional
/// selector for descendants (after `>`).
#[derive(Debug)]
pub struct Selector {
    pub main_type: Option<String>,
    pub sub_type: Option<String>,
    pub identifier: Option<String>,
    pub child: Option<Box<Selector>>,
}

/// The mathematical value of a selector.
pub struct SelectorV {
    pub main_type: Option<Seq<char>>,
    pub sub_type: Option<Seq<char>>,
    pub identifier: Option<Seq<char>>,
    pub child: Option<Box<SelectorV>>,
}

pub open spec fn opt_str_view(o: Option<String>) -> Option<Seq<char>> {
    match o {
        Some(s) => Some(s@),
        None => None,
    }
}

pub open spec fn sel_view(s: Selector) -> SelectorV
    decreases s,
{
    SelectorV {
        main_type: opt_str_view(s.main_type),
        sub_type: opt_str_view(s.sub_type),
        identifier: opt_str_view(s.identifier),
        child: match s.child {
            Some(b) => Some(Box::new(sel_view(*b))),
            None => None,
        },
    }
}

/// The text of an identifier token.
pub open spec fn tok_ident(t: SelTok) -> Seq<char> {
    match t {
        SelTok::Identifier(s) => s,
        _ => Seq::empty(),
    }
}

/// Parses the selector that starts at token `i`: an optional main type or
/// `>`, then an optional `[sub type]` or `>`, then an optional `.identifier`
/// or `>`; a `>` makes the rest a child selector. Gives the selector and the
/// index after it, or `None` where the parser would panic (a malformed
/// `[...]` or `.` part).
pub open spec fn parse_sel(t: Seq<SelTok>, i: nat) -> Option<(SelectorV, nat)>
    decreases t.len() - i, 2int,
{
    if i >= t.len() {
        Some((SelectorV { main_type: None, sub_type: None, identifier: None, child: None }, i))
    } else {
        match t[i as int] {
            SelTok::Identifier(s) => parse_sel_sub(
                t,
                i + 1,
                SelectorV { main_type: Some(s), sub_type: None, identifier: None, child: None },
            ),
            SelTok::Arrow => match parse_sel(t, i + 1) {
                Some((c, j)) => if i < j <= t.len() {
                    parse_sel_sub(
                        t,
                        j,
                        SelectorV { main_type: None, sub_type: None, identifier: None, child: Some(Box::new(c)) },
                    )
                } else {
                    None
                },
                None => None,
            },
            _ => parse_sel_sub(t, i, SelectorV { main_type: None, sub_type: None, identifier: None, child: None }),
        }
    }
}

/// Second part of `parse_sel`: the optional `[sub type]` or `>`.
pub open spec fn parse_sel_sub(t: Seq<SelTok>, i: nat, res: SelectorV) -> Option<(SelectorV, nat)>
    decreases t.len() - i, 1int,
{
    if i >= t.len() {
        Some((res, i))
    } else {
        match t[i as int] {
            SelTok::OpenSquare => if i + 2 < t.len() && t[i + 1 as int] is Identifier && t[i + 2 as int] is CloseSquare {
                parse_sel_id(t, i + 3, SelectorV { sub_type: Some(tok_ident(t[i + 1 as int])), ..res })
            } else {
                None
            },
            SelTok::Arrow => match parse_sel(t, i + 1) {
                Some((c, j)) => if i < j <= t.len() {
                    parse_sel_id(t, j, SelectorV { child: Some(Box::new(c)), ..res })
                } else {
                    None
                },
                None => None,
            },
            _ => parse_sel_id(t, i, res),
        }
    }
}

/// Third part of `parse_sel`: the optional `.identifier` or `>`.
pub open spec fn parse_sel_id(t: Seq<SelTok>, i: nat, res: SelectorV) -> Option<(SelectorV, nat)>
    decreases t.len() - i, 0int,
{
    if i >= t.len() {
        Some((res, i))
    } else {
        match t[i as int] {
            SelTok::Dot => if i + 1 < t.len() && t[i + 1 as int] is Identifier {
                Some((SelectorV { identifier: Some(tok_ident(t[i + 1 as int])), ..res }, i + 2))
            } else {
                None
            },
            SelTok::Arrow => match parse_sel(t, i + 1) {
                Some((c, j)) => Some((SelectorV { child: Some(Box::new(c)), ..res }, j)),
                None => None,
            },
            _ => Some((res, i)),
        }
    }
}

/// The parse of a selector ends after its start and within the tokens.
pub proof fn lemma_parse_sel_bounds(t: Seq<SelTok>, i: nat)
    ensures
        parse_sel(t, i) matches Some((_, j)) ==> i <= j && (i <= t.len() ==> j <= t.len()),
    decreases t.len() - i, 2int,
{
    if i < t.len() {
        match t[i as int] {
            SelTok::Identifier(s) => lemma_parse_sel_sub_bounds(
                t,
                i + 1,
                SelectorV { main_type: Some(s), sub_type: None, identifier: None, child: None },
            ),
            SelTok::Arrow => match parse_sel(t, i + 1) {
                Some((c, j)) => if i < j <= t.len() {
                    lemma_parse_sel_sub_bounds(
                        t,
                        j,
                        SelectorV { main_type: None, sub_type: None, identifier: None, child: Some(Box::new(c)) },
                    );
                },
                None => {},
            },
            _ => lemma_parse_sel_sub_bounds(t, i, SelectorV { main_type: None, sub_type: None, identifier: None, child: None }),
        }
    }
}

pub proof fn lemma_parse_sel_sub_bounds(t: Seq<SelTok>, i: nat, res: SelectorV)
    ensures
        parse_sel_sub(t, i, res) matches Some((_, j)) ==> i <= j && (i <= t.len() ==> j <= t.len()),
    decreases t.len() - i, 1int,
{
    if i < t.len() {
        match t[i as int] {
            SelTok::OpenSquare => if i + 2 < t.len() && t[i + 1 as int] is Identifier && t[i + 2 as int] is CloseSquare {
                lemma_parse_sel_id_bounds(t, i + 3, SelectorV { sub_type: Some(tok_ident(t[i + 1 as int])), ..res });
            },
            SelTok::Arrow => match parse_sel(t, i + 1) {
                Some((c, j)) => if i < j <= t.len() {
                    lemma_parse_sel_id_bounds(t, j, SelectorV { child: Some(Box::new(c)), ..res });
                },
                None => {},
            },
            _ => lemma_parse_sel_id_bounds(t, i, res),
        }
    }
}

pub proof fn lemma_parse_sel_id_bounds(t: Seq<SelTok>, i: nat, res: SelectorV)
    ensures
        parse_sel_id(t, i, res) matches Some((_, j)) ==> i <= j && (i <= t.len() ==> j <= t.len()),
    decreases t.len() - i, 0int,
{
    if i < t.len() {
        match t[i as int] {
            SelTok::Arrow => {
                lemma_parse_sel_bounds(t, i + 1);
            },
            _ => {},
        }
    }
}

/// Parses selector tokens.
#[derive(Debug)]
pub struct SelectorParser {
    pub tokens: Vec<LexItem>,
    pub index: usize,
}

impl SelectorParser {
    pub fn new(tokens: Vec<LexItem>) -> (p: SelectorParser)
        ensures
            p.tokens@ == tokens@,
            p.index == 0,
    {
        SelectorParser { tokens, index: 0 }
    }

    pub open spec fn outcome(&self) -> Option<(SelectorV, nat)> {
        parse_sel(toks_view(self.tokens@), self.index as nat)
    }

    /// Parses the selector at the current token; the parser moves past it.
    pub fn parse(&mut self) -> (res: Result<Selector, String>)
        requires
            old(self).outcome() is Some,
        ensures
            res matches Ok(sel) && sel_view(sel) == old(self).outcome().unwrap().0,
            final(self).index == old(self).outcome().unwrap().1,
            final(self).tokens@ == old(self).tokens@,
    {
        self.parse_selector()
    }

    /// The kind of token at `index`, with its text for an identifier.
    fn peek(&self) -> (res: (u8, Option<String>))
        requires
            self.index < self.tokens@.len(),
        ensures
            ({
                let t = self.tokens@[self.index as int]@;
                &&& (res.0 == 0) == (t is Identifier)
                &&& (res.0 == 1) == (t is Dot)
                &&& (res.0 == 2) == (t is OpenSquare)
                &&& (res.0 == 3) == (t is CloseSquare)
                &&& (res.0 == 4) == (t is Arrow)
                &&& res.1 matches Some(s) ==> t is Identifier && s@ == tok_ident(t)
                &&& t is Identifier ==> res.1 is Some
            }),
    {
        match &self.tokens[self.index] {
            LexItem::Identifier(s) => (0, Some(s.clone())),
            LexItem::Dot => (1, None),
            LexItem::OpenSquare => (2, None),
            LexItem::CloseSquare => (3, None),
            LexItem::Arrow => (4, None),
        }
    }

    fn parse_selector(&mut self) -> (res: Result<Selector, String>)
        requires
            old(self).outcome() is Some,
        ensures
            res matches Ok(sel) && sel_view(sel) == old(self).outcome().unwrap().0,
            final(self).index == old(self).outcome().unwrap().1,
            final(self).tokens@ == old(self).tokens@,
        decreases old(self).tokens@.len() - old(self).index, 2int,
    {
        let empty = Selector { main_type: None, sub_type: None, identifier: None, child: None };
        if self.index >= self.tokens.len() {
            return Ok(empty);
        }
        let (kind, text) = self.peek();
        if kind == 0 {
            self.index = self.index + 1;
            let res = Selector { main_type: text, sub_type: None, identifier: None, child: None };
            self.parse_sub(res)
        } else if kind == 4 {
            self.index = self.index + 1;
            proof {
                lemma_parse_sel_bounds(toks_view(self.tokens@), self.index as nat);
            }
            let c = self.parse_selector()?;
            let res = Selector { main_type: None, sub_type: None, identifier: None, child: Some(Box::new(c)) };
            self.parse_sub(res)
        } else {
            self.parse_sub(empty)
        }
    }

    fn parse_sub(&mut self, res: Selector) -> (out: Result<Selector, String>)
        requires
            parse_sel_sub(toks_view(old(self).tokens@), old(self).index as nat, sel_view(res)) is Some,
        ensures
            ({
                let o = parse_sel_sub(toks_view(old(self).tokens@), old(self).index as nat, sel_view(res)).unwrap();
                &&& out matches Ok(sel) && sel_view(sel) == o.0
                &&& final(self).index == o.1
            }),
            final(self).tokens@ == old(self).tokens@,
        decreases old(self).tokens@.len() - old(self).index, 1int,
    {
        let mut res = res;
        if self.index >= self.tokens.len() {
            return Ok(res);
        }
        let (kind, _text) = self.peek();
        if kind == 2 {
            // `[`, an identifier and `]`
            self.index = self.index + 1;
            let (_k, ident) = self.peek();
            self.index = self.index + 1;
            let (_k2, _t2) = self.peek();
            self.index = self.index + 1;
            res.sub_type = ident;
            self.parse_id(res)
        } else if kind == 4 {
            self.index = self.index + 1;
            proof {
                lemma_parse_sel_bounds(toks_view(self.tokens@), self.index as nat);
            }
            let c = self.parse_selector()?;
            res.child = Some(Box::new(c));
            self.parse_id(res)
        } else {
            self.parse_id(res)
        }
    }

    fn parse_id(&mut self, res: Selector) -> (out: Result<Selector, String>)
        requires
            parse_sel_id(toks_view(old(self).tokens@), old(self).index as nat, sel_view(res)) is Some,
        ensures
            ({
                let o = parse_sel_id(toks_view(old(self).tokens@), old(self).index as nat, sel_view(res)).unwrap();
                &&& out matches Ok(sel) && sel_view(sel) == o.0
                &&& final(self).index == o.1
            }),
            final(self).tokens@ == old(self).tokens@,
        decreases old(self).tokens@.len() - old(self).index, 0int,
    {
        let mut res = res;
        if self.index >= self.tokens.len() {
            return Ok(res);
        }
        let (kind, _text) = self.peek();
        if kind == 1 {
            self.index = self.index + 1;
            let (_k, ident) = self.peek();
            self.index = self.index + 1;
            res.identifier = ident;
            Ok(res)
        } else if kind == 4 {
            self.index = self.index + 1;
            proof {
                lemma_parse_sel_bounds(toks_view(self.tokens@), self.index as nat);
            }
            let c = self.parse_selector()?;
            res.child = Some(Box::new(c));
            Ok(res)
        } else {
            Ok(res)
        }
    }
}

} // verus!
