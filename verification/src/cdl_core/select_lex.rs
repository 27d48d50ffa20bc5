//! Lexer of selectors such as `page > widget[kpi].id > .label`.
use vstd::prelude::*;
use crate::text::string_push;

verus! {

/// Tokens of a selector.
#[derive(Debug, PartialEq)]
pub enum LexItem {
    Identifier(String),
    Dot,
    OpenSquare,
    CloseSquare,
    Arrow,
}

/// The mathematical value of a selector token.
pub enum SelTok {
    Identifier(Seq<char>),
    Dot,
    OpenSquare,
    CloseSquare,
    Arrow,
}

impl View for LexItem {
    type V = SelTok;

    open spec fn view(&self) -> SelTok {
        match self {
            LexItem::Identifier(s) => SelTok::Identifier(s@),
            LexItem::Dot => SelTok::Dot,
            LexItem::OpenSquare => SelTok::OpenSquare,
            LexItem::CloseSquare => SelTok::CloseSquare,
            LexItem::Arrow => SelTok::Arrow,
        }
    }
}

/// The values of a sequence of selector tokens.
pub open spec fn toks_view(v: Seq<LexItem>) -> Seq<SelTok> {
    v.map_values(|t: LexItem| t@)
}

/// ASCII letters and `_` start an identifier.
pub open spec fn sel_ident_start(c: char) -> bool {
    ('a' <= c && c <= 'z') || ('A' <= c && c <= 'Z') || c == '_'
}

/// ASCII letters, digits and `_` continue an identifier.
pub open spec fn sel_ident_char(c: char) -> bool {
    sel_ident_start(c) || ('0' <= c && c <= '9')
}

/// Length of the run of identifier characters at the start of `s`.
pub open spec fn sel_ident_run(s: Seq<char>) -> nat
    decreases s.len(),
{
    if s.len() > 0 && sel_ident_char(s[0]) {
        1 + sel_ident_run(s.drop_first())
    } else {
        0
    }
}

/// The tokens of selector `s`: identifiers, `.`, `[`, `]` and `>`; every
/// other character is skipped.
pub open spec fn sel_lex(s: Seq<char>) -> Seq<SelTok>
    decreases s.len(),
{
    if s.len() == 0 {
        Seq::empty()
    } else {
        let c = s[0];
        if sel_ident_start(c) {
            let k = 1 + sel_ident_run(s.drop_first());
            proof {
                lemma_ident_run_bound(s.drop_first());
            }
            seq![SelTok::Identifier(s.take(k as int))] + sel_lex(s.skip(k as int))
        } else if c == '.' {
            seq![SelTok::Dot] + sel_lex(s.drop_first())
        } else if c == '[' {
            seq![SelTok::OpenSquare] + sel_lex(s.drop_first())
        } else if c == ']' {
            seq![SelTok::CloseSquare] + sel_lex(s.drop_first())
        } else if c == '>' {
            seq![SelTok::Arrow] + sel_lex(s.drop_first())
        } else {
            sel_lex(s.drop_first())
        }
    }
}

pub proof fn lemma_ident_run_bound(s: Seq<char>)
    ensures
        sel_ident_run(s) <= s.len(),
        forall|i: int| 0 <= i < sel_ident_run(s) ==> sel_ident_char(#[trigger] s[i]),
        sel_ident_run(s) < s.len() ==> !sel_ident_char(s[sel_ident_run(s) as int]),
    decreases s.len(),
{
    if s.len() > 0 && sel_ident_char(s[0]) {
        lemma_ident_run_bound(s.drop_first());
        assert forall|i: int| 0 <= i < sel_ident_run(s) implies sel_ident_char(#[trigger] s[i]) by {
            if i > 0 {
                assert(s[i] == s.drop_first()[i - 1]);
            }
        }
    }
}

proof fn lemma_ident_run_unique(s: Seq<char>, k: int)
    requires
        0 <= k <= s.len(),
        forall|i: int| 0 <= i < k ==> sel_ident_char(#[trigger] s[i]),
        k < s.len() ==> !sel_ident_char(s[k]),
    ensures
        sel_ident_run(s) == k,
    decreases s.len(),
{
    if s.len() > 0 && sel_ident_char(s[0]) {
        assert forall|i: int| 0 <= i < k - 1 implies sel_ident_char(#[trigger] s.drop_first()[i]) by {
            assert(s.drop_first()[i] == s[i + 1]);
        }
        if k - 1 < s.drop_first().len() {
            assert(s.drop_first()[k - 1] == s[k]);
        }
        lemma_ident_run_unique(s.drop_first(), k - 1);
    } else if k > 0 {
        assert(sel_ident_char(s[0]));
    }
}

/// The tokens of a lone character that cannot be part of an identifier:
/// `.`, `[`, `]` and `>` give one token each, any other gives none.
pub open spec fn sep_tokens(c: char) -> Seq<SelTok> {
    if c == '.' {
        seq![SelTok::Dot]
    } else if c == '[' {
        seq![SelTok::OpenSquare]
    } else if c == ']' {
        seq![SelTok::CloseSquare]
    } else if c == '>' {
        seq![SelTok::Arrow]
    } else {
        Seq::empty()
    }
}

/// An identifier run stops before a character that cannot continue it.
proof fn lemma_ident_run_stops(x: Seq<char>, y: Seq<char>)
    requires
        y.len() > 0,
        !sel_ident_char(y[0]),
    ensures
        sel_ident_run(x + y) == sel_ident_run(x),
    decreases x.len(),
{
    if x.len() == 0 {
        assert(x + y =~= y);
    } else {
        assert((x + y)[0] == x[0]);
        assert((x + y).drop_first() =~= x.drop_first() + y);
        lemma_ident_run_stops(x.drop_first(), y);
    }
}

/// Splitting law of the selector lexer: lexing `a`, then a character `c`
/// that cannot be part of an identifier, then `b`, gives the tokens of `a`,
/// those of `c` alone (`sep_tokens`) and those of `b`.
pub proof fn lemma_sel_lex_split(a: Seq<char>, c: char, b: Seq<char>)
    requires
        !sel_ident_char(c),
    ensures
        sel_lex(a + seq![c] + b) == sel_lex(a) + sep_tokens(c) + sel_lex(b),
    decreases a.len(),
{
    let s = a + seq![c] + b;
    if a.len() == 0 {
        assert(s[0] == c);
        assert(s.drop_first() =~= b);
        assert(sel_lex(a) =~= Seq::<SelTok>::empty());
        assert(sel_lex(s) =~= sel_lex(a) + sep_tokens(c) + sel_lex(b));
    } else {
        assert(s[0] == a[0]);
        if sel_ident_start(a[0]) {
            assert(s.drop_first() =~= a.drop_first() + (seq![c] + b));
            assert((seq![c] + b)[0] == c);
            lemma_ident_run_stops(a.drop_first(), seq![c] + b);
            lemma_ident_run_bound(a.drop_first());
            let k = 1 + sel_ident_run(a.drop_first());
            assert(s.take(k as int) =~= a.take(k as int));
            assert(s.skip(k as int) =~= a.skip(k as int) + seq![c] + b);
            lemma_sel_lex_split(a.skip(k as int), c, b);
            assert(sel_lex(s) =~= sel_lex(a) + sep_tokens(c) + sel_lex(b));
        } else {
            assert(s.drop_first() =~= a.drop_first() + seq![c] + b);
            lemma_sel_lex_split(a.drop_first(), c, b);
            assert(sel_lex(s) =~= sel_lex(a) + sep_tokens(c) + sel_lex(b));
        }
    }
}

fn is_sel_ident_start(c: char) -> (r: bool)
    ensures
        r == sel_ident_start(c),
{
    ('a' <= c && c <= 'z') || ('A' <= c && c <= 'Z') || c == '_'
}

fn is_sel_ident_char(c: char) -> (r: bool)
    ensures
        r == sel_ident_char(c),
{
    is_sel_ident_start(c) || ('0' <= c && c <= '9')
}

/// The identifier that starts with `c` and goes on with the identifier
/// characters of `chars` from index `start`; returns it with the index after it.
pub fn get_identifier(c: char, chars: &Vec<char>, start: usize) -> (res: (String, usize))
    requires
        start <= chars@.len(),
    ensures
        res.1 == start + sel_ident_run(chars@.skip(start as int)),
        res.1 <= chars@.len(),
        res.0@ == seq![c] + chars@.subrange(start as int, res.1 as int),
{
    let ghost s = chars@.skip(start as int);
    let mut identifier = String::new();
    string_push(&mut identifier, c);
    let mut i = start;
    while i < chars.len()
        invariant
            start <= i <= chars@.len(),
            s == chars@.skip(start as int),
            identifier@ == seq![c] + chars@.subrange(start as int, i as int),
            forall|j: int| 0 <= j < i - start ==> sel_ident_char(#[trigger] s[j]),
        ensures
            start <= i <= chars@.len(),
            identifier@ == seq![c] + chars@.subrange(start as int, i as int),
            forall|j: int| 0 <= j < i - start ==> sel_ident_char(#[trigger] s[j]),
            i < chars@.len() ==> !sel_ident_char(s[i - start]),
        decreases chars@.len() - i,
    {
        let ch = chars[i];
        if !is_sel_ident_char(ch) {
            break;
        }
        string_push(&mut identifier, ch);
        proof {
            assert(chars@.subrange(start as int, i + 1) =~= chars@.subrange(start as int, i as int).push(ch));
        }
        i = i + 1;
    }
    proof {
        lemma_ident_run_unique(s, i - start);
    }
    (identifier, i)
}

/// Splits a selector into tokens (`sel_lex`). Lexing splits at any character
/// that cannot be part of an identifier, as `lemma_sel_lex_split` states.
pub fn lex_selector(selector: &str) -> (res: Vec<LexItem>)
    ensures
        toks_view(res@) == sel_lex(selector@),
{
    let (chars, _n) = crate::text::chars_of(selector);
    let ghost s = chars@;
    let mut result: Vec<LexItem> = Vec::new();
    let mut i: usize = 0;
    proof {
        assert(s.skip(0) =~= s);
        assert(toks_view(result@) =~= Seq::<SelTok>::empty());
    }
    while i < chars.len()
        invariant
            i <= s.len(),
            s == chars@,
            s == selector@,
            sel_lex(s) == toks_view(result@) + sel_lex(s.skip(i as int)),
        decreases s.len() - i,
    {
        let ghost old_result = result@;
        let ghost t = s.skip(i as int);
        let c = chars[i];
        if is_sel_ident_start(c) {
            let (ident, next) = get_identifier(c, &chars, i + 1);
            proof {
                assert(chars@.skip(i + 1) =~= t.drop_first());
                assert(ident@ =~= t.take(next - i));
                assert(s.skip(next as int) =~= t.skip(next - i));
            }
            result.push(LexItem::Identifier(ident));
            i = next;
        } else {
            if c == '.' {
                result.push(LexItem::Dot);
            } else if c == '[' {
                result.push(LexItem::OpenSquare);
            } else if c == ']' {
                result.push(LexItem::CloseSquare);
            } else if c == '>' {
                result.push(LexItem::Arrow);
            }
            proof {
                assert(s.skip(i + 1) =~= t.drop_first());
            }
            i = i + 1;
        }
        proof {
            assert(toks_view(result@) =~= toks_view(old_result) + (toks_view(result@).skip(old_result.len() as int)));
            assert(toks_view(old_result) + sel_lex(t) =~= toks_view(result@) + sel_lex(s.skip(i as int)));
        }
    }
    proof {
        assert(s.skip(i as int) =~= Seq::<char>::empty());
        assert(toks_view(result@) + Seq::<SelTok>::empty() =~= toks_view(result@));
    }
    result
}

} // verus!
