//! Tokens that the CDL parser reads.
use vstd::prelude::*;
use crate::text::string_push_str;

verus! {

/// A token of a CDL script. A number keeps the text it was written with.
#[derive(Debug, PartialEq)]
pub enum LexItem {
    Identifier(String),
    Reference(String),
    String(String),
    Number { real_text: String },
    EOL,
    OpenBracket,
    CloseBracket,
    Colon,
    Comma,
    OpenPar,
    ClosePar,
    Plus,
    Minus,
    Mul,
    Div,
}

/// The mathematical value of a token.
pub enum Tok {
    Identifier(Seq<char>),
    Reference(Seq<char>),
    Str(Seq<char>),
    Number(Seq<char>),
    EOL,
    OpenBracket,
    CloseBracket,
    Colon,
    Comma,
    OpenPar,
    ClosePar,
    Plus,
    Minus,
    Mul,
    Div,
}

impl View for LexItem {
    type V = Tok;

    open spec fn view(&self) -> Tok {
        match self {
            LexItem::Identifier(s) => Tok::Identifier(s@),
            LexItem::Reference(s) => Tok::Reference(s@),
            LexItem::String(s) => Tok::Str(s@),
            LexItem::Number { real_text } => Tok::Number(real_text@),
            LexItem::EOL => Tok::EOL,
            LexItem::OpenBracket => Tok::OpenBracket,
            LexItem::CloseBracket => Tok::CloseBracket,
            LexItem::Colon => Tok::Colon,
            LexItem::Comma => Tok::Comma,
            LexItem::OpenPar => Tok::OpenPar,
            LexItem::ClosePar => Tok::ClosePar,
            LexItem::Plus => Tok::Plus,
            LexItem::Minus => Tok::Minus,
            LexItem::Mul => Tok::Mul,
            LexItem::Div => Tok::Div,
        }
    }
}

/// The values of a sequence of tokens.
pub open spec fn toks(v: Seq<LexItem>) -> Seq<Tok> {
    v.map_values(|t: LexItem| t@)
}

/// The text that `Debug` gives for a string: the string in double quotes,
/// with quotes, backslashes and control characters escaped.
pub uninterp spec fn str_debug_text(s: Seq<char>) -> Seq<char>;

/// Formats a string slice with `{:?}` (std's `Debug` for `str`). Its result
/// depends on the characters of `s` alone and is named `str_debug_text`; the
/// escaping rules are not restated.
#[verifier::external_body]
pub(crate) fn str_debug(s: &str) -> (r: String)
    ensures
        r@ == str_debug_text(s@),
{
    format!("{:?}", s)
}

/// The text that the parser's error messages show for a token, as `{:?}`
/// on `LexItem` writes it: the variant's name, then a text field in
/// parentheses, or the `real_text` field of a number in braces.
pub open spec fn token_debug(t: Tok) -> Seq<char> {
    match t {
        Tok::Identifier(s) => "Identifier("@ + str_debug_text(s) + ")"@,
        Tok::Reference(s) => "Reference("@ + str_debug_text(s) + ")"@,
        Tok::Str(s) => "String("@ + str_debug_text(s) + ")"@,
        Tok::Number(s) => "Number { real_text: "@ + str_debug_text(s) + " }"@,
        Tok::EOL => "EOL"@,
        Tok::OpenBracket => "OpenBracket"@,
        Tok::CloseBracket => "CloseBracket"@,
        Tok::Colon => "Colon"@,
        Tok::Comma => "Comma"@,
        Tok::OpenPar => "OpenPar"@,
        Tok::ClosePar => "ClosePar"@,
        Tok::Plus => "Plus"@,
        Tok::Minus => "Minus"@,
        Tok::Mul => "Mul"@,
        Tok::Div => "Div"@,
    }
}

/// `open`, the debug text of `s`, then `close`.
fn wrapped(open: &str, s: &str, close: &str) -> (r: String)
    ensures
        r@ == open@ + str_debug_text(s@) + close@,
{
    let mut r = String::new();
    string_push_str(&mut r, open);
    let d = str_debug(s);
    string_push_str(&mut r, d.as_str());
    string_push_str(&mut r, close);
    r
}

/// A string holding `s`.
fn text(s: &str) -> (r: String)
    ensures
        r@ == s@,
{
    let mut r = String::new();
    string_push_str(&mut r, s);
    r
}

/// The text of a token as the parser's error messages show it (see
/// `token_debug`).
pub fn debug_token(t: &LexItem) -> (s: String)
    ensures
        s@ == token_debug(t@),
{
    match t {
        LexItem::Identifier(v) => wrapped("Identifier(", v.as_str(), ")"),
        LexItem::Reference(v) => wrapped("Reference(", v.as_str(), ")"),
        LexItem::String(v) => wrapped("String(", v.as_str(), ")"),
        LexItem::Number { real_text } => wrapped("Number { real_text: ", real_text.as_str(), " }"),
        LexItem::EOL => text("EOL"),
        LexItem::OpenBracket => text("OpenBracket"),
        LexItem::CloseBracket => text("CloseBracket"),
        LexItem::Colon => text("Colon"),
        LexItem::Comma => text("Comma"),
        LexItem::OpenPar => text("OpenPar"),
        LexItem::ClosePar => text("ClosePar"),
        LexItem::Plus => text("Plus"),
        LexItem::Minus => text("Minus"),
        LexItem::Mul => text("Mul"),
        LexItem::Div => text("Div"),
    }
}

} // verus!
