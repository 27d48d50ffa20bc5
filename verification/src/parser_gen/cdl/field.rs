//! A CDL field: a name, a colon with whitespace around it, and a value.
use vstd::prelude::*;
use crate::parser_gen::cdl::{Step, as_rest};
use crate::parser_gen::cdl::entity::ww;
use crate::parser_gen::common::{ParseResult, ident_len, identifier_at, run_at, rest_at};
use crate::text::chars_of;

verus! {

/// A field: its name and the value on the right of the colon.
#[derive(Clone, Debug, PartialEq)]
pub struct Field {
    pub name: String,
    pub rhs: Rhs,
}

/// The value of a field: a number (kept as written), an identifier or a
/// quoted string.
#[derive(Clone, Debug, PartialEq)]
pub enum Rhs {
    Number(String),
    Identifier(String),
    QuotedString(String),
}

/// The field at index `i`: an identifier, a colon with whitespace around it,
/// and an identifier; gives the name and the value.
pub open spec fn field_at(s: Seq<char>, i: nat) -> Step<(Seq<char>, Seq<char>)> {
    let n = ident_len(s, i);
    if n == 0 {
        Err(i)
    } else {
        let a = ww(s, i + n);
        if !(a < s.len() && s[a as int] == ':') {
            Err(a)
        } else {
            let b = ww(s, a + 1);
            let m = ident_len(s, b);
            if m == 0 {
                Err(b)
            } else {
                Ok((b + m, (s.subrange(i as int, (i + n) as int), s.subrange(b as int, (b + m) as int))))
            }
        }
    }
}

/// The name and value of a field whose value is an identifier.
pub open spec fn field_view(f: Field) -> (Seq<char>, Seq<char>) {
    (
        f.name@,
        match f.rhs {
            Rhs::Identifier(v) => v@,
            _ => Seq::empty(),
        },
    )
}

/// Reads `:` with whitespace around it.
pub fn colon<'a>(input: &'a str) -> (r: ParseResult<'a, ()>)
    ensures
        as_rest(input@, crate::parser_gen::cdl::entity::bracket_at(input@, 0, ':'), r, |x: ()| x),
{
    let (chars, _n) = chars_of(input);
    let len = chars.len();
    let a = run_at(&chars, 0, 0);
    if a < len && chars[a] == ':' {
        let k = a + 1 + run_at(&chars, a + 1, 0);
        Ok((rest_at(input, &chars, k), ()))
    } else {
        Err(rest_at(input, &chars, a))
    }
}

/// Reads a field: an identifier, a colon and an identifier.
pub fn field<'a>(input: &'a str) -> (r: ParseResult<'a, Field>)
    ensures
        as_rest(input@, field_at(input@, 0), r, |x: Field| field_view(x)),
        r matches Ok((_, f)) ==> f.rhs is Identifier,
{
    let (chars, _n) = chars_of(input);
    let len = chars.len();
    let (n, name) = match identifier_at(&chars, 0) {
        Some(v) => v,
        None => {
            return Err(rest_at(input, &chars, 0));
        },
    };
    let a = n + run_at(&chars, n, 0);
    if !(a < len && chars[a] == ':') {
        return Err(rest_at(input, &chars, a));
    }
    let b = a + 1 + run_at(&chars, a + 1, 0);
    match identifier_at(&chars, b) {
        Some((m, value)) => Ok((rest_at(input, &chars, b + m), Field { name, rhs: Rhs::Identifier(value) })),
        None => Err(rest_at(input, &chars, b)),
    }
}

} // verus!
