//! The header of a CDL entity: its types, `@references`, an optional `#id`,
//! each followed by whitespace, and the opening `{`.
use vstd::prelude::*;
use crate::parser_gen::common::{ParseResult, ident_len, ws_len, identifier_at, run_at, rest_at};
use crate::text::{chars_of, utf8_len};

pub mod entity;
pub mod field;

verus! {

/// An entity, by its types.
#[derive(Clone, Debug, PartialEq, Eq)]
pub struct Entity {
    pub entity_type: Vec<String>,
}

/// The header of an entity: its types, its references and its id (empty
/// where it has none).
#[derive(Clone, Debug, PartialEq, Eq)]
pub struct EntityHeader {
    pub entity_type: Vec<String>,
    pub entity_refs: Vec<String>,
    pub entity_id: String,
}

/// The value of a header.
pub struct HeaderV {
    pub entity_type: Seq<Seq<char>>,
    pub entity_refs: Seq<Seq<char>>,
    pub entity_id: Seq<char>,
}

/// The texts of a vector of strings.
pub open spec fn strs(v: Seq<String>) -> Seq<Seq<char>> {
    v.map_values(|x: String| x@)
}

impl View for EntityHeader {
    type V = HeaderV;

    open spec fn view(&self) -> HeaderV {
        HeaderV {
            entity_type: strs(self.entity_type@),
            entity_refs: strs(self.entity_refs@),
            entity_id: self.entity_id@,
        }
    }
}

/// An outcome at index `i` of `s`: the index after what was read with the
/// value read, or the index at which reading failed.
pub type Step<T> = Result<(nat, T), nat>;

/// An identifier at index `i` and the whitespace after it.
pub open spec fn type_at(s: Seq<char>, i: nat) -> Step<Seq<char>> {
    let n = ident_len(s, i);
    if n == 0 {
        Err(i)
    } else {
        let j = i + n;
        Ok((j + ws_len(s, j), s.subrange(i as int, j as int)))
    }
}

/// As many types as follow one another from index `i`.
pub open spec fn types_from(s: Seq<char>, i: nat) -> (nat, Seq<Seq<char>>)
    decreases s.len() - i,
{
    match type_at(s, i) {
        Ok((j, t)) => if i < j <= s.len() {
            let (k, ts) = types_from(s, j);
            (k, seq![t] + ts)
        } else {
            (i, Seq::empty())
        },
        Err(_) => (i, Seq::empty()),
    }
}

/// One or more types from index `i`.
pub open spec fn types_at(s: Seq<char>, i: nat) -> Step<Seq<Seq<char>>> {
    if type_at(s, i) is Err {
        Err(i)
    } else {
        Ok(types_from(s, i))
    }
}

/// `@`, an identifier and the whitespace after it, at index `i`.
pub open spec fn ref_at(s: Seq<char>, i: nat) -> Step<Seq<char>> {
    if !(i < s.len() && s[i as int] == '@') {
        Err(i)
    } else {
        let n = ident_len(s, i + 1);
        if n == 0 {
            Err(i + 1)
        } else {
            let j = i + 1 + n;
            Ok((j + ws_len(s, j), s.subrange((i + 1) as int, j as int)))
        }
    }
}

/// As many references as follow one another from index `i`.
pub open spec fn refs_from(s: Seq<char>, i: nat) -> (nat, Seq<Seq<char>>)
    decreases s.len() - i,
{
    match ref_at(s, i) {
        Ok((j, t)) => if i < j <= s.len() {
            let (k, ts) = refs_from(s, j);
            (k, seq![t] + ts)
        } else {
            (i, Seq::empty())
        },
        Err(_) => (i, Seq::empty()),
    }
}

/// `#`, an identifier and the whitespace after it, at index `i`; the empty
/// id, reading nothing, where there is none.
pub open spec fn id_at(s: Seq<char>, i: nat) -> (nat, Seq<char>) {
    if i < s.len() && s[i as int] == '#' && ident_len(s, i + 1) > 0 {
        let j = i + 1 + ident_len(s, i + 1);
        (j + ws_len(s, j), s.subrange((i + 1) as int, j as int))
    } else {
        (i, Seq::empty())
    }
}

/// The header at index `i`: one or more types, references, an optional id
/// and the opening `{`.
pub open spec fn header_at(s: Seq<char>, i: nat) -> Step<HeaderV> {
    match types_at(s, i) {
        Err(e) => Err(e),
        Ok((j, types)) => {
            let (k, refs) = refs_from(s, j);
            let (m, id) = id_at(s, k);
            if m < s.len() && s[m as int] == '{' {
                Ok((m + 1, HeaderV { entity_type: types, entity_refs: refs, entity_id: id }))
            } else {
                Err(m)
            }
        },
    }
}

/// The outcome of a parser run on `input` as what is left of `input`.
pub open spec fn as_rest<T, V>(input: Seq<char>, step: Step<V>, r: ParseResult<T>, view: spec_fn(T) -> V) -> bool {
    match step {
        Ok((j, v)) => r matches Ok((rest, x)) && rest@ == input.skip(j as int) && view(x) == v,
        Err(e) => r matches Err(rest) && rest@ == input.skip(e as int),
    }
}

/// The type at `pos` and the whitespace after it.
pub(crate) fn type_exec(chars: &Vec<char>, pos: usize) -> (r: Result<(usize, String), usize>)
    requires
        pos <= chars@.len(),
    ensures
        match type_at(chars@, pos as nat) {
            Ok((j, t)) => r matches Ok((k, x)) && k == j && x@ == t && pos < k <= chars@.len(),
            Err(e) => r matches Err(k) && k == e && k <= chars@.len(),
        },
{
    let len = chars.len();
    match identifier_at(chars, pos) {
        None => Err(pos),
        Some((n, id)) => {
            let ws = run_at(chars, pos + n, 0);
            Ok((pos + n + ws, id))
        },
    }
}

/// The reference at `pos` and the whitespace after it.
fn ref_exec(chars: &Vec<char>, pos: usize) -> (r: Result<(usize, String), usize>)
    requires
        pos <= chars@.len(),
    ensures
        match ref_at(chars@, pos as nat) {
            Ok((j, t)) => r matches Ok((k, x)) && k == j && x@ == t && pos < k <= chars@.len(),
            Err(e) => r matches Err(k) && k == e && k <= chars@.len(),
        },
{
    let len = chars.len();
    if !(pos < chars.len() && chars[pos] == '@') {
        return Err(pos);
    }
    match identifier_at(chars, pos + 1) {
        None => Err(pos + 1),
        Some((n, id)) => {
            let ws = run_at(chars, pos + 1 + n, 0);
            Ok((pos + 1 + n + ws, id))
        },
    }
}

/// The types from `pos` on, one or more.
fn types_exec(chars: &Vec<char>, pos: usize) -> (r: Result<(usize, Vec<String>), usize>)
    requires
        pos <= chars@.len(),
    ensures
        match types_at(chars@, pos as nat) {
            Ok((j, t)) => r matches Ok((k, x)) && k == j && strs(x@) == t && k <= chars@.len(),
            Err(e) => r matches Err(k) && k == e && k <= chars@.len(),
        },
{
    let ghost s = chars@;
    if type_exec(chars, pos).is_err() {
        return Err(pos);
    }
    let mut result: Vec<String> = Vec::new();
    let mut i = pos;
    loop
        invariant
            pos <= i <= s.len(),
            s == chars@,
            types_from(s, pos as nat) == (types_from(s, i as nat).0, strs(result@) + types_from(s, i as nat).1),
        ensures
            i <= s.len(),
            types_from(s, pos as nat) == (i as nat, strs(result@)),
        decreases s.len() - i,
    {
        match type_exec(chars, i) {
            Ok((j, t)) => {
                let ghost before = strs(result@);
                result.push(t);
                proof {
                    assert(strs(result@) =~= before.push(t@));
                    assert(strs(result@) + types_from(s, j as nat).1 =~= before + (seq![t@] + types_from(
                        s,
                        j as nat,
                    ).1));
                }
                i = j;
            },
            Err(_) => {
                proof {
                    assert(strs(result@) + Seq::<Seq<char>>::empty() =~= strs(result@));
                }
                break;
            },
        }
    }
    Ok((i, result))
}

/// The references from `pos` on, none or more.
fn refs_exec(chars: &Vec<char>, pos: usize) -> (r: (usize, Vec<String>))
    requires
        pos <= chars@.len(),
    ensures
        refs_from(chars@, pos as nat) == (r.0 as nat, strs(r.1@)),
        r.0 <= chars@.len(),
{
    let ghost s = chars@;
    let mut result: Vec<String> = Vec::new();
    let mut i = pos;
    proof {
        assert(strs(result@) + refs_from(s, i as nat).1 =~= refs_from(s, i as nat).1);
    }
    loop
        invariant
            pos <= i <= s.len(),
            s == chars@,
            refs_from(s, pos as nat) == (refs_from(s, i as nat).0, strs(result@) + refs_from(s, i as nat).1),
        ensures
            i <= s.len(),
            refs_from(s, pos as nat) == (i as nat, strs(result@)),
        decreases s.len() - i,
    {
        match ref_exec(chars, i) {
            Ok((j, t)) => {
                let ghost before = strs(result@);
                result.push(t);
                proof {
                    assert(strs(result@) =~= before.push(t@));
                    assert(strs(result@) + refs_from(s, j as nat).1 =~= before + (seq![t@] + refs_from(
                        s,
                        j as nat,
                    ).1));
                }
                i = j;
            },
            Err(_) => {
                proof {
                    assert(strs(result@) + Seq::<Seq<char>>::empty() =~= strs(result@));
                }
                break;
            },
        }
    }
    (i, result)
}

/// The id at `pos`, or the empty id reading nothing.
fn id_exec(chars: &Vec<char>, pos: usize) -> (r: (usize, String))
    requires
        pos <= chars@.len(),
    ensures
        id_at(chars@, pos as nat) == (r.0 as nat, r.1@),
        r.0 <= chars@.len(),
{
    let len = chars.len();
    if pos < chars.len() && chars[pos] == '#' {
        if let Some((n, id)) = identifier_at(chars, pos + 1) {
            let ws = run_at(chars, pos + 1 + n, 0);
            return (pos + 1 + n + ws, id);
        }
    }
    (pos, String::new())
}

/// The header at `pos`.
fn header_exec(chars: &Vec<char>, pos: usize) -> (r: Result<(usize, EntityHeader), usize>)
    requires
        pos <= chars@.len(),
    ensures
        match header_at(chars@, pos as nat) {
            Ok((j, h)) => r matches Ok((k, x)) && k == j && x@ == h,
            Err(e) => r matches Err(k) && k == e && k <= chars@.len(),
        },
{
    let (j, types) = match types_exec(chars, pos) {
        Ok(v) => v,
        Err(e) => {
            return Err(e);
        },
    };
    let (k, refs) = refs_exec(chars, j);
    let (m, id) = id_exec(chars, k);
    if m < chars.len() && chars[m] == '{' {
        Ok((m + 1, EntityHeader { entity_type: types, entity_refs: refs, entity_id: id }))
    } else {
        Err(m)
    }
}

/// Reads an identifier and the whitespace after it; gives the identifier.
pub fn entity_type<'a>(input: &'a str) -> (r: ParseResult<'a, String>)
    ensures
        as_rest(input@, type_at(input@, 0), r, |x: String| x@),
{
    let (chars, n) = chars_of(input);
    match type_exec(&chars, 0) {
        Ok((k, t)) => Ok((rest_at(input, &chars, k), t)),
        Err(e) => Err(rest_at(input, &chars, e)),
    }
}

/// Reads one or more types.
pub fn entity_types<'a>(input: &'a str) -> (r: ParseResult<'a, Vec<String>>)
    ensures
        as_rest(input@, types_at(input@, 0), r, |x: Vec<String>| strs(x@)),
{
    let (chars, n) = chars_of(input);
    match types_exec(&chars, 0) {
        Ok((k, t)) => Ok((rest_at(input, &chars, k), t)),
        Err(e) => Err(rest_at(input, &chars, e)),
    }
}

/// Reads `@`, an identifier and the whitespace after it; gives the
/// identifier.
pub fn entity_ref<'a>(input: &'a str) -> (r: ParseResult<'a, String>)
    ensures
        as_rest(input@, ref_at(input@, 0), r, |x: String| x@),
{
    let (chars, n) = chars_of(input);
    match ref_exec(&chars, 0) {
        Ok((k, t)) => Ok((rest_at(input, &chars, k), t)),
        Err(e) => Err(rest_at(input, &chars, e)),
    }
}

/// Reads none or more references.
pub fn entity_refs<'a>(input: &'a str) -> (r: ParseResult<'a, Vec<String>>)
    ensures
        as_rest(input@, Ok(refs_from(input@, 0)), r, |x: Vec<String>| strs(x@)),
{
    let (chars, n) = chars_of(input);
    let (k, t) = refs_exec(&chars, 0);
    Ok((rest_at(input, &chars, k), t))
}

/// Reads `#`, an identifier and the whitespace after it, and gives the
/// identifier; gives the empty id, reading nothing, where there is none.
pub fn entity_id<'a>(input: &'a str) -> (r: ParseResult<'a, String>)
    ensures
        as_rest(input@, Ok(id_at(input@, 0)), r, |x: String| x@),
{
    let (chars, n) = chars_of(input);
    let (k, t) = id_exec(&chars, 0);
    Ok((rest_at(input, &chars, k), t))
}

/// Reads `{`.
pub fn open_bracket<'a>(input: &'a str) -> (r: ParseResult<'a, ()>)
    ensures
        as_rest(
            input@,
            if input@.len() > 0 && input@[0] == '{' {
                Ok((1nat, ()))
            } else {
                Err(0nat)
            },
            r,
            |x: ()| x,
        ),
{
    let (chars, n) = chars_of(input);
    if chars.len() > 0 && chars[0] == '{' {
        Ok((rest_at(input, &chars, 1), ()))
    } else {
        Err(rest_at(input, &chars, 0))
    }
}

/// Reads `}`.
pub fn close_bracket<'a>(input: &'a str) -> (r: ParseResult<'a, ()>)
    ensures
        as_rest(
            input@,
            if input@.len() > 0 && input@[0] == '}' {
                Ok((1nat, ()))
            } else {
                Err(0nat)
            },
            r,
            |x: ()| x,
        ),
{
    let (chars, n) = chars_of(input);
    if chars.len() > 0 && chars[0] == '}' {
        Ok((rest_at(input, &chars, 1), ()))
    } else {
        Err(rest_at(input, &chars, 0))
    }
}

/// Reads an entity header: one or more types, references, an optional id
/// and the opening `{`.
pub fn entity_header<'a>(input: &'a str) -> (r: ParseResult<'a, EntityHeader>)
    ensures
        as_rest(input@, header_at(input@, 0), r, |x: EntityHeader| x@),
{
    let (chars, n) = chars_of(input);
    match header_exec(&chars, 0) {
        Ok((k, h)) => Ok((rest_at(input, &chars, k), h)),
        Err(e) => Err(rest_at(input, &chars, e)),
    }
}

} // verus!
