//! CDL entities with whitespace around each part: a header of types,
//! `@references` and an optional `#id`, then `{` and `}`; a body is a run of
//! entities.
use vstd::prelude::*;
use crate::parser_gen::cdl::{HeaderV, Step, as_rest, strs};
use crate::parser_gen::cdl::field::Field;
use crate::parser_gen::common::{ParseResult, ident_len, ws_len, identifier_at, run_at, rest_at};
use crate::text::chars_of;

verus! {

/// An entity, by its header.
#[derive(Clone, Debug, PartialEq)]
pub struct Entity {
    pub header: EntityHeader,
}

/// The entities and fields inside an entity.
#[derive(Clone, Debug, PartialEq)]
pub struct EntityBody {
    pub children: Vec<Child>,
}

/// The header of an entity: its types, its references and its id (empty
/// where it has none).
#[derive(Clone, Debug, PartialEq)]
pub struct EntityHeader {
    pub entity_type: Vec<String>,
    pub entity_refs: Vec<String>,
    pub entity_id: String,
}

/// What an entity body holds.
#[derive(Clone, Debug, PartialEq)]
pub enum Child {
    Entity(Entity),
    Field(Field),
}

impl View for EntityHeader {
    type V = HeaderV;

    open spec fn view(&self) -> HeaderV {
        HeaderV {
            entity_type: strs(self.entity_type@),
            entity_refs: strs(self.entity_refs@),
            entity_id: self.entity_id@,
        }
    }
}

/// The headers of the entities of a body; `None` where a child is a field.
pub open spec fn body_headers(children: Seq<Child>) -> Seq<Option<HeaderV>> {
    children.map_values(
        |c: Child|
            match c {
                Child::Entity(e) => Some(e.header@),
                Child::Field(_) => None,
            },
    )
}

/// The index after the whitespace at index `i`.
pub open spec fn ww(s: Seq<char>, i: nat) -> nat {
    i + ws_len(s, i)
}

/// Whitespace, the character `prefix` where there is one, an identifier and
/// whitespace, at index `i`; gives the identifier.
pub open spec fn item_at(s: Seq<char>, i: nat, prefix: Option<char>) -> Step<Seq<char>> {
    let a = ww(s, i);
    match prefix {
        Some(p) => if !(a < s.len() && s[a as int] == p) {
            Err(a)
        } else {
            let n = ident_len(s, a + 1);
            if n == 0 {
                Err(a + 1)
            } else {
                Ok((ww(s, a + 1 + n), s.subrange((a + 1) as int, (a + 1 + n) as int)))
            }
        },
        None => {
            let n = ident_len(s, a);
            if n == 0 {
                Err(a)
            } else {
                Ok((ww(s, a + n), s.subrange(a as int, (a + n) as int)))
            }
        },
    }
}

/// As many items as follow one another from index `i`.
pub open spec fn items_from(s: Seq<char>, i: nat, prefix: Option<char>) -> (nat, Seq<Seq<char>>)
    decreases s.len() - i,
{
    match item_at(s, i, prefix) {
        Ok((j, t)) => if i < j <= s.len() {
            let (k, ts) = items_from(s, j, prefix);
            (k, seq![t] + ts)
        } else {
            (i, Seq::empty())
        },
        Err(_) => (i, Seq::empty()),
    }
}

/// Reading items never moves back.
proof fn lemma_items_from_ge(s: Seq<char>, i: nat, prefix: Option<char>)
    ensures
        i <= items_from(s, i, prefix).0,
    decreases s.len() - i,
{
    if let Ok((j, _)) = item_at(s, i, prefix) {
        if i < j <= s.len() {
            lemma_items_from_ge(s, j, prefix);
        }
    }
}

/// One or more types from index `i`.
pub open spec fn types_at(s: Seq<char>, i: nat) -> Step<Seq<Seq<char>>> {
    if item_at(s, i, None) is Err {
        Err(i)
    } else {
        Ok(items_from(s, i, None))
    }
}

/// The id at index `i`, or the empty id reading nothing.
pub open spec fn identifier_or_empty(s: Seq<char>, i: nat) -> (nat, Seq<char>) {
    match item_at(s, i, Some('#')) {
        Ok((j, id)) => (j, id),
        Err(_) => (i, Seq::empty()),
    }
}

/// Whitespace, the character `c` and whitespace, at index `i`.
pub open spec fn bracket_at(s: Seq<char>, i: nat, c: char) -> Step<()> {
    let a = ww(s, i);
    if a < s.len() && s[a as int] == c {
        Ok((ww(s, a + 1), ()))
    } else {
        Err(a)
    }
}

/// The header at index `i`: one or more types, references and an optional id.
pub open spec fn header_at(s: Seq<char>, i: nat) -> Step<HeaderV> {
    match types_at(s, i) {
        Err(e) => Err(e),
        Ok((j, types)) => {
            let (k, refs) = items_from(s, j, Some('@'));
            let (m, id) = identifier_or_empty(s, k);
            Ok((m, HeaderV { entity_type: types, entity_refs: refs, entity_id: id }))
        },
    }
}

/// The entity at index `i`: a header, then `{` and `}`; gives the header.
pub open spec fn entity_at(s: Seq<char>, i: nat) -> Step<HeaderV> {
    match header_at(s, i) {
        Err(e) => Err(e),
        Ok((j, h)) => match bracket_at(s, j, '{') {
            Err(e) => Err(e),
            Ok((k, _)) => match bracket_at(s, k, '}') {
                Err(e) => Err(e),
                Ok((m, _)) => Ok((m, h)),
            },
        },
    }
}

/// As many entities as follow one another from index `i`; gives their headers.
pub open spec fn entities_from(s: Seq<char>, i: nat) -> (nat, Seq<HeaderV>)
    decreases s.len() - i,
{
    match entity_at(s, i) {
        Ok((j, h)) => if i < j <= s.len() {
            let (k, hs) = entities_from(s, j);
            (k, seq![h] + hs)
        } else {
            (i, Seq::empty())
        },
        Err(_) => (i, Seq::empty()),
    }
}

/// The item at `pos`: whitespace, `prefix` where there is one, an
/// identifier and whitespace.
fn item_exec(chars: &Vec<char>, pos: usize, prefix: Option<char>) -> (r: Result<(usize, String), usize>)
    requires
        pos <= chars@.len(),
    ensures
        match item_at(chars@, pos as nat, prefix) {
            Ok((j, t)) => r matches Ok((k, x)) && k == j && x@ == t && pos < k <= chars@.len(),
            Err(e) => r matches Err(k) && k == e && k <= chars@.len(),
        },
{
    let len = chars.len();
    let a = pos + run_at(chars, pos, 0);
    let start = match prefix {
        Some(p) => {
            if !(a < len && chars[a] == p) {
                return Err(a);
            }
            a + 1
        },
        None => a,
    };
    match identifier_at(chars, start) {
        None => Err(start),
        Some((n, id)) => {
            let ws = run_at(chars, start + n, 0);
            Ok((start + n + ws, id))
        },
    }
}

/// The items from `pos` on, none or more.
fn items_exec(chars: &Vec<char>, pos: usize, prefix: Option<char>) -> (r: (usize, Vec<String>))
    requires
        pos <= chars@.len(),
    ensures
        items_from(chars@, pos as nat, prefix) == (r.0 as nat, strs(r.1@)),
        r.0 <= chars@.len(),
{
    let ghost s = chars@;
    let mut result: Vec<String> = Vec::new();
    let mut i = pos;
    proof {
        assert(strs(result@) + items_from(s, i as nat, prefix).1 =~= items_from(s, i as nat, prefix).1);
    }
    loop
        invariant
            pos <= i <= s.len(),
            s == chars@,
            items_from(s, pos as nat, prefix) == (items_from(s, i as nat, prefix).0, strs(result@) + items_from(
                s,
                i as nat,
                prefix,
            ).1),
        ensures
            i <= s.len(),
            items_from(s, pos as nat, prefix) == (i as nat, strs(result@)),
        decreases s.len() - i,
    {
        match item_exec(chars, i, prefix) {
            Ok((j, t)) => {
                let ghost before = strs(result@);
                result.push(t);
                proof {
                    assert(strs(result@) =~= before.push(t@));
                    assert(strs(result@) + items_from(s, j as nat, prefix).1 =~= before + (seq![t@] + items_from(
                        s,
                        j as nat,
                        prefix,
                    ).1));
                }
                i = j;
            },
            Err(_) => {
                proof {
                    assert(strs(result@) + Seq::<Seq<char>>::empty() =~= strs(result@));
                }
                break;
            },
        }
    }
    (i, result)
}

/// The bracket `c` at `pos`, with whitespace around it.
fn bracket_exec(chars: &Vec<char>, pos: usize, c: char) -> (r: Result<usize, usize>)
    requires
        pos <= chars@.len(),
    ensures
        match bracket_at(chars@, pos as nat, c) {
            Ok((j, _)) => r matches Ok(k) && k == j && pos < k <= chars@.len(),
            Err(e) => r matches Err(k) && k == e && k <= chars@.len(),
        },
{
    let len = chars.len();
    let a = pos + run_at(chars, pos, 0);
    if a < len && chars[a] == c {
        Ok(a + 1 + run_at(chars, a + 1, 0))
    } else {
        Err(a)
    }
}

/// The header at `pos`.
fn header_exec(chars: &Vec<char>, pos: usize) -> (r: Result<(usize, EntityHeader), usize>)
    requires
        pos <= chars@.len(),
    ensures
        match header_at(chars@, pos as nat) {
            Ok((j, h)) => r matches Ok((k, x)) && k == j && x@ == h && pos < k <= chars@.len(),
            Err(e) => r matches Err(k) && k == e && k <= chars@.len(),
        },
{
    if item_exec(chars, pos, None).is_err() {
        return Err(pos);
    }
    let (j, types) = items_exec(chars, pos, None);
    proof {
        let (j0, _) = item_at(chars@, pos as nat, None)->Ok_0;
        lemma_items_from_ge(chars@, j0, None);
    }
    let (k, refs) = items_exec(chars, j, Some('@'));
    proof {
        lemma_items_from_ge(chars@, j as nat, Some('@'));
    }
    let (m, id) = match item_exec(chars, k, Some('#')) {
        Ok((m, id)) => (m, id),
        Err(_) => (k, String::new()),
    };
    Ok((m, EntityHeader { entity_type: types, entity_refs: refs, entity_id: id }))
}

/// The entity at `pos`; gives its header.
fn entity_exec(chars: &Vec<char>, pos: usize) -> (r: Result<(usize, EntityHeader), usize>)
    requires
        pos <= chars@.len(),
    ensures
        match entity_at(chars@, pos as nat) {
            Ok((j, h)) => r matches Ok((k, x)) && k == j && x@ == h && pos < k <= chars@.len(),
            Err(e) => r matches Err(k) && k == e && k <= chars@.len(),
        },
{
    let (j, h) = match header_exec(chars, pos) {
        Ok(v) => v,
        Err(e) => {
            return Err(e);
        },
    };
    let k = match bracket_exec(chars, j, '{') {
        Ok(k) => k,
        Err(e) => {
            return Err(e);
        },
    };
    let m = match bracket_exec(chars, k, '}') {
        Ok(m) => m,
        Err(e) => {
            return Err(e);
        },
    };
    Ok((m, h))
}

/// Reads whitespace, an identifier and whitespace; gives the identifier.
pub fn entity_type<'a>(input: &'a str) -> (r: ParseResult<'a, String>)
    ensures
        as_rest(input@, item_at(input@, 0, None), r, |x: String| x@),
{
    let (chars, _n) = chars_of(input);
    match item_exec(&chars, 0, None) {
        Ok((k, t)) => Ok((rest_at(input, &chars, k), t)),
        Err(e) => Err(rest_at(input, &chars, e)),
    }
}

/// Reads one or more types.
pub fn entity_types<'a>(input: &'a str) -> (r: ParseResult<'a, Vec<String>>)
    ensures
        as_rest(input@, types_at(input@, 0), r, |x: Vec<String>| strs(x@)),
{
    let (chars, _n) = chars_of(input);
    if item_exec(&chars, 0, None).is_err() {
        proof {
            assert(input@.skip(0) =~= input@);
        }
        return Err(input);
    }
    let (k, t) = items_exec(&chars, 0, None);
    proof {
        assert(input@.skip(0) =~= input@);
    }
    Ok((rest_at(input, &chars, k), t))
}

/// Reads whitespace, `@`, an identifier and whitespace; gives the identifier.
pub fn entity_ref<'a>(input: &'a str) -> (r: ParseResult<'a, String>)
    ensures
        as_rest(input@, item_at(input@, 0, Some('@')), r, |x: String| x@),
{
    let (chars, _n) = chars_of(input);
    match item_exec(&chars, 0, Some('@')) {
        Ok((k, t)) => Ok((rest_at(input, &chars, k), t)),
        Err(e) => Err(rest_at(input, &chars, e)),
    }
}

/// Reads none or more references.
pub fn entity_refs<'a>(input: &'a str) -> (r: ParseResult<'a, Vec<String>>)
    ensures
        as_rest(input@, Ok(items_from(input@, 0, Some('@'))), r, |x: Vec<String>| strs(x@)),
{
    let (chars, _n) = chars_of(input);
    let (k, t) = items_exec(&chars, 0, Some('@'));
    Ok((rest_at(input, &chars, k), t))
}

/// Reads whitespace, `#`, an identifier and whitespace; gives the identifier.
pub fn entity_id<'a>(input: &'a str) -> (r: ParseResult<'a, String>)
    ensures
        as_rest(input@, item_at(input@, 0, Some('#')), r, |x: String| x@),
{
    let (chars, _n) = chars_of(input);
    match item_exec(&chars, 0, Some('#')) {
        Ok((k, t)) => Ok((rest_at(input, &chars, k), t)),
        Err(e) => Err(rest_at(input, &chars, e)),
    }
}

/// Reads an id, or gives the empty id reading nothing.
pub fn entity_identifier<'a>(input: &'a str) -> (r: ParseResult<'a, String>)
    ensures
        as_rest(input@, Ok(identifier_or_empty(input@, 0)), r, |x: String| x@),
{
    match entity_id(input) {
        Ok(v) => Ok(v),
        Err(_) => {
            proof {
                assert(input@.skip(0) =~= input@);
            }
            Ok((input, String::new()))
        },
    }
}

/// Reads `{` with whitespace around it.
pub fn open_bracket<'a>(input: &'a str) -> (r: ParseResult<'a, ()>)
    ensures
        as_rest(input@, bracket_at(input@, 0, '{'), r, |x: ()| x),
{
    let (chars, _n) = chars_of(input);
    match bracket_exec(&chars, 0, '{') {
        Ok(k) => Ok((rest_at(input, &chars, k), ())),
        Err(e) => Err(rest_at(input, &chars, e)),
    }
}

/// Reads `}` with whitespace around it.
pub fn close_bracket<'a>(input: &'a str) -> (r: ParseResult<'a, ()>)
    ensures
        as_rest(input@, bracket_at(input@, 0, '}'), r, |x: ()| x),
{
    let (chars, _n) = chars_of(input);
    match bracket_exec(&chars, 0, '}') {
        Ok(k) => Ok((rest_at(input, &chars, k), ())),
        Err(e) => Err(rest_at(input, &chars, e)),
    }
}

/// Reads an entity header: one or more types, references and an optional id.
pub fn entity_header<'a>(input: &'a str) -> (r: ParseResult<'a, EntityHeader>)
    ensures
        as_rest(input@, header_at(input@, 0), r, |x: EntityHeader| x@),
{
    let (chars, _n) = chars_of(input);
    match header_exec(&chars, 0) {
        Ok((k, h)) => Ok((rest_at(input, &chars, k), h)),
        Err(e) => Err(rest_at(input, &chars, e)),
    }
}

/// Reads an entity: a header, then `{` and `}`.
pub fn entity<'a>(input: &'a str) -> (r: ParseResult<'a, Entity>)
    ensures
        as_rest(input@, entity_at(input@, 0), r, |x: Entity| x.header@),
{
    let (chars, _n) = chars_of(input);
    match entity_exec(&chars, 0) {
        Ok((k, h)) => Ok((rest_at(input, &chars, k), Entity { header: h })),
        Err(e) => Err(rest_at(input, &chars, e)),
    }
}

/// Reads none or more entities; gives them as the children of a body.
pub fn entity_body<'a>(input: &'a str) -> (r: ParseResult<'a, EntityBody>)
    ensures
        as_rest(
            input@,
            Ok(entities_from(input@, 0)),
            r,
            |x: EntityBody| body_headers(x.children@).map_values(|h: Option<HeaderV>| h.unwrap()),
        ),
        r matches Ok((_, b)) && forall|i: int| 0 <= i < b.children@.len() ==> #[trigger] b.children@[i] is Entity,
{
    let (chars, _n) = chars_of(input);
    let ghost s = chars@;
    let mut children: Vec<Child> = Vec::new();
    let mut i: usize = 0;
    let ghost hs = |c: Seq<Child>| body_headers(c).map_values(|h: Option<HeaderV>| h.unwrap());
    proof {
        assert(hs(children@) + entities_from(s, 0).1 =~= entities_from(s, 0).1);
    }
    loop
        invariant
            i <= s.len(),
            s == chars@,
            s == input@,
            hs == (|c: Seq<Child>| body_headers(c).map_values(|h: Option<HeaderV>| h.unwrap())),
            entities_from(s, 0) == (entities_from(s, i as nat).0, hs(children@) + entities_from(s, i as nat).1),
            forall|k: int| 0 <= k < children@.len() ==> #[trigger] children@[k] is Entity,
        ensures
            i <= s.len(),
            entities_from(s, 0) == (i as nat, hs(children@)),
            forall|k: int| 0 <= k < children@.len() ==> #[trigger] children@[k] is Entity,
        decreases s.len() - i,
    {
        match entity_exec(&chars, i) {
            Ok((j, h)) => {
                let ghost before = children@;
                children.push(Child::Entity(Entity { header: h }));
                proof {
                    assert(hs(children@) =~= hs(before).push(h@));
                    assert(hs(children@) + entities_from(s, j as nat).1 =~= hs(before) + (seq![h@] + entities_from(
                        s,
                        j as nat,
                    ).1));
                }
                i = j;
            },
            Err(_) => {
                proof {
                    assert(hs(children@) + Seq::<HeaderV>::empty() =~= hs(children@));
                }
                break;
            },
        }
    }
    Ok((rest_at(input, &chars, i), EntityBody { children }))
}

} // verus!
