//! Selecting entities and fields of a parsed script with a selector such as
//! `page > widget[kpi] > .label`.
use vstd::prelude::*;
use crate::cdl_core::ast::{ArenaV, EntityV, AstEntityNode, AstFieldNode, ParseResult};
use crate::cdl_core::select_lex::{lex_selector, sel_lex};
use crate::cdl_core::select_parse::{Selector, SelectorV, SelectorParser, parse_sel, sel_view};

verus! {

/// The entity has the main type, sub type and identifier that the selector
/// asks for (a part the selector leaves out matches anything).
pub open spec fn entity_matches(e: EntityV, s: SelectorV) -> bool {
    &&& (s.main_type matches Some(m) ==> e.main_type == m)
    &&& (s.sub_type matches Some(m) ==> e.sub_type == Some(m))
    &&& (s.identifier matches Some(m) ==> e.identifier == Some(m))
}

/// The indices below `n` of the entities that match `s`, in arena order.
pub open spec fn all_matching(a: ArenaV, n: nat, s: SelectorV) -> Seq<usize>
    decreases n,
{
    if n == 0 {
        Seq::empty()
    } else {
        all_matching(a, (n - 1) as nat, s) + if entity_matches(a.entities[n - 1], s) {
            seq![(n - 1) as usize]
        } else {
            Seq::empty()
        }
    }
}

/// The indices `0, 1, .., n - 1`.
pub open spec fn all_indices(n: nat) -> Seq<usize> {
    Seq::new(n, |i: int| i as usize)
}

/// The descendants of entity `k` that match `s`, in pre-order. The children
/// of a sound arena rank below their entity (`ArenaV::entity_rank`).
pub open spec fn sel_desc(a: ArenaV, k: int, s: SelectorV) -> Seq<usize>
    decreases a.entity_rank()(k) + 1, 0int,
{
    if !(0 <= k < a.entities.len()) {
        Seq::empty()
    } else {
        sel_children(a, k, a.entities[k].children, s)
    }
}

/// For each child `c` in `cs` (all ranked below `k`): `c` if it matches `s`,
/// then the matching descendants of `c`.
pub open spec fn sel_children(a: ArenaV, k: int, cs: Seq<usize>, s: SelectorV) -> Seq<usize>
    decreases a.entity_rank()(k), cs.len(),
{
    if cs.len() == 0 {
        Seq::empty()
    } else if exists|j: int| 0 <= j < cs.len() && a.entity_rank()(cs[j] as int) >= a.entity_rank()(k) {
        Seq::empty()
    } else {
        let c = cs.last();
        sel_children(a, k, cs.drop_last(), s) + (if entity_matches(a.entities[c as int], s) {
            seq![c]
        } else {
            Seq::empty()
        }) + sel_desc(a, c as int, s)
    }
}

/// The matching descendants of each entity of `ks`, one entity after the other.
pub open spec fn select_in(a: ArenaV, ks: Seq<usize>, s: SelectorV) -> Seq<usize>
    decreases ks.len(),
{
    if ks.len() == 0 {
        Seq::empty()
    } else {
        select_in(a, ks.drop_last(), s) + sel_desc(a, ks.last() as int, s)
    }
}

/// Applies the child selectors of `s`, each to the descendants of the
/// entities selected so far.
pub open spec fn follow_children(a: ArenaV, r: Seq<usize>, s: SelectorV) -> Seq<usize>
    decreases s,
{
    match s.child {
        Some(c) => follow_children(a, select_in(a, r, *c), *c),
        None => r,
    }
}

/// The entities that a selector selects: those matching its first part, then
/// narrowed by each child part to matching descendants.
pub open spec fn entity_selection(a: ArenaV, s: SelectorV) -> Seq<usize> {
    follow_children(a, all_matching(a, a.entities.len(), s), s)
}

/// Applies every part of `s` but the last, each to the descendants of the
/// entities selected so far; gives the entities and the last part.
pub open spec fn field_chain(a: ArenaV, r: Seq<usize>, s: SelectorV) -> (Seq<usize>, SelectorV)
    decreases s,
{
    match s.child {
        Some(c) => field_chain(a, select_in(a, r, s), *c),
        None => (r, s),
    }
}

/// The fields of the entities `r`, one entity after the other.
pub open spec fn field_refs(a: ArenaV, r: Seq<usize>) -> Seq<usize>
    decreases r.len(),
{
    if r.len() == 0 {
        Seq::empty()
    } else {
        field_refs(a, r.drop_last()) + a.entities[r.last() as int].fields
    }
}

/// The fields of `fs` named `id`; none where there is no name.
pub open spec fn fields_named(a: ArenaV, fs: Seq<usize>, id: Option<Seq<char>>) -> Seq<usize>
    decreases fs.len(),
{
    if fs.len() == 0 {
        Seq::empty()
    } else {
        fields_named(a, fs.drop_last(), id) + if id matches Some(x) && a.fields[fs.last() as int].identifier
            == x {
            seq![fs.last()]
        } else {
            Seq::empty()
        }
    }
}

/// The fields that a selector selects: the fields, named by its last part,
/// of the entities that the other parts select.
pub open spec fn field_selection(a: ArenaV, s: SelectorV) -> Seq<usize> {
    let (r, last) = match s.child {
        Some(c) => field_chain(a, all_matching(a, a.entities.len(), s), *c),
        None => (all_indices(a.entities.len()), s),
    };
    fields_named(a, field_refs(a, r), last.identifier)
}

/// The number of parts of a selector after the first.
pub open spec fn sel_depth(s: SelectorV) -> nat
    decreases s,
{
    match s.child {
        Some(c) => 1 + sel_depth(*c),
        None => 0,
    }
}

/// The selector that a selector text parses to, where it parses.
pub open spec fn parsed_selector(text: Seq<char>) -> SelectorV {
    parse_sel(sel_lex(text), 0).unwrap().0
}

/// Whether the selector text parses.
pub open spec fn selector_parses(text: Seq<char>) -> bool {
    parse_sel(sel_lex(text), 0) is Some
}

/// The last part of a selector: the part with no child.
pub open spec fn sel_last(s: SelectorV) -> SelectorV
    decreases s,
{
    match s.child {
        Some(c) => sel_last(*c),
        None => s,
    }
}

/// Every entity named in `r` matches `s`.
pub open spec fn all_match(a: ArenaV, r: Seq<usize>, s: SelectorV) -> bool {
    forall|j: int| 0 <= j < r.len() ==> entity_matches(#[trigger] a.entities[r[j] as int], s)
}

proof fn lemma_all_matching_match(a: ArenaV, n: nat, s: SelectorV)
    requires
        n <= usize::MAX,
    ensures
        all_match(a, all_matching(a, n, s), s),
    decreases n,
{
    if n > 0 {
        lemma_all_matching_match(a, (n - 1) as nat, s);
        let prev = all_matching(a, (n - 1) as nat, s);
        let r = all_matching(a, n, s);
        let extra = if entity_matches(a.entities[n - 1], s) {
            seq![(n - 1) as usize]
        } else {
            Seq::<usize>::empty()
        };
        assert(r == prev + extra);
        assert forall|j: int| 0 <= j < r.len() implies entity_matches(#[trigger] a.entities[r[j] as int], s) by {
            if j < prev.len() {
                assert(r[j] == prev[j]);
            } else {
                assert(r[j] == extra[j - prev.len()]);
                assert(r[j] == (n - 1) as usize);
            }
        }
    }
}

proof fn lemma_sel_desc_match(a: ArenaV, k: int, s: SelectorV)
    ensures
        all_match(a, sel_desc(a, k, s), s),
    decreases a.entity_rank()(k) + 1, 0int,
{
    if 0 <= k < a.entities.len() {
        lemma_sel_children_match(a, k, a.entities[k].children, s);
    }
}

proof fn lemma_sel_children_match(a: ArenaV, k: int, cs: Seq<usize>, s: SelectorV)
    ensures
        all_match(a, sel_children(a, k, cs, s), s),
    decreases a.entity_rank()(k), cs.len(),
{
    if cs.len() > 0 && !(exists|j: int| 0 <= j < cs.len() && a.entity_rank()(cs[j] as int) >= a.entity_rank()(k)) {
        let c = cs.last();
        assert(a.entity_rank()(cs[cs.len() - 1] as int) < a.entity_rank()(k));
        lemma_sel_children_match(a, k, cs.drop_last(), s);
        lemma_sel_desc_match(a, c as int, s);
        let p1 = sel_children(a, k, cs.drop_last(), s);
        let p2 = if entity_matches(a.entities[c as int], s) {
            seq![c]
        } else {
            Seq::<usize>::empty()
        };
        let p3 = sel_desc(a, c as int, s);
        let r = sel_children(a, k, cs, s);
        assert(r == p1 + p2 + p3);
        assert forall|j: int| 0 <= j < r.len() implies entity_matches(#[trigger] a.entities[r[j] as int], s) by {
            if j < p1.len() {
                assert(r[j] == p1[j]);
            } else if j < p1.len() + p2.len() {
                assert(r[j] == p2[j - p1.len()]);
            } else {
                assert(r[j] == p3[j - p1.len() - p2.len()]);
            }
        }
    }
}

proof fn lemma_select_in_match(a: ArenaV, ks: Seq<usize>, s: SelectorV)
    ensures
        all_match(a, select_in(a, ks, s), s),
    decreases ks.len(),
{
    if ks.len() > 0 {
        lemma_select_in_match(a, ks.drop_last(), s);
        lemma_sel_desc_match(a, ks.last() as int, s);
        let p1 = select_in(a, ks.drop_last(), s);
        let p2 = sel_desc(a, ks.last() as int, s);
        let r = select_in(a, ks, s);
        assert forall|j: int| 0 <= j < r.len() implies entity_matches(#[trigger] a.entities[r[j] as int], s) by {
            if j < p1.len() {
                assert(r[j] == p1[j]);
            } else {
                assert(r[j] == p2[j - p1.len()]);
            }
        }
    }
}

proof fn lemma_follow_children_match(a: ArenaV, r: Seq<usize>, s: SelectorV)
    requires
        all_match(a, r, s),
    ensures
        all_match(a, follow_children(a, r, s), sel_last(s)),
    decreases s,
{
    match s.child {
        Some(c) => {
            lemma_select_in_match(a, r, *c);
            lemma_follow_children_match(a, select_in(a, r, *c), *c);
        },
        None => {},
    }
}

/// Every entity that a selector selects has the main type, the sub type and
/// the identifier that its last part asks for: a part that names a sub type
/// never selects an entity without one, or with another.
pub proof fn lemma_selected_entities_match(a: ArenaV, s: SelectorV)
    requires
        a.entities.len() <= usize::MAX,
    ensures
        forall|j: int|
            0 <= j < entity_selection(a, s).len() ==> {
                let e = #[trigger] a.entities[entity_selection(a, s)[j] as int];
                let last = sel_last(s);
                &&& (last.main_type matches Some(m) ==> e.main_type == m)
                &&& (last.sub_type matches Some(m) ==> e.sub_type == Some(m))
                &&& (last.identifier matches Some(m) ==> e.identifier == Some(m))
            },
{
    lemma_all_matching_match(a, a.entities.len(), s);
    lemma_follow_children_match(a, all_matching(a, a.entities.len(), s), s);
}

fn matches_selector(header: &AstEntityNode, selector: &Selector) -> (r: bool)
    ensures
        r == entity_matches(header@, sel_view(*selector)),
        r ==> (selector.sub_type matches Some(m) ==> header.sub_type matches Some(h) && h@ == m@),
        r ==> (selector.main_type matches Some(m) ==> header.main_type@ == m@),
        r ==> (selector.identifier matches Some(m) ==> header.identifier matches Some(h) && h@ == m@),
{
    let matches = true;
    match &selector.main_type {
        Some(s) => {
            if !(header.main_type == *s) {
                return false;
            }
        },
        None => {},
    }
    match &selector.sub_type {
        Some(s) => match &header.sub_type {
            Some(hs) => {
                if !(*hs == *s) {
                    return false;
                }
            },
            None => {
                return false;
            },
        },
        None => {},
    }
    match &selector.identifier {
        Some(s) => match &header.identifier {
            Some(hi) => {
                if !(*hi == *s) {
                    return false;
                }
            },
            None => {
                return false;
            },
        },
        None => {},
    }
    matches
}

/// Appends to `out` the descendants of entity `k` that match the selector.
fn collect_below(pr: &ParseResult, k: usize, selector: &Selector, out: &mut Vec<usize>)
    requires
        pr.arena().sound(),
        k < pr.entities@.len(),
        forall|j: int| 0 <= j < old(out)@.len() ==> #[trigger] old(out)@[j] < pr.entities@.len(),
    ensures
        final(out)@ == old(out)@ + sel_desc(pr.arena(), k as int, sel_view(*selector)),
        forall|j: int| 0 <= j < final(out)@.len() ==> #[trigger] final(out)@[j] < pr.entities@.len(),
    decreases pr.arena().entity_rank()(k as int),
{
    let ghost a = pr.arena();
    let ghost s = sel_view(*selector);
    let ghost start = out@;
    let entity = pr.get_entity(k);
    proof {
        assert(a.entity_ranking(a.entity_rank()));
        assert(a.entities[k as int] == entity@);
        assert(entity.children@.take(0) =~= Seq::<usize>::empty());
        assert(out@ =~= start + Seq::<usize>::empty());
    }
    let mut i: usize = 0;
    while i < entity.children.len()
        invariant
            i <= entity.children@.len(),
            a == pr.arena(),
            a.sound(),
            a.entity_ranking(a.entity_rank()),
            k < pr.entities@.len(),
            a.entities[k as int] == entity@,
            s == sel_view(*selector),
            out@ == start + sel_children(a, k as int, entity.children@.take(i as int), s),
            forall|j: int| 0 <= j < out@.len() ==> #[trigger] out@[j] < pr.entities@.len(),
        decreases entity.children@.len() - i,
    {
        let c = entity.children[i];
        proof {
            assert(a.entities[k as int].children[i as int] < a.entities.len());
        }
        let child = pr.get_entity(c);
        proof {
            assert(a.entities[c as int] == child@);
        }
        let ghost before = out@;
        if matches_selector(child, selector) {
            out.push(c);
        }
        let ghost mid = out@;
        collect_below(pr, c, selector, out);
        proof {
            let t = entity.children@.take(i + 1);
            assert(t.drop_last() =~= entity.children@.take(i as int));
            assert forall|j: int| 0 <= j < t.len() implies a.entity_rank()(t[j] as int) < a.entity_rank()(
                k as int,
            ) by {
                assert(a.entities[k as int].children[j] == t[j]);
            }
            assert(t.last() == c);
            assert(out@ =~= start + sel_children(a, k as int, t, s));
        }
        i = i + 1;
    }
    proof {
        assert(entity.children@.take(i as int) =~= entity.children@);
    }
}

/// The descendants of the entities `entities` that match the selector.
fn select_in_entities(entities: &Vec<usize>, selector: &Selector, pr: &ParseResult) -> (res: Vec<usize>)
    requires
        pr.arena().sound(),
        forall|j: int| 0 <= j < entities@.len() ==> #[trigger] entities@[j] < pr.entities@.len(),
    ensures
        res@ == select_in(pr.arena(), entities@, sel_view(*selector)),
        forall|j: int| 0 <= j < res@.len() ==> #[trigger] res@[j] < pr.entities@.len(),
{
    let ghost a = pr.arena();
    let ghost s = sel_view(*selector);
    let mut result: Vec<usize> = Vec::new();
    let mut i: usize = 0;
    proof {
        assert(entities@.take(0) =~= Seq::<usize>::empty());
    }
    while i < entities.len()
        invariant
            i <= entities@.len(),
            a == pr.arena(),
            a.sound(),
            s == sel_view(*selector),
            forall|j: int| 0 <= j < entities@.len() ==> #[trigger] entities@[j] < pr.entities@.len(),
            result@ == select_in(a, entities@.take(i as int), s),
            forall|j: int| 0 <= j < result@.len() ==> #[trigger] result@[j] < pr.entities@.len(),
        decreases entities@.len() - i,
    {
        let e = entities[i];
        collect_below(pr, e, selector, &mut result);
        proof {
            assert(entities@.take(i + 1).drop_last() =~= entities@.take(i as int));
        }
        i = i + 1;
    }
    proof {
        assert(entities@.take(i as int) =~= entities@);
    }
    result
}

/// The indices of the entities that match the selector, in arena order.
fn matching_entities(pr: &ParseResult, selector: &Selector) -> (res: Vec<usize>)
    ensures
        res@ == all_matching(pr.arena(), pr.entities@.len(), sel_view(*selector)),
        forall|j: int| 0 <= j < res@.len() ==> #[trigger] res@[j] < pr.entities@.len(),
{
    let ghost a = pr.arena();
    let ghost s = sel_view(*selector);
    let mut result: Vec<usize> = Vec::new();
    let mut k: usize = 0;
    while k < pr.entities.len()
        invariant
            k <= pr.entities@.len(),
            a == pr.arena(),
            s == sel_view(*selector),
            result@ == all_matching(a, k as nat, s),
            forall|j: int| 0 <= j < result@.len() ==> #[trigger] result@[j] < k,
        decreases pr.entities@.len() - k,
    {
        let e = pr.get_entity(k);
        proof {
            assert(a.entities[k as int] == e@);
        }
        if matches_selector(e, selector) {
            result.push(k);
        }
        k = k + 1;
    }
    result
}

/// The entities at the indices `idx`.
fn entities_at<'a>(pr: &'a ParseResult, idx: &Vec<usize>) -> (res: Vec<&'a AstEntityNode>)
    requires
        forall|j: int| 0 <= j < idx@.len() ==> #[trigger] idx@[j] < pr.entities@.len(),
    ensures
        res@.len() == idx@.len(),
        forall|j: int| 0 <= j < idx@.len() ==> *#[trigger] res@[j] == pr.entities@[idx@[j] as int],
{
    let mut res: Vec<&'a AstEntityNode> = Vec::new();
    let mut i: usize = 0;
    while i < idx.len()
        invariant
            i <= idx@.len(),
            forall|j: int| 0 <= j < idx@.len() ==> #[trigger] idx@[j] < pr.entities@.len(),
            res@.len() == i,
            forall|j: int| 0 <= j < i ==> *#[trigger] res@[j] == pr.entities@[idx@[j] as int],
        decreases idx@.len() - i,
    {
        res.push(pr.get_entity(idx[i]));
        i = i + 1;
    }
    res
}

/// The entities that the selector text selects: those matching its first part,
/// then, for each part after a `>`, the matching descendants of those selected
/// so far.
pub fn select_entity<'a>(pr: &'a ParseResult, selector_string: &str) -> (res: Vec<&'a AstEntityNode>)
    requires
        pr.sound(),
        selector_parses(selector_string@),
    ensures
        ({
            let idx = entity_selection(pr.arena(), parsed_selector(selector_string@));
            &&& res@.len() == idx.len()
            &&& forall|j: int| 0 <= j < idx.len() ==> #[trigger] idx[j] < pr.entities@.len()
            &&& forall|j: int| 0 <= j < idx.len() ==> *#[trigger] res@[j] == pr.entities@[idx[j] as int]
        }),
        forall|j: int|
            0 <= j < res@.len() ==> {
                let e = #[trigger] res@[j]@;
                let last = sel_last(parsed_selector(selector_string@));
                &&& (last.main_type matches Some(m) ==> e.main_type == m)
                &&& (last.sub_type matches Some(m) ==> e.sub_type == Some(m))
                &&& (last.identifier matches Some(m) ==> e.identifier == Some(m))
            },
{
    let ghost a = pr.arena();
    let _count = pr.entities.len();
    proof {
        assert(a.entities.len() == pr.entities@.len());
        lemma_selected_entities_match(a, parsed_selector(selector_string@));
    }
    let tokens = lex_selector(selector_string);
    let mut parser = SelectorParser::new(tokens);
    let selector = parser.parse().unwrap();
    let ghost target = entity_selection(a, sel_view(selector));
    let mut result = matching_entities(pr, &selector);
    let mut current_selector = selector;
    while current_selector.child.is_some()
        invariant
            a == pr.arena(),
            a.sound(),
            follow_children(a, result@, sel_view(current_selector)) == target,
            forall|j: int| 0 <= j < result@.len() ==> #[trigger] result@[j] < pr.entities@.len(),
        decreases sel_depth(sel_view(current_selector)),
    {
        let child = current_selector.child.unwrap();
        current_selector = *child;
        result = select_in_entities(&result, &current_selector, pr);
    }
    let res = entities_at(pr, &result);
    proof {
        assert forall|j: int| 0 <= j < res@.len() implies #[trigger] res@[j]@ == a.entities[target[j] as int] by {
            assert(a.entities[result@[j] as int] == pr.entities@[result@[j] as int]@);
        }
    }
    res
}

/// The fields that the selector text selects: with one part, the fields of
/// every entity named by its `.identifier`; with more, the entities are first
/// narrowed by the parts before the last, as `select_entity` does, and the
/// last part names the fields.
pub fn select_field<'a>(root: &'a ParseResult, selector_string: &str) -> (res: Vec<&'a AstFieldNode>)
    requires
        root.sound(),
        selector_parses(selector_string@),
    ensures
        ({
            let idx = field_selection(root.arena(), parsed_selector(selector_string@));
            &&& res@.len() == idx.len()
            &&& forall|j: int| 0 <= j < idx.len() ==> #[trigger] idx[j] < root.fields@.len()
            &&& forall|j: int| 0 <= j < idx.len() ==> *#[trigger] res@[j] == root.fields@[idx[j] as int]
        }),
{
    let ghost a = root.arena();
    let tokens = lex_selector(selector_string);
    let mut parser = SelectorParser::new(tokens);
    let mut selector = parser.parse().unwrap();
    let ghost s0 = sel_view(selector);
    let mut current_set: Vec<usize> = Vec::new();
    let mut k: usize = 0;
    while k < root.entities.len()
        invariant
            k <= root.entities@.len(),
            current_set@ == all_indices(k as nat),
        decreases root.entities@.len() - k,
    {
        current_set.push(k);
        proof {
            assert(current_set@ =~= all_indices((k + 1) as nat));
        }
        k = k + 1;
    }
    if selector.child.is_some() {
        current_set = matching_entities(root, &selector);
        let child = selector.child.unwrap();
        selector = *child;
    }
    let ghost target = field_chain(a, current_set@, sel_view(selector));
    while selector.child.is_some()
        invariant
            a == root.arena(),
            a.sound(),
            field_chain(a, current_set@, sel_view(selector)) == target,
            forall|j: int| 0 <= j < current_set@.len() ==> #[trigger] current_set@[j] < root.entities@.len(),
        decreases sel_depth(sel_view(selector)),
    {
        let next_set = select_in_entities(&current_set, &selector, root);
        current_set = next_set;
        let child = selector.child.unwrap();
        selector = *child;
    }
    // the fields of the entities selected
    let mut fields: Vec<usize> = Vec::new();
    let mut i: usize = 0;
    proof {
        assert(current_set@.take(0) =~= Seq::<usize>::empty());
    }
    while i < current_set.len()
        invariant
            i <= current_set@.len(),
            a == root.arena(),
            a.sound(),
            forall|j: int| 0 <= j < current_set@.len() ==> #[trigger] current_set@[j] < root.entities@.len(),
            fields@ == field_refs(a, current_set@.take(i as int)),
            forall|j: int| 0 <= j < fields@.len() ==> #[trigger] fields@[j] < root.fields@.len(),
        decreases current_set@.len() - i,
    {
        let entity = root.get_entity(current_set[i]);
        let ghost e = current_set@[i as int] as int;
        proof {
            assert(a.entities[e] == entity@);
        }
        let ghost before = fields@;
        let mut f: usize = 0;
        while f < entity.fields.len()
            invariant
                f <= entity.fields@.len(),
                a.sound(),
                0 <= e < a.entities.len(),
                a.entities[e] == entity@,
                a.fields.len() == root.fields@.len(),
                fields@ == before + entity.fields@.take(f as int),
                forall|j: int| 0 <= j < fields@.len() ==> #[trigger] fields@[j] < root.fields@.len(),
            decreases entity.fields@.len() - f,
        {
            proof {
                assert(a.entities[e].fields[f as int] < a.fields.len());
            }
            fields.push(entity.fields[f]);
            proof {
                assert(entity.fields@.take(f + 1) =~= entity.fields@.take(f as int).push(entity.fields@[f as int]));
            }
            f = f + 1;
        }
        proof {
            assert(entity.fields@.take(f as int) =~= entity.fields@);
            assert(current_set@.take(i + 1).drop_last() =~= current_set@.take(i as int));
        }
        i = i + 1;
    }
    proof {
        assert(current_set@.take(i as int) =~= current_set@);
    }
    // those named by the last part
    let mut result: Vec<usize> = Vec::new();
    let mut i: usize = 0;
    proof {
        assert(fields@.take(0) =~= Seq::<usize>::empty());
    }
    while i < fields.len()
        invariant
            i <= fields@.len(),
            a == root.arena(),
            forall|j: int| 0 <= j < fields@.len() ==> #[trigger] fields@[j] < root.fields@.len(),
            result@ == fields_named(a, fields@.take(i as int), sel_view(selector).identifier),
            forall|j: int| 0 <= j < result@.len() ==> #[trigger] result@[j] < root.fields@.len(),
        decreases fields@.len() - i,
    {
        let fr = fields[i];
        let field = root.get_field(fr);
        proof {
            assert(a.fields[fr as int] == field@);
            assert(fields@.take(i + 1).drop_last() =~= fields@.take(i as int));
        }
        match &selector.identifier {
            Some(id) => {
                if *id == field.identifier {
                    result.push(fr);
                }
            },
            None => {},
        }
        i = i + 1;
    }
    proof {
        assert(fields@.take(i as int) =~= fields@);
    }
    fields_at(root, &result)
}

/// The fields at the indices `idx`.
fn fields_at<'a>(pr: &'a ParseResult, idx: &Vec<usize>) -> (res: Vec<&'a AstFieldNode>)
    requires
        forall|j: int| 0 <= j < idx@.len() ==> #[trigger] idx@[j] < pr.fields@.len(),
    ensures
        res@.len() == idx@.len(),
        forall|j: int| 0 <= j < idx@.len() ==> *#[trigger] res@[j] == pr.fields@[idx@[j] as int],
{
    let mut res: Vec<&'a AstFieldNode> = Vec::new();
    let mut i: usize = 0;
    while i < idx.len()
        invariant
            i <= idx@.len(),
            forall|j: int| 0 <= j < idx@.len() ==> #[trigger] idx@[j] < pr.fields@.len(),
            res@.len() == i,
            forall|j: int| 0 <= j < i ==> *#[trigger] res@[j] == pr.fields@[idx@[j] as int],
        decreases idx@.len() - i,
    {
        res.push(pr.get_field(idx[i]));
        i = i + 1;
    }
    res
}

} // verus!
