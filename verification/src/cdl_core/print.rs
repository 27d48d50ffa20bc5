//! Printing a syntax tree back to CDL text.
use vstd::prelude::*;
use crate::cdl_core::ast::{ArenaV, ExprV, AstEntityNode, AstFieldNode, Expr, ParseResult};
use crate::text::{string_push, string_push_str};

verus! {

/// `2 * n` spaces.
pub open spec fn indent_s(n: nat) -> Seq<char> {
    Seq::new(2 * n, |i: int| ' ')
}

pub open spec fn opt_s(o: Option<Seq<char>>) -> Seq<char> {
    match o {
        Some(s) => s,
        None => Seq::empty(),
    }
}

/// The text of expression `k`. The links of a sound arena go to smaller
/// ranks (`ArenaV::expr_rank`); a link that does not is not followed.
pub open spec fn expr_s(a: ArenaV, k: int) -> Seq<char>
    decreases a.expr_rank()(k) + 1, 0int,
{
    if !(0 <= k < a.exprs.len()) {
        Seq::empty()
    } else {
        match a.exprs[k] {
            ExprV::Operator(op, l, r) => if a.expr_rank()(l as int) < a.expr_rank()(k) && a.expr_rank()(r as int)
                < a.expr_rank()(k) {
                expr_s(a, l as int) + " "@ + seq![op] + " "@ + expr_s(a, r as int)
            } else {
                Seq::empty()
            },
            ExprV::Identifier(v) => v,
            ExprV::Str(v) => "\""@ + v + "\""@,
            ExprV::UnaryOperator(op, e) => if a.expr_rank()(e as int) < a.expr_rank()(k) {
                seq![op] + expr_s(a, e as int)
            } else {
                Seq::empty()
            },
            ExprV::Number(t) => t,
            ExprV::Function(id, args) => id + seq!['('] + args_s(a, k, args) + seq![')'],
            ExprV::VPath(table, sub_table, field, sub_field) => opt_s(table) + opt_s(sub_table) + seq![':']
                + opt_s(field) + opt_s(sub_field),
        }
    }
}

/// The texts of the expressions `args` (all ranked below `k`) joined by `", "`.
pub open spec fn args_s(a: ArenaV, k: int, args: Seq<usize>) -> Seq<char>
    decreases a.expr_rank()(k), args.len(),
{
    if args.len() == 0 {
        Seq::empty()
    } else if exists|j: int| 0 <= j < args.len() && a.expr_rank()(args[j] as int) >= a.expr_rank()(k) {
        Seq::empty()
    } else if args.len() == 1 {
        expr_s(a, args[0] as int)
    } else {
        args_s(a, k, args.drop_last()) + ", "@ + expr_s(a, args.last() as int)
    }
}

/// The line of field `f` at indent level `indent`.
pub open spec fn field_s(a: ArenaV, f: int, indent: nat) -> Seq<char> {
    indent_s(indent) + a.fields[f].identifier + ": "@ + expr_s(a, a.fields[f].value as int) + "\n"@
}

/// The lines of the fields `fs`.
pub open spec fn fields_s(a: ArenaV, fs: Seq<usize>, indent: nat) -> Seq<char>
    decreases fs.len(),
{
    if fs.len() == 0 {
        Seq::empty()
    } else {
        fields_s(a, fs.drop_last(), indent) + field_s(a, fs.last() as int, indent)
    }
}

/// The header of an entity: indent, main type, sub type, `#id` and `@reference`.
pub open spec fn header_s(e: crate::cdl_core::ast::EntityV, indent: nat) -> Seq<char> {
    indent_s(indent) + e.main_type + " "@ + (match e.sub_type {
        Some(s) => s + " "@,
        None => Seq::empty(),
    }) + (match e.identifier {
        Some(s) => "#"@ + s + " "@,
        None => Seq::empty(),
    }) + (match e.reference {
        Some(s) => "@"@ + s + " "@,
        None => Seq::empty(),
    })
}

/// The text of entity `k`: its header, `{`, its fields and child entities two
/// levels deeper, and `}` at its own level. The children of a sound arena
/// rank below their entity (`ArenaV::entity_rank`).
pub open spec fn entity_s(a: ArenaV, k: int, indent: nat) -> Seq<char>
    decreases a.entity_rank()(k) + 1, 0int,
{
    if !(0 <= k < a.entities.len()) {
        Seq::empty()
    } else {
        let e = a.entities[k];
        header_s(e, indent) + "{\n"@ + fields_s(a, e.fields, indent + 2) + children_s(a, k, e.children, indent + 2)
            + indent_s(indent) + "}\n"@
    }
}

/// The texts of the entities `cs` (all ranked below `k`), one after the other.
pub open spec fn children_s(a: ArenaV, k: int, cs: Seq<usize>, indent: nat) -> Seq<char>
    decreases a.entity_rank()(k), cs.len(),
{
    if cs.len() == 0 {
        Seq::empty()
    } else if exists|j: int| 0 <= j < cs.len() && a.entity_rank()(cs[j] as int) >= a.entity_rank()(k) {
        Seq::empty()
    } else {
        children_s(a, k, cs.drop_last(), indent) + entity_s(a, cs.last() as int, indent)
    }
}

/// The text of the top-level entities `roots`.
pub open spec fn roots_s(a: ArenaV, roots: Seq<usize>) -> Seq<char>
    decreases roots.len(),
{
    if roots.len() == 0 {
        Seq::empty()
    } else {
        roots_s(a, roots.drop_last()) + entity_s(a, roots.last() as int, 0)
    }
}

/// Printing the top-level entities `r1` then `r2` gives the text of `r1`
/// followed by the text of `r2`: the script is printed in the order of its
/// roots.
pub proof fn lemma_roots_in_order(a: ArenaV, r1: Seq<usize>, r2: Seq<usize>)
    ensures
        roots_s(a, r1 + r2) == roots_s(a, r1) + roots_s(a, r2),
    decreases r2.len(),
{
    if r2.len() == 0 {
        assert(r1 + r2 =~= r1);
        assert(roots_s(a, r2) =~= Seq::<char>::empty());
        assert(roots_s(a, r1) + roots_s(a, r2) =~= roots_s(a, r1));
    } else {
        assert((r1 + r2).drop_last() =~= r1 + r2.drop_last());
        assert((r1 + r2).last() == r2.last());
        lemma_roots_in_order(a, r1, r2.drop_last());
        assert(roots_s(a, r1 + r2) =~= roots_s(a, r1) + roots_s(a, r2));
    }
}

/// The text of the script starts with the text of its first top-level
/// entity, at indent level zero.
pub proof fn lemma_first_root_first(a: ArenaV, roots: Seq<usize>)
    requires
        roots.len() > 0,
    ensures
        roots_s(a, roots) == entity_s(a, roots[0] as int, 0) + roots_s(a, roots.drop_first()),
{
    lemma_roots_in_order(a, seq![roots[0]], roots.drop_first());
    assert(seq![roots[0]] + roots.drop_first() =~= roots);
    assert(seq![roots[0]].drop_last() =~= Seq::<usize>::empty());
    assert(seq![roots[0]].last() == roots[0]);
    assert(roots_s(a, Seq::<usize>::empty()) =~= Seq::<char>::empty());
    assert(roots_s(a, seq![roots[0]]) =~= entity_s(a, roots[0] as int, 0));
}

/// `indent * 2` spaces.
pub fn create_indent(indent: usize) -> (s: String)
    requires
        indent * 2 <= usize::MAX,
    ensures
        s@ == indent_s(indent as nat),
{
    let mut s = String::new();
    let n = indent * 2;
    let mut i: usize = 0;
    while i < n
        invariant
            i <= n,
            n == indent * 2,
            s@ == Seq::new(i as nat, |j: int| ' '),
        decreases n - i,
    {
        string_push(&mut s, ' ');
        i = i + 1;
        proof {
            assert(s@ =~= Seq::new(i as nat, |j: int| ' '));
        }
    }
    s
}

/// The header line of an entity, without its `{`.
pub fn print_entity_header(header: &AstEntityNode, indent: usize) -> (res: String)
    requires
        indent * 2 <= usize::MAX,
    ensures
        res@ == header_s(header@, indent as nat),
{
    let mut res = create_indent(indent);
    string_push_str(&mut res, header.main_type.as_str());
    string_push_str(&mut res, " ");
    let ghost a = res@;
    match &header.sub_type {
        Some(id) => {
            string_push_str(&mut res, id.as_str());
            string_push_str(&mut res, " ");
        },
        None => {},
    }
    let ghost b = res@;
    match &header.identifier {
        Some(id) => {
            string_push_str(&mut res, "#");
            string_push_str(&mut res, id.as_str());
            string_push_str(&mut res, " ");
        },
        None => {},
    }
    let ghost c = res@;
    match &header.reference {
        Some(id) => {
            string_push_str(&mut res, "@");
            string_push_str(&mut res, id.as_str());
            string_push_str(&mut res, " ");
        },
        None => {},
    }
    proof {
        assert(res@ =~= header_s(header@, indent as nat));
    }
    res
}

fn print_expr(expr: &Expr, pr: &ParseResult, Ghost(k): Ghost<int>) -> (res: String)
    requires
        pr.arena().sound(),
        0 <= k < pr.expressions@.len(),
        *expr == pr.expressions@[k],
    ensures
        res@ == expr_s(pr.arena(), k),
    decreases pr.arena().expr_rank()(k) + 1, 0int,
{
    let ghost a = pr.arena();
    let ghost rk = a.expr_rank();
    proof {
        assert(a.expr_ranking(rk));
        assert(a.exprs[k] == expr@);
        assert(a.exprs[k].links_ranked(rk, k, a.exprs.len() as int));
    }
    let mut res = String::new();
    match expr {
        Expr::Operator(node) => {
            let left_node = pr.get_expr(node.left_side);
            let right_node = pr.get_expr(node.right_side);
            let left_side = print_expr(left_node, pr, Ghost(node.left_side as int));
            let right_side = print_expr(right_node, pr, Ghost(node.right_side as int));
            string_push_str(&mut res, left_side.as_str());
            string_push_str(&mut res, " ");
            string_push(&mut res, node.operator);
            string_push_str(&mut res, " ");
            string_push_str(&mut res, right_side.as_str());
            proof { assert(res@ =~= expr_s(a, k)); }
        },
        Expr::Identifier(node) => {
            string_push_str(&mut res, node.value.as_str());
            proof { assert(res@ =~= expr_s(a, k)); }
        },
        Expr::String(node) => {
            string_push_str(&mut res, "\"");
            string_push_str(&mut res, node.value.as_str());
            string_push_str(&mut res, "\"");
            proof { assert(res@ =~= expr_s(a, k)); }
        },
        Expr::UnaryOperator(node) => {
            string_push(&mut res, node.operator);
            let e = pr.get_expr(node.expr);
            let t = print_expr(e, pr, Ghost(node.expr as int));
            string_push_str(&mut res, t.as_str());
            proof { assert(res@ =~= expr_s(a, k)); }
        },
        Expr::Number(node) => {
            string_push_str(&mut res, node.text_rep.as_str());
            proof { assert(res@ =~= expr_s(a, k)); }
        },
        Expr::Function(node) => {
            proof {
                assert(a.exprs[k] == ExprV::Function(node.identifier@, node.argument_list@));
                assert forall|j: int| 0 <= j < node.argument_list@.len() implies #[trigger] node.argument_list@[j]
                    < a.exprs.len() && rk(node.argument_list@[j] as int) < rk(k) by {
                    let xs = a.exprs[k]->Function_1;
                    assert(xs == node.argument_list@);
                    assert(xs[j] < a.exprs.len() && rk(xs[j] as int) < rk(k));
                }
            }
            string_push_str(&mut res, node.identifier.as_str());
            string_push(&mut res, '(');
            let joined = print_args(&node.argument_list, pr, Ghost(k));
            string_push_str(&mut res, joined.as_str());
            string_push(&mut res, ')');
            proof { assert(res@ =~= expr_s(a, k)); }
        },
        Expr::VPath(node) => {
            match &node.table {
                Some(s) => string_push_str(&mut res, s.as_str()),
                None => {},
            }
            match &node.sub_table {
                Some(s) => string_push_str(&mut res, s.as_str()),
                None => {},
            }
            string_push(&mut res, ':');
            match &node.field {
                Some(s) => string_push_str(&mut res, s.as_str()),
                None => {},
            }
            match &node.sub_field {
                Some(s) => string_push_str(&mut res, s.as_str()),
                None => {},
            }
            proof { assert(res@ =~= expr_s(a, k)); }
        },
    }
    proof {
        assert(res@ =~= expr_s(a, k));
    }
    res
}

/// The arguments printed and joined by `", "`.
fn print_args(args: &Vec<usize>, pr: &ParseResult, Ghost(k): Ghost<int>) -> (res: String)
    requires
        pr.arena().sound(),
        forall|j: int|
            0 <= j < args@.len() ==> #[trigger] args@[j] < pr.expressions@.len() && pr.arena().expr_rank()(
                args@[j] as int,
            ) < pr.arena().expr_rank()(k),
    ensures
        res@ == args_s(pr.arena(), k, args@),
    decreases pr.arena().expr_rank()(k), args@.len(),
{
    let ghost a = pr.arena();
    let mut res = String::new();
    let mut i: usize = 0;
    proof {
        assert(args@.take(0) =~= Seq::<usize>::empty());
    }
    while i < args.len()
        invariant
            i <= args@.len(),
            a == pr.arena(),
            a.sound(),
            forall|j: int|
                0 <= j < args@.len() ==> #[trigger] args@[j] < pr.expressions@.len() && a.expr_rank()(args@[j] as int)
                    < a.expr_rank()(k),
            res@ == args_s(a, k, args@.take(i as int)),
        decreases args@.len() - i,
    {
        let ar = args[i];
        let e = pr.get_expr(ar);
        let t = print_expr(e, pr, Ghost(ar as int));
        if i != 0 {
            string_push_str(&mut res, ", ");
        }
        string_push_str(&mut res, t.as_str());
        proof {
            let s = args@.take(i + 1);
            assert(s.drop_last() =~= args@.take(i as int));
            assert(!(exists|j: int| 0 <= j < s.len() && a.expr_rank()(s[j] as int) >= a.expr_rank()(k)));
            if i == 0 {
                assert(res@ =~= expr_s(a, args@[0] as int));
            }
        }
        i = i + 1;
    }
    proof {
        assert(args@.take(i as int) =~= args@);
    }
    res
}

fn print_field(field: &AstFieldNode, indent: usize, pr: &ParseResult, Ghost(f): Ghost<int>) -> (res: String)
    requires
        pr.arena().sound(),
        0 <= f < pr.fields@.len(),
        *field == pr.fields@[f],
        indent * 2 <= usize::MAX,
    ensures
        res@ == field_s(pr.arena(), f, indent as nat),
{
    let ghost a = pr.arena();
    let mut res = create_indent(indent);
    string_push_str(&mut res, field.identifier.as_str());
    string_push_str(&mut res, ": ");
    proof {
        assert(a.fields[f] == field@);
        assert(a.fields[f].value < a.exprs.len());
    }
    let expr = pr.get_expr(field.value);
    let t = print_expr(expr, pr, Ghost(field.value as int));
    string_push_str(&mut res, t.as_str());
    string_push_str(&mut res, "\n");
    proof {
        assert(res@ =~= field_s(a, f, indent as nat));
    }
    res
}

fn print_entity(entity: &AstEntityNode, indent: usize, pr: &ParseResult, Ghost(k): Ghost<int>) -> (res: String)
    requires
        pr.arena().sound(),
        0 <= k < pr.entities@.len(),
        *entity == pr.entities@[k],
        indent + 2 * pr.arena().entity_rank()(k) + 4 <= usize::MAX / 2,
    ensures
        res@ == entity_s(pr.arena(), k, indent as nat),
    decreases pr.arena().entity_rank()(k) + 1, 0int,
{
    let ghost a = pr.arena();
    let ghost er = a.entity_rank();
    proof {
        assert(a.entity_ranking(er));
        assert(a.entities[k] == entity@);
    }
    let mut res = print_entity_header(entity, indent);
    string_push_str(&mut res, "{\n");
    let ghost h = res@;
    let mut i: usize = 0;
    proof {
        assert(entity.fields@.take(0) =~= Seq::<usize>::empty());
    }
    while i < entity.fields.len()
        invariant
            i <= entity.fields@.len(),
            a == pr.arena(),
            a.sound(),
            0 <= k < a.entities.len(),
            a.entities[k] == entity@,
            indent + 2 * a.entity_rank()(k) + 4 <= usize::MAX / 2,
            res@ == h + fields_s(a, entity.fields@.take(i as int), indent as nat + 2),
        decreases entity.fields@.len() - i,
    {
        let fr = entity.fields[i];
        proof {
            assert(a.entities[k].fields[i as int] < a.fields.len());
        }
        let field = pr.get_field(fr);
        let t = print_field(field, indent + 2, pr, Ghost(fr as int));
        string_push_str(&mut res, t.as_str());
        proof {
            assert(entity.fields@.take(i + 1).drop_last() =~= entity.fields@.take(i as int));
            assert(res@ =~= h + fields_s(a, entity.fields@.take(i + 1), indent as nat + 2));
        }
        i = i + 1;
    }
    proof {
        assert(entity.fields@.take(i as int) =~= entity.fields@);
    }
    proof {
        assert forall|j: int| 0 <= j < entity.children@.len() implies #[trigger] entity.children@[j]
            < a.entities.len() && er(entity.children@[j] as int) < er(k) by {
            assert(a.entities[k].children[j] == entity.children@[j]);
        }
    }
    let children = print_children(&entity.children, indent + 2, pr, Ghost(k));
    string_push_str(&mut res, children.as_str());
    let close = create_indent(indent);
    string_push_str(&mut res, close.as_str());
    string_push_str(&mut res, "}\n");
    proof {
        assert(res@ =~= entity_s(a, k, indent as nat));
    }
    res
}

/// The child entities `cs` (all below `k`), printed one after the other.
fn print_children(cs: &Vec<usize>, indent: usize, pr: &ParseResult, Ghost(k): Ghost<int>) -> (res: String)
    requires
        pr.arena().sound(),
        forall|j: int|
            0 <= j < cs@.len() ==> #[trigger] cs@[j] < pr.entities@.len() && pr.arena().entity_rank()(cs@[j] as int)
                < pr.arena().entity_rank()(k),
        indent + 2 * pr.arena().entity_rank()(k) + 2 <= usize::MAX / 2,
    ensures
        res@ == children_s(pr.arena(), k, cs@, indent as nat),
    decreases pr.arena().entity_rank()(k), cs@.len(),
{
    let ghost a = pr.arena();
    let mut res = String::new();
    let mut i: usize = 0;
    proof {
        assert(cs@.take(0) =~= Seq::<usize>::empty());
    }
    while i < cs.len()
        invariant
            i <= cs@.len(),
            a == pr.arena(),
            a.sound(),
            indent + 2 * a.entity_rank()(k) + 2 <= usize::MAX / 2,
            forall|j: int|
                0 <= j < cs@.len() ==> #[trigger] cs@[j] < pr.entities@.len() && a.entity_rank()(cs@[j] as int)
                    < a.entity_rank()(k),
            res@ == children_s(a, k, cs@.take(i as int), indent as nat),
        decreases cs@.len() - i,
    {
        let cr = cs[i];
        let child = pr.get_entity(cr);
        let t = print_entity(child, indent, pr, Ghost(cr as int));
        string_push_str(&mut res, t.as_str());
        proof {
            let s = cs@.take(i + 1);
            assert(s.drop_last() =~= cs@.take(i as int));
            assert(!(exists|j: int| 0 <= j < s.len() && a.entity_rank()(s[j] as int) >= a.entity_rank()(k)));
        }
        i = i + 1;
    }
    proof {
        assert(cs@.take(i as int) =~= cs@);
    }
    res
}

/// Prints the script: every top-level entity with its fields and children.
/// The script may link to nodes in any order, as long as every link points
/// into its arena and nothing links in a cycle (`ParseResult::sound`).
pub fn print(pr: ParseResult) -> (res: String)
    requires
        pr.sound(),
        2 * pr.entities@.len() + 4 <= usize::MAX / 2,
    ensures
        res@ == roots_s(pr.arena(), pr.root.children@),
{
    let ghost a = pr.arena();
    let mut res = String::new();
    let mut i: usize = 0;
    proof {
        assert(pr.root.children@.take(0) =~= Seq::<usize>::empty());
    }
    while i < pr.root.children.len()
        invariant
            i <= pr.root.children@.len(),
            a == pr.arena(),
            pr.sound(),
            a.entity_ranking(a.entity_rank()),
            2 * pr.entities@.len() + 4 <= usize::MAX / 2,
            res@ == roots_s(a, pr.root.children@.take(i as int)),
        decreases pr.root.children@.len() - i,
    {
        let child_id = pr.root.children[i];
        let child = pr.get_entity(child_id);
        let t = print_entity(child, 0, &pr, Ghost(child_id as int));
        string_push_str(&mut res, t.as_str());
        proof {
            assert(pr.root.children@.take(i + 1).drop_last() =~= pr.root.children@.take(i as int));
        }
        i = i + 1;
    }
    proof {
        assert(pr.root.children@.take(i as int) =~= pr.root.children@);
    }
    res
}

} // verus!
