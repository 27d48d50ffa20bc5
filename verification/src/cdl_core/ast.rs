//! The syntax tree of a CDL script, kept in arenas and linked by index.
use vstd::prelude::*;

verus! {

pub type EntityRef = usize;
pub type EntityFieldRef = usize;
pub type EntityExprRef = usize;

/// An expression node.
#[derive(Debug)]
pub enum Expr {
    String(Box<AstStringNode>),
    Identifier(Box<AstIdentifierNode>),
    Number(Box<AstNumberNode>),
    Function(Box<AstFunctionNode>),
    VPath(Box<AstVPathNode>),
    Operator(Box<AstOperatorNode>),
    UnaryOperator(Box<AstUnaryOperatorNode>),
}

#[derive(Debug)]
pub struct AstStringNode {
    pub value: String,
}

#[derive(Debug)]
pub struct AstIdentifierNode {
    pub value: String,
}

/// A number, kept as the text it was written with.
#[derive(Debug)]
pub struct AstNumberNode {
    pub text_rep: String,
}

#[derive(Debug)]
pub struct AstFunctionNode {
    pub identifier: String,
    pub argument_list: Vec<EntityExprRef>,
}

#[derive(Debug)]
pub struct AstOperatorNode {
    pub operator: char,
    pub left_side: EntityExprRef,
    pub right_side: EntityExprRef,
}

#[derive(Debug)]
pub struct AstUnaryOperatorNode {
    pub operator: char,
    pub expr: EntityExprRef,
}

#[derive(Debug)]
pub struct AstVPathNode {
    pub table: Option<String>,
    pub sub_table: Option<String>,
    pub field: Option<String>,
    pub sub_field: Option<String>,
}

#[derive(Debug)]
pub struct AstRootNode {
    pub children: Vec<EntityRef>,
}

#[derive(Debug)]
pub struct AstEntityNode {
    pub main_type: String,
    pub sub_type: Option<String>,
    pub reference: Option<String>,
    pub identifier: Option<String>,
    pub fields: Vec<EntityFieldRef>,
    pub children: Vec<EntityRef>,
}

impl AstEntityNode {
    /// An entity with an empty main type and nothing else.
    pub fn new() -> (n: AstEntityNode)
        ensures
            n@ == (EntityV {
                main_type: Seq::empty(),
                sub_type: None,
                reference: None,
                identifier: None,
                fields: Seq::empty(),
                children: Seq::empty(),
            }),
    {
        AstEntityNode {
            main_type: String::new(),
            sub_type: None,
            reference: None,
            identifier: None,
            fields: Vec::new(),
            children: Vec::new(),
        }
    }
}

#[derive(Debug)]
pub struct AstFieldNode {
    pub identifier: String,
    pub value: EntityExprRef,
}

/// The parsed script: the top-level entities and the arenas of all entities,
/// fields and expressions.
#[derive(Debug)]
pub struct ParseResult {
    pub root: AstRootNode,
    pub entities: Vec<AstEntityNode>,
    pub fields: Vec<AstFieldNode>,
    pub expressions: Vec<Expr>,
}

/// Value of an expression node.
pub enum ExprV {
    Str(Seq<char>),
    Identifier(Seq<char>),
    Number(Seq<char>),
    Function(Seq<char>, Seq<usize>),
    VPath(Option<Seq<char>>, Option<Seq<char>>, Option<Seq<char>>, Option<Seq<char>>),
    Operator(char, usize, usize),
    UnaryOperator(char, usize),
}

/// Value of an entity node.
pub struct EntityV {
    pub main_type: Seq<char>,
    pub sub_type: Option<Seq<char>>,
    pub reference: Option<Seq<char>>,
    pub identifier: Option<Seq<char>>,
    pub fields: Seq<usize>,
    pub children: Seq<usize>,
}

/// Value of a field node.
pub struct FieldV {
    pub identifier: Seq<char>,
    pub value: usize,
}

/// Value of the arenas.
pub struct ArenaV {
    pub entities: Seq<EntityV>,
    pub fields: Seq<FieldV>,
    pub exprs: Seq<ExprV>,
}

pub open spec fn ostr(o: Option<String>) -> Option<Seq<char>> {
    match o {
        Some(s) => Some(s@),
        None => None,
    }
}

impl View for Expr {
    type V = ExprV;

    open spec fn view(&self) -> ExprV {
        match self {
            Expr::String(n) => ExprV::Str(n.value@),
            Expr::Identifier(n) => ExprV::Identifier(n.value@),
            Expr::Number(n) => ExprV::Number(n.text_rep@),
            Expr::Function(n) => ExprV::Function(n.identifier@, n.argument_list@),
            Expr::VPath(n) => ExprV::VPath(ostr(n.table), ostr(n.sub_table), ostr(n.field), ostr(n.sub_field)),
            Expr::Operator(n) => ExprV::Operator(n.operator, n.left_side, n.right_side),
            Expr::UnaryOperator(n) => ExprV::UnaryOperator(n.operator, n.expr),
        }
    }
}

impl View for AstEntityNode {
    type V = EntityV;

    open spec fn view(&self) -> EntityV {
        EntityV {
            main_type: self.main_type@,
            sub_type: ostr(self.sub_type),
            reference: ostr(self.reference),
            identifier: ostr(self.identifier),
            fields: self.fields@,
            children: self.children@,
        }
    }
}

impl View for AstFieldNode {
    type V = FieldV;

    open spec fn view(&self) -> FieldV {
        FieldV { identifier: self.identifier@, value: self.value }
    }
}

impl ParseResult {
    /// The arenas as values.
    pub open spec fn arena(&self) -> ArenaV {
        ArenaV {
            entities: self.entities@.map_values(|e: AstEntityNode| e@),
            fields: self.fields@.map_values(|f: AstFieldNode| f@),
            exprs: self.expressions@.map_values(|e: Expr| e@),
        }
    }

    /// Every link points into its arena, and every node links only to
    /// nodes stored before it (so the tree has no cycles).
    pub open spec fn wf(&self) -> bool {
        &&& self.arena().wf()
        &&& forall|i: int| 0 <= i < self.root.children@.len() ==> #[trigger] self.root.children@[i]
            < self.entities@.len()
    }

    pub fn get_entity(&self, r: EntityRef) -> (e: &AstEntityNode)
        requires
            r < self.entities@.len(),
        ensures
            *e == self.entities@[r as int],
    {
        &self.entities[r]
    }

    pub fn add_entity(&mut self, node: AstEntityNode) -> (r: EntityRef)
        ensures
            final(self).entities@ == old(self).entities@.push(node),
            final(self).fields@ == old(self).fields@,
            final(self).expressions@ == old(self).expressions@,
            final(self).root == old(self).root,
            final(self).arena() == old(self).arena().push_entity(node@),
            r == old(self).entities@.len(),
    {
        self.entities.push(node);
        proof {
            assert(self.arena().entities =~= old(self).arena().entities.push(node@));
            assert(self.arena().fields =~= old(self).arena().fields);
            assert(self.arena().exprs =~= old(self).arena().exprs);
        }
        self.entities.len() - 1
    }

    pub fn get_field(&self, r: EntityFieldRef) -> (f: &AstFieldNode)
        requires
            r < self.fields@.len(),
        ensures
            *f == self.fields@[r as int],
    {
        &self.fields[r]
    }

    pub fn add_field(&mut self, node: AstFieldNode) -> (r: EntityFieldRef)
        ensures
            final(self).fields@ == old(self).fields@.push(node),
            final(self).entities@ == old(self).entities@,
            final(self).expressions@ == old(self).expressions@,
            final(self).root == old(self).root,
            final(self).arena() == old(self).arena().push_field(node@),
            r == old(self).fields@.len(),
    {
        self.fields.push(node);
        proof {
            assert(self.arena().fields =~= old(self).arena().fields.push(node@));
            assert(self.arena().entities =~= old(self).arena().entities);
            assert(self.arena().exprs =~= old(self).arena().exprs);
        }
        self.fields.len() - 1
    }

    pub fn get_expr(&self, r: EntityExprRef) -> (e: &Expr)
        requires
            r < self.expressions@.len(),
        ensures
            *e == self.expressions@[r as int],
    {
        &self.expressions[r]
    }

    pub fn add_expr(&mut self, node: Expr) -> (r: EntityExprRef)
        ensures
            final(self).expressions@ == old(self).expressions@.push(node),
            final(self).entities@ == old(self).entities@,
            final(self).fields@ == old(self).fields@,
            final(self).root == old(self).root,
            final(self).arena() == old(self).arena().push_expr(node@),
            r == old(self).expressions@.len(),
    {
        self.expressions.push(node);
        proof {
            assert(self.arena().exprs =~= old(self).arena().exprs.push(node@));
            assert(self.arena().entities =~= old(self).arena().entities);
            assert(self.arena().fields =~= old(self).arena().fields);
        }
        self.expressions.len() - 1
    }
}

impl ExprV {
    /// The expression links only to expressions stored before index `k`.
    pub open spec fn links_below(self, k: int) -> bool {
        match self {
            ExprV::Function(_, args) => forall|j: int| 0 <= j < args.len() ==> #[trigger] args[j] < k,
            ExprV::Operator(_, l, r) => l < k && r < k,
            ExprV::UnaryOperator(_, e) => e < k,
            _ => true,
        }
    }
}

impl ArenaV {
    pub open spec fn wf(self) -> bool {
        &&& forall|k: int| 0 <= k < self.exprs.len() ==> #[trigger] self.exprs[k].links_below(k)
        &&& forall|k: int| 0 <= k < self.fields.len() ==> #[trigger] self.fields[k].value < self.exprs.len()
        &&& forall|k: int, j: int|
            0 <= k < self.entities.len() && 0 <= j < self.entities[k].fields.len() ==> #[trigger] self.entities[k].fields[j]
                < self.fields.len()
        &&& forall|k: int, j: int|
            0 <= k < self.entities.len() && 0 <= j < self.entities[k].children.len() ==> #[trigger] self.entities[k].children[j]
                < k
    }

    pub open spec fn push_expr(self, e: ExprV) -> ArenaV {
        ArenaV { exprs: self.exprs.push(e), ..self }
    }

    pub open spec fn push_field(self, f: FieldV) -> ArenaV {
        ArenaV { fields: self.fields.push(f), ..self }
    }

    pub open spec fn push_entity(self, e: EntityV) -> ArenaV {
        ArenaV { entities: self.entities.push(e), ..self }
    }

    pub proof fn lemma_push_expr(self, e: ExprV)
        requires
            self.wf(),
            e.links_below(self.exprs.len() as int),
        ensures
            self.push_expr(e).wf(),
            self.push_expr(e).extends(self),
    {
        let b = self.push_expr(e);
        assert forall|k: int| 0 <= k < b.exprs.len() implies #[trigger] b.exprs[k].links_below(k) by {
            if k < self.exprs.len() {
                assert(b.exprs[k] == self.exprs[k]);
            }
        }
        assert(b.exprs.take(self.exprs.len() as int) =~= self.exprs);
        assert(b.fields.take(self.fields.len() as int) =~= self.fields);
        assert(b.entities.take(self.entities.len() as int) =~= self.entities);
    }

    pub proof fn lemma_push_field(self, f: FieldV)
        requires
            self.wf(),
            f.value < self.exprs.len(),
        ensures
            self.push_field(f).wf(),
            self.push_field(f).extends(self),
    {
        let b = self.push_field(f);
        assert forall|k: int| 0 <= k < b.fields.len() implies #[trigger] b.fields[k].value < b.exprs.len() by {
            if k < self.fields.len() {
                assert(b.fields[k] == self.fields[k]);
            }
        }
        assert forall|k: int, j: int|
            0 <= k < b.entities.len() && 0 <= j < b.entities[k].fields.len() implies #[trigger] b.entities[k].fields[j]
                < b.fields.len() by {
            assert(self.entities[k].fields[j] < self.fields.len());
        }
        assert(b.exprs.take(self.exprs.len() as int) =~= self.exprs);
        assert(b.fields.take(self.fields.len() as int) =~= self.fields);
        assert(b.entities.take(self.entities.len() as int) =~= self.entities);
    }

    pub proof fn lemma_push_entity(self, e: EntityV)
        requires
            self.wf(),
            forall|j: int| 0 <= j < e.fields.len() ==> #[trigger] e.fields[j] < self.fields.len(),
            forall|j: int| 0 <= j < e.children.len() ==> #[trigger] e.children[j] < self.entities.len(),
        ensures
            self.push_entity(e).wf(),
            self.push_entity(e).extends(self),
    {
        let b = self.push_entity(e);
        assert forall|k: int, j: int|
            0 <= k < b.entities.len() && 0 <= j < b.entities[k].fields.len() implies #[trigger] b.entities[k].fields[j]
                < b.fields.len() by {
            if k < self.entities.len() {
                assert(b.entities[k] == self.entities[k]);
            }
        }
        assert forall|k: int, j: int|
            0 <= k < b.entities.len() && 0 <= j < b.entities[k].children.len() implies #[trigger] b.entities[k].children[j]
                < k by {
            if k < self.entities.len() {
                assert(b.entities[k] == self.entities[k]);
            }
        }
        assert(b.exprs.take(self.exprs.len() as int) =~= self.exprs);
        assert(b.fields.take(self.fields.len() as int) =~= self.fields);
        assert(b.entities.take(self.entities.len() as int) =~= self.entities);
    }

    pub proof fn lemma_extends_trans(self, b: ArenaV, c: ArenaV)
        requires
            self.extends(b),
            b.extends(c),
        ensures
            self.extends(c),
    {
        assert(self.exprs.take(c.exprs.len() as int) =~= b.exprs.take(c.exprs.len() as int));
        assert(self.fields.take(c.fields.len() as int) =~= b.fields.take(c.fields.len() as int));
        assert(self.entities.take(c.entities.len() as int) =~= b.entities.take(c.entities.len() as int));
    }

    pub proof fn lemma_extends_refl(self)
        ensures
            self.extends(self),
    {
        assert(self.exprs.take(self.exprs.len() as int) =~= self.exprs);
        assert(self.fields.take(self.fields.len() as int) =~= self.fields);
        assert(self.entities.take(self.entities.len() as int) =~= self.entities);
    }

    /// `self` is `other` with nodes appended.
    pub open spec fn extends(self, other: ArenaV) -> bool {
        &&& other.entities.len() <= self.entities.len()
        &&& other.fields.len() <= self.fields.len()
        &&& other.exprs.len() <= self.exprs.len()
        &&& self.entities.take(other.entities.len() as int) == other.entities
        &&& self.fields.take(other.fields.len() as int) == other.fields
        &&& self.exprs.take(other.exprs.len() as int) == other.exprs
    }
}

impl ExprV {
    /// Every expression this one links to is stored (index below `n`) and
    /// ranks below it by `r`.
    pub open spec fn links_ranked(self, r: spec_fn(int) -> nat, k: int, n: int) -> bool {
        match self {
            ExprV::Function(_, args) => forall|j: int|
                0 <= j < args.len() ==> #[trigger] args[j] < n && r(args[j] as int) < r(k),
            ExprV::Operator(_, l, rt) => l < n && rt < n && r(l as int) < r(k) && r(rt as int) < r(k),
            ExprV::UnaryOperator(_, e) => e < n && r(e as int) < r(k),
            _ => true,
        }
    }
}

impl ArenaV {
    /// `r` ranks the expressions: each links only to stored expressions of
    /// smaller rank.
    pub open spec fn expr_ranking(self, r: spec_fn(int) -> nat) -> bool {
        forall|k: int| 0 <= k < self.exprs.len() ==> #[trigger] self.exprs[k].links_ranked(r, k, self.exprs.len() as int)
    }

    /// `r` ranks the entities below their number: each entity's children are
    /// stored entities of smaller rank.
    pub open spec fn entity_ranking(self, r: spec_fn(int) -> nat) -> bool {
        &&& forall|k: int| 0 <= k < self.entities.len() ==> #[trigger] r(k) < self.entities.len()
        &&& forall|k: int, j: int|
            0 <= k < self.entities.len() && 0 <= j < self.entities[k].children.len() ==> #[trigger] self.entities[k].children[j]
                < self.entities.len() && r(self.entities[k].children[j] as int) < r(k)
    }

    /// A ranking of the expressions, where there is one.
    pub open spec fn expr_rank(self) -> spec_fn(int) -> nat {
        choose|r: spec_fn(int) -> nat| self.expr_ranking(r)
    }

    /// A ranking of the entities, where there is one.
    pub open spec fn entity_rank(self) -> spec_fn(int) -> nat {
        choose|r: spec_fn(int) -> nat| self.entity_ranking(r)
    }

    /// Every link points into its arena, and neither the expressions nor the
    /// entities link in a cycle: both can be ranked so that links go to
    /// smaller ranks.
    pub open spec fn sound(self) -> bool {
        &&& exists|r: spec_fn(int) -> nat| self.expr_ranking(r)
        &&& exists|r: spec_fn(int) -> nat| self.entity_ranking(r)
        &&& forall|k: int| 0 <= k < self.fields.len() ==> #[trigger] self.fields[k].value < self.exprs.len()
        &&& forall|k: int, j: int|
            0 <= k < self.entities.len() && 0 <= j < self.entities[k].fields.len() ==> #[trigger] self.entities[k].fields[j]
                < self.fields.len()
    }

    /// Arenas whose nodes link only to nodes stored before them are sound:
    /// the index itself ranks them.
    pub proof fn lemma_wf_sound(self)
        requires
            self.wf(),
        ensures
            self.sound(),
    {
        let r = |k: int| if k >= 0 { k as nat } else { 0nat };
        assert forall|k: int| 0 <= k < self.exprs.len() implies #[trigger] self.exprs[k].links_ranked(
            r,
            k,
            self.exprs.len() as int,
        ) by {
            assert(self.exprs[k].links_below(k));
        }
        assert(self.expr_ranking(r));
        assert(self.entity_ranking(r));
    }
}

impl ParseResult {
    /// Every link points into its arena and nothing links in a cycle (see
    /// `ArenaV::sound`): what printing and selecting need.
    pub open spec fn sound(&self) -> bool {
        &&& self.arena().sound()
        &&& forall|i: int| 0 <= i < self.root.children@.len() ==> #[trigger] self.root.children@[i]
            < self.entities@.len()
    }
}

} // verus!
