use vstd::prelude::*;

verus! {

broadcast use vstd::std_specs::vec::group_vec_axioms, vstd::seq::group_seq_axioms;

#[derive(Debug, Clone, Copy, PartialEq, Eq)]
pub enum UnOp {
    Plus,
    Minus,
}

#[derive(Debug, Clone, Copy, PartialEq, Eq)]
pub enum BinOp {
    Add,
    Sub,
    Mul,
    Eq,
    Ne,
    Lt,
    Gt,
}

/// A name used as a variable or as the target of a call.
#[derive(Debug, Clone, PartialEq, Eq)]
pub struct Ident {
    pub symbol: String,
}

#[derive(Debug, PartialEq, Eq)]
pub enum ExprKind {
    NumLit(u64),
    BoolLit(bool),
    Ident(Ident),
    Unary(UnOp, Box<Expr>),
    Binary(BinOp, Box<Expr>, Box<Expr>),
    Assign(Box<Expr>, Box<Expr>),
    Call(Ident, Vec<Expr>),
    /// Condition, then-branch (always a block), optional else-branch.
    If(Box<Expr>, Box<Expr>, Option<Box<Expr>>),
    Block(Vec<Expr>),
    Return(Box<Expr>),
}

/// A node of the syntax tree; `id` is issued once, when the node is built.
#[derive(Debug, PartialEq, Eq)]
pub struct Expr {
    pub kind: ExprKind,
    pub id: usize,
}

/// The mathematical model of a syntax tree node.
pub enum NodeKind {
    NumLit(u64),
    BoolLit(bool),
    Ident(Seq<char>),
    Unary(UnOp, Box<Node>),
    Binary(BinOp, Box<Node>, Box<Node>),
    Assign(Box<Node>, Box<Node>),
    Call(Seq<char>, Seq<Node>),
    If(Box<Node>, Box<Node>, Option<Box<Node>>),
    Block(Seq<Node>),
    Return(Box<Node>),
}

pub struct Node {
    pub kind: NodeKind,
    pub id: nat,
}

pub open spec fn node(kind: NodeKind, id: nat) -> Node {
    Node { kind, id }
}

pub open spec fn model_of(e: Expr) -> Node
    decreases e,
{
    let kind = match e.kind {
        ExprKind::NumLit(n) => NodeKind::NumLit(n),
        ExprKind::BoolLit(b) => NodeKind::BoolLit(b),
        ExprKind::Ident(i) => NodeKind::Ident(i.symbol@),
        ExprKind::Unary(op, a) => NodeKind::Unary(op, Box::new(model_of(*a))),
        ExprKind::Binary(op, a, b) => NodeKind::Binary(op, Box::new(model_of(*a)), Box::new(model_of(*b))),
        ExprKind::Assign(a, b) => NodeKind::Assign(Box::new(model_of(*a)), Box::new(model_of(*b))),
        ExprKind::Call(i, args) => NodeKind::Call(i.symbol@, models_of(args@)),
        ExprKind::If(c, t, None) => NodeKind::If(Box::new(model_of(*c)), Box::new(model_of(*t)), None),
        ExprKind::If(c, t, Some(f)) => NodeKind::If(
            Box::new(model_of(*c)),
            Box::new(model_of(*t)),
            Some(Box::new(model_of(*f))),
        ),
        ExprKind::Block(items) => NodeKind::Block(models_of(items@)),
        ExprKind::Return(a) => NodeKind::Return(Box::new(model_of(*a))),
    };
    Node { kind, id: e.id as nat }
}

pub open spec fn models_of(s: Seq<Expr>) -> Seq<Node>
    decreases s,
{
    if s.len() == 0 {
        Seq::empty()
    } else {
        models_of(s.drop_last()).push(model_of(s.last()))
    }
}

impl View for Expr {
    type V = Node;

    open spec fn view(&self) -> Node {
        model_of(*self)
    }
}

/// The identifiers of all nodes of a tree, parent before children.
pub open spec fn ids_of(n: Node) -> Seq<nat>
    decreases n,
{
    seq![n.id] + match n.kind {
        NodeKind::Unary(_, a) => ids_of(*a),
        NodeKind::Return(a) => ids_of(*a),
        NodeKind::Binary(_, a, b) => ids_of(*a) + ids_of(*b),
        NodeKind::Assign(a, b) => ids_of(*a) + ids_of(*b),
        NodeKind::Call(_, args) => ids_of_all(args),
        NodeKind::Block(items) => ids_of_all(items),
        NodeKind::If(c, t, None) => ids_of(*c) + ids_of(*t),
        NodeKind::If(c, t, Some(f)) => ids_of(*c) + ids_of(*t) + ids_of(*f),
        _ => Seq::empty(),
    }
}

pub open spec fn ids_of_all(s: Seq<Node>) -> Seq<nat>
    decreases s,
{
    if s.len() == 0 {
        Seq::empty()
    } else {
        ids_of_all(s.drop_last()) + ids_of(s.last())
    }
}

/// The identifiers in `ids` are pairwise distinct and lie in `[lo, hi)`.
pub open spec fn distinct_within(ids: Seq<nat>, lo: nat, hi: nat) -> bool {
    &&& ids.no_duplicates()
    &&& forall|k: int| 0 <= k < ids.len() ==> lo <= #[trigger] ids[k] < hi
}

pub proof fn lemma_models_push(s: Seq<Expr>, e: Expr)
    ensures
        models_of(s.push(e)) == models_of(s).push(model_of(e)),
{
    assert(s.push(e).drop_last() =~= s);
}

pub proof fn lemma_ids_push(s: Seq<Node>, n: Node)
    ensures
        ids_of_all(s.push(n)) == ids_of_all(s) + ids_of(n),
{
    assert(s.push(n).drop_last() =~= s);
}

/// Two sequences of distinct identifiers, no identifier in both, join into one.
pub proof fn lemma_join_disjoint(a: Seq<nat>, b: Seq<nat>, lo: nat, hi: nat)
    requires
        distinct_within(a, lo, hi),
        distinct_within(b, lo, hi),
        forall|i: int, j: int| 0 <= i < a.len() && 0 <= j < b.len() ==> a[i] != b[j],
    ensures
        distinct_within(a + b, lo, hi),
{
    let c = a + b;
    assert forall|k: int| 0 <= k < c.len() implies lo <= #[trigger] c[k] < hi by {
        if k < a.len() {
            assert(c[k] == a[k]);
        } else {
            assert(c[k] == b[k - a.len()]);
        }
    }
    assert forall|i: int, j: int| 0 <= i < c.len() && 0 <= j < c.len() && i != j implies c[i] != c[j] by {
        if i < a.len() && j < a.len() {
            assert(c[i] == a[i] && c[j] == a[j]);
        } else if i >= a.len() && j >= a.len() {
            assert(c[i] == b[i - a.len()] && c[j] == b[j - a.len()]);
        } else if i < a.len() {
            assert(c[i] == a[i] && c[j] == b[j - a.len()]);
        } else {
            assert(c[i] == b[i - a.len()] && c[j] == a[j]);
        }
    }
}

/// Two sequences of distinct identifiers from disjoint ranges join into one.
pub proof fn lemma_join(a: Seq<nat>, b: Seq<nat>, lo1: nat, hi1: nat, lo2: nat, hi2: nat, lo: nat, hi: nat)
    requires
        distinct_within(a, lo1, hi1),
        distinct_within(b, lo2, hi2),
        hi1 <= lo2 || hi2 <= lo1,
        lo <= lo1,
        lo <= lo2,
        hi1 <= hi,
        hi2 <= hi,
    ensures
        distinct_within(a + b, lo, hi),
{
    assert forall|i: int, j: int| 0 <= i < a.len() && 0 <= j < b.len() implies a[i] != b[j] by {
        assert(lo1 <= a[i] < hi1 && lo2 <= b[j] < hi2);
    }
    lemma_join_disjoint(a, b, lo, hi);
}

/// A node issued `id` over children whose identifiers are distinct and lie
/// below it.
pub proof fn lemma_parent(id: nat, children: Seq<nat>, lo: nat)
    requires
        lo <= id,
        distinct_within(children, lo, id),
    ensures
        distinct_within(seq![id] + children, lo, id + 1),
{
    let one = seq![id];
    assert(one[0] == id);
    assert(distinct_within(one, id, id + 1));
    lemma_join(one, children, id, id + 1, lo, id, lo, id + 1);
}

pub proof fn lemma_empty_ids(lo: nat, hi: nat)
    ensures
        distinct_within(Seq::<nat>::empty(), lo, hi),
{
}

} // verus!
