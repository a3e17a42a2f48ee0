//! Node identifiers of the trees the grammar builds: a rule started with the
//! counter at `id` gives its nodes distinct identifiers from `id` up to the
//! counter it ends with.
use vstd::prelude::*;
use crate::ast::{
    Node, NodeKind, distinct_within, node, ids_of, ids_of_all, lemma_empty_ids, lemma_ids_push, lemma_join,
    lemma_join_disjoint, lemma_parent,
};
use crate::grammar::{
    Parsed, ParsedSeq, args_rule, assign_rule, binary_rule, block_items_rule, block_rule,
    call_rule, else_rule, expr_rule, if_rule, in_range, more_args_rule, primary_rule, program,
    unary_rule,
};
use crate::token::{Token, TokenKind};

verus! {

pub open spec fn fresh_tree(r: Parsed, id: nat) -> bool {
    match r {
        Some((e, _, i)) => id <= i && distinct_within(ids_of(e), id, i),
        None => true,
    }
}

/// Like `fresh_tree`, for a list that already held identifiers from `lo`.
pub open spec fn fresh_list(r: ParsedSeq, lo: nat, id: nat) -> bool {
    match r {
        Some((s, _, i)) => id <= i && distinct_within(ids_of_all(s), lo, i),
        None => true,
    }
}

proof fn lemma_leaf(id: nat)
    ensures
        distinct_within(seq![id] + Seq::<nat>::empty(), id, id + 1),
{
    lemma_empty_ids(id, id);
    lemma_parent(id, Seq::empty(), id);
}

pub proof fn lemma_expr_ids(toks: Seq<Token>, pos: int, id: nat)
    ensures
        fresh_tree(expr_rule(toks, pos, id), id),
    decreases toks.len() - pos, 10nat,
{
    if in_range(toks, pos) {
        match toks[pos].kind {
            TokenKind::If => lemma_if_ids(toks, pos, id),
            TokenKind::Return => {
                lemma_expr_ids(toks, pos + 1, id);
                if let Some((e, _, i)) = expr_rule(toks, pos + 1, id) {
                    lemma_parent(i, ids_of(e), id);
                }
            },
            _ => lemma_assign_ids(toks, pos, id),
        }
    }
}

pub proof fn lemma_else_ids(toks: Seq<Token>, pos: int, id: nat)
    ensures
        fresh_tree(else_rule(toks, pos, id), id),
    decreases toks.len() - pos, 10nat,
{
    if in_range(toks, pos) {
        if toks[pos].kind == TokenKind::If {
            lemma_if_ids(toks, pos, id);
        } else {
            lemma_block_ids(toks, pos, id);
            if let Some((items, _, i)) = block_rule(toks, pos, id) {
                lemma_parent(i, ids_of_all(items), id);
            }
        }
    }
}

pub proof fn lemma_if_ids(toks: Seq<Token>, pos: int, id: nat)
    ensures
        fresh_tree(if_rule(toks, pos, id), id),
    decreases toks.len() - pos, 9nat,
{
    if in_range(toks, pos) && toks[pos].kind == TokenKind::If {
        lemma_expr_ids(toks, pos + 1, id);
        if let Some((c, pos1, i1)) = expr_rule(toks, pos + 1, id) {
            if pos1 > pos && in_range(toks, pos1) {
                lemma_block_ids(toks, pos1, i1);
                if let Some((body, pos2, i2)) = block_rule(toks, pos1, i1) {
                    if pos2 > pos && in_range(toks, pos2) {
                        let has_else = toks[pos2].kind == TokenKind::Else;
                        if has_else {
                            lemma_else_ids(toks, pos2 + 1, i2);
                        }
                        let els: Option<(Option<Box<Node>>, int, nat)> = if has_else {
                            match else_rule(toks, pos2 + 1, i2) {
                                Some((f, pos3, i3)) => Some((Some(Box::new(f)), pos3, i3)),
                                None => None,
                            }
                        } else {
                            Some((None, pos2, i2))
                        };
                        if let Some((f, pos3, i3)) = els {
                            let then_node = node(NodeKind::Block(body), i3);
                            let whole = node(NodeKind::If(Box::new(c), Box::new(then_node), f), i3 + 1);
                            assert(if_rule(toks, pos, id) == Some((whole, pos3, i3 + 2)));
                            let ci = ids_of(c);
                            let bi = ids_of_all(body);
                            lemma_parent(i3, bi, i1);
                            let tb = ids_of(then_node);
                            lemma_join(ci, tb, id, i1, i1, i3 + 1, id, i3 + 1);
                            let ct = ci + tb;
                            match f {
                                Some(fb) => {
                                    let fi = ids_of(*fb);
                                    assert forall|a: int, b: int| 0 <= a < ct.len() && 0 <= b < fi.len() implies ct[a] != fi[b] by {
                                        assert(i2 <= fi[b] < i3);
                                        if a < ci.len() {
                                            assert(ct[a] == ci[a]);
                                        } else if a == ci.len() {
                                            assert(ct[a] == tb[0]);
                                        } else {
                                            assert(ct[a] == tb[a - ci.len()]);
                                            assert(tb[a - ci.len()] == bi[a - ci.len() - 1]);
                                        }
                                    }
                                    lemma_join_disjoint(ct, fi, id, i3 + 1);
                                    lemma_parent(i3 + 1, ct + fi, id);
                                    assert(ids_of(whole) == seq![i3 + 1] + (ct + fi));
                                },
                                None => {
                                    lemma_parent(i3 + 1, ct, id);
                                    assert(ids_of(whole) == seq![i3 + 1] + ct);
                                },
                            }
                        }
                    }
                }
            }
        }
    }
}

pub proof fn lemma_assign_ids(toks: Seq<Token>, pos: int, id: nat)
    ensures
        fresh_tree(assign_rule(toks, pos, id), id),
    decreases toks.len() - pos, 8nat,
{
    if in_range(toks, pos) {
        lemma_binary_ids(toks, pos, id, 7);
        if let Some((l, pos1, i1)) = binary_rule(toks, pos, id, 7) {
            if pos1 >= pos && in_range(toks, pos1) && toks[pos1].kind == TokenKind::Eq {
                lemma_assign_ids(toks, pos1 + 1, i1);
                if let Some((r, _, i2)) = assign_rule(toks, pos1 + 1, i1) {
                    lemma_join(ids_of(l), ids_of(r), id, i1, i1, i2, id, i2);
                    lemma_parent(i2, ids_of(l) + ids_of(r), id);
                }
            }
        }
    }
}

pub proof fn lemma_binary_ids(toks: Seq<Token>, pos: int, id: nat, level: nat)
    ensures
        fresh_tree(binary_rule(toks, pos, id, level), id),
    decreases toks.len() - pos, level,
{
    if in_range(toks, pos) && 4 <= level <= 7 {
        if level == 4 {
            lemma_unary_ids(toks, pos, id);
        } else {
            lemma_binary_ids(toks, pos, id, (level - 1) as nat);
        }
        let lhs = if level == 4 { unary_rule(toks, pos, id) } else { binary_rule(toks, pos, id, (level - 1) as nat) };
        if let Some((l, pos1, i1)) = lhs {
            if pos1 >= pos && in_range(toks, pos1) {
                lemma_binary_ids(toks, pos1 + 1, i1, level);
                if let Some((r, _, i2)) = binary_rule(toks, pos1 + 1, i1, level) {
                    lemma_join(ids_of(l), ids_of(r), id, i1, i1, i2, id, i2);
                    lemma_parent(i2, ids_of(l) + ids_of(r), id);
                }
            }
        }
    }
}

pub proof fn lemma_unary_ids(toks: Seq<Token>, pos: int, id: nat)
    ensures
        fresh_tree(unary_rule(toks, pos, id), id),
    decreases toks.len() - pos, 3nat,
{
    if in_range(toks, pos) {
        lemma_primary_ids(toks, pos, id);
        lemma_primary_ids(toks, pos + 1, id);
        if let Some((e, _, i)) = primary_rule(toks, pos + 1, id) {
            lemma_parent(i, ids_of(e), id);
        }
    }
}

pub proof fn lemma_primary_ids(toks: Seq<Token>, pos: int, id: nat)
    ensures
        fresh_tree(primary_rule(toks, pos, id), id),
    decreases toks.len() - pos, 2nat,
{
    if in_range(toks, pos) {
        lemma_leaf(id);
        match toks[pos].kind {
            TokenKind::Ident(s) => {
                lemma_call_ids(toks, pos + 1, id, s@);
            },
            TokenKind::OpenParen => {
                lemma_expr_ids(toks, pos + 1, id);
            },
            TokenKind::OpenBrace => {
                lemma_block_ids(toks, pos, id);
                if let Some((items, _, i)) = block_rule(toks, pos, id) {
                    lemma_parent(i, ids_of_all(items), id);
                }
            },
            _ => {},
        }
    }
}

pub proof fn lemma_call_ids(toks: Seq<Token>, pos: int, id: nat, name: Seq<char>)
    ensures
        fresh_tree(call_rule(toks, pos, id, name), id),
    decreases toks.len() - pos, 1nat,
{
    if in_range(toks, pos) && toks[pos].kind == TokenKind::OpenParen && in_range(toks, pos + 1) {
        lemma_args_ids(toks, pos + 1, id);
        lemma_empty_ids(id, id);
        let args = if toks[pos + 1].kind == TokenKind::CloseParen {
            Some((Seq::<Node>::empty(), pos + 1, id))
        } else {
            args_rule(toks, pos + 1, id)
        };
        if let Some((a, _, i)) = args {
            assert(ids_of_all(Seq::<Node>::empty()) =~= Seq::empty());
            lemma_parent(i, ids_of_all(a), id);
        }
    }
}

pub proof fn lemma_args_ids(toks: Seq<Token>, pos: int, id: nat)
    ensures
        fresh_list(args_rule(toks, pos, id), id, id),
    decreases toks.len() - pos, 11nat,
{
    if in_range(toks, pos) {
        lemma_expr_ids(toks, pos, id);
        if let Some((e, pos1, i1)) = expr_rule(toks, pos, id) {
            if pos1 >= pos && in_range(toks, pos1) {
                lemma_ids_push(Seq::empty(), e);
                assert(seq![e] =~= Seq::<Node>::empty().push(e));
                assert(ids_of_all(Seq::<Node>::empty()) + ids_of(e) =~= ids_of(e));
                lemma_more_args_ids(toks, pos1, i1, seq![e], id);
            }
        }
    }
}

pub proof fn lemma_more_args_ids(toks: Seq<Token>, pos: int, id: nat, acc: Seq<Node>, lo: nat)
    requires
        lo <= id,
        distinct_within(ids_of_all(acc), lo, id),
    ensures
        fresh_list(more_args_rule(toks, pos, id, acc), lo, id),
    decreases toks.len() - pos, 0nat,
{
    if in_range(toks, pos) && toks[pos].kind == TokenKind::Comma && in_range(toks, pos + 1) {
        lemma_expr_ids(toks, pos + 1, id);
        if let Some((e, pos1, i1)) = expr_rule(toks, pos + 1, id) {
            if pos1 > pos && in_range(toks, pos1) {
                lemma_ids_push(acc, e);
                lemma_join(ids_of_all(acc), ids_of(e), lo, id, id, i1, lo, i1);
                lemma_more_args_ids(toks, pos1, i1, acc.push(e), lo);
            }
        }
    }
}

pub proof fn lemma_block_ids(toks: Seq<Token>, pos: int, id: nat)
    ensures
        fresh_list(block_rule(toks, pos, id), id, id),
    decreases toks.len() - pos, 1nat,
{
    if in_range(toks, pos) && toks[pos].kind == TokenKind::OpenBrace {
        lemma_empty_ids(id, id);
        assert(ids_of_all(Seq::<Node>::empty()) =~= Seq::empty());
        lemma_block_items_ids(toks, pos + 1, id, Seq::empty(), id);
    }
}

pub proof fn lemma_block_items_ids(toks: Seq<Token>, pos: int, id: nat, acc: Seq<Node>, lo: nat)
    requires
        lo <= id,
        distinct_within(ids_of_all(acc), lo, id),
    ensures
        fresh_list(block_items_rule(toks, pos, id, acc), lo, id),
    decreases toks.len() - pos, 12nat,
{
    if in_range(toks, pos) && toks[pos].kind != TokenKind::CloseBrace {
        lemma_expr_ids(toks, pos, id);
        if let Some((e, pos1, i1)) = expr_rule(toks, pos, id) {
            if pos1 > pos && in_range(toks, pos1) {
                lemma_ids_push(acc, e);
                lemma_join(ids_of_all(acc), ids_of(e), lo, id, id, i1, lo, i1);
                lemma_block_items_ids(toks, pos1, i1, acc.push(e), lo);
            }
        }
    }
}

/// Every node of a parsed program has its own identifier: the identifiers of
/// the tree are pairwise distinct.
pub proof fn lemma_program_ids_distinct(toks: Seq<Token>)
    ensures
        match program(toks) {
            Some(e) => ids_of(e).no_duplicates(),
            None => true,
        },
{
    lemma_expr_ids(toks, 0, 0);
}

} // verus!
