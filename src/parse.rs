use vstd::prelude::*;
use crate::ast::{
    BinOp, Expr, ExprKind, Ident, UnOp, distinct_within, ids_of, ids_of_all, lemma_empty_ids,
    lemma_ids_push, lemma_join, lemma_join_disjoint, lemma_models_push, lemma_parent, model_of, models_of,
};
use crate::grammar::{
    Parsed, ParsedSeq, args_rule, assign_rule, binary_rule, block_items_rule, block_rule,
    expr_rule, if_rule, more_args_rule, primary_rule, program, starts_expr, unary_rule,
    call_rule, else_rule, crate_rule,
};
use crate::token::{BinOpToken, Token, TokenKind};

verus! {

/// A token kind that carries no value.
pub open spec fn is_plain(k: TokenKind) -> bool {
    !(k is NumLit) && !(k is Ident) && !(k is BinOp)
}

/// The tree and state a rule's result stands for.
pub open spec fn outcome(r: Option<Expr>, p: Parser) -> Parsed {
    match r {
        Some(e) => Some((e@, p.position(), p.issued())),
        None => None,
    }
}

pub open spec fn outcome_seq(r: Option<Vec<Expr>>, p: Parser) -> ParsedSeq {
    match r {
        Some(v) => Some((models_of(v@), p.position(), p.issued())),
        None => None,
    }
}

/// On success the identifiers of the tree are distinct and lie in `[lo, hi)`.
pub open spec fn fresh(r: Option<Expr>, lo: nat, hi: nat) -> bool {
    match r {
        Some(e) => distinct_within(ids_of(e@), lo, hi),
        None => true,
    }
}

pub open spec fn fresh_seq(r: Option<Vec<Expr>>, lo: nat, hi: nat) -> bool {
    match r {
        Some(v) => distinct_within(ids_of_all(models_of(v@)), lo, hi),
        None => true,
    }
}

/// Whether a token can begin an expression.
pub fn is_expr_start(token: &Token) -> (r: bool)
    ensures
        r == starts_expr(token.kind),
{
    matches!(
        token.kind,
        TokenKind::NumLit(_) | TokenKind::Ident(_) | TokenKind::OpenParen | TokenKind::OpenBrace
            | TokenKind::BinOp(BinOpToken::Plus) | TokenKind::BinOp(BinOpToken::Minus)
            | TokenKind::Return | TokenKind::True | TokenKind::False | TokenKind::If
    )
}

fn same_plain_kind(a: &TokenKind, b: &TokenKind) -> (r: bool)
    requires
        is_plain(*b),
    ensures
        r == (*a == *b),
{
    match b {
        TokenKind::True => matches!(a, TokenKind::True),
        TokenKind::False => matches!(a, TokenKind::False),
        TokenKind::If => matches!(a, TokenKind::If),
        TokenKind::Else => matches!(a, TokenKind::Else),
        TokenKind::Return => matches!(a, TokenKind::Return),
        TokenKind::OpenParen => matches!(a, TokenKind::OpenParen),
        TokenKind::CloseParen => matches!(a, TokenKind::CloseParen),
        TokenKind::OpenBrace => matches!(a, TokenKind::OpenBrace),
        TokenKind::CloseBrace => matches!(a, TokenKind::CloseBrace),
        TokenKind::Comma => matches!(a, TokenKind::Comma),
        TokenKind::Eq => matches!(a, TokenKind::Eq),
        TokenKind::Eof => matches!(a, TokenKind::Eof),
        _ => false,
    }
}

/// A parse session: the token stream, the position of the next unconsumed
/// token, and the node-identifier counter.
pub struct Parser {
    tokens: Vec<Token>,
    pos: usize,
    next_id: usize,
}

impl Parser {
    pub closed spec fn stream(self) -> Seq<Token> {
        self.tokens@
    }

    pub closed spec fn position(self) -> int {
        self.pos as int
    }

    /// The next identifier the counter hands out.
    pub closed spec fn issued(self) -> nat {
        self.next_id as nat
    }

    /// Each node built so far took its identifier against a consumed token,
    /// so the counter never passes the position.
    pub closed spec fn wf(self) -> bool {
        self.pos <= self.tokens.len() && self.next_id <= self.pos
    }

    /// `self` is what `from` became while one rule ran.
    pub closed spec fn follows(self, from: Parser) -> bool {
        &&& self.tokens@ == from.tokens@
        &&& from.pos <= self.pos <= self.tokens.len()
        &&& from.next_id <= self.next_id
        &&& self.pos - self.next_id >= from.pos - from.next_id
    }

    pub fn new(tokens: Vec<Token>) -> (r: Parser)
        ensures
            r.wf(),
            r.stream() == tokens@,
            r.position() == 0,
            r.issued() == 0,
    {
        Parser { tokens, pos: 0, next_id: 0 }
    }

    fn peek_token(&self) -> (r: Option<&Token>)
        ensures
            match r {
                Some(t) => self.pos < self.tokens.len() && *t == self.tokens@[self.pos as int],
                None => self.pos >= self.tokens.len(),
            },
    {
        if self.pos < self.tokens.len() {
            Some(&self.tokens[self.pos])
        } else {
            None
        }
    }

    fn skip_token(&mut self)
        requires
            old(self).pos < old(self).tokens.len(),
        ensures
            final(self).tokens@ == old(self).tokens@,
            final(self).pos == old(self).pos + 1,
            final(self).next_id == old(self).next_id,
    {
        self.pos = self.pos + 1;
    }

    /// Consumes the next token only when it is of the expected kind.
    fn skip_expected_token(&mut self, kind: TokenKind) -> (r: bool)
        requires
            is_plain(kind),
        ensures
            r == (old(self).pos < old(self).tokens.len() && old(self).tokens@[old(self).pos as int].kind == kind),
            final(self).tokens@ == old(self).tokens@,
            final(self).pos == old(self).pos + if r { 1int } else { 0int },
            final(self).next_id == old(self).next_id,
    {
        let hit = match self.peek_token() {
            Some(t) => same_plain_kind(&t.kind, &kind),
            None => false,
        };
        if hit {
            self.skip_token();
        }
        hit
    }

    fn at_eof(&self) -> (r: bool)
        ensures
            r == (self.pos < self.tokens.len() && self.tokens@[self.pos as int].kind == TokenKind::Eof),
    {
        match self.peek_token() {
            Some(t) => matches!(t.kind, TokenKind::Eof),
            None => false,
        }
    }

    fn get_next_id(&mut self) -> (r: usize)
        requires
            old(self).next_id < old(self).pos,
        ensures
            r == old(self).next_id,
            final(self).next_id == old(self).next_id + 1,
            final(self).tokens@ == old(self).tokens@,
            final(self).pos == old(self).pos,
    {
        let id = self.next_id;
        self.next_id = self.next_id + 1;
        id
    }

    /// Parses one expression and then demands the end-of-stream marker.
    pub fn parse_crate(&mut self) -> (r: Option<Expr>)
        requires
            old(self).wf(),
        ensures
            match r {
                Some(e) => crate_rule(old(self).stream(), old(self).position(), old(self).issued()) == Some(e@),
                None => crate_rule(old(self).stream(), old(self).position(), old(self).issued()) is None,
            },
            fresh(r, old(self).issued(), final(self).issued()),
            final(self).wf(),
    {
        let expr = self.parse_expr();
        if !self.at_eof() {
            return None;
        }
        expr
    }
}

impl Parser {
    /// expr ::= "return" expr | ifExpr | assign
    pub fn parse_expr(&mut self) -> (r: Option<Expr>)
        requires
            old(self).wf(),
        ensures
            final(self).wf(),
            final(self).follows(*old(self)),
            outcome(r, *final(self)) == expr_rule(old(self).stream(), old(self).position(), old(self).issued()),
            fresh(r, old(self).issued(), final(self).issued()),
            r is Some ==> final(self).position() > old(self).position(),
        decreases old(self).stream().len() - old(self).position(), 10nat,
    {
        let ghost id0 = self.issued();
        let (is_if, is_return) = match self.peek_token() {
            Some(t) => (matches!(t.kind, TokenKind::If), matches!(t.kind, TokenKind::Return)),
            None => return None,
        };
        if is_if {
            self.parse_if_expr()
        } else if is_return {
            self.skip_token();
            let e = match self.parse_expr() {
                Some(e) => e,
                None => return None,
            };
            let id = self.get_next_id();
            proof {
                lemma_parent(id as nat, ids_of(e@), id0);
            }
            Some(Expr { kind: ExprKind::Return(Box::new(e)), id })
        } else {
            self.parse_assign()
        }
    }

    /// ifExpr ::= "if" expr block ("else" (block | ifExpr))?
    fn parse_if_expr(&mut self) -> (r: Option<Expr>)
        requires
            old(self).wf(),
        ensures
            final(self).follows(*old(self)),
            outcome(r, *final(self)) == if_rule(old(self).stream(), old(self).position(), old(self).issued()),
            fresh(r, old(self).issued(), final(self).issued()),
            r is Some ==> final(self).position() > old(self).position(),
        decreases old(self).stream().len() - old(self).position(), 9nat,
    {
        let ghost toks = self.stream();
        let ghost pos0 = self.position();
        let ghost id0 = self.issued();
        if !self.skip_expected_token(TokenKind::If) {
            return None;
        }
        let cond = match self.parse_expr() {
            Some(e) => e,
            None => return None,
        };
        let ghost i1 = self.issued();
        let then_block = match self.parse_block() {
            Some(v) => v,
            None => return None,
        };
        let ghost pos2 = self.position();
        let ghost i2 = self.issued();
        let has_else = match self.peek_token() {
            Some(t) => matches!(t.kind, TokenKind::Else),
            None => return None,
        };
        let els: Option<Box<Expr>> = if has_else {
            self.skip_token();
            let nested_if = match self.peek_token() {
                Some(t) => matches!(t.kind, TokenKind::If),
                None => return None,
            };
            if nested_if {
                match self.parse_if_expr() {
                    Some(e) => Some(Box::new(e)),
                    None => return None,
                }
            } else {
                let items = match self.parse_block() {
                    Some(v) => v,
                    None => return None,
                };
                let id = self.get_next_id();
                proof {
                    lemma_parent(id as nat, ids_of_all(models_of(items@)), i2);
                }
                Some(Box::new(Expr { kind: ExprKind::Block(items), id }))
            }
        } else {
            None
        };
        let ghost i3 = self.issued();
        let ghost else_model: Option<crate::ast::Node> = match &els {
            Some(f) => Some(model_of(**f)),
            None => None,
        };
        let ghost else_ids: Option<Seq<nat>> = match else_model {
            Some(f) => Some(ids_of(f)),
            None => None,
        };
        proof {
            if has_else {
                assert(else_rule(toks, pos2 + 1, i2) == Some((else_model->0, self.position(), i3)));
            }
        }
        let then_id = self.get_next_id();
        let if_id = self.get_next_id();
        let then_expr = Expr { kind: ExprKind::Block(then_block), id: then_id };
        proof {
            let c = ids_of(cond@);
            let body = ids_of_all(models_of(then_block@));
            lemma_parent(then_id as nat, body, i1);
            let tb = ids_of(then_expr@);
            lemma_join(c, tb, id0, i1, i1, i3 + 1, id0, i3 + 1);
            match else_ids {
                Some(fi) => {
                    let ct = c + tb;
                    assert forall|i: int, j: int| 0 <= i < ct.len() && 0 <= j < fi.len() implies ct[i] != fi[j] by {
                        assert(i2 <= fi[j] < i3);
                        if i < c.len() {
                            assert(ct[i] == c[i]);
                        } else if i == c.len() {
                            assert(ct[i] == tb[0]);
                        } else {
                            assert(ct[i] == tb[i - c.len()]);
                            assert(tb[i - c.len()] == body[i - c.len() - 1]);
                        }
                    }
                    lemma_join_disjoint(ct, fi, id0, i3 + 1);
                    lemma_parent(if_id as nat, ct + fi, id0);
                },
                None => {
                    lemma_parent(if_id as nat, c + tb, id0);
                },
            }
        }
        Some(Expr { kind: ExprKind::If(Box::new(cond), Box::new(then_expr), els), id: if_id })
    }

    /// assign ::= equality ("=" assign)?
    fn parse_assign(&mut self) -> (r: Option<Expr>)
        requires
            old(self).wf(),
        ensures
            final(self).follows(*old(self)),
            outcome(r, *final(self)) == assign_rule(old(self).stream(), old(self).position(), old(self).issued()),
            fresh(r, old(self).issued(), final(self).issued()),
            r is Some ==> final(self).position() > old(self).position(),
        decreases old(self).stream().len() - old(self).position(), 8nat,
    {
        let ghost id0 = self.issued();
        let lhs = match self.parse_binary_equality() {
            Some(e) => e,
            None => return None,
        };
        let ghost i1 = self.issued();
        let is_assign = match self.peek_token() {
            Some(t) => matches!(t.kind, TokenKind::Eq),
            None => return None,
        };
        if !is_assign {
            return Some(lhs);
        }
        self.skip_token();
        let rhs = match self.parse_assign() {
            Some(e) => e,
            None => return None,
        };
        let id = self.get_next_id();
        proof {
            lemma_join(ids_of(lhs@), ids_of(rhs@), id0, i1, i1, id as nat, id0, id as nat);
            lemma_parent(id as nat, ids_of(lhs@) + ids_of(rhs@), id0);
        }
        Some(Expr { kind: ExprKind::Assign(Box::new(lhs), Box::new(rhs)), id })
    }

    /// Builds the node of a binary operator once both operands are parsed.
    fn binary_node(&mut self, op: BinOp, lhs: Expr, rhs: Expr, Ghost(lo): Ghost<nat>, Ghost(mid): Ghost<nat>) -> (r: Expr)
        requires
            old(self).next_id < old(self).pos,
            distinct_within(ids_of(lhs@), lo, mid),
            distinct_within(ids_of(rhs@), mid, old(self).issued()),
            lo <= mid <= old(self).issued(),
        ensures
            final(self).tokens@ == old(self).tokens@,
            final(self).pos == old(self).pos,
            final(self).next_id == old(self).next_id + 1,
            r@ == crate::ast::node(crate::ast::NodeKind::Binary(op, Box::new(lhs@), Box::new(rhs@)), old(self).issued()),
            distinct_within(ids_of(r@), lo, final(self).issued()),
    {
        let id = self.get_next_id();
        proof {
            lemma_join(ids_of(lhs@), ids_of(rhs@), lo, mid, mid, id as nat, lo, id as nat);
            lemma_parent(id as nat, ids_of(lhs@) + ids_of(rhs@), lo);
        }
        Expr { kind: ExprKind::Binary(op, Box::new(lhs), Box::new(rhs)), id }
    }

    /// equality ::= relational (("=="|"!=") equality)?
    fn parse_binary_equality(&mut self) -> (r: Option<Expr>)
        requires
            old(self).wf(),
        ensures
            final(self).follows(*old(self)),
            outcome(r, *final(self)) == binary_rule(old(self).stream(), old(self).position(), old(self).issued(), 7),
            fresh(r, old(self).issued(), final(self).issued()),
            r is Some ==> final(self).position() > old(self).position(),
        decreases old(self).stream().len() - old(self).position(), 7nat,
    {
        let ghost id0 = self.issued();
        let lhs = match self.parse_binary_relational() {
            Some(e) => e,
            None => return None,
        };
        let ghost i1 = self.issued();
        let binop = match self.peek_token() {
            Some(t) => match t.kind {
                TokenKind::BinOp(BinOpToken::Eq) => BinOp::Eq,
                TokenKind::BinOp(BinOpToken::Ne) => BinOp::Ne,
                _ => return Some(lhs),
            },
            None => return None,
        };
        self.skip_token();
        let rhs = match self.parse_binary_equality() {
            Some(e) => e,
            None => return None,
        };
        Some(self.binary_node(binop, lhs, rhs, Ghost(id0), Ghost(i1)))
    }

    /// relational ::= add (("<"|">") relational)?
    fn parse_binary_relational(&mut self) -> (r: Option<Expr>)
        requires
            old(self).wf(),
        ensures
            final(self).follows(*old(self)),
            outcome(r, *final(self)) == binary_rule(old(self).stream(), old(self).position(), old(self).issued(), 6),
            fresh(r, old(self).issued(), final(self).issued()),
            r is Some ==> final(self).position() > old(self).position(),
        decreases old(self).stream().len() - old(self).position(), 6nat,
    {
        let ghost id0 = self.issued();
        let lhs = match self.parse_binary_add() {
            Some(e) => e,
            None => return None,
        };
        let ghost i1 = self.issued();
        let binop = match self.peek_token() {
            Some(t) => match t.kind {
                TokenKind::BinOp(BinOpToken::Lt) => BinOp::Lt,
                TokenKind::BinOp(BinOpToken::Gt) => BinOp::Gt,
                _ => return Some(lhs),
            },
            None => return None,
        };
        self.skip_token();
        let rhs = match self.parse_binary_relational() {
            Some(e) => e,
            None => return None,
        };
        Some(self.binary_node(binop, lhs, rhs, Ghost(id0), Ghost(i1)))
    }

    /// add ::= mul (("+"|"-") add)?
    fn parse_binary_add(&mut self) -> (r: Option<Expr>)
        requires
            old(self).wf(),
        ensures
            final(self).follows(*old(self)),
            outcome(r, *final(self)) == binary_rule(old(self).stream(), old(self).position(), old(self).issued(), 5),
            fresh(r, old(self).issued(), final(self).issued()),
            r is Some ==> final(self).position() > old(self).position(),
        decreases old(self).stream().len() - old(self).position(), 5nat,
    {
        let ghost id0 = self.issued();
        let lhs = match self.parse_binary_mul() {
            Some(e) => e,
            None => return None,
        };
        let ghost i1 = self.issued();
        let binop = match self.peek_token() {
            Some(t) => match t.kind {
                TokenKind::BinOp(BinOpToken::Plus) => BinOp::Add,
                TokenKind::BinOp(BinOpToken::Minus) => BinOp::Sub,
                _ => return Some(lhs),
            },
            None => return None,
        };
        self.skip_token();
        let rhs = match self.parse_binary_add() {
            Some(e) => e,
            None => return None,
        };
        Some(self.binary_node(binop, lhs, rhs, Ghost(id0), Ghost(i1)))
    }

    /// mul ::= unary ("*" mul)?
    fn parse_binary_mul(&mut self) -> (r: Option<Expr>)
        requires
            old(self).wf(),
        ensures
            final(self).follows(*old(self)),
            outcome(r, *final(self)) == binary_rule(old(self).stream(), old(self).position(), old(self).issued(), 4),
            fresh(r, old(self).issued(), final(self).issued()),
            r is Some ==> final(self).position() > old(self).position(),
        decreases old(self).stream().len() - old(self).position(), 4nat,
    {
        let ghost id0 = self.issued();
        let lhs = match self.parse_binary_unary() {
            Some(e) => e,
            None => return None,
        };
        let ghost i1 = self.issued();
        let is_star = match self.peek_token() {
            Some(t) => matches!(t.kind, TokenKind::BinOp(BinOpToken::Star)),
            None => return None,
        };
        if !is_star {
            return Some(lhs);
        }
        self.skip_token();
        let rhs = match self.parse_binary_mul() {
            Some(e) => e,
            None => return None,
        };
        Some(self.binary_node(BinOp::Mul, lhs, rhs, Ghost(id0), Ghost(i1)))
    }

    /// unary ::= ("+"|"-")? primary
    fn parse_binary_unary(&mut self) -> (r: Option<Expr>)
        requires
            old(self).wf(),
        ensures
            final(self).follows(*old(self)),
            outcome(r, *final(self)) == unary_rule(old(self).stream(), old(self).position(), old(self).issued()),
            fresh(r, old(self).issued(), final(self).issued()),
            r is Some ==> final(self).position() > old(self).position(),
        decreases old(self).stream().len() - old(self).position(), 3nat,
    {
        let ghost id0 = self.issued();
        let unop = match self.peek_token() {
            Some(t) => match t.kind {
                TokenKind::BinOp(BinOpToken::Plus) => UnOp::Plus,
                TokenKind::BinOp(BinOpToken::Minus) => UnOp::Minus,
                _ => return self.parse_binary_primary(),
            },
            None => return None,
        };
        self.skip_token();
        let operand = match self.parse_binary_primary() {
            Some(e) => e,
            None => return None,
        };
        let id = self.get_next_id();
        proof {
            lemma_parent(id as nat, ids_of(operand@), id0);
        }
        Some(Expr { kind: ExprKind::Unary(unop, Box::new(operand)), id })
    }

    /// primary ::= num | "true" | "false" | ident ("(" callArgs? ")")? | "(" expr ")" | block
    fn parse_binary_primary(&mut self) -> (r: Option<Expr>)
        requires
            old(self).wf(),
        ensures
            final(self).follows(*old(self)),
            outcome(r, *final(self)) == primary_rule(old(self).stream(), old(self).position(), old(self).issued()),
            fresh(r, old(self).issued(), final(self).issued()),
            r is Some ==> final(self).position() > old(self).position(),
        decreases old(self).stream().len() - old(self).position(), 2nat,
    {
        let ghost id0 = self.issued();
        let t = match self.peek_token() {
            Some(t) => t,
            None => return None,
        };
        match &t.kind {
            TokenKind::NumLit(n) => {
                let n = *n;
                self.skip_token();
                let id = self.get_next_id();
                Some(Expr { kind: ExprKind::NumLit(n), id })
            },
            TokenKind::True => {
                self.skip_token();
                let id = self.get_next_id();
                Some(Expr { kind: ExprKind::BoolLit(true), id })
            },
            TokenKind::False => {
                self.skip_token();
                let id = self.get_next_id();
                Some(Expr { kind: ExprKind::BoolLit(false), id })
            },
            TokenKind::Ident(s) => {
                let symbol = s.clone();
                self.skip_token();
                let is_call = match self.peek_token() {
                    Some(t) => matches!(t.kind, TokenKind::OpenParen),
                    None => return None,
                };
                if is_call {
                    self.parse_call_expr(symbol)
                } else {
                    let id = self.get_next_id();
                    Some(Expr { kind: ExprKind::Ident(Ident { symbol }), id })
                }
            },
            TokenKind::OpenParen => {
                self.skip_token();
                let expr = match self.parse_expr() {
                    Some(e) => e,
                    None => return None,
                };
                if !self.skip_expected_token(TokenKind::CloseParen) {
                    return None;
                }
                Some(expr)
            },
            TokenKind::OpenBrace => {
                let items = match self.parse_block() {
                    Some(v) => v,
                    None => return None,
                };
                let id = self.get_next_id();
                proof {
                    lemma_parent(id as nat, ids_of_all(models_of(items@)), id0);
                }
                Some(Expr { kind: ExprKind::Block(items), id })
            },
            _ => None,
        }
    }

    /// callExpr ::= ident "(" callArgs? ")", called at the `(` after the name.
    fn parse_call_expr(&mut self, ident_sym: String) -> (r: Option<Expr>)
        requires
            old(self).wf(),
        ensures
            final(self).follows(*old(self)),
            outcome(r, *final(self)) == call_rule(old(self).stream(), old(self).position(), old(self).issued(), ident_sym@),
            fresh(r, old(self).issued(), final(self).issued()),
            r is Some ==> final(self).position() > old(self).position(),
        decreases old(self).stream().len() - old(self).position(), 1nat,
    {
        let ghost id0 = self.issued();
        if !self.skip_expected_token(TokenKind::OpenParen) {
            return None;
        }
        let empty = match self.peek_token() {
            Some(t) => matches!(t.kind, TokenKind::CloseParen),
            None => return None,
        };
        let args = if empty {
            let v: Vec<Expr> = Vec::new();
            proof {
                assert(models_of(v@) =~= Seq::empty());
                lemma_empty_ids(id0, id0);
            }
            v
        } else {
            match self.parse_call_params() {
                Some(v) => v,
                None => return None,
            }
        };
        if !self.skip_expected_token(TokenKind::CloseParen) {
            return None;
        }
        let id = self.get_next_id();
        proof {
            lemma_parent(id as nat, ids_of_all(models_of(args@)), id0);
        }
        Some(Expr { kind: ExprKind::Call(Ident { symbol: ident_sym }, args), id })
    }

    /// callParams ::= expr ("," expr)* ","?
    fn parse_call_params(&mut self) -> (r: Option<Vec<Expr>>)
        requires
            old(self).wf(),
        ensures
            final(self).follows(*old(self)),
            outcome_seq(r, *final(self)) == args_rule(old(self).stream(), old(self).position(), old(self).issued()),
            fresh_seq(r, old(self).issued(), final(self).issued()),
        decreases old(self).stream().len() - old(self).position(), 11nat,
    {
        let ghost toks = self.stream();
        let ghost pos0 = self.position();
        let ghost id0 = self.issued();
        let ghost start = *self;
        let first = match self.parse_expr() {
            Some(e) => e,
            None => return None,
        };
        let mut args: Vec<Expr> = Vec::new();
        proof {
            lemma_models_push(args@, first);
            lemma_ids_push(models_of(args@), first@);
            assert(models_of(args@) =~= Seq::empty());
            assert(ids_of_all(models_of(args@)) =~= Seq::empty());
            assert(Seq::<nat>::empty() + ids_of(first@) =~= ids_of(first@));
        }
        args.push(first);
        loop
            invariant
                self.follows(start),
                start == *old(self),
                start.wf(),
                toks == start.stream(),
                pos0 == start.position(),
                id0 == start.issued(),
                args_rule(toks, pos0, id0) == more_args_rule(toks, self.position(), self.issued(), models_of(args@)),
                distinct_within(ids_of_all(models_of(args@)), id0, self.issued()),
            decreases self.tokens@.len() - self.pos,
        {
            let comma = match self.peek_token() {
                Some(t) => matches!(t.kind, TokenKind::Comma),
                None => return None,
            };
            if !comma {
                return Some(args);
            }
            self.skip_token();
            let more = match self.peek_token() {
                Some(t) => is_expr_start(t),
                None => return None,
            };
            if !more {
                return Some(args);
            }
            let ghost i1 = self.issued();
            let e = match self.parse_expr() {
                Some(e) => e,
                None => return None,
            };
            proof {
                lemma_models_push(args@, e);
                lemma_ids_push(models_of(args@), e@);
                lemma_join(ids_of_all(models_of(args@)), ids_of(e@), id0, i1, i1, self.issued(), id0, self.issued());
            }
            args.push(e);
        }
    }

    /// block ::= "{" expr* "}"
    fn parse_block(&mut self) -> (r: Option<Vec<Expr>>)
        requires
            old(self).wf(),
        ensures
            final(self).follows(*old(self)),
            outcome_seq(r, *final(self)) == block_rule(old(self).stream(), old(self).position(), old(self).issued()),
            fresh_seq(r, old(self).issued(), final(self).issued()),
            r is Some ==> final(self).pos - final(self).next_id > old(self).pos - old(self).next_id,
        decreases old(self).stream().len() - old(self).position(), 1nat,
    {
        let ghost toks = self.stream();
        let ghost pos0 = self.position();
        let ghost id0 = self.issued();
        let ghost start = *self;
        if !self.skip_expected_token(TokenKind::OpenBrace) {
            return None;
        }
        let mut items: Vec<Expr> = Vec::new();
        proof {
            assert(models_of(items@) =~= Seq::empty());
            lemma_empty_ids(id0, id0);
        }
        loop
            invariant
                self.follows(start),
                start == *old(self),
                start.wf(),
                toks == start.stream(),
                pos0 == start.position(),
                id0 == start.issued(),
                self.pos - self.next_id > start.pos - start.next_id,
                block_rule(toks, pos0, id0) == block_items_rule(toks, self.position(), self.issued(), models_of(items@)),
                distinct_within(ids_of_all(models_of(items@)), id0, self.issued()),
            decreases self.tokens@.len() - self.pos,
        {
            let close = match self.peek_token() {
                Some(t) => matches!(t.kind, TokenKind::CloseBrace),
                None => return None,
            };
            if close {
                self.skip_token();
                return Some(items);
            }
            let ghost i1 = self.issued();
            let e = match self.parse_expr() {
                Some(e) => e,
                None => return None,
            };
            proof {
                lemma_models_push(items@, e);
                lemma_ids_push(models_of(items@), e@);
                lemma_join(ids_of_all(models_of(items@)), ids_of(e@), id0, i1, i1, self.issued(), id0, self.issued());
            }
            items.push(e);
        }
    }
}

/// Parses a whole token stream: one expression followed by the end-of-stream
/// marker. Every node of the tree has its own identifier.
pub fn parse(tokens: Vec<Token>) -> (r: Option<Expr>)
    ensures
        match r {
            Some(e) => program(tokens@) == Some(e@),
            None => program(tokens@) is None,
        },
        match r {
            Some(e) => ids_of(e@).no_duplicates(),
            None => true,
        },
{
    let mut p = Parser::new(tokens);
    p.parse_crate()
}

} // verus!
