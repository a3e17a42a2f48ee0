//! The grammar, as functions on the token sequence. Each rule starts at a
//! position with the next free node identifier, and on success gives the
//! tree it built, the position after what it consumed, and the next free
//! identifier.
use vstd::prelude::*;
use crate::ast::{BinOp, Node, NodeKind, UnOp, node};
use crate::token::{BinOpToken, Token, TokenKind};

verus! {

pub type Parsed = Option<(Node, int, nat)>;

pub type ParsedSeq = Option<(Seq<Node>, int, nat)>;

pub open spec fn in_range(toks: Seq<Token>, pos: int) -> bool {
    0 <= pos < toks.len()
}

/// The token kinds that can begin an expression.
pub open spec fn starts_expr(k: TokenKind) -> bool {
    match k {
        TokenKind::NumLit(_) | TokenKind::Ident(_) | TokenKind::OpenParen | TokenKind::OpenBrace
        | TokenKind::BinOp(BinOpToken::Plus) | TokenKind::BinOp(BinOpToken::Minus)
        | TokenKind::Return | TokenKind::True | TokenKind::False | TokenKind::If => true,
        _ => false,
    }
}

/// The operator that a token stands for at a binary precedence level:
/// 4 is `*`, 5 is `+ -`, 6 is `< >`, 7 is `== !=`.
pub open spec fn binop_at_level(level: nat, k: TokenKind) -> Option<BinOp> {
    match k {
        TokenKind::BinOp(BinOpToken::Star) if level == 4 => Some(BinOp::Mul),
        TokenKind::BinOp(BinOpToken::Plus) if level == 5 => Some(BinOp::Add),
        TokenKind::BinOp(BinOpToken::Minus) if level == 5 => Some(BinOp::Sub),
        TokenKind::BinOp(BinOpToken::Lt) if level == 6 => Some(BinOp::Lt),
        TokenKind::BinOp(BinOpToken::Gt) if level == 6 => Some(BinOp::Gt),
        TokenKind::BinOp(BinOpToken::Eq) if level == 7 => Some(BinOp::Eq),
        TokenKind::BinOp(BinOpToken::Ne) if level == 7 => Some(BinOp::Ne),
        _ => None,
    }
}

/// expr ::= "return" expr | ifExpr | assign
pub open spec fn expr_rule(toks: Seq<Token>, pos: int, id: nat) -> Parsed
    decreases toks.len() - pos, 10nat,
{
    if !in_range(toks, pos) {
        None
    } else {
        match toks[pos].kind {
            TokenKind::If => if_rule(toks, pos, id),
            TokenKind::Return => match expr_rule(toks, pos + 1, id) {
                Some((e, p, i)) => Some((node(NodeKind::Return(Box::new(e)), i), p, i + 1)),
                None => None,
            },
            _ => assign_rule(toks, pos, id),
        }
    }
}

/// The else-part of an `if`, at the token after `else`: another `if`, or a
/// block wrapped in a block node.
pub open spec fn else_rule(toks: Seq<Token>, pos: int, id: nat) -> Parsed
    decreases toks.len() - pos, 10nat,
{
    if !in_range(toks, pos) {
        None
    } else if toks[pos].kind == TokenKind::If {
        if_rule(toks, pos, id)
    } else {
        match block_rule(toks, pos, id) {
            Some((items, p, i)) => Some((node(NodeKind::Block(items), i), p, i + 1)),
            None => None,
        }
    }
}

/// ifExpr ::= "if" expr block ("else" (block | ifExpr))?
/// The then-branch is wrapped in a block node; that node and then the `if`
/// node itself take the last two identifiers.
pub open spec fn if_rule(toks: Seq<Token>, pos: int, id: nat) -> Parsed
    decreases toks.len() - pos, 9nat,
{
    if !in_range(toks, pos) || toks[pos].kind != TokenKind::If {
        None
    } else {
        match expr_rule(toks, pos + 1, id) {
            None => None,
            Some((c, pos1, i1)) => if pos1 <= pos || !in_range(toks, pos1) {
                None
            } else {
                match block_rule(toks, pos1, i1) {
                    None => None,
                    Some((body, pos2, i2)) => if pos2 <= pos || !in_range(toks, pos2) {
                        None
                    } else {
                        let els: Option<(Option<Box<Node>>, int, nat)> =
                            if toks[pos2].kind == TokenKind::Else {
                                match else_rule(toks, pos2 + 1, i2) {
                                    Some((f, pos3, i3)) => Some((Some(Box::new(f)), pos3, i3)),
                                    None => None,
                                }
                            } else {
                                Some((None, pos2, i2))
                            };
                        match els {
                            None => None,
                            Some((f, pos3, i3)) => Some((
                                node(NodeKind::If(Box::new(c), Box::new(node(NodeKind::Block(body), i3)), f), i3 + 1),
                                pos3,
                                i3 + 2,
                            )),
                        }
                    },
                }
            },
        }
    }
}

/// assign ::= equality ("=" assign)?
pub open spec fn assign_rule(toks: Seq<Token>, pos: int, id: nat) -> Parsed
    decreases toks.len() - pos, 8nat,
{
    if !in_range(toks, pos) {
        None
    } else {
        match binary_rule(toks, pos, id, 7) {
            None => None,
            Some((l, pos1, i1)) => if pos1 < pos || !in_range(toks, pos1) {
                None
            } else if toks[pos1].kind == TokenKind::Eq {
                match assign_rule(toks, pos1 + 1, i1) {
                    Some((r, pos2, i2)) => Some((node(NodeKind::Assign(Box::new(l), Box::new(r)), i2), pos2, i2 + 1)),
                    None => None,
                }
            } else {
                Some((l, pos1, i1))
            },
        }
    }
}

/// The binary precedence levels, each `sub (op this)?` where `sub` is the
/// next tighter level (`unary` below level 4): a chain of operators of one
/// level nests to the right.
pub open spec fn binary_rule(toks: Seq<Token>, pos: int, id: nat, level: nat) -> Parsed
    decreases toks.len() - pos, level,
{
    if !in_range(toks, pos) || level < 4 || level > 7 {
        None
    } else {
        let lhs = if level == 4 { unary_rule(toks, pos, id) } else { binary_rule(toks, pos, id, (level - 1) as nat) };
        match lhs {
            None => None,
            Some((l, pos1, i1)) => if pos1 < pos || !in_range(toks, pos1) {
                None
            } else {
                match binop_at_level(level, toks[pos1].kind) {
                    None => Some((l, pos1, i1)),
                    Some(op) => match binary_rule(toks, pos1 + 1, i1, level) {
                        Some((r, pos2, i2)) => Some((node(NodeKind::Binary(op, Box::new(l), Box::new(r)), i2), pos2, i2 + 1)),
                        None => None,
                    },
                }
            },
        }
    }
}

/// unary ::= ("+"|"-")? primary
pub open spec fn unary_rule(toks: Seq<Token>, pos: int, id: nat) -> Parsed
    decreases toks.len() - pos, 3nat,
{
    if !in_range(toks, pos) {
        None
    } else {
        let op = match toks[pos].kind {
            TokenKind::BinOp(BinOpToken::Plus) => Some(UnOp::Plus),
            TokenKind::BinOp(BinOpToken::Minus) => Some(UnOp::Minus),
            _ => None,
        };
        match op {
            None => primary_rule(toks, pos, id),
            Some(op) => match primary_rule(toks, pos + 1, id) {
                Some((e, p, i)) => Some((node(NodeKind::Unary(op, Box::new(e)), i), p, i + 1)),
                None => None,
            },
        }
    }
}

/// primary ::= num | "true" | "false" | ident ("(" callArgs? ")")? | "(" expr ")" | block
pub open spec fn primary_rule(toks: Seq<Token>, pos: int, id: nat) -> Parsed
    decreases toks.len() - pos, 2nat,
{
    if !in_range(toks, pos) {
        None
    } else {
        match toks[pos].kind {
            TokenKind::NumLit(n) => Some((node(NodeKind::NumLit(n), id), pos + 1, id + 1)),
            TokenKind::True => Some((node(NodeKind::BoolLit(true), id), pos + 1, id + 1)),
            TokenKind::False => Some((node(NodeKind::BoolLit(false), id), pos + 1, id + 1)),
            TokenKind::Ident(s) => if !in_range(toks, pos + 1) {
                None
            } else if toks[pos + 1].kind == TokenKind::OpenParen {
                call_rule(toks, pos + 1, id, s@)
            } else {
                Some((node(NodeKind::Ident(s@), id), pos + 1, id + 1))
            },
            TokenKind::OpenParen => match expr_rule(toks, pos + 1, id) {
                Some((e, p, i)) => if p <= pos || !in_range(toks, p) || toks[p].kind != TokenKind::CloseParen {
                    None
                } else {
                    Some((e, p + 1, i))
                },
                None => None,
            },
            TokenKind::OpenBrace => match block_rule(toks, pos, id) {
                Some((items, p, i)) => Some((node(NodeKind::Block(items), i), p, i + 1)),
                None => None,
            },
            _ => None,
        }
    }
}

/// A call, at its `(`: "(" callArgs? ")".
pub open spec fn call_rule(toks: Seq<Token>, pos: int, id: nat, name: Seq<char>) -> Parsed
    decreases toks.len() - pos, 1nat,
{
    if !in_range(toks, pos) || toks[pos].kind != TokenKind::OpenParen || !in_range(toks, pos + 1) {
        None
    } else {
        let args = if toks[pos + 1].kind == TokenKind::CloseParen {
            Some((Seq::<Node>::empty(), pos + 1, id))
        } else {
            args_rule(toks, pos + 1, id)
        };
        match args {
            Some((args, p, i)) => if p <= pos || !in_range(toks, p) || toks[p].kind != TokenKind::CloseParen {
                None
            } else {
                Some((node(NodeKind::Call(name, args), i), p + 1, i + 1))
            },
            None => None,
        }
    }
}

/// callArgs ::= expr ("," expr)* ","?
pub open spec fn args_rule(toks: Seq<Token>, pos: int, id: nat) -> ParsedSeq
    decreases toks.len() - pos, 11nat,
{
    if !in_range(toks, pos) {
        None
    } else {
        match expr_rule(toks, pos, id) {
            Some((e, p, i)) => if p < pos || !in_range(toks, p) {
                None
            } else {
                more_args_rule(toks, p, i, seq![e])
            },
            None => None,
        }
    }
}

/// The rest of an argument list after the arguments in `acc`.
pub open spec fn more_args_rule(toks: Seq<Token>, pos: int, id: nat, acc: Seq<Node>) -> ParsedSeq
    decreases toks.len() - pos, 0nat,
{
    if !in_range(toks, pos) {
        None
    } else if toks[pos].kind != TokenKind::Comma {
        Some((acc, pos, id))
    } else if !in_range(toks, pos + 1) {
        None
    } else if !starts_expr(toks[pos + 1].kind) {
        Some((acc, pos + 1, id))
    } else {
        match expr_rule(toks, pos + 1, id) {
            Some((e, p, i)) => if p <= pos || !in_range(toks, p) {
                None
            } else {
                more_args_rule(toks, p, i, acc.push(e))
            },
            None => None,
        }
    }
}

/// block ::= "{" expr* "}", giving the expressions in source order.
pub open spec fn block_rule(toks: Seq<Token>, pos: int, id: nat) -> ParsedSeq
    decreases toks.len() - pos, 1nat,
{
    if !in_range(toks, pos) || toks[pos].kind != TokenKind::OpenBrace {
        None
    } else {
        block_items_rule(toks, pos + 1, id, Seq::empty())
    }
}

/// The rest of a block after the expressions in `acc`.
pub open spec fn block_items_rule(toks: Seq<Token>, pos: int, id: nat, acc: Seq<Node>) -> ParsedSeq
    decreases toks.len() - pos, 12nat,
{
    if !in_range(toks, pos) {
        None
    } else if toks[pos].kind == TokenKind::CloseBrace {
        Some((acc, pos + 1, id))
    } else {
        match expr_rule(toks, pos, id) {
            Some((e, p, i)) => if p <= pos || !in_range(toks, p) {
                None
            } else {
                block_items_rule(toks, p, i, acc.push(e))
            },
            None => None,
        }
    }
}

/// One expression, then the end-of-stream marker.
pub open spec fn crate_rule(toks: Seq<Token>, pos: int, id: nat) -> Option<Node> {
    match expr_rule(toks, pos, id) {
        Some((e, p, _)) => if in_range(toks, p) && toks[p].kind == TokenKind::Eof {
            Some(e)
        } else {
            None
        },
        None => None,
    }
}

/// A whole program, from the first token with the counter at zero.
pub open spec fn program(toks: Seq<Token>) -> Option<Node> {
    crate_rule(toks, 0, 0)
}

/// After a complete expression, the program is that expression exactly when
/// the next token is the end-of-stream marker: any other leftover token makes
/// the whole parse fail, and so does a failed expression.
pub proof fn lemma_leftover_token_fails(toks: Seq<Token>)
    ensures
        match expr_rule(toks, 0, 0) {
            Some((e, p, _)) => {
                &&& program(toks) == Some(e) <==> (in_range(toks, p) && toks[p].kind == TokenKind::Eof)
                &&& in_range(toks, p) && toks[p].kind != TokenKind::Eof ==> program(toks) is None
            },
            None => program(toks) is None,
        },
{
}

/// Tokens that the expression rule consumes in full when the end-of-stream
/// marker follows them form a program, and it is that expression.
pub proof fn lemma_complete_input_parses(w: Seq<Token>, e: Node, i: nat)
    requires
        expr_rule(w.push(Token { kind: TokenKind::Eof }), 0, 0) == Some((e, w.len() as int, i)),
    ensures
        program(w.push(Token { kind: TokenKind::Eof })) == Some(e),
{
    assert(w.push(Token { kind: TokenKind::Eof })[w.len() as int].kind == TokenKind::Eof);
}

} // verus!
