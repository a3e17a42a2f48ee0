use expr_parser::ast::{BinOp, Expr, ExprKind, UnOp};
use expr_parser::parse::{is_expr_start, parse, Parser};
use expr_parser::token::{BinOpToken, Token, TokenKind};

fn num(n: u64) -> Token {
    Token::new(TokenKind::NumLit(n))
}

fn ident(s: &str) -> Token {
    Token::new(TokenKind::Ident(s.to_string()))
}

fn op(o: BinOpToken) -> Token {
    Token::new(TokenKind::BinOp(o))
}

fn tk(k: TokenKind) -> Token {
    Token::new(k)
}

fn with_eof(mut toks: Vec<Token>) -> Vec<Token> {
    toks.push(tk(TokenKind::Eof));
    toks
}

fn binop_name(o: BinOp) -> &'static str {
    match o {
        BinOp::Add => "Add",
        BinOp::Sub => "Sub",
        BinOp::Mul => "Mul",
        BinOp::Eq => "Eq",
        BinOp::Ne => "Ne",
        BinOp::Lt => "Lt",
        BinOp::Gt => "Gt",
    }
}

fn show_all(items: &[Expr]) -> String {
    items.iter().map(show).collect::<Vec<_>>().join(", ")
}

/// The shape of a tree, without identifiers.
fn show(e: &Expr) -> String {
    match &e.kind {
        ExprKind::NumLit(n) => format!("NumLit({})", n),
        ExprKind::BoolLit(b) => format!("BoolLit({})", b),
        ExprKind::Ident(i) => format!("Ident({:?})", i.symbol),
        ExprKind::Unary(UnOp::Plus, a) => format!("Unary(Plus, {})", show(a)),
        ExprKind::Unary(UnOp::Minus, a) => format!("Unary(Minus, {})", show(a)),
        ExprKind::Binary(o, a, b) => format!("Binary({}, {}, {})", binop_name(*o), show(a), show(b)),
        ExprKind::Assign(a, b) => format!("Assign({}, {})", show(a), show(b)),
        ExprKind::Call(i, args) => format!("Call(Ident({:?}), [{}])", i.symbol, show_all(args)),
        ExprKind::If(c, t, None) => format!("If({}, {}, None)", show(c), show(t)),
        ExprKind::If(c, t, Some(f)) => format!("If({}, {}, Some({}))", show(c), show(t), show(f)),
        ExprKind::Block(items) => format!("Block([{}])", show_all(items)),
        ExprKind::Return(a) => format!("Return({})", show(a)),
    }
}

/// Identifiers of a tree, parent first.
fn ids(e: &Expr, out: &mut Vec<usize>) {
    out.push(e.id);
    match &e.kind {
        ExprKind::Unary(_, a) | ExprKind::Return(a) => ids(a, out),
        ExprKind::Binary(_, a, b) | ExprKind::Assign(a, b) => {
            ids(a, out);
            ids(b, out);
        }
        ExprKind::Call(_, items) | ExprKind::Block(items) => {
            for i in items {
                ids(i, out);
            }
        }
        ExprKind::If(c, t, f) => {
            ids(c, out);
            ids(t, out);
            if let Some(f) = f {
                ids(f, out);
            }
        }
        _ => {}
    }
}

fn parsed(toks: Vec<Token>) -> String {
    show(&parse(with_eof(toks)).expect("parse should succeed"))
}

fn assert_distinct_ids(e: &Expr) -> Vec<usize> {
    let mut v = Vec::new();
    ids(e, &mut v);
    let mut sorted = v.clone();
    sorted.sort();
    sorted.dedup();
    assert_eq!(sorted.len(), v.len(), "ids repeat: {:?}", v);
    v
}

#[test]
fn precedence_mul_binds_tighter() {
    let toks = vec![num(1), op(BinOpToken::Plus), num(2), op(BinOpToken::Star), num(3)];
    assert_eq!(parsed(toks), "Binary(Add, NumLit(1), Binary(Mul, NumLit(2), NumLit(3)))");
}

#[test]
fn same_level_operators_nest_right() {
    let toks = vec![num(1), op(BinOpToken::Minus), num(2), op(BinOpToken::Minus), num(3)];
    assert_eq!(parsed(toks), "Binary(Sub, NumLit(1), Binary(Sub, NumLit(2), NumLit(3)))");
}

#[test]
fn unary_minus_then_binary_plus() {
    let toks = vec![op(BinOpToken::Minus), num(1), op(BinOpToken::Plus), num(2)];
    assert_eq!(parsed(toks), "Binary(Add, Unary(Minus, NumLit(1)), NumLit(2))");
}

#[test]
fn parentheses_group() {
    let toks = vec![
        tk(TokenKind::OpenParen),
        num(1),
        op(BinOpToken::Plus),
        num(2),
        tk(TokenKind::CloseParen),
        op(BinOpToken::Star),
        num(3),
    ];
    assert_eq!(parsed(toks), "Binary(Mul, Binary(Add, NumLit(1), NumLit(2)), NumLit(3))");
}

#[test]
fn call_with_trailing_comma() {
    let toks = vec![
        ident("f"),
        tk(TokenKind::OpenParen),
        num(1),
        tk(TokenKind::Comma),
        num(2),
        tk(TokenKind::Comma),
        tk(TokenKind::CloseParen),
    ];
    assert_eq!(parsed(toks), "Call(Ident(\"f\"), [NumLit(1), NumLit(2)])");
}

#[test]
fn if_else_branches_are_blocks() {
    let toks = vec![
        tk(TokenKind::If),
        tk(TokenKind::True),
        tk(TokenKind::OpenBrace),
        num(1),
        tk(TokenKind::CloseBrace),
        tk(TokenKind::Else),
        tk(TokenKind::OpenBrace),
        num(2),
        tk(TokenKind::CloseBrace),
    ];
    assert_eq!(
        parsed(toks),
        "If(BoolLit(true), Block([NumLit(1)]), Some(Block([NumLit(2)])))"
    );
}

#[test]
fn missing_close_paren_fails() {
    let toks = vec![tk(TokenKind::OpenParen), num(1), op(BinOpToken::Plus), num(2)];
    assert!(parse(with_eof(toks)).is_none());
}

#[test]
fn ids_are_distinct_and_post_order() {
    let toks = vec![num(1), op(BinOpToken::Plus), num(2), op(BinOpToken::Star), num(3)];
    let e = parse(with_eof(toks)).unwrap();
    let v = assert_distinct_ids(&e);
    // Children take their identifiers before their parent.
    assert_eq!(v, vec![4, 0, 3, 1, 2]);
}

#[test]
fn if_ids_taken_after_branches() {
    let toks = vec![
        tk(TokenKind::If),
        tk(TokenKind::True),
        tk(TokenKind::OpenBrace),
        num(1),
        tk(TokenKind::CloseBrace),
        tk(TokenKind::Else),
        tk(TokenKind::OpenBrace),
        num(2),
        tk(TokenKind::CloseBrace),
    ];
    let e = parse(with_eof(toks)).unwrap();
    let v = assert_distinct_ids(&e);
    // If, cond, then-block, its item, else-block, its item.
    assert_eq!(v, vec![5, 0, 4, 1, 3, 2]);
}

#[test]
fn nested_expression_ids_distinct() {
    // x = f(-1, (2 < 3) == true, { 4 }) + return 5
    let toks = vec![
        ident("x"),
        tk(TokenKind::Eq),
        ident("f"),
        tk(TokenKind::OpenParen),
        op(BinOpToken::Minus),
        num(1),
        tk(TokenKind::Comma),
        tk(TokenKind::OpenParen),
        num(2),
        op(BinOpToken::Lt),
        num(3),
        tk(TokenKind::CloseParen),
        op(BinOpToken::Eq),
        tk(TokenKind::True),
        tk(TokenKind::Comma),
        tk(TokenKind::OpenBrace),
        num(4),
        tk(TokenKind::CloseBrace),
        tk(TokenKind::CloseParen),
    ];
    let e = parse(with_eof(toks)).unwrap();
    assert_eq!(
        show(&e),
        "Assign(Ident(\"x\"), Call(Ident(\"f\"), [Unary(Minus, NumLit(1)), Binary(Eq, Binary(Lt, NumLit(2), NumLit(3)), BoolLit(true)), Block([NumLit(4)])]))"
    );
    assert_distinct_ids(&e);
}

#[test]
fn leftover_token_fails() {
    assert!(parse(with_eof(vec![num(1), num(2)])).is_none());
    assert!(parse(with_eof(vec![num(1), tk(TokenKind::CloseParen)])).is_none());
}

#[test]
fn complete_input_with_end_marker_succeeds() {
    assert_eq!(parsed(vec![num(7)]), "NumLit(7)");
    assert_eq!(parsed(vec![tk(TokenKind::False)]), "BoolLit(false)");
    assert_eq!(parsed(vec![ident("y")]), "Ident(\"y\")");
}

#[test]
fn missing_end_marker_fails() {
    assert!(parse(vec![num(1)]).is_none());
    assert!(parse(vec![]).is_none());
}

#[test]
fn only_end_marker_fails() {
    assert!(parse(with_eof(vec![])).is_none());
}

#[test]
fn assignment_nests_right() {
    let toks = vec![ident("a"), tk(TokenKind::Eq), ident("b"), tk(TokenKind::Eq), num(1)];
    assert_eq!(parsed(toks), "Assign(Ident(\"a\"), Assign(Ident(\"b\"), NumLit(1)))");
}

#[test]
fn comparison_chains_nest_right() {
    let toks = vec![num(1), op(BinOpToken::Ne), num(2), op(BinOpToken::Eq), num(3)];
    assert_eq!(parsed(toks), "Binary(Ne, NumLit(1), Binary(Eq, NumLit(2), NumLit(3)))");
    let toks = vec![num(1), op(BinOpToken::Gt), num(2), op(BinOpToken::Lt), num(3)];
    assert_eq!(parsed(toks), "Binary(Gt, NumLit(1), Binary(Lt, NumLit(2), NumLit(3)))");
}

#[test]
fn relational_binds_tighter_than_equality() {
    let toks = vec![num(1), op(BinOpToken::Lt), num(2), op(BinOpToken::Eq), tk(TokenKind::True)];
    assert_eq!(parsed(toks), "Binary(Eq, Binary(Lt, NumLit(1), NumLit(2)), BoolLit(true))");
}

#[test]
fn unary_plus() {
    assert_eq!(parsed(vec![op(BinOpToken::Plus), num(3)]), "Unary(Plus, NumLit(3))");
}

#[test]
fn unary_without_operand_fails() {
    assert!(parse(with_eof(vec![op(BinOpToken::Minus)])).is_none());
}

#[test]
fn call_without_arguments() {
    let toks = vec![ident("g"), tk(TokenKind::OpenParen), tk(TokenKind::CloseParen)];
    assert_eq!(parsed(toks), "Call(Ident(\"g\"), [])");
}

#[test]
fn call_missing_close_paren_fails() {
    let toks = vec![ident("g"), tk(TokenKind::OpenParen), num(1)];
    assert!(parse(with_eof(toks)).is_none());
}

#[test]
fn call_with_double_comma_fails() {
    let toks = vec![
        ident("g"),
        tk(TokenKind::OpenParen),
        num(1),
        tk(TokenKind::Comma),
        tk(TokenKind::Comma),
        num(2),
        tk(TokenKind::CloseParen),
    ];
    assert!(parse(with_eof(toks)).is_none());
}

#[test]
fn return_expression() {
    let toks = vec![tk(TokenKind::Return), num(1), op(BinOpToken::Plus), num(2)];
    assert_eq!(parsed(toks), "Return(Binary(Add, NumLit(1), NumLit(2)))");
}

#[test]
fn if_without_else() {
    let toks = vec![
        tk(TokenKind::If),
        ident("c"),
        tk(TokenKind::OpenBrace),
        tk(TokenKind::CloseBrace),
    ];
    assert_eq!(parsed(toks), "If(Ident(\"c\"), Block([]), None)");
}

#[test]
fn else_if_is_not_wrapped() {
    let toks = vec![
        tk(TokenKind::If),
        tk(TokenKind::False),
        tk(TokenKind::OpenBrace),
        num(1),
        tk(TokenKind::CloseBrace),
        tk(TokenKind::Else),
        tk(TokenKind::If),
        tk(TokenKind::True),
        tk(TokenKind::OpenBrace),
        num(2),
        tk(TokenKind::CloseBrace),
        tk(TokenKind::Else),
        tk(TokenKind::OpenBrace),
        num(3),
        tk(TokenKind::CloseBrace),
    ];
    let e = parse(with_eof(toks)).unwrap();
    assert_eq!(
        show(&e),
        "If(BoolLit(false), Block([NumLit(1)]), Some(If(BoolLit(true), Block([NumLit(2)]), Some(Block([NumLit(3)])))))"
    );
    assert_distinct_ids(&e);
}

#[test]
fn if_missing_block_fails() {
    let toks = vec![tk(TokenKind::If), tk(TokenKind::True), num(1)];
    assert!(parse(with_eof(toks)).is_none());
}

#[test]
fn else_without_block_fails() {
    let toks = vec![
        tk(TokenKind::If),
        tk(TokenKind::True),
        tk(TokenKind::OpenBrace),
        tk(TokenKind::CloseBrace),
        tk(TokenKind::Else),
        num(2),
    ];
    assert!(parse(with_eof(toks)).is_none());
}

#[test]
fn block_as_primary_holds_items_in_order() {
    let toks = vec![
        tk(TokenKind::OpenBrace),
        num(1),
        ident("z"),
        tk(TokenKind::CloseBrace),
        op(BinOpToken::Star),
        num(2),
    ];
    assert_eq!(parsed(toks), "Binary(Mul, Block([NumLit(1), Ident(\"z\")]), NumLit(2))");
}

#[test]
fn unclosed_block_fails() {
    let toks = vec![tk(TokenKind::OpenBrace), num(1)];
    assert!(parse(with_eof(toks)).is_none());
}

#[test]
fn token_that_starts_nothing_fails() {
    assert!(parse(with_eof(vec![tk(TokenKind::Comma)])).is_none());
    assert!(parse(with_eof(vec![tk(TokenKind::Else)])).is_none());
}

#[test]
fn parser_session_parse_crate() {
    let mut p = Parser::new(with_eof(vec![num(2), op(BinOpToken::Star), num(5)]));
    let e = p.parse_crate().unwrap();
    assert_eq!(show(&e), "Binary(Mul, NumLit(2), NumLit(5))");
    assert_eq!(e.id, 2);
}

#[test]
fn parser_session_parse_expr_stops_before_rest() {
    let mut p = Parser::new(with_eof(vec![num(2), tk(TokenKind::CloseParen)]));
    let e = p.parse_expr().unwrap();
    assert_eq!(show(&e), "NumLit(2)");
}

#[test]
fn expression_starts() {
    assert!(is_expr_start(&num(1)));
    assert!(is_expr_start(&ident("a")));
    assert!(is_expr_start(&tk(TokenKind::If)));
    assert!(is_expr_start(&tk(TokenKind::OpenBrace)));
    assert!(is_expr_start(&op(BinOpToken::Minus)));
    assert!(!is_expr_start(&op(BinOpToken::Star)));
    assert!(!is_expr_start(&tk(TokenKind::CloseParen)));
    assert!(!is_expr_start(&tk(TokenKind::Comma)));
    assert!(!is_expr_start(&tk(TokenKind::Eof)));
}
