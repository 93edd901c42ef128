use ami::{AmiError, BinaryOp, Node, NodeType, Parser, Span, Token, TokenType, UnaryOp};

// Token `i` covers the offsets from `2 * i` to `2 * i + 1`.
fn spaced(kinds: Vec<TokenType>) -> Vec<Token> {
    let mut tokens = Vec::new();
    for (i, ty) in kinds.into_iter().enumerate() {
        tokens.push(Token { ty, range: Span { start: 2 * i, end: 2 * i + 1 } });
    }
    tokens
}

fn name(s: &str) -> TokenType {
    TokenType::Identifier(s.to_string())
}

fn num(x: f64) -> TokenType {
    TokenType::Number(x.to_bits())
}

fn node(ty: NodeType, start: usize, end: usize) -> Node {
    Node { ty, range: Span { start, end } }
}

fn var(s: &str, start: usize, end: usize) -> Node {
    node(NodeType::Identifier(s.to_string()), start, end)
}

fn lit(x: f64, start: usize, end: usize) -> Node {
    node(NodeType::Number(x.to_bits()), start, end)
}

fn binary(left: Node, op: BinaryOp, right: Node, start: usize, end: usize) -> Node {
    node(NodeType::Binary(Box::new(left), op, Box::new(right)), start, end)
}

fn unary(op: UnaryOp, operand: Node, start: usize, end: usize) -> Node {
    node(NodeType::Unary(op, Box::new(operand)), start, end)
}

fn only(kinds: Vec<TokenType>) -> Node {
    let root = Parser::new(spaced(kinds)).parse().expect("the tokens form a program");
    match root.ty {
        NodeType::Statements(mut statements) => {
            assert_eq!(statements.len(), 1);
            statements.remove(0)
        }
        other => panic!("the root is {:?}", other),
    }
}

fn failure(kinds: Vec<TokenType>) -> AmiError {
    Parser::new(spaced(kinds)).parse().expect_err("the tokens form no program")
}

fn expected(reason: &str, start: usize, end: usize) -> AmiError {
    AmiError {
        msg: "expected token".to_string(),
        reason: reason.to_string(),
        range: Span { start, end },
    }
}

const NO_OPERAND: &str = "expected number, variable, function name, (, |, ⌊, or ⌈";

#[test]
fn parentheses_add_no_node() {
    let grouped = only(vec![
        TokenType::LeftParen,
        num(3.0),
        TokenType::Plus,
        num(4.0),
        TokenType::RightParen,
    ]);
    assert_eq!(grouped, binary(lit(3.0, 2, 3), BinaryOp::Add, lit(4.0, 6, 7), 0, 9));
}

#[test]
fn parentheses_keep_the_shape_of_what_they_hold() {
    let grouped = only(vec![
        TokenType::LeftParen,
        num(3.0),
        TokenType::Plus,
        num(4.0),
        TokenType::RightParen,
    ]);
    let plain = only(vec![num(3.0), TokenType::Plus, num(4.0)]);
    assert_eq!(plain.range, Span { start: 0, end: 5 });
    assert_eq!(grouped.range, Span { start: 0, end: 9 });
    match (grouped.ty, plain.ty) {
        (NodeType::Binary(gl, gop, gr), NodeType::Binary(pl, pop, pr)) => {
            assert_eq!(gop, pop);
            assert_eq!(gl.ty, pl.ty);
            assert_eq!(gr.ty, pr.ty);
        }
        other => panic!("the statements are {:?}", other),
    }
}

#[test]
fn parentheses_override_the_grouping() {
    // `( a - b ) - c`
    let tree = only(vec![
        TokenType::LeftParen,
        name("a"),
        TokenType::Minus,
        name("b"),
        TokenType::RightParen,
        TokenType::Minus,
        name("c"),
    ]);
    let left = binary(var("a", 2, 3), BinaryOp::Sub, var("b", 6, 7), 0, 9);
    assert_eq!(tree, binary(left, BinaryOp::Sub, var("c", 12, 13), 0, 13));
}

#[test]
fn nested_parentheses_reach_to_the_outermost() {
    let tree = only(vec![
        TokenType::LeftParen,
        TokenType::LeftParen,
        name("x"),
        TokenType::RightParen,
        TokenType::RightParen,
    ]);
    assert_eq!(tree, var("x", 0, 9));
}

#[test]
fn group_may_have_a_postfix_mark() {
    let tree = only(vec![
        TokenType::LeftParen,
        name("x"),
        TokenType::RightParen,
        TokenType::Exclamation,
    ]);
    assert_eq!(tree, unary(UnaryOp::Fact, var("x", 0, 5), 0, 7));
}

#[test]
fn bars_give_the_absolute_value() {
    let tree = only(vec![TokenType::Pipe, name("x"), TokenType::Pipe]);
    assert_eq!(tree, unary(UnaryOp::Abs, var("x", 2, 3), 0, 5));
}

#[test]
fn floor_brackets_give_the_floor() {
    let tree = only(vec![TokenType::LeftFloor, name("x"), TokenType::RightFloor]);
    assert_eq!(tree, unary(UnaryOp::Floor, var("x", 2, 3), 0, 5));
}

#[test]
fn floor_closed_by_ceiling_gives_the_absolute_value() {
    let tree = only(vec![TokenType::LeftFloor, name("x"), TokenType::RightCeil]);
    assert_eq!(tree, unary(UnaryOp::Abs, var("x", 2, 3), 0, 5));
}

#[test]
fn ceiling_brackets_give_the_ceiling() {
    let tree = only(vec![TokenType::LeftCeil, name("x"), TokenType::RightCeil]);
    assert_eq!(tree, unary(UnaryOp::Ceil, var("x", 2, 3), 0, 5));
}

#[test]
fn ceiling_closed_by_its_opener_fails() {
    assert_eq!(
        failure(vec![TokenType::LeftCeil, name("x"), TokenType::LeftCeil]),
        expected("expected ⌉", 0, 5)
    );
}

#[test]
fn ceiling_closed_by_floor_fails() {
    assert_eq!(
        failure(vec![TokenType::LeftCeil, name("x"), TokenType::RightFloor]),
        expected("expected ⌉", 0, 5)
    );
}

#[test]
fn floor_closed_by_bar_fails() {
    assert_eq!(
        failure(vec![TokenType::LeftFloor, name("x"), TokenType::Pipe]),
        expected("expected ⌋ or ⌉", 0, 5)
    );
}

#[test]
fn bar_closed_by_parenthesis_fails() {
    assert_eq!(
        failure(vec![TokenType::Pipe, name("x"), TokenType::RightParen]),
        expected("expected |", 0, 5)
    );
}

#[test]
fn parenthesis_closed_by_bar_fails() {
    assert_eq!(
        failure(vec![TokenType::LeftParen, name("x"), TokenType::Pipe]),
        expected("expected )", 0, 5)
    );
}

#[test]
fn unclosed_parenthesis_fails_at_the_end_of_the_input() {
    // The end of the input has the empty range at offset zero.
    assert_eq!(
        failure(vec![TokenType::LeftParen, num(3.0), TokenType::Plus, num(4.0)]),
        expected("expected )", 0, 0)
    );
}

#[test]
fn unclosed_parenthesis_fails_at_an_eof_token() {
    let tokens = vec![
        Token { ty: TokenType::LeftParen, range: Span { start: 0, end: 1 } },
        Token { ty: num(3.0), range: Span { start: 1, end: 2 } },
        Token { ty: TokenType::EOF, range: Span { start: 2, end: 2 } },
    ];
    assert_eq!(Parser::new(tokens).parse(), Err(expected("expected )", 0, 2)));
}

#[test]
fn unclosed_inner_group_names_the_inner_closer() {
    // `( | x )`: the bars are not closed; the error starts at the bar.
    assert_eq!(
        failure(vec![TokenType::LeftParen, TokenType::Pipe, name("x"), TokenType::RightParen]),
        expected("expected |", 2, 7)
    );
}

#[test]
fn closing_bracket_starts_nothing() {
    for closer in [TokenType::RightParen, TokenType::RightFloor, TokenType::RightCeil] {
        assert_eq!(failure(vec![closer, name("x")]), expected(NO_OPERAND, 0, 1));
    }
}

#[test]
fn empty_parentheses_fail_at_the_closer() {
    assert_eq!(
        failure(vec![TokenType::LeftParen, TokenType::RightParen]),
        expected(NO_OPERAND, 2, 3)
    );
}

#[test]
fn opener_at_the_end_of_the_input_is_not_closed() {
    assert_eq!(failure(vec![TokenType::LeftParen]), expected("expected )", 0, 0));
}

#[test]
fn bars_do_not_nest_without_brackets() {
    // `| | x | |`: the second bar opens a group, the third closes it, and the
    // fourth closes the first.
    let tree = only(vec![
        TokenType::Pipe,
        TokenType::Pipe,
        name("x"),
        TokenType::Pipe,
        TokenType::Pipe,
    ]);
    let inner = unary(UnaryOp::Abs, var("x", 4, 5), 2, 7);
    assert_eq!(tree, unary(UnaryOp::Abs, inner, 0, 9));
}

#[test]
fn cursor_stays_at_the_token_that_failed() {
    let mut parser = Parser::new(spaced(vec![TokenType::LeftParen, name("a"), name("b")]));
    assert_eq!(parser.parse(), Err(expected("expected )", 0, 5)));
    assert_eq!(parser.statement(), Ok(var("b", 4, 5)));
}

#[test]
fn group_inside_an_expression() {
    // `2 * ( 3 + 4 ) ^ 2`
    let tree = only(vec![
        num(2.0),
        TokenType::Star,
        TokenType::LeftParen,
        num(3.0),
        TokenType::Plus,
        num(4.0),
        TokenType::RightParen,
        TokenType::Carrot,
        num(2.0),
    ]);
    let sum = binary(lit(3.0, 6, 7), BinaryOp::Add, lit(4.0, 10, 11), 4, 13);
    let power = binary(sum, BinaryOp::Pow, lit(2.0, 16, 17), 4, 17);
    assert_eq!(tree, binary(lit(2.0, 0, 1), BinaryOp::Mul, power, 0, 17));
}
