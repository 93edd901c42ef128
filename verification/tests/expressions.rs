use ami::{AmiError, BinaryOp, Node, NodeType, Parser, Span, Token, TokenType, UnaryOp};

// Token `i` covers the offsets from `2 * i` to `2 * i + 1`.
fn spaced(kinds: Vec<TokenType>) -> Vec<Token> {
    let mut tokens = Vec::new();
    for (i, ty) in kinds.into_iter().enumerate() {
        tokens.push(Token { ty, range: Span { start: 2 * i, end: 2 * i + 1 } });
    }
    tokens
}

fn name(s: &str) -> TokenType {
    TokenType::Identifier(s.to_string())
}

fn num(x: f64) -> TokenType {
    TokenType::Number(x.to_bits())
}

fn node(ty: NodeType, start: usize, end: usize) -> Node {
    Node { ty, range: Span { start, end } }
}

fn var(s: &str, start: usize, end: usize) -> Node {
    node(NodeType::Identifier(s.to_string()), start, end)
}

fn lit(x: f64, start: usize, end: usize) -> Node {
    node(NodeType::Number(x.to_bits()), start, end)
}

fn binary(left: Node, op: BinaryOp, right: Node, start: usize, end: usize) -> Node {
    node(NodeType::Binary(Box::new(left), op, Box::new(right)), start, end)
}

fn unary(op: UnaryOp, operand: Node, start: usize, end: usize) -> Node {
    node(NodeType::Unary(op, Box::new(operand)), start, end)
}

// The one statement of a program that has one.
fn only(kinds: Vec<TokenType>) -> Node {
    let root = Parser::new(spaced(kinds)).parse().expect("the tokens form a program");
    match root.ty {
        NodeType::Statements(mut statements) => {
            assert_eq!(statements.len(), 1);
            statements.remove(0)
        }
        other => panic!("the root is {:?}", other),
    }
}

fn failure(kinds: Vec<TokenType>) -> AmiError {
    Parser::new(spaced(kinds)).parse().expect_err("the tokens form no program")
}

fn no_operand(start: usize, end: usize) -> AmiError {
    AmiError {
        msg: "expected token".to_string(),
        reason: "expected number, variable, function name, (, |, ⌊, or ⌈".to_string(),
        range: Span { start, end },
    }
}

#[test]
fn subtraction_groups_to_the_right() {
    let tree = only(vec![name("a"), TokenType::Minus, name("b"), TokenType::Minus, name("c")]);
    let right = binary(var("b", 4, 5), BinaryOp::Sub, var("c", 8, 9), 4, 9);
    assert_eq!(tree, binary(var("a", 0, 1), BinaryOp::Sub, right, 0, 9));
}

#[test]
fn subtraction_does_not_group_to_the_left() {
    let tree = only(vec![num(1.0), TokenType::Minus, num(2.0), TokenType::Minus, num(3.0)]);
    let left = binary(lit(1.0, 0, 1), BinaryOp::Sub, lit(2.0, 4, 5), 0, 5);
    assert_ne!(tree, binary(left, BinaryOp::Sub, lit(3.0, 8, 9), 0, 9));
}

#[test]
fn addition_and_subtraction_share_a_level() {
    let tree = only(vec![num(1.0), TokenType::Plus, num(2.0), TokenType::Minus, num(3.0)]);
    let right = binary(lit(2.0, 4, 5), BinaryOp::Sub, lit(3.0, 8, 9), 4, 9);
    assert_eq!(tree, binary(lit(1.0, 0, 1), BinaryOp::Add, right, 0, 9));
}

#[test]
fn multiplication_has_three_spellings() {
    for sign in [TokenType::Star, TokenType::Dot, TokenType::Cross] {
        let tree = only(vec![num(2.0), sign, num(3.0)]);
        assert_eq!(tree, binary(lit(2.0, 0, 1), BinaryOp::Mul, lit(3.0, 4, 5), 0, 5));
    }
}

#[test]
fn division_has_two_spellings() {
    for sign in [TokenType::Slash, TokenType::Divide] {
        let tree = only(vec![num(6.0), sign, num(3.0)]);
        assert_eq!(tree, binary(lit(6.0, 0, 1), BinaryOp::Div, lit(3.0, 4, 5), 0, 5));
    }
}

#[test]
fn modulo_has_two_spellings() {
    for sign in [TokenType::Percent, TokenType::Mod] {
        let tree = only(vec![num(7.0), sign, num(3.0)]);
        assert_eq!(tree, binary(lit(7.0, 0, 1), BinaryOp::Mod, lit(3.0, 4, 5), 0, 5));
    }
}

#[test]
fn division_groups_to_the_right() {
    let tree = only(vec![num(8.0), TokenType::Slash, num(4.0), TokenType::Slash, num(2.0)]);
    let right = binary(lit(4.0, 4, 5), BinaryOp::Div, lit(2.0, 8, 9), 4, 9);
    assert_eq!(tree, binary(lit(8.0, 0, 1), BinaryOp::Div, right, 0, 9));
}

#[test]
fn product_binds_tighter_than_sum_on_the_right() {
    let tree = only(vec![num(1.0), TokenType::Plus, num(2.0), TokenType::Star, num(3.0)]);
    let product = binary(lit(2.0, 4, 5), BinaryOp::Mul, lit(3.0, 8, 9), 4, 9);
    assert_eq!(tree, binary(lit(1.0, 0, 1), BinaryOp::Add, product, 0, 9));
}

#[test]
fn product_binds_tighter_than_sum_on_the_left() {
    let tree = only(vec![num(1.0), TokenType::Star, num(2.0), TokenType::Plus, num(3.0)]);
    let product = binary(lit(1.0, 0, 1), BinaryOp::Mul, lit(2.0, 4, 5), 0, 5);
    assert_eq!(tree, binary(product, BinaryOp::Add, lit(3.0, 8, 9), 0, 9));
}

#[test]
fn powers_group_to_the_right() {
    let tree = only(vec![name("a"), TokenType::Carrot, name("b"), TokenType::Carrot, name("c")]);
    let right = binary(var("b", 4, 5), BinaryOp::Pow, var("c", 8, 9), 4, 9);
    assert_eq!(tree, binary(var("a", 0, 1), BinaryOp::Pow, right, 0, 9));
}

#[test]
fn exponent_may_have_a_sign() {
    let tree = only(vec![name("a"), TokenType::Carrot, TokenType::Minus, name("b")]);
    let exponent = unary(UnaryOp::Neg, var("b", 6, 7), 4, 7);
    assert_eq!(tree, binary(var("a", 0, 1), BinaryOp::Pow, exponent, 0, 7));
}

#[test]
fn sign_applies_to_the_whole_power() {
    let tree = only(vec![TokenType::Minus, name("a"), TokenType::Carrot, name("b")]);
    let power = binary(var("a", 2, 3), BinaryOp::Pow, var("b", 6, 7), 2, 7);
    assert_eq!(tree, unary(UnaryOp::Neg, power, 0, 7));
}

#[test]
fn power_binds_tighter_than_product() {
    let tree = only(vec![num(2.0), TokenType::Star, num(3.0), TokenType::Carrot, num(4.0)]);
    let power = binary(lit(3.0, 4, 5), BinaryOp::Pow, lit(4.0, 8, 9), 4, 9);
    assert_eq!(tree, binary(lit(2.0, 0, 1), BinaryOp::Mul, power, 0, 9));
}

#[test]
fn two_minus_signs_negate_twice() {
    let tree = only(vec![TokenType::Minus, TokenType::Minus, name("x")]);
    let inner = unary(UnaryOp::Neg, var("x", 4, 5), 2, 5);
    assert_eq!(tree, unary(UnaryOp::Neg, inner, 0, 5));
}

#[test]
fn plus_sign_is_kept() {
    let tree = only(vec![TokenType::Plus, num(1.0)]);
    assert_eq!(tree, unary(UnaryOp::Pos, lit(1.0, 2, 3), 0, 3));
}

#[test]
fn sign_behind_an_operator_belongs_to_the_operand() {
    let tree = only(vec![num(1.0), TokenType::Minus, TokenType::Minus, num(2.0)]);
    let right = unary(UnaryOp::Neg, lit(2.0, 6, 7), 4, 7);
    assert_eq!(tree, binary(lit(1.0, 0, 1), BinaryOp::Sub, right, 0, 7));
}

#[test]
fn roots_nest() {
    let tree = only(vec![TokenType::Sqrt, TokenType::Sqrt, name("x")]);
    let inner = unary(UnaryOp::Sqrt, var("x", 4, 5), 2, 5);
    assert_eq!(tree, unary(UnaryOp::Sqrt, inner, 0, 5));
}

#[test]
fn each_root_has_its_operator() {
    let tree = only(vec![TokenType::Cbrt, TokenType::Fort, name("x")]);
    let inner = unary(UnaryOp::Fort, var("x", 4, 5), 2, 5);
    assert_eq!(tree, unary(UnaryOp::Cbrt, inner, 0, 5));
}

#[test]
fn root_binds_tighter_than_power() {
    let tree = only(vec![TokenType::Sqrt, name("x"), TokenType::Carrot, num(2.0)]);
    let root = unary(UnaryOp::Sqrt, var("x", 2, 3), 0, 3);
    assert_eq!(tree, binary(root, BinaryOp::Pow, lit(2.0, 6, 7), 0, 7));
}

#[test]
fn root_takes_no_sign() {
    // `sqrt - x`: the operand of a root is a root or an atom, and `-` starts
    // neither.
    assert_eq!(failure(vec![TokenType::Sqrt, TokenType::Minus, name("x")]), no_operand(2, 3));
}

#[test]
fn factorial_follows_its_operand() {
    let tree = only(vec![name("x"), TokenType::Exclamation]);
    assert_eq!(tree, unary(UnaryOp::Fact, var("x", 0, 1), 0, 3));
}

#[test]
fn degree_follows_its_operand() {
    let tree = only(vec![num(90.0), TokenType::Degree]);
    assert_eq!(tree, unary(UnaryOp::Degree, lit(90.0, 0, 1), 0, 3));
}

#[test]
fn root_applies_to_the_factorial() {
    let tree = only(vec![TokenType::Sqrt, name("x"), TokenType::Exclamation]);
    let fact = unary(UnaryOp::Fact, var("x", 2, 3), 2, 5);
    assert_eq!(tree, unary(UnaryOp::Sqrt, fact, 0, 5));
}

#[test]
fn factorial_then_degree_takes_the_factorial_only() {
    let mut parser =
        Parser::new(spaced(vec![name("x"), TokenType::Exclamation, TokenType::Degree]));
    assert_eq!(parser.statement(), Ok(unary(UnaryOp::Fact, var("x", 0, 1), 0, 3)));
    assert_eq!(parser.statement(), Err(no_operand(4, 5)));
}

#[test]
fn missing_right_operand_is_the_eof_node() {
    let tree = only(vec![num(3.0), TokenType::Plus]);
    let eof = node(NodeType::EOF, 0, 0);
    assert_eq!(tree, binary(lit(3.0, 0, 1), BinaryOp::Add, eof, 0, 3));
}

#[test]
fn operator_without_left_operand_fails() {
    assert_eq!(failure(vec![TokenType::Star, num(3.0)]), no_operand(0, 1));
}

#[test]
fn operator_behind_operator_fails_at_the_second() {
    assert_eq!(
        failure(vec![num(1.0), TokenType::Plus, TokenType::Star, num(2.0)]),
        no_operand(4, 5)
    );
}

#[test]
fn equals_sign_alone_fails() {
    assert_eq!(failure(vec![TokenType::Eq, num(1.0)]), no_operand(0, 1));
}

#[test]
fn number_keeps_its_value() {
    let tree = only(vec![num(2.5)]);
    match tree.ty {
        NodeType::Number(bits) => assert_eq!(f64::from_bits(bits), 2.5),
        other => panic!("the statement is {:?}", other),
    }
}

#[test]
fn identifier_keeps_its_name() {
    let tree = only(vec![name("radius")]);
    assert_eq!(tree, var("radius", 0, 1));
}

#[test]
fn ranges_follow_the_tokens() {
    // `12 + 345` with its real offsets.
    let tokens = vec![
        Token { ty: num(12.0), range: Span { start: 0, end: 2 } },
        Token { ty: TokenType::Plus, range: Span { start: 3, end: 4 } },
        Token { ty: num(345.0), range: Span { start: 5, end: 8 } },
    ];
    let sum = binary(lit(12.0, 0, 2), BinaryOp::Add, lit(345.0, 5, 8), 0, 8);
    assert_eq!(
        Parser::new(tokens).parse(),
        Ok(node(NodeType::Statements(vec![sum]), 0, 8))
    );
}

#[test]
fn eof_token_in_the_middle_ends_the_program() {
    let mut parser = Parser::new(spaced(vec![name("a"), TokenType::EOF, name("b")]));
    assert_eq!(
        parser.parse(),
        Ok(node(NodeType::Statements(vec![var("a", 0, 1)]), 0, 1))
    );
    // The cursor does not move over an `EOF` token.
    assert_eq!(parser.statement(), Ok(node(NodeType::EOF, 2, 3)));
    assert_eq!(parser.statement(), Ok(node(NodeType::EOF, 2, 3)));
}
