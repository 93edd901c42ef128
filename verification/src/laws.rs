//! What holds of the grammar on every token sequence.
//!
//! The parser returns what the grammar gives, so each law here is a law of
//! the parser too.

use crate::ast::{
    is_expression, is_program, is_statement, BinaryOp, NodeTypeView, NodeView, UnaryOp,
};
use crate::error::AmiErrorView;
use crate::grammar::{
    additive, additive_op, atom, closer_reason, closes, covered, factor, joined,
    multiplicative_op, newlines, node_over, opens, postfix, postfix_op, power, prefix, remaining,
    root_op, sequel, sign_op, statement, statements, term, unexpected, unexpected_message,
    operand_reason, prefixed, Outcome, Sequel,
};
use crate::token::{token_at, Span, TokenTypeView, TokenView};
use vstd::prelude::*;

verus! {

/// Whether `reason` is one of the reasons that an error can have: an operand
/// was expected, or the closer of one of the four brackets.
pub open spec fn is_reason(reason: Seq<char>) -> bool {
    ||| reason == operand_reason()
    ||| reason == closer_reason(TokenTypeView::LeftParen)
    ||| reason == closer_reason(TokenTypeView::Pipe)
    ||| reason == closer_reason(TokenTypeView::LeftFloor)
    ||| reason == closer_reason(TokenTypeView::LeftCeil)
}

/// Whether `outcome`, read at position `p`, lies where it should: the tokens
/// taken are tokens of the sequence; a node covers exactly the tokens taken;
/// an error has the one message and one of the five reasons, starts at the
/// start of a token that was reached, and ends at the end of the token at
/// which the reading stopped.
pub open spec fn well_placed(tokens: Seq<TokenView>, p: nat, outcome: Outcome) -> bool {
    &&& outcome.taken() <= remaining(tokens, p)
    &&& match outcome {
        Outcome::Parsed { node, taken } => node.range == covered(tokens, p, taken),
        Outcome::Failed { error, taken } => {
            &&& error.msg == unexpected_message()
            &&& is_reason(error.reason)
            &&& error.range.end == token_at(tokens, p + taken).range.end
            &&& exists|q: nat|
                p <= q <= p + taken && error.range.start == (#[trigger] token_at(
                    tokens,
                    q,
                )).range.start
        },
    }
}

/// Whether what `outcome` holds, if it holds a node, is an expression.
pub open spec fn gives_expression(outcome: Outcome) -> bool {
    outcome is Parsed ==> is_expression(outcome->node)
}

/// An error that is well placed behind `skipped` more tokens is well placed
/// with those tokens counted in.
proof fn lemma_failure_moved(
    tokens: Seq<TokenView>,
    p: nat,
    skipped: nat,
    error: AmiErrorView,
    taken: nat,
)
    requires
        skipped <= remaining(tokens, p),
        well_placed(tokens, p + skipped, Outcome::Failed { error, taken }),
    ensures
        well_placed(tokens, p, Outcome::Failed { error, taken: skipped + taken }),
{
    let q = choose|q: nat|
        p + skipped <= q <= p + skipped + taken && error.range.start == (#[trigger] token_at(
            tokens,
            q,
        )).range.start;
    assert(p <= q <= p + (skipped + taken) && error.range.start == token_at(
        tokens,
        q,
    ).range.start);
}

/// Every atom lies where it should.
pub proof fn lemma_atom_well_placed(tokens: Seq<TokenView>, p: nat)
    ensures
        well_placed(tokens, p, atom(tokens, p)),
        gives_expression(atom(tokens, p)),
    decreases remaining(tokens, p), 0nat,
{
    let ty = token_at(tokens, p).ty;
    if opens(ty) {
        lemma_additive_well_placed(tokens, p + 1);
        match additive(tokens, p + 1) {
            Outcome::Parsed { node, taken } => {
                let closer = token_at(tokens, p + 1 + taken).ty;
                if !closes(ty, closer) {
                    assert(p <= p <= p + (taken + 1) && token_at(tokens, p).range.start
                        == token_at(tokens, p).range.start);
                }
            },
            Outcome::Failed { error, taken } => {
                lemma_failure_moved(tokens, p, 1, error, taken);
            },
        }
    } else {
        assert(p <= p <= p + 0 && token_at(tokens, p).range.start == token_at(
            tokens,
            p,
        ).range.start);
    }
}

/// Every atom with its postfix mark lies where it should.
pub proof fn lemma_postfix_well_placed(tokens: Seq<TokenView>, p: nat)
    ensures
        well_placed(tokens, p, postfix(tokens, p)),
        gives_expression(postfix(tokens, p)),
    decreases remaining(tokens, p), 1nat,
{
    lemma_atom_well_placed(tokens, p);
}

/// Every operand of a power lies where it should.
pub proof fn lemma_prefix_well_placed(tokens: Seq<TokenView>, p: nat)
    ensures
        well_placed(tokens, p, prefix(tokens, p)),
        gives_expression(prefix(tokens, p)),
    decreases remaining(tokens, p), 2nat,
{
    if root_op(token_at(tokens, p).ty) is Some {
        lemma_prefix_well_placed(tokens, p + 1);
        if let Outcome::Failed { error, taken } = prefix(tokens, p + 1) {
            lemma_failure_moved(tokens, p, 1, error, taken);
        }
    } else {
        lemma_postfix_well_placed(tokens, p);
    }
}

/// Every power lies where it should.
pub proof fn lemma_power_well_placed(tokens: Seq<TokenView>, p: nat)
    ensures
        well_placed(tokens, p, power(tokens, p)),
        gives_expression(power(tokens, p)),
    decreases remaining(tokens, p), 3nat,
{
    lemma_prefix_well_placed(tokens, p);
    if let Outcome::Parsed { node, taken } = prefix(tokens, p) {
        if token_at(tokens, p + taken).ty is Carrot {
            lemma_factor_well_placed(tokens, p + taken + 1);
            if let Outcome::Failed { error, taken: more } = factor(tokens, p + taken + 1) {
                lemma_failure_moved(tokens, p, taken + 1, error, more);
            }
        }
    }
}

/// Every factor lies where it should.
pub proof fn lemma_factor_well_placed(tokens: Seq<TokenView>, p: nat)
    ensures
        well_placed(tokens, p, factor(tokens, p)),
        gives_expression(factor(tokens, p)),
    decreases remaining(tokens, p), 4nat,
{
    if sign_op(token_at(tokens, p).ty) is Some {
        lemma_factor_well_placed(tokens, p + 1);
        if let Outcome::Failed { error, taken } = factor(tokens, p + 1) {
            lemma_failure_moved(tokens, p, 1, error, taken);
        }
    } else {
        lemma_power_well_placed(tokens, p);
    }
}

/// Every term lies where it should.
pub proof fn lemma_term_well_placed(tokens: Seq<TokenView>, p: nat)
    ensures
        well_placed(tokens, p, term(tokens, p)),
        gives_expression(term(tokens, p)),
    decreases remaining(tokens, p), 5nat,
{
    lemma_factor_well_placed(tokens, p);
    if let Outcome::Parsed { node, taken } = factor(tokens, p) {
        if multiplicative_op(token_at(tokens, p + taken).ty) is Some {
            lemma_term_well_placed(tokens, p + taken + 1);
            if let Outcome::Failed { error, taken: more } = term(tokens, p + taken + 1) {
                lemma_failure_moved(tokens, p, taken + 1, error, more);
            }
        }
    }
}

/// Every sum lies where it should.
pub proof fn lemma_additive_well_placed(tokens: Seq<TokenView>, p: nat)
    ensures
        well_placed(tokens, p, additive(tokens, p)),
        gives_expression(additive(tokens, p)),
    decreases remaining(tokens, p), 6nat,
{
    lemma_term_well_placed(tokens, p);
    if let Outcome::Parsed { node, taken } = term(tokens, p) {
        if additive_op(token_at(tokens, p + taken).ty) is Some {
            lemma_additive_well_placed(tokens, p + taken + 1);
            if let Outcome::Failed { error, taken: more } = additive(tokens, p + taken + 1) {
                lemma_failure_moved(tokens, p, taken + 1, error, more);
            }
        }
    }
}

/// Every statement lies where it should.
pub proof fn lemma_statement_well_placed(tokens: Seq<TokenView>, p: nat)
    ensures
        well_placed(tokens, p, statement(tokens, p)),
        statement(tokens, p) is Parsed ==> is_statement(statement(tokens, p)->node),
{
    if token_at(tokens, p).ty is Identifier && token_at(tokens, p + 1).ty is Eq {
        lemma_additive_well_placed(tokens, p + 2);
        if let Outcome::Failed { error, taken } = additive(tokens, p + 2) {
            lemma_failure_moved(tokens, p, 2, error, taken);
        }
    } else {
        lemma_additive_well_placed(tokens, p);
    }
}

/// The newlines counted from a position are tokens of the sequence.
pub proof fn lemma_newlines_within(tokens: Seq<TokenView>, p: nat)
    ensures
        newlines(tokens, p) <= remaining(tokens, p),
    decreases remaining(tokens, p),
{
    if token_at(tokens, p).ty is Newline {
        lemma_newlines_within(tokens, p + 1);
    }
}

/// Whether what follows the first statement, read at position `p`, lies
/// where it should: as an [`Outcome`] does, but with no range of its own.
pub open spec fn sequel_well_placed(tokens: Seq<TokenView>, p: nat, rest: Sequel) -> bool {
    match rest {
        Sequel::Parsed { nodes, taken } => {
            &&& taken <= remaining(tokens, p)
            &&& forall|i: int|
                0 <= i < nodes.len() ==> is_statement(#[trigger] nodes[i]) && !(nodes[i].ty is EOF)
        },
        Sequel::Failed { error, taken } => well_placed(
            tokens,
            p,
            Outcome::Failed { error, taken },
        ),
    }
}

/// The statements after the first lie where they should.
pub proof fn lemma_sequel_well_placed(tokens: Seq<TokenView>, p: nat)
    ensures
        sequel_well_placed(tokens, p, sequel(tokens, p)),
    decreases remaining(tokens, p),
{
    let gap = newlines(tokens, p);
    lemma_newlines_within(tokens, p);
    if gap > 0 {
        lemma_statement_well_placed(tokens, p + gap);
        match statement(tokens, p + gap) {
            Outcome::Parsed { node, taken } => {
                if !(node.ty is EOF) {
                    lemma_sequel_well_placed(tokens, p + gap + taken);
                    if let Sequel::Failed { error, taken: more } = sequel(
                        tokens,
                        p + gap + taken,
                    ) {
                        lemma_failure_moved(tokens, p, gap + taken, error, more);
                    }
                }
            },
            Outcome::Failed { error, taken } => {
                lemma_failure_moved(tokens, p, gap, error, taken);
            },
        }
    }
}

/// The root of a parse covers exactly the tokens that the parse took, from
/// the start of the first to the end of the last, and all of them are tokens
/// of the sequence. An error ends at the end of the token at which the parse
/// stopped, and starts at the start of a token that the parse had reached.
/// The root is a program: one or more statements, and none but the first is
/// the end of the input.
pub proof fn lemma_statements_well_placed(tokens: Seq<TokenView>, p: nat)
    ensures
        well_placed(tokens, p, statements(tokens, p)),
        statements(tokens, p) is Parsed ==> is_program(statements(tokens, p)->node),
{
    let lead = newlines(tokens, p);
    lemma_newlines_within(tokens, p);
    lemma_statement_well_placed(tokens, p + lead);
    match statement(tokens, p + lead) {
        Outcome::Parsed { node, taken } => {
            lemma_sequel_well_placed(tokens, p + lead + taken);
            if let Sequel::Failed { error, taken: more } = sequel(tokens, p + lead + taken) {
                lemma_failure_moved(tokens, p, lead + taken, error, more);
            }
        },
        Outcome::Failed { error, taken } => {
            lemma_failure_moved(tokens, p, lead, error, taken);
        },
    }
}

/// Where the token at the cursor is the end of the input, a parse gives one
/// `EOF` statement and takes nothing; the statement and the root have the
/// range of that token.
pub proof fn lemma_end_of_input(tokens: Seq<TokenView>, p: nat)
    requires
        token_at(tokens, p).ty is EOF,
    ensures
        statements(tokens, p) == (Outcome::Parsed {
            node: NodeView {
                ty: NodeTypeView::Statements(
                    seq![NodeView { ty: NodeTypeView::EOF, range: token_at(tokens, p).range }],
                ),
                range: token_at(tokens, p).range,
            },
            taken: 0,
        }),
{
    let eof = NodeView { ty: NodeTypeView::EOF, range: token_at(tokens, p).range };
    assert(atom(tokens, p) == Outcome::Parsed { node: eof, taken: 0 });
    assert(postfix(tokens, p) == Outcome::Parsed { node: eof, taken: 0 });
    assert(prefix(tokens, p) == Outcome::Parsed { node: eof, taken: 0 });
    assert(power(tokens, p) == Outcome::Parsed { node: eof, taken: 0 });
    assert(factor(tokens, p) == Outcome::Parsed { node: eof, taken: 0 });
    assert(term(tokens, p) == Outcome::Parsed { node: eof, taken: 0 });
    assert(additive(tokens, p) == Outcome::Parsed { node: eof, taken: 0 });
    assert(statement(tokens, p) == Outcome::Parsed { node: eof, taken: 0 });
    assert(newlines(tokens, p) == 0);
    assert(seq![eof] + Seq::<NodeView>::empty() =~= seq![eof]);
}

/// A parse of no tokens gives one `EOF` statement; the statement and the
/// root have the empty range at offset zero.
pub proof fn lemma_empty_input(tokens: Seq<TokenView>)
    requires
        tokens.len() == 0,
    ensures
        statements(tokens, 0) == (Outcome::Parsed {
            node: NodeView {
                ty: NodeTypeView::Statements(
                    seq![NodeView { ty: NodeTypeView::EOF, range: Span { start: 0, end: 0 } }],
                ),
                range: Span { start: 0, end: 0 },
            },
            taken: 0,
        }),
{
    lemma_end_of_input(tokens, 0);
}

/// Sums and differences group to the right: in `a - b - c` the left operand
/// of the first operator is `a` alone, and its right operand is `b - c`.
pub proof fn lemma_sums_group_right(
    tokens: Seq<TokenView>,
    p: nat,
    a: NodeView,
    i: nat,
    first: BinaryOp,
    b: NodeView,
    j: nat,
    second: BinaryOp,
    c: NodeView,
    k: nat,
)
    requires
        term(tokens, p) == (Outcome::Parsed { node: a, taken: i }),
        additive_op(token_at(tokens, p + i).ty) == Some(first),
        term(tokens, p + i + 1) == (Outcome::Parsed { node: b, taken: j }),
        additive_op(token_at(tokens, p + i + 1 + j).ty) == Some(second),
        additive(tokens, p + i + 1 + j + 1) == (Outcome::Parsed { node: c, taken: k }),
    ensures
        additive(tokens, p) == (Outcome::Parsed {
            node: node_over(
                tokens,
                p,
                i + 1 + j + 1 + k,
                NodeTypeView::Binary(
                    Box::new(a),
                    first,
                    Box::new(
                        node_over(
                            tokens,
                            p + i + 1,
                            j + 1 + k,
                            NodeTypeView::Binary(Box::new(b), second, Box::new(c)),
                        ),
                    ),
                ),
            ),
            taken: i + 1 + j + 1 + k,
        }),
{
    assert(additive(tokens, p + i + 1) == Outcome::Parsed {
        node: node_over(
            tokens,
            p + i + 1,
            j + 1 + k,
            NodeTypeView::Binary(Box::new(b), second, Box::new(c)),
        ),
        taken: j + 1 + k,
    });
}

/// Products, quotients and remainders group to the right, as sums do.
pub proof fn lemma_products_group_right(
    tokens: Seq<TokenView>,
    p: nat,
    a: NodeView,
    i: nat,
    first: BinaryOp,
    b: NodeView,
    j: nat,
    second: BinaryOp,
    c: NodeView,
    k: nat,
)
    requires
        factor(tokens, p) == (Outcome::Parsed { node: a, taken: i }),
        multiplicative_op(token_at(tokens, p + i).ty) == Some(first),
        factor(tokens, p + i + 1) == (Outcome::Parsed { node: b, taken: j }),
        multiplicative_op(token_at(tokens, p + i + 1 + j).ty) == Some(second),
        term(tokens, p + i + 1 + j + 1) == (Outcome::Parsed { node: c, taken: k }),
    ensures
        term(tokens, p) == (Outcome::Parsed {
            node: node_over(
                tokens,
                p,
                i + 1 + j + 1 + k,
                NodeTypeView::Binary(
                    Box::new(a),
                    first,
                    Box::new(
                        node_over(
                            tokens,
                            p + i + 1,
                            j + 1 + k,
                            NodeTypeView::Binary(Box::new(b), second, Box::new(c)),
                        ),
                    ),
                ),
            ),
            taken: i + 1 + j + 1 + k,
        }),
{
    assert(term(tokens, p + i + 1) == Outcome::Parsed {
        node: node_over(
            tokens,
            p + i + 1,
            j + 1 + k,
            NodeTypeView::Binary(Box::new(b), second, Box::new(c)),
        ),
        taken: j + 1 + k,
    });
}

/// Powers group to the right: in `a ^ b ^ c` the base of the first power is
/// `a` alone, and its exponent is `b ^ c`.
pub proof fn lemma_powers_group_right(
    tokens: Seq<TokenView>,
    p: nat,
    a: NodeView,
    i: nat,
    b: NodeView,
    j: nat,
    c: NodeView,
    k: nat,
)
    requires
        prefix(tokens, p) == (Outcome::Parsed { node: a, taken: i }),
        token_at(tokens, p + i).ty is Carrot,
        sign_op(token_at(tokens, p + i + 1).ty) is None,
        prefix(tokens, p + i + 1) == (Outcome::Parsed { node: b, taken: j }),
        token_at(tokens, p + i + 1 + j).ty is Carrot,
        factor(tokens, p + i + 1 + j + 1) == (Outcome::Parsed { node: c, taken: k }),
    ensures
        power(tokens, p) == (Outcome::Parsed {
            node: node_over(
                tokens,
                p,
                i + 1 + j + 1 + k,
                NodeTypeView::Binary(
                    Box::new(a),
                    BinaryOp::Pow,
                    Box::new(
                        node_over(
                            tokens,
                            p + i + 1,
                            j + 1 + k,
                            NodeTypeView::Binary(Box::new(b), BinaryOp::Pow, Box::new(c)),
                        ),
                    ),
                ),
            ),
            taken: i + 1 + j + 1 + k,
        }),
{
    let inner = Outcome::Parsed {
        node: node_over(
            tokens,
            p + i + 1,
            j + 1 + k,
            NodeTypeView::Binary(Box::new(b), BinaryOp::Pow, Box::new(c)),
        ),
        taken: j + 1 + k,
    };
    assert(power(tokens, p + i + 1) == inner);
    assert(factor(tokens, p + i + 1) == inner);
}

/// Parentheses add no node: the group has the shape of what it holds, and
/// its range reaches from the opening to the closing parenthesis.
pub proof fn lemma_parentheses_add_no_node(
    tokens: Seq<TokenView>,
    p: nat,
    inner: NodeView,
    taken: nat,
)
    requires
        token_at(tokens, p).ty is LeftParen,
        additive(tokens, p + 1) == (Outcome::Parsed { node: inner, taken }),
        token_at(tokens, p + 1 + taken).ty is RightParen,
    ensures
        atom(tokens, p) == (Outcome::Parsed {
            node: NodeView {
                ty: inner.ty,
                range: Span {
                    start: token_at(tokens, p).range.start,
                    end: token_at(tokens, p + 1 + taken).range.end,
                },
            },
            taken: taken + 2,
        }),
{
}

/// A closed group that is not in parentheses is one operator on what it
/// holds: bars give the absolute value, floor brackets the floor, ceiling
/// brackets the ceiling, and a floor bracket closed by a ceiling bracket the
/// absolute value.
pub proof fn lemma_brackets_apply_an_operator(
    tokens: Seq<TokenView>,
    p: nat,
    inner: NodeView,
    taken: nat,
)
    requires
        opens(token_at(tokens, p).ty),
        !(token_at(tokens, p).ty is LeftParen),
        additive(tokens, p + 1) == (Outcome::Parsed { node: inner, taken }),
        closes(token_at(tokens, p).ty, token_at(tokens, p + 1 + taken).ty),
    ensures
        atom(tokens, p) == (Outcome::Parsed {
            node: NodeView {
                ty: NodeTypeView::Unary(
                    match (token_at(tokens, p).ty, token_at(tokens, p + 1 + taken).ty) {
                        (TokenTypeView::LeftFloor, TokenTypeView::RightFloor) => UnaryOp::Floor,
                        (TokenTypeView::LeftCeil, _) => UnaryOp::Ceil,
                        _ => UnaryOp::Abs,
                    },
                    Box::new(inner),
                ),
                range: Span {
                    start: token_at(tokens, p).range.start,
                    end: token_at(tokens, p + 1 + taken).range.end,
                },
            },
            taken: taken + 2,
        }),
{
}

/// A group that is not closed fails: the reason names the closing bracket
/// that was expected, and the range reaches from the opening bracket to the
/// end of the token that stands in the closing bracket's place.
pub proof fn lemma_unclosed_group_fails(
    tokens: Seq<TokenView>,
    p: nat,
    inner: NodeView,
    taken: nat,
)
    requires
        opens(token_at(tokens, p).ty),
        additive(tokens, p + 1) == (Outcome::Parsed { node: inner, taken }),
        !closes(token_at(tokens, p).ty, token_at(tokens, p + 1 + taken).ty),
    ensures
        atom(tokens, p) == (Outcome::Failed {
            error: AmiErrorView {
                msg: unexpected_message(),
                reason: closer_reason(token_at(tokens, p).ty),
                range: Span {
                    start: token_at(tokens, p).range.start,
                    end: token_at(tokens, p + 1 + taken).range.end,
                },
            },
            taken: taken + 1,
        }),
{
}

/// Whether a token can stand at the start of an operand.
pub open spec fn starts_operand(ty: TokenTypeView) -> bool {
    ty is Number || ty is Identifier || ty is EOF || opens(ty) || sign_op(ty) is Some || root_op(
        ty,
    ) is Some
}

/// At a token that can start no operand, a statement fails without taking
/// anything, and the error covers that token.
pub proof fn lemma_no_operand_fails(tokens: Seq<TokenView>, p: nat)
    requires
        !starts_operand(token_at(tokens, p).ty),
    ensures
        statement(tokens, p) == (Outcome::Failed {
            error: AmiErrorView {
                msg: unexpected_message(),
                reason: operand_reason(),
                range: token_at(tokens, p).range,
            },
            taken: 0,
        }),
{
    let failed = Outcome::Failed { error: unexpected(tokens, operand_reason(), p, p), taken: 0 };
    assert(atom(tokens, p) == failed);
    assert(postfix(tokens, p) == failed);
    assert(prefix(tokens, p) == failed);
    assert(power(tokens, p) == failed);
    assert(factor(tokens, p) == failed);
    assert(term(tokens, p) == failed);
    assert(additive(tokens, p) == failed);
}

/// An atom takes one postfix mark and no second: behind `x !` the reading
/// stops whatever follows, and a second mark can start nothing of its own.
pub proof fn lemma_postfix_takes_one_mark(
    tokens: Seq<TokenView>,
    p: nat,
    operand: NodeView,
    taken: nat,
    op: UnaryOp,
)
    requires
        atom(tokens, p) == (Outcome::Parsed { node: operand, taken }),
        postfix_op(token_at(tokens, p + taken).ty) == Some(op),
    ensures
        postfix(tokens, p) == (Outcome::Parsed {
            node: node_over(tokens, p, taken + 1, NodeTypeView::Unary(op, Box::new(operand))),
            taken: taken + 1,
        }),
        postfix_op(token_at(tokens, p + taken + 1).ty) is Some ==> statement(
            tokens,
            p + taken + 1,
        ) is Failed,
{
    if postfix_op(token_at(tokens, p + taken + 1).ty) is Some {
        lemma_no_operand_fails(tokens, p + taken + 1);
    }
}

/// Whether a token is an operand by itself: a number or a name.
pub open spec fn is_operand(ty: TokenTypeView) -> bool {
    ty is Number || ty is Identifier
}

/// The operands among the `n` tokens from position `p`, in their order.
pub open spec fn operands(tokens: Seq<TokenView>, p: nat, n: nat) -> Seq<TokenTypeView>
    decreases n,
{
    if n == 0 {
        Seq::empty()
    } else if is_operand(token_at(tokens, p).ty) {
        seq![token_at(tokens, p).ty] + operands(tokens, p + 1, (n - 1) as nat)
    } else {
        operands(tokens, p + 1, (n - 1) as nat)
    }
}

/// The numbers and names at the leaves of an expression, from left to right,
/// each as the token that it was read from.
pub open spec fn leaves(node: NodeView) -> Seq<TokenTypeView>
    decreases node,
{
    match node.ty {
        NodeTypeView::Binary(left, _, right) => leaves(*left) + leaves(*right),
        NodeTypeView::Unary(_, operand) => leaves(*operand),
        NodeTypeView::Assignment(_, value) => leaves(*value),
        NodeTypeView::Number(x) => seq![TokenTypeView::Number(x)],
        NodeTypeView::Identifier(name) => seq![TokenTypeView::Identifier(name)],
        NodeTypeView::Statements(_) | NodeTypeView::EOF => Seq::empty(),
    }
}

/// Whether what `outcome` holds, if it holds a node, has at its leaves the
/// operands among the tokens taken from position `p`, in their order.
pub open spec fn keeps_operands(tokens: Seq<TokenView>, p: nat, outcome: Outcome) -> bool {
    outcome is Parsed ==> leaves(outcome->node) == operands(tokens, p, outcome.taken())
}

/// The operands among tokens in a row are those among the first `m` of them
/// and then those among the rest.
pub proof fn lemma_operands_split(tokens: Seq<TokenView>, p: nat, m: nat, n: nat)
    ensures
        operands(tokens, p, m + n) == operands(tokens, p, m) + operands(tokens, p + m, n),
    decreases m,
{
    if m == 0 {
        assert(Seq::<TokenTypeView>::empty() + operands(tokens, p, n) =~= operands(tokens, p, n));
    } else {
        lemma_operands_split(tokens, p + 1, (m - 1) as nat, n);
        let rest = operands(tokens, p + 1, (m - 1) as nat);
        let tail = operands(tokens, p + m, n);
        assert((seq![token_at(tokens, p).ty] + rest) + tail =~= seq![token_at(tokens, p).ty] + (
        rest + tail));
    }
}

/// One token that is no operand holds no operand.
proof fn lemma_no_operand_in(tokens: Seq<TokenView>, p: nat)
    requires
        !is_operand(token_at(tokens, p).ty),
    ensures
        operands(tokens, p, 1) == Seq::<TokenTypeView>::empty(),
{
    reveal_with_fuel(operands, 2);
}

/// An operator written in one token in front of an operand adds no leaf.
proof fn lemma_prefixed_keeps_operands(
    tokens: Seq<TokenView>,
    p: nat,
    op: UnaryOp,
    operand: Outcome,
)
    requires
        !is_operand(token_at(tokens, p).ty),
        keeps_operands(tokens, p + 1, operand),
    ensures
        keeps_operands(tokens, p, prefixed(tokens, p, op, operand)),
{
    if let Outcome::Parsed { node, taken } = operand {
        lemma_no_operand_in(tokens, p);
        lemma_operands_split(tokens, p, 1, taken);
        assert(Seq::<TokenTypeView>::empty() + leaves(node) =~= leaves(node));
    }
}

/// An operator written in one token between two operands adds no leaf.
proof fn lemma_joined_keeps_operands(
    tokens: Seq<TokenView>,
    p: nat,
    left: NodeView,
    taken: nat,
    op: BinaryOp,
    right: Outcome,
)
    requires
        leaves(left) == operands(tokens, p, taken),
        !is_operand(token_at(tokens, p + taken).ty),
        keeps_operands(tokens, p + taken + 1, right),
    ensures
        keeps_operands(tokens, p, joined(tokens, p, left, taken, op, right)),
{
    if let Outcome::Parsed { node, taken: more } = right {
        lemma_no_operand_in(tokens, p + taken);
        lemma_operands_split(tokens, p + taken, 1, more);
        lemma_operands_split(tokens, p, taken, 1 + more);
        assert(Seq::<TokenTypeView>::empty() + leaves(node) =~= leaves(node));
    }
}

/// The leaves of an atom are the operands among its tokens.
pub proof fn lemma_atom_keeps_operands(tokens: Seq<TokenView>, p: nat)
    ensures
        keeps_operands(tokens, p, atom(tokens, p)),
    decreases remaining(tokens, p), 0nat,
{
    reveal_with_fuel(operands, 2);
    let ty = token_at(tokens, p).ty;
    if opens(ty) {
        lemma_additive_keeps_operands(tokens, p + 1);
        if let Outcome::Parsed { node, taken } = additive(tokens, p + 1) {
            if closes(ty, token_at(tokens, p + 1 + taken).ty) {
                lemma_no_operand_in(tokens, p);
                lemma_no_operand_in(tokens, p + 1 + taken);
                lemma_operands_split(tokens, p + 1, taken, 1);
                lemma_operands_split(tokens, p, 1, taken + 1);
                assert(Seq::<TokenTypeView>::empty() + (leaves(node) + Seq::<
                    TokenTypeView,
                >::empty()) =~= leaves(node));
            }
        }
    } else if is_operand(ty) {
        assert(seq![ty] + Seq::<TokenTypeView>::empty() =~= seq![ty]);
    }
}

/// The leaves of an atom with its postfix mark are the operands among its
/// tokens.
pub proof fn lemma_postfix_keeps_operands(tokens: Seq<TokenView>, p: nat)
    ensures
        keeps_operands(tokens, p, postfix(tokens, p)),
    decreases remaining(tokens, p), 1nat,
{
    lemma_atom_keeps_operands(tokens, p);
    if let Outcome::Parsed { node, taken } = atom(tokens, p) {
        if postfix_op(token_at(tokens, p + taken).ty) is Some {
            lemma_no_operand_in(tokens, p + taken);
            lemma_operands_split(tokens, p, taken, 1);
            assert(leaves(node) + Seq::<TokenTypeView>::empty() =~= leaves(node));
        }
    }
}

/// The leaves of an operand of a power are the operands among its tokens.
pub proof fn lemma_prefix_keeps_operands(tokens: Seq<TokenView>, p: nat)
    ensures
        keeps_operands(tokens, p, prefix(tokens, p)),
    decreases remaining(tokens, p), 2nat,
{
    match root_op(token_at(tokens, p).ty) {
        Some(op) => {
            lemma_prefix_keeps_operands(tokens, p + 1);
            lemma_prefixed_keeps_operands(tokens, p, op, prefix(tokens, p + 1));
        },
        None => {
            lemma_postfix_keeps_operands(tokens, p);
        },
    }
}

/// The leaves of a power are the operands among its tokens.
pub proof fn lemma_power_keeps_operands(tokens: Seq<TokenView>, p: nat)
    ensures
        keeps_operands(tokens, p, power(tokens, p)),
    decreases remaining(tokens, p), 3nat,
{
    lemma_prefix_keeps_operands(tokens, p);
    if let Outcome::Parsed { node, taken } = prefix(tokens, p) {
        if token_at(tokens, p + taken).ty is Carrot {
            lemma_factor_keeps_operands(tokens, p + taken + 1);
            lemma_joined_keeps_operands(
                tokens,
                p,
                node,
                taken,
                BinaryOp::Pow,
                factor(tokens, p + taken + 1),
            );
        }
    }
}

/// The leaves of a factor are the operands among its tokens.
pub proof fn lemma_factor_keeps_operands(tokens: Seq<TokenView>, p: nat)
    ensures
        keeps_operands(tokens, p, factor(tokens, p)),
    decreases remaining(tokens, p), 4nat,
{
    match sign_op(token_at(tokens, p).ty) {
        Some(op) => {
            lemma_factor_keeps_operands(tokens, p + 1);
            lemma_prefixed_keeps_operands(tokens, p, op, factor(tokens, p + 1));
        },
        None => {
            lemma_power_keeps_operands(tokens, p);
        },
    }
}

/// The leaves of a term are the operands among its tokens.
pub proof fn lemma_term_keeps_operands(tokens: Seq<TokenView>, p: nat)
    ensures
        keeps_operands(tokens, p, term(tokens, p)),
    decreases remaining(tokens, p), 5nat,
{
    lemma_factor_keeps_operands(tokens, p);
    if let Outcome::Parsed { node, taken } = factor(tokens, p) {
        if let Some(op) = multiplicative_op(token_at(tokens, p + taken).ty) {
            lemma_term_keeps_operands(tokens, p + taken + 1);
            lemma_joined_keeps_operands(tokens, p, node, taken, op, term(tokens, p + taken + 1));
        }
    }
}

/// No operand is lost, doubled or moved: the numbers and names at the leaves
/// of a sum, from left to right, are the number and name tokens among the
/// tokens taken, in their order.
pub proof fn lemma_additive_keeps_operands(tokens: Seq<TokenView>, p: nat)
    ensures
        keeps_operands(tokens, p, additive(tokens, p)),
    decreases remaining(tokens, p), 6nat,
{
    lemma_term_keeps_operands(tokens, p);
    if let Outcome::Parsed { node, taken } = term(tokens, p) {
        if let Some(op) = additive_op(token_at(tokens, p + taken).ty) {
            lemma_additive_keeps_operands(tokens, p + taken + 1);
            lemma_joined_keeps_operands(
                tokens,
                p,
                node,
                taken,
                op,
                additive(tokens, p + taken + 1),
            );
        }
    }
}

/// The leaves of a statement are the operands among its tokens, but for the
/// name that an assignment binds, which is no leaf.
pub proof fn lemma_statement_keeps_operands(tokens: Seq<TokenView>, p: nat)
    ensures
        statement(tokens, p) is Parsed ==> leaves(statement(tokens, p)->node) == if token_at(
            tokens,
            p,
        ).ty is Identifier && token_at(tokens, p + 1).ty is Eq {
            operands(tokens, p + 2, (statement(tokens, p).taken() - 2) as nat)
        } else {
            operands(tokens, p, statement(tokens, p).taken())
        },
{
    if token_at(tokens, p).ty is Identifier && token_at(tokens, p + 1).ty is Eq {
        lemma_additive_keeps_operands(tokens, p + 2);
    } else {
        lemma_additive_keeps_operands(tokens, p);
    }
}

} // verus!
