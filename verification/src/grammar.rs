//! The grammar, as mathematical functions over token sequences.
//!
//! ```text
//! statements := newline* statement (newline+ statement)*
//! statement  := identifier '=' additive | additive
//! additive   := term (('+' | '-') additive)?
//! term       := factor (('*' | '·' | '×' | '/' | '÷' | '%' | 'mod') term)?
//! factor     := ('+' | '-') factor | power
//! power      := prefix ('^' factor)?
//! prefix     := ('sqrt' | 'cbrt' | 'fort') prefix | postfix
//! postfix    := atom ('!' | '°')?
//! atom       := number | identifier | end of input
//!             | '(' additive ')' | '|' additive '|'
//!             | '⌊' additive ('⌋' | '⌉') | '⌈' additive '⌉'
//! ```
//!
//! Each rule is a function of the token sequence and the position at which
//! reading starts. It gives an [`Outcome`]: the node that was read or the error
//! that stopped the reading, and how many tokens were taken on the way.
//! Binary operators group to the right, because the right operand of a rule
//! is read by the rule itself.

use crate::ast::{BinaryOp, NodeTypeView, NodeView, UnaryOp};
use crate::error::AmiErrorView;
use crate::token::{token_at, Span, TokenTypeView, TokenView};
use vstd::prelude::*;

verus! {

/// What reading by one rule of the grammar gives.
pub enum Outcome {
    /// The rule was met: `node` was read from the next `taken` tokens.
    Parsed { node: NodeView, taken: nat },
    /// The rule was not met: `taken` tokens lie before the one at which the
    /// reading stopped.
    Failed { error: AmiErrorView, taken: nat },
}

impl Outcome {
    /// The number of tokens that the reading moved over.
    pub open spec fn taken(self) -> nat {
        match self {
            Outcome::Parsed { taken, .. } => taken,
            Outcome::Failed { taken, .. } => taken,
        }
    }
}

/// The number of tokens from position `p` to the end of `tokens`.
pub open spec fn remaining(tokens: Seq<TokenView>, p: nat) -> nat {
    if p <= tokens.len() {
        (tokens.len() - p) as nat
    } else {
        0
    }
}

/// The part of the source text that `taken` tokens from position `p` cover:
/// from the start of the first of them to the end of the last. Where none is
/// taken, it is the range of the token at `p`, which is empty at the end of
/// the input.
pub open spec fn covered(tokens: Seq<TokenView>, p: nat, taken: nat) -> Span {
    Span {
        start: token_at(tokens, p).range.start,
        end: if taken == 0 {
            token_at(tokens, p).range.end
        } else {
            token_at(tokens, (p + taken - 1) as nat).range.end
        },
    }
}

/// The node of shape `ty` that was read from `taken` tokens at position `p`.
pub open spec fn node_over(
    tokens: Seq<TokenView>,
    p: nat,
    taken: nat,
    ty: NodeTypeView,
) -> NodeView {
    NodeView { ty, range: covered(tokens, p, taken) }
}

/// The message of every syntax error.
pub open spec fn unexpected_message() -> Seq<char> {
    "expected token"@
}

/// The reason given where a bracket that `opener` opened is not closed.
pub open spec fn closer_reason(opener: TokenTypeView) -> Seq<char> {
    match opener {
        TokenTypeView::LeftParen => "expected )"@,
        TokenTypeView::Pipe => "expected |"@,
        TokenTypeView::LeftFloor => "expected ⌋ or ⌉"@,
        _ => "expected ⌉"@,
    }
}

/// The reason given where a token cannot start an operand.
pub open spec fn operand_reason() -> Seq<char> {
    "expected number, variable, function name, (, |, ⌊, or ⌈"@
}

/// The error for a construct that started at position `p` and met, at
/// position `at`, a token that it cannot take: its range runs from the start
/// of the construct to the end of that token.
pub open spec fn unexpected(
    tokens: Seq<TokenView>,
    reason: Seq<char>,
    p: nat,
    at: nat,
) -> AmiErrorView {
    AmiErrorView {
        msg: unexpected_message(),
        reason,
        range: Span {
            start: token_at(tokens, p).range.start,
            end: token_at(tokens, at).range.end,
        },
    }
}

/// The operator that a token stands for between two terms.
pub open spec fn additive_op(ty: TokenTypeView) -> Option<BinaryOp> {
    match ty {
        TokenTypeView::Plus => Some(BinaryOp::Add),
        TokenTypeView::Minus => Some(BinaryOp::Sub),
        _ => None,
    }
}

/// The operator that a token stands for between two factors.
pub open spec fn multiplicative_op(ty: TokenTypeView) -> Option<BinaryOp> {
    match ty {
        TokenTypeView::Star | TokenTypeView::Dot | TokenTypeView::Cross => Some(BinaryOp::Mul),
        TokenTypeView::Slash | TokenTypeView::Divide => Some(BinaryOp::Div),
        TokenTypeView::Percent | TokenTypeView::Mod => Some(BinaryOp::Mod),
        _ => None,
    }
}

/// The operator that a token stands for as a sign in front of a factor.
pub open spec fn sign_op(ty: TokenTypeView) -> Option<UnaryOp> {
    match ty {
        TokenTypeView::Plus => Some(UnaryOp::Pos),
        TokenTypeView::Minus => Some(UnaryOp::Neg),
        _ => None,
    }
}

/// The operator that a token stands for as a root function.
pub open spec fn root_op(ty: TokenTypeView) -> Option<UnaryOp> {
    match ty {
        TokenTypeView::Sqrt => Some(UnaryOp::Sqrt),
        TokenTypeView::Cbrt => Some(UnaryOp::Cbrt),
        TokenTypeView::Fort => Some(UnaryOp::Fort),
        _ => None,
    }
}

/// The operator that a token stands for behind an atom.
pub open spec fn postfix_op(ty: TokenTypeView) -> Option<UnaryOp> {
    match ty {
        TokenTypeView::Exclamation => Some(UnaryOp::Fact),
        TokenTypeView::Degree => Some(UnaryOp::Degree),
        _ => None,
    }
}

/// Whether a token opens a bracketed group.
pub open spec fn opens(ty: TokenTypeView) -> bool {
    ty is LeftParen || ty is Pipe || ty is LeftFloor || ty is LeftCeil
}

/// Whether `closer` closes a group that `opener` opened. A floor bracket may
/// be closed by a ceiling bracket.
pub open spec fn closes(opener: TokenTypeView, closer: TokenTypeView) -> bool {
    match opener {
        TokenTypeView::LeftParen => closer is RightParen,
        TokenTypeView::Pipe => closer is Pipe,
        TokenTypeView::LeftFloor => closer is RightFloor || closer is RightCeil,
        TokenTypeView::LeftCeil => closer is RightCeil,
        _ => false,
    }
}

/// The shape of a closed group around `inner`. Parentheses add nothing to
/// the shape of what they hold; bars give the absolute value; floor brackets
/// give the floor, or the absolute value where a ceiling bracket closes them;
/// ceiling brackets give the ceiling.
pub open spec fn group_type(
    opener: TokenTypeView,
    closer: TokenTypeView,
    inner: NodeView,
) -> NodeTypeView {
    match opener {
        TokenTypeView::LeftParen => inner.ty,
        TokenTypeView::Pipe => NodeTypeView::Unary(UnaryOp::Abs, Box::new(inner)),
        TokenTypeView::LeftFloor => if closer is RightFloor {
            NodeTypeView::Unary(UnaryOp::Floor, Box::new(inner))
        } else {
            NodeTypeView::Unary(UnaryOp::Abs, Box::new(inner))
        },
        _ => NodeTypeView::Unary(UnaryOp::Ceil, Box::new(inner)),
    }
}

/// An operator written in one token at position `p`, applied to the operand
/// that was read behind it.
pub open spec fn prefixed(tokens: Seq<TokenView>, p: nat, op: UnaryOp, operand: Outcome) -> Outcome {
    match operand {
        Outcome::Parsed { node, taken } => Outcome::Parsed {
            node: node_over(tokens, p, taken + 1, NodeTypeView::Unary(op, Box::new(node))),
            taken: taken + 1,
        },
        Outcome::Failed { error, taken } => Outcome::Failed { error, taken: taken + 1 },
    }
}

/// An operand `left` read from `taken` tokens at position `p`, an operator
/// written in one token, and what was read behind the operator.
pub open spec fn joined(
    tokens: Seq<TokenView>,
    p: nat,
    left: NodeView,
    taken: nat,
    op: BinaryOp,
    right: Outcome,
) -> Outcome {
    match right {
        Outcome::Parsed { node, taken: more } => Outcome::Parsed {
            node: node_over(
                tokens,
                p,
                taken + 1 + more,
                NodeTypeView::Binary(Box::new(left), op, Box::new(node)),
            ),
            taken: taken + 1 + more,
        },
        Outcome::Failed { error, taken: more } => Outcome::Failed {
            error,
            taken: taken + 1 + more,
        },
    }
}

/// A bracket at position `p`, what was read behind it, and the token that
/// follows: the group where that token closes the bracket, else an error that
/// covers the group as far as it was read.
pub open spec fn enclosed(tokens: Seq<TokenView>, p: nat, inner: Outcome) -> Outcome {
    let opener = token_at(tokens, p).ty;
    match inner {
        Outcome::Parsed { node, taken } => {
            let closer = token_at(tokens, p + 1 + taken).ty;
            if closes(opener, closer) {
                Outcome::Parsed {
                    node: node_over(tokens, p, taken + 2, group_type(opener, closer, node)),
                    taken: taken + 2,
                }
            } else {
                Outcome::Failed {
                    error: unexpected(tokens, closer_reason(opener), p, p + 1 + taken),
                    taken: taken + 1,
                }
            }
        },
        Outcome::Failed { error, taken } => Outcome::Failed { error, taken: taken + 1 },
    }
}

/// `atom := number | identifier | end of input | group`
///
/// At the end of the input an atom is the `EOF` node, read from no token.
pub open spec fn atom(tokens: Seq<TokenView>, p: nat) -> Outcome
    decreases remaining(tokens, p), 0nat,
{
    let ty = token_at(tokens, p).ty;
    match ty {
        TokenTypeView::Number(x) => Outcome::Parsed {
            node: node_over(tokens, p, 1, NodeTypeView::Number(x)),
            taken: 1,
        },
        TokenTypeView::Identifier(name) => Outcome::Parsed {
            node: node_over(tokens, p, 1, NodeTypeView::Identifier(name)),
            taken: 1,
        },
        TokenTypeView::EOF => Outcome::Parsed {
            node: node_over(tokens, p, 0, NodeTypeView::EOF),
            taken: 0,
        },
        _ => if opens(ty) {
            enclosed(tokens, p, additive(tokens, p + 1))
        } else {
            Outcome::Failed { error: unexpected(tokens, operand_reason(), p, p), taken: 0 }
        },
    }
}

/// `postfix := atom ('!' | '°')?`
pub open spec fn postfix(tokens: Seq<TokenView>, p: nat) -> Outcome
    decreases remaining(tokens, p), 1nat,
{
    match atom(tokens, p) {
        Outcome::Parsed { node, taken } => match postfix_op(token_at(tokens, p + taken).ty) {
            Some(op) => Outcome::Parsed {
                node: node_over(tokens, p, taken + 1, NodeTypeView::Unary(op, Box::new(node))),
                taken: taken + 1,
            },
            None => Outcome::Parsed { node, taken },
        },
        failed => failed,
    }
}

/// `prefix := ('sqrt' | 'cbrt' | 'fort') prefix | postfix`
pub open spec fn prefix(tokens: Seq<TokenView>, p: nat) -> Outcome
    decreases remaining(tokens, p), 2nat,
{
    match root_op(token_at(tokens, p).ty) {
        Some(op) => prefixed(tokens, p, op, prefix(tokens, p + 1)),
        None => postfix(tokens, p),
    }
}

/// `power := prefix ('^' factor)?`
pub open spec fn power(tokens: Seq<TokenView>, p: nat) -> Outcome
    decreases remaining(tokens, p), 3nat,
{
    match prefix(tokens, p) {
        Outcome::Parsed { node, taken } => if token_at(tokens, p + taken).ty is Carrot {
            joined(tokens, p, node, taken, BinaryOp::Pow, factor(tokens, p + taken + 1))
        } else {
            Outcome::Parsed { node, taken }
        },
        failed => failed,
    }
}

/// `factor := ('+' | '-') factor | power`
pub open spec fn factor(tokens: Seq<TokenView>, p: nat) -> Outcome
    decreases remaining(tokens, p), 4nat,
{
    match sign_op(token_at(tokens, p).ty) {
        Some(op) => prefixed(tokens, p, op, factor(tokens, p + 1)),
        None => power(tokens, p),
    }
}

/// `term := factor (('*' | '·' | '×' | '/' | '÷' | '%' | 'mod') term)?`
pub open spec fn term(tokens: Seq<TokenView>, p: nat) -> Outcome
    decreases remaining(tokens, p), 5nat,
{
    match factor(tokens, p) {
        Outcome::Parsed { node, taken } => match multiplicative_op(
            token_at(tokens, p + taken).ty,
        ) {
            Some(op) => joined(tokens, p, node, taken, op, term(tokens, p + taken + 1)),
            None => Outcome::Parsed { node, taken },
        },
        failed => failed,
    }
}

/// `additive := term (('+' | '-') additive)?`
pub open spec fn additive(tokens: Seq<TokenView>, p: nat) -> Outcome
    decreases remaining(tokens, p), 6nat,
{
    match term(tokens, p) {
        Outcome::Parsed { node, taken } => match additive_op(token_at(tokens, p + taken).ty) {
            Some(op) => joined(tokens, p, node, taken, op, additive(tokens, p + taken + 1)),
            None => Outcome::Parsed { node, taken },
        },
        failed => failed,
    }
}

/// `statement := identifier '=' additive | additive`
///
/// A statement is an assignment only where its first two tokens are a name
/// and `=`.
pub open spec fn statement(tokens: Seq<TokenView>, p: nat) -> Outcome {
    match token_at(tokens, p).ty {
        TokenTypeView::Identifier(name) if token_at(tokens, p + 1).ty is Eq => match additive(
            tokens,
            p + 2,
        ) {
            Outcome::Parsed { node, taken } => Outcome::Parsed {
                node: node_over(
                    tokens,
                    p,
                    taken + 2,
                    NodeTypeView::Assignment(name, Box::new(node)),
                ),
                taken: taken + 2,
            },
            Outcome::Failed { error, taken } => Outcome::Failed { error, taken: taken + 2 },
        },
        _ => additive(tokens, p),
    }
}

/// The number of newline tokens in a row from position `p`.
pub open spec fn newlines(tokens: Seq<TokenView>, p: nat) -> nat
    decreases remaining(tokens, p),
{
    if token_at(tokens, p).ty is Newline {
        1 + newlines(tokens, p + 1)
    } else {
        0
    }
}

/// What reading the statements after the first gives.
pub enum Sequel {
    /// The statements that follow, in order, and the tokens taken for them
    /// and for the newlines around them.
    Parsed { nodes: Seq<NodeView>, taken: nat },
    /// A statement was not met.
    Failed { error: AmiErrorView, taken: nat },
}

/// `(newline+ statement)*`, read from position `p`, which lies behind a
/// statement.
///
/// Without a newline at `p` nothing follows. Behind newlines a statement is
/// read; where that statement is the end of the input, the newlines are
/// taken and nothing follows.
pub open spec fn sequel(tokens: Seq<TokenView>, p: nat) -> Sequel
    decreases remaining(tokens, p),
{
    let gap = newlines(tokens, p);
    if gap == 0 {
        Sequel::Parsed { nodes: Seq::empty(), taken: 0 }
    } else {
        match statement(tokens, p + gap) {
            Outcome::Parsed { node, taken } => if node.ty is EOF {
                Sequel::Parsed { nodes: Seq::empty(), taken: gap + taken }
            } else {
                match sequel(tokens, p + gap + taken) {
                    Sequel::Parsed { nodes, taken: more } => Sequel::Parsed {
                        nodes: seq![node] + nodes,
                        taken: gap + taken + more,
                    },
                    Sequel::Failed { error, taken: more } => Sequel::Failed {
                        error,
                        taken: gap + taken + more,
                    },
                }
            },
            Outcome::Failed { error, taken } => Sequel::Failed { error, taken: gap + taken },
        }
    }
}

/// `statements := newline* statement (newline+ statement)*`
///
/// The first statement is kept whatever it is, so an input without tokens
/// gives one `EOF` statement.
pub open spec fn statements(tokens: Seq<TokenView>, p: nat) -> Outcome {
    let lead = newlines(tokens, p);
    match statement(tokens, p + lead) {
        Outcome::Parsed { node, taken } => match sequel(tokens, p + lead + taken) {
            Sequel::Parsed { nodes, taken: more } => Outcome::Parsed {
                node: node_over(
                    tokens,
                    p,
                    lead + taken + more,
                    NodeTypeView::Statements(seq![node] + nodes),
                ),
                taken: lead + taken + more,
            },
            Sequel::Failed { error, taken: more } => Outcome::Failed {
                error,
                taken: lead + taken + more,
            },
        },
        Outcome::Failed { error, taken } => Outcome::Failed { error, taken: lead + taken },
    }
}

} // verus!
