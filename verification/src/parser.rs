//! The parser: a cursor over a token sequence, and one method for each rule
//! of the grammar.

use crate::ast::{
    is_program, is_statement, lemma_statements_view, node_view, node_views, BinaryOp, Node,
    NodeType, NodeView, UnaryOp,
};
use crate::error::AmiError;
use crate::grammar::{
    additive, additive_op, atom, closer_reason, closes, covered, enclosed, factor, group_type,
    multiplicative_op, newlines, node_over, opens, postfix, postfix_op, power, prefix, remaining,
    root_op, sequel, sign_op, statement, statements, term, unexpected, Outcome, Sequel,
};
use crate::laws::{lemma_statement_well_placed, lemma_statements_well_placed};
use crate::token::{token_at, token_views, Span, Token, TokenType, TokenView};
use vstd::prelude::*;

verus! {

/// Whether a call that moved the cursor from position `from` to position `to`
/// and returned `res` did what `outcome` says: it returned the node or the
/// error of `outcome`, and moved over as many tokens.
pub open spec fn agrees(
    outcome: Outcome,
    res: Result<Node, AmiError>,
    from: nat,
    to: nat,
) -> bool {
    match outcome {
        Outcome::Parsed { node, taken } => res is Ok && res->Ok_0@ == node && to == from + taken,
        Outcome::Failed { error, taken } => res is Err && res->Err_0@ == error && to == from
            + taken,
    }
}

/// A parser over a token sequence that it owns. It reads the tokens from the
/// front, one at a time, and never goes back.
pub struct Parser {
    tokens: Vec<Token>,
    pos: usize,
}

fn additive_operator(ty: &TokenType) -> (op: Option<BinaryOp>)
    ensures
        op == additive_op(ty@),
{
    match ty {
        TokenType::Plus => Some(BinaryOp::Add),
        TokenType::Minus => Some(BinaryOp::Sub),
        _ => None,
    }
}

fn multiplicative_operator(ty: &TokenType) -> (op: Option<BinaryOp>)
    ensures
        op == multiplicative_op(ty@),
{
    match ty {
        TokenType::Star | TokenType::Dot | TokenType::Cross => Some(BinaryOp::Mul),
        TokenType::Slash | TokenType::Divide => Some(BinaryOp::Div),
        TokenType::Percent | TokenType::Mod => Some(BinaryOp::Mod),
        _ => None,
    }
}

fn sign_operator(ty: &TokenType) -> (op: Option<UnaryOp>)
    ensures
        op == sign_op(ty@),
{
    match ty {
        TokenType::Plus => Some(UnaryOp::Pos),
        TokenType::Minus => Some(UnaryOp::Neg),
        _ => None,
    }
}

fn root_operator(ty: &TokenType) -> (op: Option<UnaryOp>)
    ensures
        op == root_op(ty@),
{
    match ty {
        TokenType::Sqrt => Some(UnaryOp::Sqrt),
        TokenType::Cbrt => Some(UnaryOp::Cbrt),
        TokenType::Fort => Some(UnaryOp::Fort),
        _ => None,
    }
}

fn postfix_operator(ty: &TokenType) -> (op: Option<UnaryOp>)
    ensures
        op == postfix_op(ty@),
{
    match ty {
        TokenType::Exclamation => Some(UnaryOp::Fact),
        TokenType::Degree => Some(UnaryOp::Degree),
        _ => None,
    }
}

impl Parser {
    /// The tokens that the parser reads.
    pub closed spec fn tokens(&self) -> Seq<TokenView> {
        token_views(self.tokens@)
    }

    /// The position of the cursor: the number of tokens read so far.
    pub closed spec fn position(&self) -> nat {
        self.pos as nat
    }

    /// A parser at the front of `tokens`.
    pub fn new(tokens: Vec<Token>) -> (parser: Parser)
        ensures
            parser.tokens() == token_views(tokens@),
            parser.position() == 0,
    {
        Parser { tokens, pos: 0 }
    }

    /// The kind of the token at the cursor.
    fn current(&self) -> (ty: &TokenType)
        ensures
            ty@ == token_at(self.tokens(), self.position()).ty,
    {
        if self.pos < self.tokens.len() {
            &self.tokens[self.pos].ty
        } else {
            &TokenType::EOF
        }
    }

    /// The kind of the token behind the one at the cursor.
    fn peek(&self) -> (ty: &TokenType)
        ensures
            ty@ == token_at(self.tokens(), self.position() + 1).ty,
    {
        if self.pos < self.tokens.len() && self.pos + 1 < self.tokens.len() {
            &self.tokens[self.pos + 1].ty
        } else {
            &TokenType::EOF
        }
    }

    /// Moves the cursor over the token that it is at. At the end of the input
    /// it stays.
    fn advance(&mut self)
        ensures
            final(self).tokens() == old(self).tokens(),
            final(self).position() == if old(self).position() < old(self).tokens().len() {
                old(self).position() + 1
            } else {
                old(self).position()
            },
    {
        if self.pos < self.tokens.len() {
            self.pos = self.pos + 1;
        }
    }

    /// The range of the token at position `i`.
    fn range_at(&self, i: usize) -> (range: Span)
        ensures
            range == token_at(self.tokens(), i as nat).range,
    {
        if i < self.tokens.len() {
            self.tokens[i].range
        } else {
            Span { start: 0, end: 0 }
        }
    }

    /// The range of the tokens from position `from` up to the cursor.
    fn span(&self, from: usize) -> (span: Span)
        requires
            from <= self.position(),
        ensures
            span == covered(self.tokens(), from as nat, (self.position() - from) as nat),
    {
        let first = self.range_at(from);
        if self.pos == from {
            first
        } else {
            Span { start: first.start, end: self.range_at(self.pos - 1).end }
        }
    }

    /// The node of shape `ty` that was read from position `from` up to the
    /// cursor.
    fn node(&self, ty: NodeType, from: usize) -> (node: Node)
        requires
            from <= self.position(),
        ensures
            node@ == node_over(
                self.tokens(),
                from as nat,
                (self.position() - from) as nat,
                ty@,
            ),
    {
        Node { ty, range: self.span(from) }
    }

    /// The error for a construct that started at position `from` and cannot
    /// take the token at the cursor.
    fn error(&self, reason: &str, from: usize) -> (error: AmiError)
        ensures
            error@ == unexpected(self.tokens(), reason@, from as nat, self.position()),
    {
        AmiError {
            msg: "expected token".to_owned(),
            reason: reason.to_owned(),
            range: Span { start: self.range_at(from).start, end: self.range_at(self.pos).end },
        }
    }

    /// Moves the cursor over the newline tokens that it is at, and counts
    /// them.
    fn skip_newlines(&mut self) -> (count: usize)
        ensures
            final(self).tokens() == old(self).tokens(),
            count == newlines(old(self).tokens(), old(self).position()),
            final(self).position() == old(self).position() + count,
    {
        let mut count: usize = 0;
        while self.pos < self.tokens.len() && matches!(self.tokens[self.pos].ty, TokenType::Newline)
            invariant
                self.tokens() == old(self).tokens(),
                self.position() == old(self).position() + count,
                newlines(old(self).tokens(), old(self).position()) == count + newlines(
                    self.tokens(),
                    self.position(),
                ),
            decreases remaining(self.tokens(), self.position()),
        {
            self.pos = self.pos + 1;
            count = count + 1;
        }
        count
    }

    /// Reads a whole program: statements separated by newlines.
    ///
    /// The call returns what [`statements`] gives at the cursor, and leaves
    /// the cursor behind the tokens taken: behind the last statement and the
    /// newlines around it, or at the token that caused the error. The cursor
    /// never moves back, and never beyond the end of the tokens. A tree that
    /// is returned is a program, and its range covers the tokens taken.
    pub fn parse(&mut self) -> (res: Result<Node, AmiError>)
        ensures
            final(self).tokens() == old(self).tokens(),
            agrees(
                statements(old(self).tokens(), old(self).position()),
                res,
                old(self).position(),
                final(self).position(),
            ),
            old(self).position() <= final(self).position() <= old(self).position() + remaining(
                old(self).tokens(),
                old(self).position(),
            ),
            res is Ok ==> is_program(res->Ok_0@) && res->Ok_0@.range == covered(
                old(self).tokens(),
                old(self).position(),
                (final(self).position() - old(self).position()) as nat,
            ),
    {
        proof {
            lemma_statements_well_placed(self.tokens(), self.position());
        }
        self.statements()
    }

    fn statements(&mut self) -> (res: Result<Node, AmiError>)
        ensures
            final(self).tokens() == old(self).tokens(),
            agrees(
                statements(old(self).tokens(), old(self).position()),
                res,
                old(self).position(),
                final(self).position(),
            ),
    {
        let from = self.pos;
        let mut nodes: Vec<Node> = Vec::new();
        let lead = self.skip_newlines();
        match self.statement() {
            Ok(first) => nodes.push(first),
            Err(error) => {
                return Err(error);
            },
        }
        let ghost tokens = self.tokens();
        let ghost first = node_view(nodes@[0]);
        let ghost behind_first = self.position();
        proof {
            assert(node_views(nodes@).skip(1) =~= Seq::empty());
            lemma_extended_by_nothing(sequel(tokens, behind_first));
        }
        loop
            invariant_except_break
                sequel(tokens, behind_first) == extended(
                    node_views(nodes@).skip(1),
                    (self.position() - behind_first) as nat,
                    sequel(tokens, self.position()),
                ),
            invariant
                self.tokens() == tokens,
                tokens == old(self).tokens(),
                from == old(self).position(),
                lead == newlines(tokens, from as nat),
                statement(tokens, (from + lead) as nat) == (Outcome::Parsed {
                    node: first,
                    taken: (behind_first - from - lead) as nat,
                }),
                from + lead <= behind_first <= self.position(),
                nodes@.len() >= 1,
                node_view(nodes@[0]) == first,
            ensures
                sequel(tokens, behind_first) == (Sequel::Parsed {
                    nodes: node_views(nodes@).skip(1),
                    taken: (self.position() - behind_first) as nat,
                }),
            decreases remaining(self.tokens(), self.position()),
        {
            let ghost before = self.position();
            let ghost done = node_views(nodes@).skip(1);
            let gap = self.skip_newlines();
            if gap == 0 {
                proof {
                    assert(done + Seq::<NodeView>::empty() =~= done);
                }
                break;
            }
            match self.statement() {
                Ok(next) => {
                    if is_eof(&next) {
                        proof {
                            assert(done + Seq::<NodeView>::empty() =~= done);
                        }
                        break;
                    }
                    proof {
                        lemma_extended_twice(
                            done,
                            (before - behind_first) as nat,
                            next@,
                            (self.position() - before) as nat,
                            sequel(tokens, self.position()),
                        );
                        assert(node_views(nodes@.push(next)).skip(1) =~= done.push(next@));
                    }
                    nodes.push(next);
                },
                Err(error) => {
                    return Err(error);
                },
            }
        }
        proof {
            lemma_statements_view(nodes);
            assert(node_views(nodes@) =~= seq![first] + node_views(nodes@).skip(1));
        }
        Ok(self.node(NodeType::Statements(nodes), from))
    }

    /// Reads one statement: an assignment or an expression.
    ///
    /// The call returns what [`statement`] gives at the cursor, and leaves the
    /// cursor behind the tokens taken, or at the token that caused the error.
    /// The cursor never moves back, and never beyond the end of the tokens. A
    /// tree that is returned is a statement, and its range covers the tokens
    /// taken.
    pub fn statement(&mut self) -> (res: Result<Node, AmiError>)
        ensures
            final(self).tokens() == old(self).tokens(),
            agrees(
                statement(old(self).tokens(), old(self).position()),
                res,
                old(self).position(),
                final(self).position(),
            ),
            old(self).position() <= final(self).position() <= old(self).position() + remaining(
                old(self).tokens(),
                old(self).position(),
            ),
            res is Ok ==> is_statement(res->Ok_0@) && res->Ok_0@.range == covered(
                old(self).tokens(),
                old(self).position(),
                (final(self).position() - old(self).position()) as nat,
            ),
    {
        proof {
            lemma_statement_well_placed(self.tokens(), self.position());
        }
        self.expr()
    }

    fn expr(&mut self) -> (res: Result<Node, AmiError>)
        ensures
            final(self).tokens() == old(self).tokens(),
            agrees(
                statement(old(self).tokens(), old(self).position()),
                res,
                old(self).position(),
                final(self).position(),
            ),
    {
        let from = self.pos;
        let target = match self.current() {
            TokenType::Identifier(name) => match self.peek() {
                TokenType::Eq => Some(name.clone()),
                _ => None,
            },
            _ => None,
        };
        match target {
            Some(name) => {
                self.advance();
                self.advance();
                match self.arith_expr() {
                    Ok(right) => Ok(self.node(NodeType::Assignment(name, Box::new(right)), from)),
                    Err(error) => Err(error),
                }
            },
            None => self.arith_expr(),
        }
    }

    fn arith_expr(&mut self) -> (res: Result<Node, AmiError>)
        ensures
            final(self).tokens() == old(self).tokens(),
            agrees(
                additive(old(self).tokens(), old(self).position()),
                res,
                old(self).position(),
                final(self).position(),
            ),
        decreases remaining(old(self).tokens(), old(self).position()), 7nat,
    {
        let from = self.pos;
        let left = match self.term() {
            Ok(left) => left,
            Err(error) => {
                return Err(error);
            },
        };
        match additive_operator(self.current()) {
            Some(op) => {
                self.advance();
                match self.arith_expr() {
                    Ok(right) => Ok(
                        self.node(NodeType::Binary(Box::new(left), op, Box::new(right)), from),
                    ),
                    Err(error) => Err(error),
                }
            },
            None => Ok(left),
        }
    }

    fn term(&mut self) -> (res: Result<Node, AmiError>)
        ensures
            final(self).tokens() == old(self).tokens(),
            agrees(
                term(old(self).tokens(), old(self).position()),
                res,
                old(self).position(),
                final(self).position(),
            ),
        decreases remaining(old(self).tokens(), old(self).position()), 6nat,
    {
        let from = self.pos;
        let left = match self.factor() {
            Ok(left) => left,
            Err(error) => {
                return Err(error);
            },
        };
        match multiplicative_operator(self.current()) {
            Some(op) => {
                self.advance();
                match self.term() {
                    Ok(right) => Ok(
                        self.node(NodeType::Binary(Box::new(left), op, Box::new(right)), from),
                    ),
                    Err(error) => Err(error),
                }
            },
            None => Ok(left),
        }
    }

    fn factor(&mut self) -> (res: Result<Node, AmiError>)
        ensures
            final(self).tokens() == old(self).tokens(),
            agrees(
                factor(old(self).tokens(), old(self).position()),
                res,
                old(self).position(),
                final(self).position(),
            ),
        decreases remaining(old(self).tokens(), old(self).position()), 5nat,
    {
        let from = self.pos;
        match sign_operator(self.current()) {
            Some(op) => {
                self.advance();
                match self.factor() {
                    Ok(right) => Ok(self.node(NodeType::Unary(op, Box::new(right)), from)),
                    Err(error) => Err(error),
                }
            },
            None => self.power(),
        }
    }

    fn power(&mut self) -> (res: Result<Node, AmiError>)
        ensures
            final(self).tokens() == old(self).tokens(),
            agrees(
                power(old(self).tokens(), old(self).position()),
                res,
                old(self).position(),
                final(self).position(),
            ),
        decreases remaining(old(self).tokens(), old(self).position()), 4nat,
    {
        let from = self.pos;
        let base = match self.prefix() {
            Ok(base) => base,
            Err(error) => {
                return Err(error);
            },
        };
        match self.current() {
            TokenType::Carrot => {
                self.advance();
                match self.factor() {
                    Ok(exponent) => Ok(
                        self.node(
                            NodeType::Binary(Box::new(base), BinaryOp::Pow, Box::new(exponent)),
                            from,
                        ),
                    ),
                    Err(error) => Err(error),
                }
            },
            _ => Ok(base),
        }
    }

    fn prefix(&mut self) -> (res: Result<Node, AmiError>)
        ensures
            final(self).tokens() == old(self).tokens(),
            agrees(
                prefix(old(self).tokens(), old(self).position()),
                res,
                old(self).position(),
                final(self).position(),
            ),
        decreases remaining(old(self).tokens(), old(self).position()), 3nat,
    {
        let from = self.pos;
        match root_operator(self.current()) {
            Some(op) => {
                self.advance();
                match self.prefix() {
                    Ok(operand) => Ok(self.node(NodeType::Unary(op, Box::new(operand)), from)),
                    Err(error) => Err(error),
                }
            },
            None => self.postfix(),
        }
    }

    fn postfix(&mut self) -> (res: Result<Node, AmiError>)
        ensures
            final(self).tokens() == old(self).tokens(),
            agrees(
                postfix(old(self).tokens(), old(self).position()),
                res,
                old(self).position(),
                final(self).position(),
            ),
        decreases remaining(old(self).tokens(), old(self).position()), 2nat,
    {
        let from = self.pos;
        let operand = match self.atom() {
            Ok(operand) => operand,
            Err(error) => {
                return Err(error);
            },
        };
        match postfix_operator(self.current()) {
            Some(op) => {
                self.advance();
                Ok(self.node(NodeType::Unary(op, Box::new(operand)), from))
            },
            None => Ok(operand),
        }
    }

    fn atom(&mut self) -> (res: Result<Node, AmiError>)
        ensures
            final(self).tokens() == old(self).tokens(),
            agrees(
                atom(old(self).tokens(), old(self).position()),
                res,
                old(self).position(),
                final(self).position(),
            ),
        decreases remaining(old(self).tokens(), old(self).position()), 1nat,
    {
        let from = self.pos;
        match self.current() {
            TokenType::Number(x) => {
                let x: u64 = *x;
                self.advance();
                Ok(self.node(NodeType::Number(x), from))
            },
            TokenType::Identifier(name) => {
                let name = name.clone();
                self.advance();
                Ok(self.node(NodeType::Identifier(name), from))
            },
            TokenType::EOF => Ok(self.node(NodeType::EOF, from)),
            TokenType::LeftParen
            | TokenType::Pipe
            | TokenType::LeftFloor
            | TokenType::LeftCeil => self.group(),
            _ => Err(
                self.error("expected number, variable, function name, (, |, ⌊, or ⌈", from),
            ),
        }
    }

    /// Reads a bracketed group, with the cursor at its opening bracket.
    fn group(&mut self) -> (res: Result<Node, AmiError>)
        requires
            opens(token_at(old(self).tokens(), old(self).position()).ty),
        ensures
            final(self).tokens() == old(self).tokens(),
            agrees(
                enclosed(
                    old(self).tokens(),
                    old(self).position(),
                    additive(old(self).tokens(), old(self).position() + 1),
                ),
                res,
                old(self).position(),
                final(self).position(),
            ),
        decreases remaining(old(self).tokens(), old(self).position()), 0nat,
    {
        let from = self.pos;
        self.advance();
        let inner = match self.arith_expr() {
            Ok(inner) => inner,
            Err(error) => {
                return Err(error);
            },
        };
        match group_shape(&self.tokens[from].ty, self.current(), inner) {
            Some(ty) => {
                self.advance();
                Ok(self.node(ty, from))
            },
            None => Err(self.error(closer_text(&self.tokens[from].ty), from)),
        }
    }
}

/// The shape of the group around `inner` that `opener` opened, where `closer`
/// closes it.
fn group_shape(opener: &TokenType, closer: &TokenType, inner: Node) -> (shape: Option<NodeType>)
    ensures
        shape is Some == closes(opener@, closer@),
        shape is Some ==> shape->Some_0@ == group_type(opener@, closer@, inner@),
{
    match (opener, closer) {
        (TokenType::LeftParen, TokenType::RightParen) => Some(inner.ty),
        (TokenType::Pipe, TokenType::Pipe) => Some(NodeType::Unary(UnaryOp::Abs, Box::new(inner))),
        (TokenType::LeftFloor, TokenType::RightFloor) => Some(
            NodeType::Unary(UnaryOp::Floor, Box::new(inner)),
        ),
        (TokenType::LeftFloor, TokenType::RightCeil) => Some(
            NodeType::Unary(UnaryOp::Abs, Box::new(inner)),
        ),
        (TokenType::LeftCeil, TokenType::RightCeil) => Some(
            NodeType::Unary(UnaryOp::Ceil, Box::new(inner)),
        ),
        _ => None,
    }
}

/// The reason to give where the group that `opener` opened is not closed.
fn closer_text(opener: &TokenType) -> (reason: &'static str)
    ensures
        reason@ == closer_reason(opener@),
{
    match opener {
        TokenType::LeftParen => "expected )",
        TokenType::Pipe => "expected |",
        TokenType::LeftFloor => "expected ⌋ or ⌉",
        _ => "expected ⌉",
    }
}

/// Whether a node is the end-of-input node.
fn is_eof(node: &Node) -> (eof: bool)
    ensures
        eof == (node@.ty is EOF),
{
    matches!(node.ty, NodeType::EOF)
}

/// The statements `done` and `moved` tokens, put in front of what follows.
spec fn extended(done: Seq<NodeView>, moved: nat, rest: Sequel) -> Sequel {
    match rest {
        Sequel::Parsed { nodes, taken } => Sequel::Parsed {
            nodes: done + nodes,
            taken: moved + taken,
        },
        Sequel::Failed { error, taken } => Sequel::Failed { error, taken: moved + taken },
    }
}

/// Nothing done and no token moved over leaves what follows as it is.
proof fn lemma_extended_by_nothing(rest: Sequel)
    ensures
        extended(Seq::empty(), 0, rest) == rest,
{
    match rest {
        Sequel::Parsed { nodes, taken } => {
            assert(Seq::<NodeView>::empty() + nodes =~= nodes);
        },
        Sequel::Failed { .. } => {},
    }
}

/// Putting one more statement in front of what follows, and then the
/// statements before it, is putting all of them in front at once.
proof fn lemma_extended_twice(
    done: Seq<NodeView>,
    moved: nat,
    next: NodeView,
    more: nat,
    rest: Sequel,
)
    ensures
        extended(done, moved, extended(seq![next], more, rest)) == extended(
            done.push(next),
            moved + more,
            rest,
        ),
{
    match rest {
        Sequel::Parsed { nodes, taken } => {
            assert(done + (seq![next] + nodes) =~= done.push(next) + nodes);
        },
        Sequel::Failed { .. } => {},
    }
}

} // verus!
