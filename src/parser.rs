//! LL(1) recursive-descent parser for Inko source code.
use vstd::prelude::*;
use vstd::std_specs::iter::IteratorSpec;

use crate::lexer::{Lexer, Token, TokenType, MAX_INPUT_LEN, next_step, peek_step};

verus! {

#[derive(Debug)]
pub enum Node {
    Expressions(Vec<Node>),
    And(Box<Node>, Box<Node>),
    Or(Box<Node>, Box<Node>),
    Equal(Box<Node>, Box<Node>),
    NotEqual(Box<Node>, Box<Node>),
    String(String, usize, usize),
}

#[derive(Debug)]
pub struct ParseError {
    pub message: String,
    pub line: usize,
    pub column: usize,
}

pub type ParseResult = Result<Node, ParseError>;

pub struct Parser {
    pub lexer: Lexer,
}

/// The operand a chain of binary operators starts with.
pub open spec fn leftmost(n: Node) -> Node
    decreases n,
{
    match n {
        Node::And(l, _) => leftmost(*l),
        Node::Or(l, _) => leftmost(*l),
        _ => n,
    }
}

/// `n` is the string node made from `t`.
pub open spec fn string_of(n: Node, t: Token) -> bool {
    n matches Node::String(v, line, column) && v@ == t.value@ && line == t.line && column
        == t.column
}

/// `n` is a chain of `&&` operators over strings, left-associated.
pub open spec fn and_chain(n: Node) -> bool
    decreases n,
{
    match n {
        Node::String(..) => true,
        Node::And(l, r) => and_chain(*l) && (*r is String),
        _ => false,
    }
}

/// `n` is a chain of `||` operators over `&&` chains, left-associated.
pub open spec fn or_chain(n: Node) -> bool
    decreases n,
{
    match n {
        Node::Or(l, r) => or_chain(*l) && and_chain(*r),
        _ => and_chain(n),
    }
}

/// The characters of `input`, in order.
fn chars_of(input: &str) -> (r: Vec<char>)
    ensures
        r@ == input@,
{
    let mut chars = input.chars();
    let mut out: Vec<char> = Vec::new();
    proof {
        broadcast use vstd::string::group_string_axioms;

        assert(IteratorSpec::remaining(&chars) == input@);
    }
    loop
        invariant
            IteratorSpec::obeys_prophetic_iter_laws(&chars),
            out@ + IteratorSpec::remaining(&chars) == input@,
        ensures
            out@ == input@,
        decreases input@.len() - out@.len(),
    {
        let ghost before = IteratorSpec::remaining(&chars);
        match chars.next() {
            Some(c) => {
                proof {
                    broadcast use vstd::string::group_string_axioms;

                    assert(before.len() > 0);
                    assert(before =~= seq![c] + IteratorSpec::remaining(&chars));
                }
                out.push(c);
                assert(out@ + IteratorSpec::remaining(&chars) =~= input@);
            },
            None => {
                assert(out@ =~= input@);
                break;
            },
        }
    }
    out
}

impl Parser {
    pub open spec fn wf(&self) -> bool {
        self.lexer.wf()
    }

    pub fn new(input: &str) -> (r: Self)
        requires
            input@.len() <= MAX_INPUT_LEN,
        ensures
            r.wf(),
            r.lexer.input@ == input@,
            r.lexer.position == 0,
            r.lexer.peeked is None,
    {
        Parser { lexer: Lexer::new(chars_of(input)) }
    }

    /// Parses the input and returns an AST: one expression per expression
    /// found, in order.
    pub fn parse(&mut self) -> (r: ParseResult)
        requires
            old(self).wf(),
        ensures
            final(self).wf(),
            r matches Ok(n) ==> (n matches Node::Expressions(children) && forall|i: int|
                0 <= i < children@.len() ==> or_chain(#[trigger] children@[i])),
    {
        let mut children: Vec<Node> = Vec::new();
        loop
            invariant
                self.wf(),
                forall|i: int| 0 <= i < children@.len() ==> or_chain(#[trigger] children@[i]),
            decreases self.lexer.measure(),
        {
            let ghost before = self.lexer;
            let next = self.lexer.next();
            match next {
                Some(token) => {
                    assert(self.lexer.measure() < before.measure());
                    let node = self.expression(token)?;
                    let ghost done = children@;
                    children.push(node);
                    assert(forall|i: int| 0 <= i < done.len() ==> children@[i] == done[i]);
                },
                None => {
                    break;
                },
            }
        }
        Ok(Node::Expressions(children))
    }

    /// Parses a single expression.
    pub fn expression(&mut self, start: Token) -> (r: ParseResult)
        requires
            old(self).wf(),
        ensures
            final(self).wf(),
            final(self).lexer.measure() <= old(self).lexer.measure(),
            r matches Ok(n) ==> or_chain(n) && string_of(leftmost(n), start),
    {
        self.or_expression(start)
    }

    /// Parses a binary OR expression.
    pub fn or_expression(&mut self, start: Token) -> (r: ParseResult)
        requires
            old(self).wf(),
        ensures
            final(self).wf(),
            final(self).lexer.measure() <= old(self).lexer.measure(),
            r matches Ok(n) ==> or_chain(n) && string_of(leftmost(n), start),
    {
        let ghost first = start;
        let mut node = self.and_expression(start)?;
        while self.lexer.next_type_is(TokenType::Or)
            invariant
                self.wf(),
                self.lexer.measure() <= old(self).lexer.measure(),
                or_chain(node),
                string_of(leftmost(node), first),
            decreases self.lexer.measure(),
        {
            match self.lexer.skip_and_next() {
                Some(next) => {
                    let rhs = self.and_expression(next)?;
                    node = Node::Or(Box::new(node), Box::new(rhs));
                },
                None => {
                    return Err(
                        ParseError {
                            message: "expected an expression after ||".to_string(),
                            line: self.lexer.line,
                            column: self.lexer.column,
                        },
                    );
                },
            }
        }
        Ok(node)
    }

    /// Parses a binary AND expression.
    pub fn and_expression(&mut self, start: Token) -> (r: ParseResult)
        requires
            old(self).wf(),
        ensures
            final(self).wf(),
            final(self).lexer.measure() <= old(self).lexer.measure(),
            r matches Ok(n) ==> and_chain(n) && string_of(leftmost(n), start),
    {
        let ghost first = start;
        let mut node = self.eq_expression(start)?;
        while self.lexer.next_type_is(TokenType::And)
            invariant
                self.wf(),
                self.lexer.measure() <= old(self).lexer.measure(),
                and_chain(node),
                string_of(leftmost(node), first),
            decreases self.lexer.measure(),
        {
            match self.lexer.skip_and_next() {
                Some(next) => {
                    let rhs = self.eq_expression(next)?;
                    node = Node::And(Box::new(node), Box::new(rhs));
                },
                None => {
                    return Err(
                        ParseError {
                            message: "expected an expression after &&".to_string(),
                            line: self.lexer.line,
                            column: self.lexer.column,
                        },
                    );
                },
            }
        }
        Ok(node)
    }

    /// Parses a binary equality expression.
    pub fn eq_expression(&mut self, start: Token) -> (r: ParseResult)
        ensures
            *final(self) == *old(self),
            r matches Ok(n) && string_of(n, start),
    {
        self.compare_expression(start)
    }

    pub fn compare_expression(&mut self, start: Token) -> (r: ParseResult)
        ensures
            *final(self) == *old(self),
            r matches Ok(n) && string_of(n, start),
    {
        self.string(start)
    }

    /// Parses a string.
    pub fn string(&mut self, start: Token) -> (r: ParseResult)
        ensures
            *final(self) == *old(self),
            r matches Ok(n) && string_of(n, start),
    {
        Ok(Node::String(start.value, start.line, start.column))
    }
}

} // verus!
