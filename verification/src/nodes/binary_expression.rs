//! Binary expressions, the operator-precedence parser that builds them, and
//! the type of an expression.

use crate::error::CompileError;
use crate::lexer::{copy_token, token_views, Token, TokenView};
use crate::parser::{
    greater_var_type, token_operator, variables_get, OperatorType, Variables, VarType,
};
use crate::stack::Stack;
use crate::syntax::expression_type;
use super::{ast_of, leaf_ast, render, rendered, Ast, Node};
use super::unary_expression::NodeUnaryExpression;
use vstd::prelude::*;
use vstd::string::StringExecFns;

verus! {

/// An operator between two operands.
#[derive(Debug, PartialEq)]
pub struct NodeBinaryExpression {
    pub left: Box<Node>,
    pub right: Box<Node>,
    pub operator: OperatorType,
}

impl View for NodeBinaryExpression {
    type V = Ast;

    open spec fn view(&self) -> Ast {
        ast_of(Node::BinaryExpression(*self))
    }
}

impl NodeBinaryExpression {
    /// An expression without an operator, between two placeholder nodes.
    pub fn new() -> (r: Self)
        ensures
            r@ == Ast::Binary(OperatorType::Absent, Box::new(Ast::Empty), Box::new(Ast::Empty)),
    {
        NodeBinaryExpression {
            left: Box::new(Node::new()),
            right: Box::new(Node::new()),
            operator: OperatorType::Absent,
        }
    }

    /// Writes out both operands around the operator, all in parentheses.
    pub fn to_c(&self, variables: &Variables) -> (r: Result<String, CompileError>)
        ensures
            rendered(r, render(self@, variables@)),
        decreases self,
    {
        let left = match self.left.to_c(variables) {
            Ok(text) => text,
            Err(e) => {
                return Err(e);
            },
        };
        let right = match self.right.to_c(variables) {
            Ok(text) => text,
            Err(e) => {
                return Err(e);
            },
        };
        let mut out: String = "(".to_owned();
        out.append(left.as_str());
        out.append(" ");
        out.append(self.operator.to_c().as_str());
        out.append(right.as_str());
        out.append(")");
        Ok(out)
    }
}

/// How tightly an operator binds. Addition and subtraction bind least
/// among the arithmetic operators, then multiplication and division, then
/// exponentiation and floor division; the prefix `not` binds tightest.
/// Comparisons, the logical operators, the plain assignment and the
/// remainder share the band below all of these.
pub open spec fn precedence_of(token: TokenView) -> nat {
    match token {
        TokenView::Plus => 1,
        TokenView::PlusEq => 1,
        TokenView::Minus => 1,
        TokenView::MinusEq => 1,
        TokenView::Mul => 2,
        TokenView::MulEq => 2,
        TokenView::Div => 2,
        TokenView::DivEq => 2,
        TokenView::Exp => 3,
        TokenView::FloorDiv => 3,
        TokenView::Not => 4,
        _ => 0,
    }
}

/// Whether a token is an operator between two operands.
pub open spec fn is_binary_operator(token: TokenView) -> bool {
    token_operator(token) != OperatorType::Absent && token != TokenView::Not
}

impl Token {
    /// How tightly the token binds as an operator.
    pub fn precedence(&self) -> (r: u8)
        ensures
            r == precedence_of(self@),
    {
        match *self {
            Token::Plus => 1,
            Token::PlusEq => 1,
            Token::Minus => 1,
            Token::MinusEq => 1,
            Token::Mul => 2,
            Token::MulEq => 2,
            Token::Div => 2,
            Token::DivEq => 2,
            Token::Exp => 3,
            Token::FloorDiv => 3,
            Token::Not => 4,
            _ => 0,
        }
    }
}

/// Whether a token is an operand: a literal or a name.
pub fn is_arithmetic(token: &Token) -> (r: bool)
    ensures
        r == leaf_ast(token@).is_some(),
{
    match token {
        Token::Identifier(_val) => true,
        Token::Int8(_val) => true,
        Token::Int16(_val) => true,
        Token::Int32(_val) => true,
        Token::Int64(_val) => true,
        Token::UInt8(_val) => true,
        Token::UInt16(_val) => true,
        Token::UInt32(_val) => true,
        Token::UInt64(_val) => true,
        Token::Float32(_val) => true,
        Token::Float64(_val) => true,
        Token::String(_val) => true,
        _ => false,
    }
}

/// The two stacks of the operator-precedence parser: the last element of
/// each is its top.
pub struct ExprState {
    pub operators: Seq<TokenView>,
    pub operands: Seq<Ast>,
}

/// Takes the top operator off and applies it: a prefix `not` to the top
/// operand, any other operator to the two top operands, left one below.
/// `None` where there is no operator or too few operands.
pub open spec fn reduce_once(state: ExprState) -> Option<ExprState> {
    if state.operators.len() == 0 {
        None
    } else if state.operators.last() == TokenView::Not {
        if state.operands.len() < 1 {
            None
        } else {
            Some(
                ExprState {
                    operators: state.operators.drop_last(),
                    operands: state.operands.drop_last().push(
                        Ast::Unary(OperatorType::Not, Box::new(state.operands.last())),
                    ),
                },
            )
        }
    } else if state.operands.len() < 2 {
        None
    } else {
        Some(
            ExprState {
                operators: state.operators.drop_last(),
                operands: state.operands.drop_last().drop_last().push(
                    Ast::Binary(
                        token_operator(state.operators.last()),
                        Box::new(state.operands[state.operands.len() - 2]),
                        Box::new(state.operands.last()),
                    ),
                ),
            },
        )
    }
}

/// Whether the operator on top of the stack is applied before `incoming`
/// is pushed: it is no parenthesis and binds at least as tightly, or, where
/// `incoming` is the exponentiation, which groups to the right, tighter.
pub open spec fn binds_first(top: TokenView, incoming: TokenView) -> bool {
    &&& top != TokenView::LPar
    &&& if incoming == TokenView::Exp {
        precedence_of(top) > precedence_of(incoming)
    } else {
        precedence_of(top) >= precedence_of(incoming)
    }
}

/// Applies the operators on top of the stack for as long as they bind
/// before `incoming`.
pub open spec fn reduce_before(state: ExprState, incoming: TokenView) -> Option<ExprState>
    decreases state.operators.len(),
{
    if state.operators.len() > 0 && binds_first(state.operators.last(), incoming) {
        match reduce_once(state) {
            Some(next) => reduce_before(next, incoming),
            None => None,
        }
    } else {
        Some(state)
    }
}

/// Applies the operators on top of the stack down to the nearest opening
/// parenthesis, or all of them where there is none.
pub open spec fn reduce_to_parenthesis(state: ExprState) -> Option<ExprState>
    decreases state.operators.len(),
{
    if state.operators.len() > 0 && state.operators.last() != TokenView::LPar {
        match reduce_once(state) {
            Some(next) => reduce_to_parenthesis(next),
            None => None,
        }
    } else {
        Some(state)
    }
}

/// What one token does to the two stacks. An opening parenthesis and a
/// prefix `not` are pushed; an operand is pushed as a leaf; a binary
/// operator first applies what binds before it; a closing parenthesis
/// applies everything down to its opening one and removes that. Any other
/// token is passed over. `None` where operands or a parenthesis are missing.
pub open spec fn expr_step(state: ExprState, token: TokenView) -> Option<ExprState> {
    if token == TokenView::LPar || token == TokenView::Not {
        Some(ExprState { operators: state.operators.push(token), operands: state.operands })
    } else if leaf_ast(token).is_some() {
        Some(
            ExprState {
                operators: state.operators,
                operands: state.operands.push(leaf_ast(token).unwrap()),
            },
        )
    } else if is_binary_operator(token) {
        match reduce_before(state, token) {
            Some(next) => Some(
                ExprState { operators: next.operators.push(token), operands: next.operands },
            ),
            None => None,
        }
    } else if token == TokenView::RPar {
        match reduce_to_parenthesis(state) {
            Some(next) => if next.operators.len() > 0 {
                Some(ExprState { operators: next.operators.drop_last(), operands: next.operands })
            } else {
                None
            },
            None => None,
        }
    } else {
        Some(state)
    }
}

/// The two stacks after the tokens from `i` on, read from left to right.
pub open spec fn expr_run(tokens: Seq<TokenView>, i: int, state: ExprState) -> Option<ExprState>
    decreases tokens.len() - i,
{
    if i < 0 || i >= tokens.len() {
        Some(state)
    } else {
        match expr_step(state, tokens[i]) {
            Some(next) => expr_run(tokens, i + 1, next),
            None => None,
        }
    }
}

/// Two empty stacks.
pub open spec fn empty_state() -> ExprState {
    ExprState { operators: Seq::empty(), operands: Seq::empty() }
}

/// The tree of an infix expression: the one operand that is left when all
/// tokens are read and the operators that remain are applied. A parse error
/// where operands or parentheses are missing or left over.
pub open spec fn parse_expression(tokens: Seq<TokenView>) -> Result<Ast, CompileError> {
    match expr_run(tokens, 0, empty_state()) {
        Some(state) => match reduce_to_parenthesis(state) {
            Some(last) => if last.operators.len() == 0 && last.operands.len() == 1 {
                Ok(last.operands[0])
            } else {
                Err(CompileError::Parse)
            },
            None => Err(CompileError::Parse),
        },
        None => Err(CompileError::Parse),
    }
}

/// What each node of a stack stands for, bottom first.
pub open spec fn node_asts(nodes: Seq<Node>) -> Seq<Ast> {
    Seq::new(nodes.len(), |i: int| ast_of(nodes[i]))
}

/// The parser state that two stacks hold.
pub open spec fn state_of(operators: Seq<Token>, operands: Seq<Node>) -> ExprState {
    ExprState { operators: token_views(operators), operands: node_asts(operands) }
}

/// Whether the operator on top of the stack is applied before `incoming`.
fn binds_before(top: &Token, incoming: &Token) -> (r: bool)
    ensures
        r == binds_first(top@, incoming@),
{
    match top {
        Token::LPar => false,
        _ => match incoming {
            Token::Exp => top.precedence() > incoming.precedence(),
            _ => top.precedence() >= incoming.precedence(),
        },
    }
}

/// Applies the operator on top of the operator stack to the operands on
/// top of the node stack. Gives `false`, with the stacks in no particular
/// state, where operands are missing.
fn reduce(st_c: &mut Stack<Token>, st_n: &mut Stack<Node>) -> (ok: bool)
    requires
        old(st_c)@.len() > 0,
    ensures
        match reduce_once(state_of(old(st_c)@, old(st_n)@)) {
            Some(next) => ok && state_of(final(st_c)@, final(st_n)@) == next,
            None => !ok,
        },
{
    let ghost before = state_of(st_c@, st_n@);
    let top = st_c.pop();
    assert(token_views(st_c@) =~= before.operators.drop_last());
    assert(top@ == before.operators.last());
    match top {
        Token::Not => {
            if st_n.empty() {
                return false;
            }
            let operand = st_n.pop();
            let ghost rest = st_n@;
            let node = Node::UnaryExpression(
                NodeUnaryExpression { operand: Box::new(operand), operator: OperatorType::Not },
            );
            st_n.insert(node);
            assert(node_asts(st_n@) =~= before.operands.drop_last().push(ast_of(node)));
            true
        },
        _ => {
            if st_n.len() < 2 {
                return false;
            }
            let operator = OperatorType::from(&top);
            let operand2 = st_n.pop();
            let operand1 = st_n.pop();
            let node = Node::BinaryExpression(
                NodeBinaryExpression {
                    left: Box::new(operand1),
                    right: Box::new(operand2),
                    operator: operator,
                },
            );
            st_n.insert(node);
            assert(node_asts(st_n@) =~= before.operands.drop_last().drop_last().push(
                ast_of(node),
            ));
            true
        },
    }
}

/// Builds the tree of an infix expression with two stacks, one of
/// operators and one of operands. Operators that bind tighter are applied
/// first; operators that bind alike group to the left, but for the
/// exponentiation, which groups to the right. Parentheses group what they
/// hold. Missing or left-over operands and parentheses give a parse error.
pub fn generate_binary_expression_tree(tokens: &Vec<Token>) -> (r: Result<Node, CompileError>)
    ensures
        match parse_expression(token_views(tokens@)) {
            Ok(ast) => r.is_ok() && r.unwrap()@ == ast,
            Err(e) => r.is_err() && r.unwrap_err() == e,
        },
{
    let ghost all = token_views(tokens@);
    let mut st_c: Stack<Token> = Stack::<Token>::new();
    let mut st_n: Stack<Node> = Stack::<Node>::new();
    assert(state_of(st_c@, st_n@).operators =~= empty_state().operators);
    assert(state_of(st_c@, st_n@).operands =~= empty_state().operands);
    let mut i: usize = 0;
    while i < tokens.len()
        invariant
            i <= tokens.len(),
            all == token_views(tokens@),
            expr_run(all, 0, empty_state()) == expr_run(all, i as int, state_of(st_c@, st_n@)),
        decreases tokens.len() - i,
    {
        let token = &tokens[i];
        let ghost state = state_of(st_c@, st_n@);
        assert(all[i as int] == token@);
        match token {
            Token::LPar => {
                st_c.insert(Token::LPar);
                assert(token_views(st_c@) =~= state.operators.push(token@));
            },
            Token::Not => {
                st_c.insert(Token::Not);
                assert(token_views(st_c@) =~= state.operators.push(token@));
            },
            Token::RPar => {
                while !st_c.empty() && !is_left_parenthesis(st_c.top())
                    invariant
                        i < tokens.len(),
                        all == token_views(tokens@),
                        all[i as int] == TokenView::RPar,
                        expr_run(all, 0, empty_state()) == expr_run(all, i as int, state),
                        reduce_to_parenthesis(state) == reduce_to_parenthesis(
                            state_of(st_c@, st_n@),
                        ),
                    decreases st_c@.len(),
                {
                    assert(state_of(st_c@, st_n@).operators.last() == st_c@.last()@);
                    if !reduce(&mut st_c, &mut st_n) {
                        return Err(CompileError::Parse);
                    }
                }
                proof {
                    if st_c@.len() > 0 {
                        assert(state_of(st_c@, st_n@).operators.last() == st_c@.last()@);
                    }
                }
                assert(reduce_to_parenthesis(state) == Some(state_of(st_c@, st_n@)));
                if st_c.empty() {
                    assert(expr_step(state, token@).is_none());
                    return Err(CompileError::Parse);
                }
                let ghost reduced = state_of(st_c@, st_n@);
                let _open = st_c.pop();
                assert(token_views(st_c@) =~= reduced.operators.drop_last());
            },
            _ => {
                if is_arithmetic(token) {
                    let node = match Node::from_token(token) {
                        Ok(node) => node,
                        Err(e) => {
                            return Err(e);
                        },
                    };
                    st_n.insert(node);
                    assert(node_asts(st_n@) =~= state.operands.push(leaf_ast(token@).unwrap()));
                } else if is_operator_between(token) {
                    while !st_c.empty() && binds_before(st_c.top(), token)
                        invariant
                            i < tokens.len(),
                            all == token_views(tokens@),
                            all[i as int] == token@,
                            is_binary_operator(token@),
                            leaf_ast(token@).is_none(),
                            token@ != TokenView::LPar,
                            expr_run(all, 0, empty_state()) == expr_run(all, i as int, state),
                            reduce_before(state, token@) == reduce_before(
                                state_of(st_c@, st_n@),
                                token@,
                            ),
                        decreases st_c@.len(),
                    {
                        assert(state_of(st_c@, st_n@).operators.last() == st_c@.last()@);
                        if !reduce(&mut st_c, &mut st_n) {
                            return Err(CompileError::Parse);
                        }
                    }
                    proof {
                        if st_c@.len() > 0 {
                            assert(state_of(st_c@, st_n@).operators.last() == st_c@.last()@);
                        }
                    }
                    let ghost reduced = state_of(st_c@, st_n@);
                    st_c.insert(copy_token(token));
                    assert(token_views(st_c@) =~= reduced.operators.push(token@));
                }
            },
        }
        i = i + 1;
    }
    let ghost scanned = state_of(st_c@, st_n@);
    while !st_c.empty() && !is_left_parenthesis(st_c.top())
        invariant
            all == token_views(tokens@),
            expr_run(all, 0, empty_state()) == Some(scanned),
            reduce_to_parenthesis(scanned) == reduce_to_parenthesis(state_of(st_c@, st_n@)),
        decreases st_c@.len(),
    {
        assert(state_of(st_c@, st_n@).operators.last() == st_c@.last()@);
        if !reduce(&mut st_c, &mut st_n) {
            return Err(CompileError::Parse);
        }
    }
    proof {
        if st_c@.len() > 0 {
            assert(state_of(st_c@, st_n@).operators.last() == st_c@.last()@);
        }
    }
    assert(reduce_to_parenthesis(scanned) == Some(state_of(st_c@, st_n@)));
    if !st_c.empty() || st_n.len() != 1 {
        return Err(CompileError::Parse);
    }
    let result = st_n.pop();
    Ok(result)
}

/// Whether a token is the opening parenthesis.
fn is_left_parenthesis(token: &Token) -> (r: bool)
    ensures
        r == (token@ == TokenView::LPar),
{
    match token {
        Token::LPar => true,
        _ => false,
    }
}

/// Whether a token is an operator between two operands.
fn is_operator_between(token: &Token) -> (r: bool)
    ensures
        r == is_binary_operator(token@),
{
    match token {
        Token::Not => false,
        _ => match OperatorType::from(token) {
            OperatorType::Absent => false,
            _ => true,
        },
    }
}

/// The type of an expression: the greater of the types of its operands,
/// down to the literals, which have their own, and the names, which have
/// the type they are bound to. A name that is not bound is a type error.
pub fn evaluate_var_type(root: &Node, variables: &Variables) -> (r: Result<VarType, CompileError>)
    ensures
        r == expression_type(root@, variables@),
    decreases root,
{
    match root {
        Node::BinaryExpression(val) => {
            let left = evaluate_var_type(&val.left, variables);
            let right = evaluate_var_type(&val.right, variables);
            match (left, right) {
                (Ok(a), Ok(b)) => Ok(greater_var_type(&a, &b)),
                _ => Err(CompileError::Type),
            }
        },
        Node::ValueInt(val) => Ok(val.var_type),
        Node::ValueUInt(val) => Ok(val.var_type),
        Node::ValueFloat(val) => Ok(val.var_type),
        Node::ValueString(val) => Ok(val.var_type),
        Node::VariableCall(val) => match variables_get(variables, &val.name) {
            Ok(t) => Ok(t),
            Err(e) => Err(e),
        },
        _ => Ok(VarType::Void),
    }
}

} // verus!
