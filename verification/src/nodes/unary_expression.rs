//! Unary expressions.

use crate::error::CompileError;
use crate::lexer::{token_views, Token};
use crate::parser::{OperatorType, Variables};
use crate::syntax::{build_unary, copy_range};
use super::{ast_of, built, render, rendered, Ast, Node};
use vstd::prelude::*;
use vstd::string::StringExecFns;

verus! {

/// An operator before its operand.
#[derive(Debug, PartialEq)]
pub struct NodeUnaryExpression {
    pub operand: Box<Node>,
    pub operator: OperatorType,
}

impl View for NodeUnaryExpression {
    type V = Ast;

    open spec fn view(&self) -> Ast {
        ast_of(Node::UnaryExpression(*self))
    }
}

impl NodeUnaryExpression {
    /// An expression without an operator, on a placeholder node.
    pub fn new() -> (r: Self)
        ensures
            r@ == Ast::Unary(OperatorType::Absent, Box::new(Ast::Empty)),
    {
        NodeUnaryExpression { operand: Box::new(Node::new()), operator: OperatorType::new() }
    }

    /// Writes out the operator, then the operand in parentheses.
    pub fn to_c(&self, variables: &Variables) -> (r: Result<String, CompileError>)
        ensures
            rendered(r, render(self@, variables@)),
        decreases self,
    {
        let operand = match self.operand.to_c(variables) {
            Ok(text) => text,
            Err(e) => {
                return Err(e);
            },
        };
        let mut out: String = self.operator.to_c();
        out.append("(");
        out.append(operand.as_str());
        out.append(")");
        Ok(out)
    }
}

impl NodeUnaryExpression {
    /// Builds the operator that the first token stands for on what the
    /// remaining tokens build.
    pub fn from(tokens: &Vec<Token>, variables: &mut Variables) -> (r: Result<Self, CompileError>)
        ensures
            built(r, final(variables)@, build_unary(token_views(tokens@), old(variables)@)),
        decreases tokens.len(), 4int,
    {
        if tokens.len() < 2 {
            return Err(CompileError::Parse);
        }
        let rest = copy_range(tokens, 1, tokens.len());
        assert(token_views(tokens@).skip(1) =~= token_views(tokens@).subrange(
            1,
            tokens.len() as int,
        ));
        let operand = match Node::build(&rest, variables) {
            Ok(node) => node,
            Err(e) => {
                return Err(e);
            },
        };
        Ok(
            NodeUnaryExpression {
                operand: Box::new(operand),
                operator: OperatorType::from(&tokens[0]),
            },
        )
    }
}

} // verus!
