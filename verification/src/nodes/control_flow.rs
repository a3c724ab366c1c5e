//! Conditionals and loops.

use crate::error::CompileError;
use crate::lexer::{token_views, Keyword, Token};
use crate::parser::{Variables, VarType};
use crate::syntax::{
    build_branch, build_chain, build_condition, build_elif, build_else, build_if, build_while,
    contains_logical_operator, copy_range, find_colon, find_sibling, lemma_colon_index_bounds,
    Branch, Outcome,
};
use super::{ast_of, asts_of, body_to_c, build_body, built, render, rendered, Ast, Node};
use super::binary_expression::generate_binary_expression_tree;
use vstd::prelude::*;
use vstd::string::StringExecFns;

verus! {

/// An `if` with its body and what follows it in the chain.
#[derive(Debug, PartialEq)]
pub struct NodeIfStatement {
    pub condition: Box<Node>,
    pub body: Vec<Box<Node>>,
    pub else_statement: Option<Box<Node>>,
}

/// An `elif` with its body and what follows it in the chain.
#[derive(Debug, PartialEq)]
pub struct NodeElifStatement {
    pub condition: Box<Node>,
    pub body: Vec<Box<Node>>,
    pub else_statement: Option<Box<Node>>,
}

/// The `else` that ends a chain.
#[derive(Debug, PartialEq)]
pub struct NodeElseStatement {
    pub body: Vec<Box<Node>>,
}

/// A `while` loop.
#[derive(Debug, PartialEq)]
pub struct NodeWhileLoop {
    pub condition: Box<Node>,
    pub body: Vec<Box<Node>>,
}

impl View for NodeIfStatement {
    type V = Ast;

    open spec fn view(&self) -> Ast {
        ast_of(Node::IfStatement(*self))
    }
}

impl View for NodeElifStatement {
    type V = Ast;

    open spec fn view(&self) -> Ast {
        ast_of(Node::ElifStatement(*self))
    }
}

impl View for NodeElseStatement {
    type V = Ast;

    open spec fn view(&self) -> Ast {
        ast_of(Node::ElseStatement(*self))
    }
}

impl View for NodeWhileLoop {
    type V = Ast;

    open spec fn view(&self) -> Ast {
        ast_of(Node::WhileLoop(*self))
    }
}

impl NodeIfStatement {
    /// An `if` on the placeholder node, with an empty body and no chain.
    pub fn new() -> (r: Self)
        ensures
            r@ == Ast::If(Box::new(Ast::Empty), Seq::<Ast>::empty(), None),
    {
        let r = NodeIfStatement {
            condition: Box::new(Node::Empty),
            body: Vec::new(),
            else_statement: None,
        };
        assert(asts_of(r.body@) =~= Seq::<Ast>::empty());
        assert(ast_of(Node::Empty) == Ast::Empty);
        r
    }

    /// Writes out the condition, the body between braces, and the rest of
    /// the chain; a line feed where the chain ends here.
    pub fn to_c(&self, variables: &Variables) -> (r: Result<String, CompileError>)
        ensures
            rendered(r, render(self@, variables@)),
        decreases self,
    {
        let condition = match self.condition.to_c(variables) {
            Ok(text) => text,
            Err(e) => {
                return Err(e);
            },
        };
        let body = match body_to_c(&self.body, variables) {
            Ok(text) => text,
            Err(e) => {
                return Err(e);
            },
        };
        let rest: String = match &self.else_statement {
            Some(next) => match next.to_c(variables) {
                Ok(text) => text,
                Err(e) => {
                    return Err(e);
                },
            },
            None => "\n".to_owned(),
        };
        let mut out: String = "if(".to_owned();
        out.append(condition.as_str());
        out.append("){\n");
        out.append(body.as_str());
        out.append("}");
        out.append(rest.as_str());
        Ok(out)
    }
}

impl NodeElifStatement {
    /// An `elif` on the placeholder node, with an empty body and no chain.
    pub fn new() -> (r: Self)
        ensures
            r@ == Ast::Elif(Box::new(Ast::Empty), Seq::<Ast>::empty(), None),
    {
        let r = NodeElifStatement {
            condition: Box::new(Node::Empty),
            body: Vec::new(),
            else_statement: None,
        };
        assert(asts_of(r.body@) =~= Seq::<Ast>::empty());
        assert(ast_of(Node::Empty) == Ast::Empty);
        r
    }

    /// Writes out the condition, the body between braces, and the rest of
    /// the chain; a line feed where the chain ends here.
    pub fn to_c(&self, variables: &Variables) -> (r: Result<String, CompileError>)
        ensures
            rendered(r, render(self@, variables@)),
        decreases self,
    {
        let condition = match self.condition.to_c(variables) {
            Ok(text) => text,
            Err(e) => {
                return Err(e);
            },
        };
        let body = match body_to_c(&self.body, variables) {
            Ok(text) => text,
            Err(e) => {
                return Err(e);
            },
        };
        let rest: String = match &self.else_statement {
            Some(next) => match next.to_c(variables) {
                Ok(text) => text,
                Err(e) => {
                    return Err(e);
                },
            },
            None => "\n".to_owned(),
        };
        let mut out: String = "else if(".to_owned();
        out.append(condition.as_str());
        out.append("){\n");
        out.append(body.as_str());
        out.append("}");
        out.append(rest.as_str());
        Ok(out)
    }
}

impl NodeElseStatement {
    /// An `else` with an empty body.
    pub fn new() -> (r: Self)
        ensures
            r@ == Ast::Else(Seq::<Ast>::empty()),
    {
        let r = NodeElseStatement { body: Vec::new() };
        assert(asts_of(r.body@) =~= Seq::<Ast>::empty());
        assert(ast_of(Node::Empty) == Ast::Empty);
        r
    }

    /// Writes out the body between braces.
    pub fn to_c(&self, variables: &Variables) -> (r: Result<String, CompileError>)
        ensures
            rendered(r, render(self@, variables@)),
        decreases self,
    {
        let body = match body_to_c(&self.body, variables) {
            Ok(text) => text,
            Err(e) => {
                return Err(e);
            },
        };
        let mut out: String = "else{\n".to_owned();
        out.append(body.as_str());
        out.append("}\n");
        Ok(out)
    }
}

impl NodeWhileLoop {
    /// A loop on the placeholder node, with an empty body.
    pub fn new() -> (r: Self)
        ensures
            r@ == Ast::While(Box::new(Ast::Empty), Seq::<Ast>::empty()),
    {
        let r = NodeWhileLoop { condition: Box::new(Node::Empty), body: Vec::new() };
        assert(asts_of(r.body@) =~= Seq::<Ast>::empty());
        assert(ast_of(Node::Empty) == Ast::Empty);
        r
    }

    /// Writes out the condition and the body between braces.
    pub fn to_c(&self, variables: &Variables) -> (r: Result<String, CompileError>)
        ensures
            rendered(r, render(self@, variables@)),
        decreases self,
    {
        let condition = match self.condition.to_c(variables) {
            Ok(text) => text,
            Err(e) => {
                return Err(e);
            },
        };
        let body = match body_to_c(&self.body, variables) {
            Ok(text) => text,
            Err(e) => {
                return Err(e);
            },
        };
        let mut out: String = "while(".to_owned();
        out.append(condition.as_str());
        out.append("){\n");
        out.append(body.as_str());
        out.append("}\n");
        Ok(out)
    }
}

/// What an optional node stands for.
pub open spec fn boxed_ast(node: Option<Box<Node>>) -> Option<Box<Ast>> {
    match node {
        Some(e) => Some(Box::new(ast_of(*e))),
        None => None,
    }
}

/// The parts of an `if` or `elif` as they are built.
pub struct BranchParts {
    pub condition: Box<Node>,
    pub body: Vec<Box<Node>>,
    pub else_statement: Option<Box<Node>>,
}

impl BranchParts {
    /// What the parts stand for.
    pub open spec fn branch(self) -> Branch {
        Branch {
            condition: ast_of(*self.condition),
            body: asts_of(self.body@),
            next: boxed_ast(self.else_statement),
        }
    }
}

/// Whether `r`, with the bindings `after`, is the outcome of building the
/// parts that `expected` describes.
pub open spec fn built_branch(
    r: Result<BranchParts, CompileError>,
    after: Map<Seq<char>, VarType>,
    expected: Outcome<Branch>,
) -> bool {
    &&& after == expected.vars
    &&& match expected.result {
        Ok(b) => match r {
            Ok(parts) => parts.branch() == b,
            Err(_) => false,
        },
        Err(e) => match r {
            Ok(_) => false,
            Err(found) => found == e,
        },
    }
}

/// Whether `r`, with the bindings `after`, is the outcome of building the
/// rest of a chain that `expected` describes.
pub open spec fn built_chain(
    r: Result<Option<Box<Node>>, CompileError>,
    after: Map<Seq<char>, VarType>,
    expected: Outcome<Option<Box<Ast>>>,
) -> bool {
    &&& after == expected.vars
    &&& match expected.result {
        Ok(next) => match r {
            Ok(node) => boxed_ast(node) == next,
            Err(_) => false,
        },
        Err(e) => match r {
            Ok(_) => false,
            Err(found) => found == e,
        },
    }
}

/// Builds a condition: an infix expression where a logical operator
/// stands among the tokens, else whatever the tokens build as a statement.
pub fn create_condition(tokens: &Vec<Token>, variables: &mut Variables) -> (r: Result<
    Box<Node>,
    CompileError,
>)
    ensures
        final(variables)@ == build_condition(token_views(tokens@), old(variables)@).vars,
        match build_condition(token_views(tokens@), old(variables)@).result {
            Ok(ast) => r.is_ok() && ast_of(*r.unwrap()) == ast,
            Err(e) => r.is_err() && r.unwrap_err() == e,
        },
    decreases tokens.len(), 6int,
{
    if contains_logical_operator(tokens) {
        match generate_binary_expression_tree(tokens) {
            Ok(node) => Ok(Box::new(node)),
            Err(e) => Err(e),
        }
    } else {
        match Node::build(tokens, variables) {
            Ok(node) => Ok(Box::new(node)),
            Err(e) => Err(e),
        }
    }
}

/// Builds the parts of an `if` or `elif`: the condition up to the first
/// colon, the body up to the first `elif`, `else` or `end` of the chain
/// itself, and the rest of the chain.
pub fn build_branch_parts(tokens: &Vec<Token>, variables: &mut Variables) -> (r: Result<
    BranchParts,
    CompileError,
>)
    ensures
        built_branch(r, final(variables)@, build_branch(token_views(tokens@), old(variables)@)),
    decreases tokens.len(), 3int,
{
    let ghost views = token_views(tokens@);
    if tokens.len() < 2 {
        return Err(CompileError::Parse);
    }
    let colon = find_colon(tokens, 1);
    if colon >= tokens.len() {
        return Err(CompileError::Parse);
    }
    let head = copy_range(tokens, 1, colon);
    let condition = match create_condition(&head, variables) {
        Ok(node) => node,
        Err(e) => {
            return Err(e);
        },
    };
    let sibling = match find_sibling(tokens, colon + 1) {
        Some(k) => k,
        None => {
            return Err(CompileError::Segmentation);
        },
    };
    let inner = copy_range(tokens, colon + 1, sibling);
    let body = match build_body(&inner, variables) {
        Ok(nodes) => nodes,
        Err(e) => {
            return Err(e);
        },
    };
    let rest = copy_range(tokens, sibling, tokens.len());
    assert(views.skip(sibling as int) =~= views.subrange(sibling as int, tokens.len() as int));
    let else_statement = match build_chain_nodes(&rest, variables) {
        Ok(next) => next,
        Err(e) => {
            return Err(e);
        },
    };
    Ok(BranchParts { condition: condition, body: body, else_statement: else_statement })
}

/// Builds the rest of an `if` chain: an `elif` or an `else` with all that
/// follows it, or nothing where the chain ends with its `end`.
pub fn build_chain_nodes(rest: &Vec<Token>, variables: &mut Variables) -> (r: Result<
    Option<Box<Node>>,
    CompileError,
>)
    ensures
        built_chain(r, final(variables)@, build_chain(token_views(rest@), old(variables)@)),
    decreases rest.len(), 6int,
{
    if rest.len() == 0 {
        return Err(CompileError::Parse);
    }
    match &rest[0] {
        Token::Keyword(Keyword::Elif) => match NodeElifStatement::from(rest, variables) {
            Ok(node) => Ok(Some(Box::new(Node::ElifStatement(node)))),
            Err(e) => Err(e),
        },
        Token::Keyword(Keyword::Else) => match NodeElseStatement::from(rest, variables) {
            Ok(node) => Ok(Some(Box::new(Node::ElseStatement(node)))),
            Err(e) => Err(e),
        },
        _ => if rest.len() == 1 {
            Ok(None)
        } else {
            Err(CompileError::Parse)
        },
    }
}

impl NodeIfStatement {
    /// Builds an `if` with its body and the rest of its chain.
    pub fn from(tokens: &Vec<Token>, variables: &mut Variables) -> (r: Result<Self, CompileError>)
        ensures
            built(r, final(variables)@, build_if(token_views(tokens@), old(variables)@)),
        decreases tokens.len(), 4int,
    {
        match build_branch_parts(tokens, variables) {
            Ok(parts) => Ok(
                NodeIfStatement {
                    condition: parts.condition,
                    body: parts.body,
                    else_statement: parts.else_statement,
                },
            ),
            Err(e) => Err(e),
        }
    }
}

impl NodeElifStatement {
    /// Builds an `elif` with its body and the rest of its chain.
    pub fn from(tokens: &Vec<Token>, variables: &mut Variables) -> (r: Result<Self, CompileError>)
        ensures
            built(r, final(variables)@, build_elif(token_views(tokens@), old(variables)@)),
        decreases tokens.len(), 4int,
    {
        match build_branch_parts(tokens, variables) {
            Ok(parts) => Ok(
                NodeElifStatement {
                    condition: parts.condition,
                    body: parts.body,
                    else_statement: parts.else_statement,
                },
            ),
            Err(e) => Err(e),
        }
    }
}

impl NodeElseStatement {
    /// Builds an `else` with its body, up to the `end` that is the last
    /// token.
    pub fn from(tokens: &Vec<Token>, variables: &mut Variables) -> (r: Result<Self, CompileError>)
        ensures
            built(r, final(variables)@, build_else(token_views(tokens@), old(variables)@)),
        decreases tokens.len(), 4int,
    {
        if tokens.len() < 2 {
            return Err(CompileError::Parse);
        }
        let start: usize = match &tokens[1] {
            Token::Colon => 2,
            _ => 1,
        };
        let ends = match &tokens[tokens.len() - 1] {
            Token::Keyword(Keyword::End) => true,
            _ => false,
        };
        if !ends || start > tokens.len() - 1 {
            return Err(CompileError::Parse);
        }
        let inner = copy_range(tokens, start, tokens.len() - 1);
        match build_body(&inner, variables) {
            Ok(nodes) => Ok(NodeElseStatement { body: nodes }),
            Err(e) => Err(e),
        }
    }
}

impl NodeWhileLoop {
    /// Builds a `while` with its condition, up to the first colon, and its
    /// body, up to the `end` that is the last token.
    pub fn from(tokens: &Vec<Token>, variables: &mut Variables) -> (r: Result<Self, CompileError>)
        ensures
            built(r, final(variables)@, build_while(token_views(tokens@), old(variables)@)),
        decreases tokens.len(), 4int,
    {
        if tokens.len() < 2 {
            return Err(CompileError::Parse);
        }
        let colon = find_colon(tokens, 1);
        let ends = match &tokens[tokens.len() - 1] {
            Token::Keyword(Keyword::End) => true,
            _ => false,
        };
        if colon >= tokens.len() || !ends {
            return Err(CompileError::Parse);
        }
        proof {
            lemma_colon_index_bounds(token_views(tokens@), 1);
        }
        let head = copy_range(tokens, 1, colon);
        let condition = match create_condition(&head, variables) {
            Ok(node) => node,
            Err(e) => {
                return Err(e);
            },
        };
        let inner = copy_range(tokens, colon + 1, tokens.len() - 1);
        match build_body(&inner, variables) {
            Ok(nodes) => Ok(NodeWhileLoop { condition: condition, body: nodes }),
            Err(e) => Err(e),
        }
    }
}

} // verus!
