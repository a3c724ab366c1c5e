//! Reads, declarations and initializations of names.

use crate::error::CompileError;
use crate::lexer::{token_views, Token, TokenView};
use crate::parser::{variables_insert, Variables, VarType};
use crate::syntax::{
    build_declaration, build_initialization, build_variable, copy_range, initial_value,
    resolved_type,
};
use super::{ast_of, built, render, rendered, Ast, Node};
use super::binary_expression::{evaluate_var_type, generate_binary_expression_tree};
use vstd::prelude::*;
use vstd::string::StringExecFns;

verus! {

/// A read of a bound name.
#[derive(Debug, Clone, PartialEq)]
pub struct NodeVariableCall {
    pub name: String,
}

/// A binding with an initial value.
#[derive(Debug, PartialEq)]
pub struct NodeVariableInitialization {
    pub name: String,
    pub value: Box<Node>,
    pub var_type: VarType,
}

/// A binding without an initial value.
#[derive(Debug, Clone, PartialEq)]
pub struct NodeVariableDeclaration {
    pub name: String,
    pub var_type: VarType,
}

impl View for NodeVariableInitialization {
    type V = Ast;

    open spec fn view(&self) -> Ast {
        ast_of(Node::VariableInitialization(*self))
    }
}

impl NodeVariableCall {
    /// A read of the empty name.
    pub fn new() -> (r: Self)
        ensures
            r.name@ == Seq::<char>::empty(),
    {
        NodeVariableCall { name: String::new() }
    }

    /// The name.
    pub fn to_c(&self) -> (r: String)
        ensures
            r@ == self.name@,
    {
        self.name.clone()
    }
}

impl NodeVariableInitialization {
    /// A binding of the empty name to the placeholder node, without a type.
    pub fn new() -> (r: Self)
        ensures
            r@ == Ast::VariableInitialization(
                Seq::<char>::empty(),
                VarType::Void,
                Box::new(Ast::Empty),
            ),
    {
        NodeVariableInitialization {
            name: String::new(),
            value: Box::new(Node::new()),
            var_type: VarType::new(),
        }
    }

    /// Writes out the type keyword, the name, an equals sign and the value.
    pub fn to_c(&self, variables: &Variables) -> (r: Result<String, CompileError>)
        ensures
            rendered(r, render(self@, variables@)),
        decreases self,
    {
        let mut out = match self.var_type.to_c() {
            Ok(keyword) => keyword,
            Err(e) => {
                return Err(e);
            },
        };
        let value = match self.value.to_c(variables) {
            Ok(text) => text,
            Err(e) => {
                return Err(e);
            },
        };
        out.append(self.name.as_str());
        out.append(" = ");
        out.append(value.as_str());
        Ok(out)
    }
}

impl NodeVariableDeclaration {
    /// A declaration of the empty name, without a type.
    pub fn new() -> (r: Self)
        ensures
            r.name@ == Seq::<char>::empty(),
            r.var_type == VarType::Void,
    {
        NodeVariableDeclaration { name: String::new(), var_type: VarType::new() }
    }

    /// Writes out the type keyword, the name, an equals sign and the zero
    /// value of the type. A type without a keyword or a zero value gives a
    /// render error.
    pub fn to_c(&self) -> (r: Result<String, CompileError>)
        ensures
            match (self.var_type.c_keyword(), self.var_type.c_zero()) {
                (Some(keyword), Some(zero)) => r.is_ok() && r.unwrap()@ == keyword + self.name@
                    + " = "@ + zero,
                _ => r.is_err() && r.unwrap_err() == CompileError::Render,
            },
    {
        let mut out = match self.var_type.to_c() {
            Ok(keyword) => keyword,
            Err(e) => {
                return Err(e);
            },
        };
        let zero = match self.var_type.to_c_default_value() {
            Ok(text) => text,
            Err(e) => {
                return Err(e);
            },
        };
        out.append(self.name.as_str());
        out.append(" = ");
        out.append(zero.as_str());
        Ok(out)
    }
}

impl View for NodeVariableDeclaration {
    type V = Ast;

    open spec fn view(&self) -> Ast {
        ast_of(Node::VariableDeclaration(*self))
    }
}

impl NodeVariableCall {
    /// A read of the name that an identifier token holds, or a parse error
    /// for any other token.
    pub fn from(token: &Token) -> (r: Result<Self, CompileError>)
        ensures
            match token@ {
                TokenView::Identifier(name) => r.is_ok() && r.unwrap().name@ == name,
                _ => r.is_err() && r.unwrap_err() == CompileError::Parse,
            },
    {
        match token.identifier() {
            Some(name) => Ok(NodeVariableCall { name: name }),
            None => Err(CompileError::Parse),
        }
    }
}

impl NodeVariableDeclaration {
    /// Builds a declaration from a type keyword and a name, and binds the
    /// name to the type.
    pub fn from(tokens: &Vec<Token>, variables: &mut Variables) -> (r: Result<Self, CompileError>)
        ensures
            built(
                r,
                final(variables)@,
                build_declaration(token_views(tokens@), old(variables)@),
            ),
    {
        if tokens.len() < 2 {
            return Err(CompileError::Parse);
        }
        let keyword = match tokens[0].keyword() {
            Some(k) => k,
            None => {
                return Err(CompileError::Parse);
            },
        };
        let name = match tokens[1].identifier() {
            Some(name) => name,
            None => {
                return Err(CompileError::Parse);
            },
        };
        let var_type = VarType::from(keyword);
        if var_type == VarType::Void {
            return Err(CompileError::Parse);
        }
        if var_type == VarType::Auto {
            return Err(CompileError::Type);
        }
        variables_insert(variables, &name, &var_type);
        Ok(NodeVariableDeclaration { name: name, var_type: var_type })
    }
}

impl NodeVariableInitialization {
    /// Builds an initialization from a type keyword, a name, an equals
    /// sign and a value, and binds the name to the type. The type of an
    /// `auto` is that of the value; a type error where that is no type.
    pub fn from(tokens: &Vec<Token>, variables: &mut Variables) -> (r: Result<Self, CompileError>)
        ensures
            built(
                r,
                final(variables)@,
                build_initialization(token_views(tokens@), old(variables)@),
            ),
    {
        let ghost views = token_views(tokens@);
        if tokens.len() < 4 {
            return Err(CompileError::Parse);
        }
        let keyword = match tokens[0].keyword() {
            Some(k) => k,
            None => {
                return Err(CompileError::Parse);
            },
        };
        let name = match tokens[1].identifier() {
            Some(name) => name,
            None => {
                return Err(CompileError::Parse);
            },
        };
        let declared = VarType::from(keyword);
        let assigns = match &tokens[2] {
            Token::Eq => true,
            _ => false,
        };
        if declared == VarType::Void || !assigns {
            return Err(CompileError::Parse);
        }
        let value = if tokens.len() > 4 {
            let rest = copy_range(tokens, 3, tokens.len());
            assert(views.skip(3) =~= views.subrange(3, views.len() as int));
            match generate_binary_expression_tree(&rest) {
                Ok(node) => node,
                Err(e) => {
                    return Err(e);
                },
            }
        } else {
            match Node::from_token(&tokens[3]) {
                Ok(node) => node,
                Err(e) => {
                    return Err(e);
                },
            }
        };
        assert(initial_value(views) == Ok::<Ast, CompileError>(value@));
        let found = if declared == VarType::Auto {
            match evaluate_var_type(&value, variables) {
                Ok(t) => t,
                Err(e) => {
                    return Err(e);
                },
            }
        } else {
            declared
        };
        if found == VarType::Void || found == VarType::Auto {
            return Err(CompileError::Type);
        }
        assert(resolved_type(keyword, value@, variables@) == Ok::<VarType, CompileError>(found));
        variables_insert(variables, &name, &found);
        Ok(NodeVariableInitialization { name: name, value: Box::new(value), var_type: found })
    }
}

/// Builds a declaration where the tokens are fewer than three, an
/// initialization otherwise.
pub fn generate_variable(tokens: &Vec<Token>, variables: &mut Variables) -> (r: Result<
    Node,
    CompileError,
>)
    ensures
        built(r, final(variables)@, build_variable(token_views(tokens@), old(variables)@)),
{
    if tokens.len() < 3 {
        match NodeVariableDeclaration::from(tokens, variables) {
            Ok(node) => Ok(Node::VariableDeclaration(node)),
            Err(e) => Err(e),
        }
    } else {
        match NodeVariableInitialization::from(tokens, variables) {
            Ok(node) => Ok(Node::VariableInitialization(node)),
            Err(e) => Err(e),
        }
    }
}

} // verus!
