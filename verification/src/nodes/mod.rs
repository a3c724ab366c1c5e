//! The syntax tree, what it stands for, and how it is written out as C.

pub mod binary_expression;
pub mod control_flow;
pub mod functions;
pub mod unary_expression;
pub mod values;
pub mod variables;

use crate::error::CompileError;
use crate::lexer::{token_views, Keyword, Token, TokenView};
use crate::nodes::binary_expression::{generate_binary_expression_tree, NodeBinaryExpression};
use crate::nodes::control_flow::{
    NodeElifStatement, NodeElseStatement, NodeIfStatement, NodeWhileLoop,
};
use crate::nodes::functions::{
    format_text, generate_function, placeholder_names, NodeFunctionCall, NodeFunctionDefinition,
};
use crate::nodes::unary_expression::NodeUnaryExpression;
use crate::nodes::values::{
    float_text, integer_text, NodeValueFloat, NodeValueInt, NodeValueString, NodeValueUInt,
};
use crate::nodes::variables::{
    generate_variable, NodeVariableCall, NodeVariableDeclaration, NodeVariableInitialization,
};
use crate::parser::{
    lemma_segment_bounds, segment, split_token_slice, statement_views, OperatorType, Variables,
    VarType,
};
use crate::syntax::{
    build, build_other, build_statements, closing_parenthesis, contains_binary_operator, copy_range,
    statements_after, Outcome,
};
use vstd::prelude::*;
use vstd::string::StringExecFns;

verus! {

/// One element of the syntax tree.
#[derive(Debug, PartialEq)]
pub enum Node {
    ValueInt(NodeValueInt),
    ValueUInt(NodeValueUInt),
    ValueFloat(NodeValueFloat),
    ValueString(NodeValueString),
    VariableCall(NodeVariableCall),
    VariableInitialization(NodeVariableInitialization),
    VariableDeclaration(NodeVariableDeclaration),
    BinaryExpression(NodeBinaryExpression),
    UnaryExpression(NodeUnaryExpression),
    IfStatement(NodeIfStatement),
    ElifStatement(NodeElifStatement),
    ElseStatement(NodeElseStatement),
    WhileLoop(NodeWhileLoop),
    FunctionDefinition(NodeFunctionDefinition),
    FunctionCall(NodeFunctionCall),
    /// The placeholder of a tree under construction; it is never written out.
    Empty,
}

/// What a syntax tree stands for: texts as sequences of characters, bodies
/// as sequences of trees.
pub enum Ast {
    Int(int, VarType),
    UInt(int, VarType),
    Float(Seq<char>, VarType),
    Str(Seq<char>, VarType),
    VariableCall(Seq<char>),
    VariableDeclaration(Seq<char>, VarType),
    VariableInitialization(Seq<char>, VarType, Box<Ast>),
    Unary(OperatorType, Box<Ast>),
    Binary(OperatorType, Box<Ast>, Box<Ast>),
    If(Box<Ast>, Seq<Ast>, Option<Box<Ast>>),
    Elif(Box<Ast>, Seq<Ast>, Option<Box<Ast>>),
    Else(Seq<Ast>),
    While(Box<Ast>, Seq<Ast>),
    FunctionDefinition(Seq<char>, Seq<Seq<char>>, Seq<VarType>, VarType, Seq<Ast>),
    FunctionCall(Seq<char>, Seq<Ast>),
    Empty,
}

/// The texts of a list of strings.
pub open spec fn texts_of(names: Seq<String>) -> Seq<Seq<char>> {
    Seq::new(names.len(), |i: int| names[i]@)
}

/// What `node` stands for.
pub open spec fn ast_of(node: Node) -> Ast
    decreases node,
{
    match node {
        Node::ValueInt(v) => Ast::Int(v.value as int, v.var_type),
        Node::ValueUInt(v) => Ast::UInt(v.value as int, v.var_type),
        Node::ValueFloat(v) => Ast::Float(v.value@, v.var_type),
        Node::ValueString(v) => Ast::Str(v.value@, v.var_type),
        Node::VariableCall(v) => Ast::VariableCall(v.name@),
        Node::VariableInitialization(v) => Ast::VariableInitialization(
            v.name@,
            v.var_type,
            Box::new(ast_of(*v.value)),
        ),
        Node::VariableDeclaration(v) => Ast::VariableDeclaration(v.name@, v.var_type),
        Node::BinaryExpression(v) => Ast::Binary(
            v.operator,
            Box::new(ast_of(*v.left)),
            Box::new(ast_of(*v.right)),
        ),
        Node::UnaryExpression(v) => Ast::Unary(v.operator, Box::new(ast_of(*v.operand))),
        Node::IfStatement(v) => Ast::If(
            Box::new(ast_of(*v.condition)),
            asts_of(v.body@),
            match v.else_statement {
                Some(e) => Some(Box::new(ast_of(*e))),
                None => None,
            },
        ),
        Node::ElifStatement(v) => Ast::Elif(
            Box::new(ast_of(*v.condition)),
            asts_of(v.body@),
            match v.else_statement {
                Some(e) => Some(Box::new(ast_of(*e))),
                None => None,
            },
        ),
        Node::ElseStatement(v) => Ast::Else(asts_of(v.body@)),
        Node::WhileLoop(v) => Ast::While(Box::new(ast_of(*v.condition)), asts_of(v.body@)),
        Node::FunctionDefinition(v) => Ast::FunctionDefinition(
            v.name@,
            texts_of(v.arg_names@),
            v.arg_types@,
            v.return_type,
            asts_of(v.body@),
        ),
        Node::FunctionCall(v) => Ast::FunctionCall(v.name@, asts_of(v.args@)),
        Node::Empty => Ast::Empty,
    }
}

/// What each node of a list stands for, in order.
pub open spec fn asts_of(nodes: Seq<Box<Node>>) -> Seq<Ast>
    decreases nodes,
{
    if nodes.len() == 0 {
        Seq::empty()
    } else {
        asts_of(nodes.drop_last()).push(ast_of(*nodes.last()))
    }
}

impl View for Node {
    type V = Ast;

    open spec fn view(&self) -> Ast {
        ast_of(*self)
    }
}

/// Two texts one after the other, where both exist.
pub open spec fn then_text(a: Option<Seq<char>>, b: Option<Seq<char>>) -> Option<Seq<char>> {
    match (a, b) {
        (Some(x), Some(y)) => Some(x + y),
        _ => None,
    }
}

/// The reads of the given names, in order.
pub open spec fn calls_of(names: Seq<Seq<char>>) -> Seq<Ast> {
    Seq::new(names.len(), |i: int| Ast::VariableCall(names[i]))
}

/// The arguments of the `printf` call that a `print` of `text` becomes: the
/// format text, then a read of each placeholder's name, from left to right.
pub open spec fn print_arguments(text: Seq<char>, vars: Map<Seq<char>, VarType>) -> Option<
    Seq<Ast>,
> {
    match format_text(text, vars, 0) {
        Some(format) => Some(
            seq![Ast::Str(format, VarType::Str)] + calls_of(placeholder_names(text, 0)),
        ),
        None => None,
    }
}

/// The C text of a tree, given the types of the bound names; `None` where
/// the tree cannot be written out.
pub open spec fn render(ast: Ast, vars: Map<Seq<char>, VarType>) -> Option<Seq<char>>
    decreases ast,
{
    match ast {
        Ast::Int(v, _) => Some(integer_text(v)),
        Ast::UInt(v, _) => Some(integer_text(v)),
        Ast::Float(text, _) => Some(float_text(text)),
        Ast::Str(text, _) => Some(text),
        Ast::VariableCall(name) => Some(name),
        Ast::VariableDeclaration(name, ty) => match (ty.c_keyword(), ty.c_zero()) {
            (Some(keyword), Some(zero)) => Some(keyword + name + " = "@ + zero),
            _ => None,
        },
        Ast::VariableInitialization(name, ty, value) => match (
            ty.c_keyword(),
            render(*value, vars),
        ) {
            (Some(keyword), Some(text)) => Some(keyword + name + " = "@ + text),
            _ => None,
        },
        Ast::Unary(op, operand) => match render(*operand, vars) {
            Some(text) => Some(op.c_text() + "("@ + text + ")"@),
            None => None,
        },
        Ast::Binary(op, left, right) => match (render(*left, vars), render(*right, vars)) {
            (Some(a), Some(b)) => Some("("@ + a + " "@ + op.c_text() + b + ")"@),
            _ => None,
        },
        Ast::If(condition, body, next) => match (
            render(*condition, vars),
            render_body(body, vars),
            match next {
                Some(e) => render(*e, vars),
                None => Some("\n"@),
            },
        ) {
            (Some(c), Some(b), Some(e)) => Some("if("@ + c + "){\n"@ + b + "}"@ + e),
            _ => None,
        },
        Ast::Elif(condition, body, next) => match (
            render(*condition, vars),
            render_body(body, vars),
            match next {
                Some(e) => render(*e, vars),
                None => Some("\n"@),
            },
        ) {
            (Some(c), Some(b), Some(e)) => Some("else if("@ + c + "){\n"@ + b + "}"@ + e),
            _ => None,
        },
        Ast::Else(body) => match render_body(body, vars) {
            Some(b) => Some("else{\n"@ + b + "}\n"@),
            None => None,
        },
        Ast::While(condition, body) => match (render(*condition, vars), render_body(body, vars)) {
            (Some(c), Some(b)) => Some("while("@ + c + "){\n"@ + b + "}\n"@),
            _ => None,
        },
        Ast::FunctionDefinition(name, arg_names, arg_types, return_type, body) => match (
            return_type.c_keyword(),
            render_parameters(arg_names, arg_types),
            render_body(body, vars),
        ) {
            (Some(r), Some(p), Some(b)) => Some(r + name + "("@ + p + "){\n"@ + b + "}\n"@),
            _ => None,
        },
        Ast::FunctionCall(name, args) => if name == "print"@ {
            if args.len() == 1 {
                match args[0] {
                    Ast::Str(text, _) => match print_arguments(text, vars) {
                        Some(list) => Some("printf("@ + render_reads(list) + ")"@),
                        None => None,
                    },
                    _ => None,
                }
            } else {
                None
            }
        } else {
            match render_arguments(args, vars) {
                Some(a) => Some(name + "("@ + a + ")"@),
                None => None,
            }
        },
        Ast::Empty => None,
    }
}

/// The C text of a body: each statement, then a semicolon and a line feed.
pub open spec fn render_body(body: Seq<Ast>, vars: Map<Seq<char>, VarType>) -> Option<Seq<char>>
    decreases body,
{
    if body.len() == 0 {
        Some(Seq::empty())
    } else {
        match (render_body(body.drop_last(), vars), render(body.last(), vars)) {
            (Some(before), Some(text)) => Some(before + text + ";\n"@),
            _ => None,
        }
    }
}

/// The C text of a list of arguments, with a comma and a blank between two.
pub open spec fn render_arguments(args: Seq<Ast>, vars: Map<Seq<char>, VarType>) -> Option<
    Seq<char>,
>
    decreases args,
{
    if args.len() == 0 {
        Some(Seq::empty())
    } else if args.len() == 1 {
        render(args[0], vars)
    } else {
        match (render_arguments(args.drop_last(), vars), render(args.last(), vars)) {
            (Some(before), Some(text)) => Some(before + ", "@ + text),
            _ => None,
        }
    }
}

/// The C text of the arguments of a rewritten `print`: the format text and
/// the names read, with a comma and a blank between two.
pub open spec fn render_reads(list: Seq<Ast>) -> Seq<char>
    decreases list.len(),
{
    if list.len() == 0 {
        Seq::empty()
    } else {
        let text = match list.last() {
            Ast::Str(t, _) => t,
            Ast::VariableCall(name) => name,
            _ => Seq::empty(),
        };
        if list.len() == 1 {
            text
        } else {
            render_reads(list.drop_last()) + ", "@ + text
        }
    }
}

/// The C text of a parameter list: type keyword and name of each, with a
/// comma and a blank between two; `None` where the two lists differ in
/// length or a type has no keyword.
pub open spec fn render_parameters(names: Seq<Seq<char>>, types: Seq<VarType>) -> Option<
    Seq<char>,
>
    decreases names.len(),
{
    if names.len() != types.len() {
        None
    } else if names.len() == 0 {
        Some(Seq::empty())
    } else {
        match (
            render_parameters(names.drop_last(), types.drop_last()),
            types.last().c_keyword(),
        ) {
            (Some(before), Some(keyword)) => if names.len() == 1 {
                Some(keyword + names.last())
            } else {
                Some(before + ", "@ + keyword + names.last())
            },
            _ => None,
        }
    }
}

/// Whether `r` is the outcome of writing out a tree whose text is
/// `expected`: that text, or a render error where there is none.
pub open spec fn rendered(r: Result<String, CompileError>, expected: Option<Seq<char>>) -> bool {
    match expected {
        Some(text) => r.is_ok() && r.unwrap()@ == text,
        None => r.is_err() && r.unwrap_err() == CompileError::Render,
    }
}

/// A list of nodes stands for as many trees, each that of its node.
pub proof fn lemma_asts_of_index(nodes: Seq<Box<Node>>)
    ensures
        asts_of(nodes).len() == nodes.len(),
        forall|i: int| 0 <= i < nodes.len() ==> #[trigger] asts_of(nodes)[i] == ast_of(*nodes[i]),
    decreases nodes.len(),
{
    if nodes.len() > 0 {
        lemma_asts_of_index(nodes.drop_last());
    }
}

/// A body of which a beginning cannot be written out cannot be written out.
pub proof fn lemma_render_body_prefix(body: Seq<Ast>, k: int, vars: Map<Seq<char>, VarType>)
    requires
        0 <= k <= body.len(),
        render_body(body.subrange(0, k), vars).is_none(),
    ensures
        render_body(body, vars).is_none(),
    decreases body.len(),
{
    if k == body.len() {
        assert(body.subrange(0, k) =~= body);
    } else {
        assert(body.drop_last().subrange(0, k) =~= body.subrange(0, k));
        lemma_render_body_prefix(body.drop_last(), k, vars);
    }
}

/// A list of arguments of which a beginning cannot be written out cannot be
/// written out.
pub proof fn lemma_render_arguments_prefix(
    args: Seq<Ast>,
    k: int,
    vars: Map<Seq<char>, VarType>,
)
    requires
        0 <= k <= args.len(),
        render_arguments(args.subrange(0, k), vars).is_none(),
    ensures
        render_arguments(args, vars).is_none(),
    decreases args.len(),
{
    if k == args.len() {
        assert(args.subrange(0, k) =~= args);
    } else {
        assert(args.drop_last().subrange(0, k) =~= args.subrange(0, k));
        lemma_render_arguments_prefix(args.drop_last(), k, vars);
        if args.len() == 1 {
            assert(args.subrange(0, k).len() == 0);
        }
    }
}

/// Writes out a body: each statement, then a semicolon and a line feed.
pub fn body_to_c(body: &Vec<Box<Node>>, variables: &Variables) -> (r: Result<
    String,
    CompileError,
>)
    ensures
        rendered(r, render_body(asts_of(body@), variables@)),
    decreases body,
{
    let ghost all = asts_of(body@);
    let mut out: String = String::new();
    let mut i: usize = 0;
    proof {
        lemma_asts_of_index(body@);
        assert(all.subrange(0, 0) =~= Seq::<Ast>::empty());
    }
    while i < body.len()
        invariant
            i <= body.len(),
            all == asts_of(body@),
            all.len() == body@.len(),
            render_body(all.subrange(0, i as int), variables@) == Some(out@),
        decreases body.len() - i,
    {
        proof {
            lemma_asts_of_index(body@);
            let next = all.subrange(0, i + 1);
            assert(next.drop_last() =~= all.subrange(0, i as int));
            assert(next.last() == ast_of(*body@[i as int]));
        }
        match body[i].to_c(variables) {
            Err(e) => {
                proof {
                    lemma_render_body_prefix(all, i + 1, variables@);
                }
                return Err(e);
            },
            Ok(text) => {
                out.append(text.as_str());
                out.append(";\n");
            },
        }
        i = i + 1;
    }
    assert(all.subrange(0, i as int) =~= all);
    Ok(out)
}

/// Writes out a list of arguments, with a comma and a blank between two.
pub fn arguments_to_c(args: &Vec<Box<Node>>, variables: &Variables) -> (r: Result<
    String,
    CompileError,
>)
    ensures
        rendered(r, render_arguments(asts_of(args@), variables@)),
    decreases args,
{
    let ghost all = asts_of(args@);
    let mut out: String = String::new();
    let mut i: usize = 0;
    proof {
        lemma_asts_of_index(args@);
        assert(all.subrange(0, 0) =~= Seq::<Ast>::empty());
    }
    while i < args.len()
        invariant
            i <= args.len(),
            all == asts_of(args@),
            all.len() == args@.len(),
            render_arguments(all.subrange(0, i as int), variables@) == Some(out@),
        decreases args.len() - i,
    {
        proof {
            lemma_asts_of_index(args@);
            let next = all.subrange(0, i + 1);
            assert(next.drop_last() =~= all.subrange(0, i as int));
            assert(next.last() == ast_of(*args@[i as int]));
            assert(next[0] == next.last() || i > 0);
        }
        match args[i].to_c(variables) {
            Err(e) => {
                proof {
                    lemma_render_arguments_prefix(all, i + 1, variables@);
                }
                return Err(e);
            },
            Ok(text) => {
                if i > 0 {
                    out.append(", ");
                    out.append(text.as_str());
                } else {
                    out.append(text.as_str());
                    assert(out@ =~= text@);
                }
            },
        }
        i = i + 1;
    }
    assert(all.subrange(0, i as int) =~= all);
    Ok(out)
}

impl Node {
    /// The placeholder node.
    pub fn new() -> (r: Self)
        ensures
            r@ == Ast::Empty,
    {
        Node::Empty
    }

    /// Writes the tree out as C, given the types of the bound names. A tree
    /// that holds a placeholder node, a type without a C keyword where one is
    /// needed, or a `print` that cannot be rewritten gives a render error.
    pub fn to_c(&self, variables: &Variables) -> (r: Result<String, CompileError>)
        ensures
            rendered(r, render(self@, variables@)),
        decreases self,
    {
        match self {
            Node::ValueInt(val) => Ok(val.to_c()),
            Node::ValueUInt(val) => Ok(val.to_c()),
            Node::ValueFloat(val) => Ok(val.to_c()),
            Node::ValueString(val) => Ok(val.to_c()),
            Node::VariableCall(val) => Ok(val.to_c()),
            Node::VariableInitialization(val) => val.to_c(variables),
            Node::VariableDeclaration(val) => val.to_c(),
            Node::BinaryExpression(val) => val.to_c(variables),
            Node::UnaryExpression(val) => val.to_c(variables),
            Node::FunctionDefinition(val) => val.to_c(variables),
            Node::FunctionCall(val) => val.to_c(variables),
            Node::IfStatement(val) => val.to_c(variables),
            Node::ElifStatement(val) => val.to_c(variables),
            Node::ElseStatement(val) => val.to_c(variables),
            Node::WhileLoop(val) => val.to_c(variables),
            Node::Empty => Err(CompileError::Render),
        }
    }
}

/// The tree of a token that stands for a value on its own: a literal or a
/// name. `None` for every other token.
pub open spec fn leaf_ast(token: TokenView) -> Option<Ast> {
    match token {
        TokenView::Int8(v) => Some(Ast::Int(v as int, VarType::I8)),
        TokenView::Int16(v) => Some(Ast::Int(v as int, VarType::I16)),
        TokenView::Int32(v) => Some(Ast::Int(v as int, VarType::I32)),
        TokenView::Int64(v) => Some(Ast::Int(v as int, VarType::I64)),
        TokenView::UInt8(v) => Some(Ast::UInt(v as int, VarType::U8)),
        TokenView::UInt16(v) => Some(Ast::UInt(v as int, VarType::U16)),
        TokenView::UInt32(v) => Some(Ast::UInt(v as int, VarType::U32)),
        TokenView::UInt64(v) => Some(Ast::UInt(v as int, VarType::U64)),
        TokenView::Float32(text) => Some(Ast::Float(text, VarType::F32)),
        TokenView::Float64(text) => Some(Ast::Float(text, VarType::F64)),
        TokenView::String(text) => Some(Ast::Str(text, VarType::Str)),
        TokenView::Identifier(name) => Some(Ast::VariableCall(name)),
        _ => None,
    }
}

impl Node {
    /// The node of a token that stands for a value on its own, or a parse
    /// error for any other token.
    pub fn from_token(token: &Token) -> (r: Result<Node, CompileError>)
        ensures
            match leaf_ast(token@) {
                Some(ast) => r.is_ok() && r.unwrap()@ == ast,
                None => r.is_err() && r.unwrap_err() == CompileError::Parse,
            },
    {
        match token {
            Token::Int8(val) => Ok(Node::ValueInt(NodeValueInt::new(*val as i64, VarType::I8))),
            Token::Int16(val) => Ok(Node::ValueInt(NodeValueInt::new(*val as i64, VarType::I16))),
            Token::Int32(val) => Ok(Node::ValueInt(NodeValueInt::new(*val as i64, VarType::I32))),
            Token::Int64(val) => Ok(Node::ValueInt(NodeValueInt::new(*val, VarType::I64))),
            Token::UInt8(val) => Ok(Node::ValueUInt(NodeValueUInt::new(*val as u64, VarType::U8))),
            Token::UInt16(val) => Ok(
                Node::ValueUInt(NodeValueUInt::new(*val as u64, VarType::U16)),
            ),
            Token::UInt32(val) => Ok(
                Node::ValueUInt(NodeValueUInt::new(*val as u64, VarType::U32)),
            ),
            Token::UInt64(val) => Ok(Node::ValueUInt(NodeValueUInt::new(*val, VarType::U64))),
            Token::Float32(val) => Ok(
                Node::ValueFloat(NodeValueFloat::new(val.clone(), VarType::F32)),
            ),
            Token::Float64(val) => Ok(
                Node::ValueFloat(NodeValueFloat::new(val.clone(), VarType::F64)),
            ),
            Token::String(val) => Ok(
                Node::ValueString(NodeValueString::new(val.clone(), VarType::Str)),
            ),
            Token::Identifier(val) => Ok(Node::VariableCall(NodeVariableCall { name: val.clone() })),
            _ => Err(CompileError::Parse),
        }
    }
}

/// Whether `r`, with the bindings `after`, is the outcome of building what
/// `expected` describes: that tree and those bindings, or that error.
pub open spec fn built<T: View<V = Ast>>(
    r: Result<T, CompileError>,
    after: Map<Seq<char>, VarType>,
    expected: Outcome<Ast>,
) -> bool {
    &&& after == expected.vars
    &&& match expected.result {
        Ok(ast) => match r {
            Ok(node) => node@ == ast,
            Err(_) => false,
        },
        Err(e) => match r {
            Ok(_) => false,
            Err(found) => found == e,
        },
    }
}

/// Whether `r`, with the bindings `after`, is the outcome of building the
/// body that `expected` describes.
pub open spec fn built_body(
    r: Result<Vec<Box<Node>>, CompileError>,
    after: Map<Seq<char>, VarType>,
    expected: Outcome<Seq<Ast>>,
) -> bool {
    &&& after == expected.vars
    &&& match expected.result {
        Ok(trees) => match r {
            Ok(nodes) => asts_of(nodes@) == trees,
            Err(_) => false,
        },
        Err(e) => match r {
            Ok(_) => false,
            Err(found) => found == e,
        },
    }
}

/// The place of the closing parenthesis that matches the opening one the
/// tokens start with; `None` where there is none.
pub fn get_closing_rpar(tokens: &Vec<Token>) -> (r: Option<usize>)
    ensures
        match closing_parenthesis(token_views(tokens@), 1, 1) {
            Some(k) => r == Some(k as usize) && 1 <= k < tokens.len(),
            None => r.is_none(),
        },
{
    let mut i: usize = 1;
    let mut openings: usize = 1;
    while i < tokens.len()
        invariant
            1 <= i,
            1 <= openings <= i,
            closing_parenthesis(token_views(tokens@), 1, 1) == closing_parenthesis(
                token_views(tokens@),
                i as int,
                openings as int,
            ),
        decreases tokens.len() - i,
    {
        assert(token_views(tokens@)[i as int] == tokens@[i as int]@);
        match &tokens[i] {
            Token::LPar => {
                openings = openings + 1;
            },
            Token::RPar => {
                openings = openings - 1;
                if openings == 0 {
                    return Some(i);
                }
            },
            _ => {},
        }
        i = i + 1;
    }
    None
}

/// Builds the statements of a body one after the other.
pub fn build_body(tokens: &Vec<Token>, variables: &mut Variables) -> (r: Result<
    Vec<Box<Node>>,
    CompileError,
>)
    ensures
        built_body(
            r,
            final(variables)@,
            build_statements(token_views(tokens@), 0, old(variables)@),
        ),
    decreases tokens.len(), 10int,
{
    let ghost body = token_views(tokens@);
    let ghost first = variables@;
    let slices = match split_token_slice(tokens) {
        Ok(slices) => slices,
        Err(failure) => {
            return Err(failure.error);
        },
    };
    let mut result: Vec<Box<Node>> = Vec::new();
    let mut k: usize = 0;
    proof {
        assert(asts_of(result@) =~= Seq::<Ast>::empty());
        match build_statements(body, 0, first).result {
            Ok(trees) => {
                assert(Seq::<Ast>::empty() + trees =~= trees);
            },
            Err(_) => {},
        }
    }
    while k < slices.len()
        invariant
            k <= slices.len(),
            body == token_views(tokens@),
            first == old(variables)@,
            segment(body) == Ok::<Seq<Seq<TokenView>>, CompileError>(statement_views(slices@)),
            build_statements(body, 0, first) == statements_after(
                asts_of(result@),
                build_statements(body, k as int, variables@),
            ),
        decreases slices.len() - k,
    {
        proof {
            lemma_segment_bounds(body);
            assert(statement_views(slices@)[k as int] == token_views(slices@[k as int]@));
        }
        let ghost before = variables@;
        match Node::build(&slices[k], variables) {
            Err(e) => {
                return Err(e);
            },
            Ok(node) => {
                let ghost done = asts_of(result@);
                let ghost earlier = result@;
                result.push(Box::new(node));
                proof {
                    assert(result@.drop_last() =~= earlier);
                    assert(asts_of(result@) == done.push(node@));
                    match build_statements(body, k + 1, variables@).result {
                        Ok(rest) => {
                            assert(done + (seq![node@] + rest) =~= done.push(node@) + rest);
                        },
                        Err(_) => {},
                    }
                }
            },
        }
        k = k + 1;
    }
    proof {
        assert(asts_of(result@) + Seq::<Ast>::empty() =~= asts_of(result@));
    }
    Ok(result)
}

impl Node {
    /// Builds the node of one statement and updates the bindings. The
    /// forms are tried in a fixed order, see `build`; tokens that fit no
    /// form are a parse error.
    pub fn from(tokens: Vec<Token>, variables: &mut Variables) -> (r: Result<Node, CompileError>)
        ensures
            built(r, final(variables)@, build(token_views(tokens@), old(variables)@)),
    {
        Node::build(&tokens, variables)
    }

    /// Builds the node of one statement, as `from` does, and leaves the
    /// tokens to their owner.
    pub fn build(tokens: &Vec<Token>, variables: &mut Variables) -> (r: Result<
        Node,
        CompileError,
    >)
        ensures
            built(r, final(variables)@, build(token_views(tokens@), old(variables)@)),
        decreases tokens.len(), 5int,
    {
        if tokens.len() == 0 {
            return Err(CompileError::Parse);
        }
        if tokens.len() == 1 {
            return Node::from_token(&tokens[0]);
        }
        match &tokens[0] {
            Token::Keyword(Keyword::Auto) => generate_variable(tokens, variables),
            Token::Keyword(Keyword::I8) => generate_variable(tokens, variables),
            Token::Keyword(Keyword::I16) => generate_variable(tokens, variables),
            Token::Keyword(Keyword::I32) => generate_variable(tokens, variables),
            Token::Keyword(Keyword::I64) => generate_variable(tokens, variables),
            Token::Keyword(Keyword::U8) => generate_variable(tokens, variables),
            Token::Keyword(Keyword::U16) => generate_variable(tokens, variables),
            Token::Keyword(Keyword::U32) => generate_variable(tokens, variables),
            Token::Keyword(Keyword::U64) => generate_variable(tokens, variables),
            Token::Keyword(Keyword::F32) => generate_variable(tokens, variables),
            Token::Keyword(Keyword::F64) => generate_variable(tokens, variables),
            Token::Keyword(Keyword::Str) => generate_variable(tokens, variables),
            Token::Keyword(Keyword::Fn) => generate_function(tokens, variables),
            Token::Keyword(Keyword::If) => match NodeIfStatement::from(tokens, variables) {
                Ok(node) => Ok(Node::IfStatement(node)),
                Err(e) => Err(e),
            },
            Token::Keyword(Keyword::Elif) => match NodeElifStatement::from(tokens, variables) {
                Ok(node) => Ok(Node::ElifStatement(node)),
                Err(e) => Err(e),
            },
            Token::Keyword(Keyword::Else) => match NodeElseStatement::from(tokens, variables) {
                Ok(node) => Ok(Node::ElseStatement(node)),
                Err(e) => Err(e),
            },
            Token::Keyword(Keyword::While) => match NodeWhileLoop::from(tokens, variables) {
                Ok(node) => Ok(Node::WhileLoop(node)),
                Err(e) => Err(e),
            },
            Token::Identifier(_val) => match &tokens[1] {
                Token::LPar => match NodeFunctionCall::new(tokens) {
                    Ok(node) => Ok(Node::FunctionCall(node)),
                    Err(e) => Err(e),
                },
                _ => generate_binary_expression_tree(tokens),
            },
            Token::Not => match NodeUnaryExpression::from(tokens, variables) {
                Ok(node) => Ok(Node::UnaryExpression(node)),
                Err(e) => Err(e),
            },
            _ => Node::build_rest(tokens, variables),
        }
    }

    /// Builds the node of a statement that no leading token decides: an
    /// infix expression where an operator stands among the tokens, else
    /// the content of the parentheses that the tokens start with.
    pub fn build_rest(tokens: &Vec<Token>, variables: &mut Variables) -> (r: Result<
        Node,
        CompileError,
    >)
        ensures
            built(r, final(variables)@, build_other(token_views(tokens@), old(variables)@)),
        decreases tokens.len(), 4int,
    {
        if contains_binary_operator(tokens) {
            return generate_binary_expression_tree(tokens);
        }
        if tokens.len() == 0 {
            return Err(CompileError::Parse);
        }
        match &tokens[0] {
            Token::LPar => match get_closing_rpar(tokens) {
                Some(close) => {
                    let inner = copy_range(tokens, 1, close);
                    Node::build(&inner, variables)
                },
                None => Err(CompileError::Parse),
            },
            _ => Err(CompileError::Parse),
        }
    }
}

} // verus!
