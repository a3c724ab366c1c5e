//! What each statement form stands for: the tree that a statement's tokens
//! build, and the bindings that building it leaves behind.

use crate::error::CompileError;
use crate::lexer::{copy_token, token_views, Keyword, Token, TokenView};
use crate::nodes::{leaf_ast, Ast};
use crate::nodes::binary_expression::{is_binary_operator, parse_expression};
use crate::parser::{
    depth_after, keyword_type, lemma_segment_bounds, promote, segment, token_operator, OperatorType,
    VarType,
};
use vstd::prelude::*;

verus! {

/// Whether a keyword may open a declaration: a type name or `auto`.
pub open spec fn is_type_keyword(keyword: Keyword) -> bool {
    keyword_type(keyword) != VarType::Void
}

/// Whether a keyword names a type that a parameter can have.
pub open spec fn is_parameter_keyword(keyword: Keyword) -> bool {
    is_type_keyword(keyword) && keyword != Keyword::Auto
}

/// Whether a keyword names a type that a function can return: a type that
/// a parameter can have, or `none`.
pub open spec fn is_return_keyword(keyword: Keyword) -> bool {
    is_parameter_keyword(keyword) || keyword == Keyword::Void
}

/// Whether an operator between two operands stands among the tokens.
pub open spec fn has_binary_operator(tokens: Seq<TokenView>) -> bool {
    exists|i: int| 0 <= i < tokens.len() && is_binary_operator(#[trigger] tokens[i])
}

/// Whether a token is one of the two logical operators.
pub open spec fn is_logical(token: TokenView) -> bool {
    token == TokenView::And || token == TokenView::Or
}

/// Whether a logical operator stands among the tokens.
pub open spec fn has_logical_operator(tokens: Seq<TokenView>) -> bool {
    exists|i: int| 0 <= i < tokens.len() && is_logical(#[trigger] tokens[i])
}

/// The place of the first colon from `i` on; the number of tokens where
/// there is none.
pub open spec fn colon_index(tokens: Seq<TokenView>, i: int) -> int
    decreases tokens.len() - i,
{
    if i < 0 || i >= tokens.len() {
        tokens.len() as int
    } else if tokens[i] == TokenView::Colon {
        i
    } else {
        colon_index(tokens, i + 1)
    }
}

/// The number of open parentheses after `token`, where `depth` were open
/// before it.
pub open spec fn parentheses_after(depth: int, token: TokenView) -> int {
    if token == TokenView::LPar {
        depth + 1
    } else if token == TokenView::RPar {
        depth - 1
    } else {
        depth
    }
}

/// The place, from `i` on, of the closing parenthesis that brings the
/// number of open parentheses back to zero, where `depth` are open before
/// `i`.
pub open spec fn closing_parenthesis(tokens: Seq<TokenView>, i: int, depth: int) -> Option<int>
    decreases tokens.len() - i,
{
    if i < 0 || i >= tokens.len() {
        None
    } else if tokens[i] == TokenView::RPar && parentheses_after(depth, tokens[i]) == 0 {
        Some(i)
    } else {
        closing_parenthesis(tokens, i + 1, parentheses_after(depth, tokens[i]))
    }
}

/// Whether a token continues or ends an `if` chain.
pub open spec fn is_chain_keyword(token: TokenView) -> bool {
    token == TokenView::Keyword(Keyword::Elif) || token == TokenView::Keyword(Keyword::Else)
        || token == TokenView::Keyword(Keyword::End)
}

/// The place, from `i` on, of the first `elif`, `else` or `end` that
/// belongs to the chain itself and to no block nested in it, where `depth`
/// nested blocks are open before `i`.
pub open spec fn sibling_index(tokens: Seq<TokenView>, i: int, depth: int) -> Option<int>
    decreases tokens.len() - i,
{
    if i < 0 || i >= tokens.len() {
        None
    } else if depth <= 0 && is_chain_keyword(tokens[i]) {
        Some(i)
    } else {
        sibling_index(tokens, i + 1, depth_after(depth, tokens[i]))
    }
}

/// The chain keyword of a body is found at or after the place where the
/// search starts.
pub proof fn lemma_sibling_index_bounds(tokens: Seq<TokenView>, i: int, depth: int)
    requires
        0 <= i,
    ensures
        match sibling_index(tokens, i, depth) {
            Some(k) => i <= k < tokens.len() && is_chain_keyword(tokens[k]),
            None => true,
        },
    decreases tokens.len() - i,
{
    if i >= tokens.len() {
    } else if depth <= 0 && is_chain_keyword(tokens[i]) {
    } else {
        lemma_sibling_index_bounds(tokens, i + 1, depth_after(depth, tokens[i]));
    }
}

/// The closing parenthesis is found at or after the place where the search
/// starts.
pub proof fn lemma_closing_parenthesis_bounds(tokens: Seq<TokenView>, i: int, depth: int)
    requires
        0 <= i,
    ensures
        match closing_parenthesis(tokens, i, depth) {
            Some(k) => i <= k < tokens.len(),
            None => true,
        },
    decreases tokens.len() - i,
{
    if i >= tokens.len() {
    } else if tokens[i] == TokenView::RPar && parentheses_after(depth, tokens[i]) == 0 {
    } else {
        lemma_closing_parenthesis_bounds(tokens, i + 1, parentheses_after(depth, tokens[i]));
    }
}

/// The first colon is found at or after the place where the search starts,
/// and it is a colon where it lies among the tokens.
pub proof fn lemma_colon_index_bounds(tokens: Seq<TokenView>, i: int)
    requires
        0 <= i <= tokens.len(),
    ensures
        i <= colon_index(tokens, i) <= tokens.len(),
        colon_index(tokens, i) < tokens.len() ==> tokens[colon_index(tokens, i)]
            == TokenView::Colon,
    decreases tokens.len() - i,
{
    if i < tokens.len() && tokens[i] != TokenView::Colon {
        lemma_colon_index_bounds(tokens, i + 1);
    }
}

/// The type of an expression, given the types of the bound names: the type
/// of a literal is its own, that of a name the one it is bound to, that of
/// a binary expression the greater of its operands' types. Anything else
/// has the type of nothing. A name that is not bound is a type error.
pub open spec fn expression_type(ast: Ast, vars: Map<Seq<char>, VarType>) -> Result<
    VarType,
    CompileError,
>
    decreases ast,
{
    match ast {
        Ast::Binary(_, left, right) => match (
            expression_type(*left, vars),
            expression_type(*right, vars),
        ) {
            (Ok(a), Ok(b)) => Ok(promote(a, b)),
            _ => Err(CompileError::Type),
        },
        Ast::Int(_, t) => Ok(t),
        Ast::UInt(_, t) => Ok(t),
        Ast::Float(_, t) => Ok(t),
        Ast::Str(_, t) => Ok(t),
        Ast::VariableCall(name) => if vars.contains_key(name) {
            Ok(vars[name])
        } else {
            Err(CompileError::Type)
        },
        _ => Ok(VarType::Void),
    }
}

/// The trees of a run of tokens that are all literals or names; `None`
/// where one of them is neither.
pub open spec fn leaves(tokens: Seq<TokenView>) -> Option<Seq<Ast>>
    decreases tokens.len(),
{
    if tokens.len() == 0 {
        Some(Seq::empty())
    } else {
        match (leaves(tokens.drop_last()), leaf_ast(tokens.last())) {
            (Some(before), Some(leaf)) => Some(before.push(leaf)),
            _ => None,
        }
    }
}

/// The value of an initialization: the tokens after the equals sign, one
/// literal or name, or an infix expression where they are more.
pub open spec fn initial_value(tokens: Seq<TokenView>) -> Result<Ast, CompileError> {
    if tokens.len() > 4 {
        parse_expression(tokens.skip(3))
    } else {
        match leaf_ast(tokens[3]) {
            Some(leaf) => Ok(leaf),
            None => Err(CompileError::Parse),
        }
    }
}

/// How building ended: with a value or with an error, and with the
/// bindings that it left behind either way.
pub struct Outcome<T> {
    pub result: Result<T, CompileError>,
    pub vars: Map<Seq<char>, VarType>,
}

/// Building that gave `value` and left the bindings `vars`.
pub open spec fn done<T>(value: T, vars: Map<Seq<char>, VarType>) -> Outcome<T> {
    Outcome { result: Ok(value), vars: vars }
}

/// Building that failed with `error` and left the bindings `vars`.
pub open spec fn failed<T>(error: CompileError, vars: Map<Seq<char>, VarType>) -> Outcome<T> {
    Outcome { result: Err(error), vars: vars }
}

/// A declaration: a type keyword and a name. The name is bound to the
/// type. A declaration with `auto` has no type to bind and is a type error.
pub open spec fn build_declaration(tokens: Seq<TokenView>, vars: Map<Seq<char>, VarType>) -> Outcome<
    Ast,
> {
    if tokens.len() < 2 {
        failed(CompileError::Parse, vars)
    } else {
        match (tokens[0], tokens[1]) {
            (TokenView::Keyword(k), TokenView::Identifier(name)) => if !is_type_keyword(k) {
                failed(CompileError::Parse, vars)
            } else if k == Keyword::Auto {
                failed(CompileError::Type, vars)
            } else {
                done(
                    Ast::VariableDeclaration(name, keyword_type(k)),
                    vars.insert(name, keyword_type(k)),
                )
            },
            _ => failed(CompileError::Parse, vars),
        }
    }
}

/// The type that an initialization binds its name to: the type that the
/// keyword names, or for `auto` the type of the value. A type error where
/// that is no type.
pub open spec fn resolved_type(
    keyword: Keyword,
    value: Ast,
    vars: Map<Seq<char>, VarType>,
) -> Result<VarType, CompileError> {
    let found = if keyword == Keyword::Auto {
        expression_type(value, vars)
    } else {
        Ok(keyword_type(keyword))
    };
    match found {
        Ok(t) => if t == VarType::Void || t == VarType::Auto {
            Err(CompileError::Type)
        } else {
            Ok(t)
        },
        Err(e) => Err(e),
    }
}

/// An initialization: a type keyword, a name, an equals sign and a value.
/// The name is bound to the resolved type.
pub open spec fn build_initialization(
    tokens: Seq<TokenView>,
    vars: Map<Seq<char>, VarType>,
) -> Outcome<Ast> {
    if tokens.len() < 4 {
        failed(CompileError::Parse, vars)
    } else {
        match (tokens[0], tokens[1]) {
            (TokenView::Keyword(k), TokenView::Identifier(name)) => if !is_type_keyword(k)
                || tokens[2] != TokenView::Eq {
                failed(CompileError::Parse, vars)
            } else {
                match initial_value(tokens) {
                    Err(e) => failed(e, vars),
                    Ok(value) => match resolved_type(k, value, vars) {
                        Err(e) => failed(e, vars),
                        Ok(t) => done(
                            Ast::VariableInitialization(name, t, Box::new(value)),
                            vars.insert(name, t),
                        ),
                    },
                }
            },
            _ => failed(CompileError::Parse, vars),
        }
    }
}

/// A declaration where the tokens are fewer than three, an initialization
/// otherwise.
pub open spec fn build_variable(tokens: Seq<TokenView>, vars: Map<Seq<char>, VarType>) -> Outcome<
    Ast,
> {
    if tokens.len() < 3 {
        build_declaration(tokens, vars)
    } else {
        build_initialization(tokens, vars)
    }
}

/// A call: a name, an opening parenthesis, literals and names as
/// arguments, and a closing parenthesis.
pub open spec fn build_call(tokens: Seq<TokenView>) -> Result<Ast, CompileError> {
    if tokens.len() < 3 {
        Err(CompileError::Parse)
    } else {
        match tokens[0] {
            TokenView::Identifier(name) => if tokens[1] == TokenView::LPar && tokens.last()
                == TokenView::RPar {
                match leaves(tokens.subrange(2, tokens.len() - 1)) {
                    Some(args) => Ok(Ast::FunctionCall(name, args)),
                    None => Err(CompileError::Parse),
                }
            } else {
                Err(CompileError::Parse)
            },
            _ => Err(CompileError::Parse),
        }
    }
}

/// The parameters of a function, read up to the closing parenthesis.
pub struct Parameters {
    pub names: Seq<Seq<char>>,
    pub types: Seq<VarType>,
    /// The place just past the closing parenthesis.
    pub next: int,
}

/// Reads parameters from `i` on: a name, a colon and a type keyword each,
/// up to a closing parenthesis, and binds each name to its type. Tokens
/// of any other shape are a parse error.
pub open spec fn parameters_from(
    tokens: Seq<TokenView>,
    i: int,
    so_far: Parameters,
    vars: Map<Seq<char>, VarType>,
) -> Outcome<Parameters>
    decreases tokens.len() - i,
{
    if i < 0 || i >= tokens.len() {
        failed(CompileError::Parse, vars)
    } else if tokens[i] == TokenView::RPar {
        done(Parameters { names: so_far.names, types: so_far.types, next: i + 1 }, vars)
    } else if i + 2 >= tokens.len() {
        failed(CompileError::Parse, vars)
    } else {
        match (tokens[i], tokens[i + 1], tokens[i + 2]) {
            (
                TokenView::Identifier(name),
                TokenView::Colon,
                TokenView::Keyword(k),
            ) => if is_parameter_keyword(k) {
                parameters_from(
                    tokens,
                    i + 3,
                    Parameters {
                        names: so_far.names.push(name),
                        types: so_far.types.push(keyword_type(k)),
                        next: so_far.next,
                    },
                    vars.insert(name, keyword_type(k)),
                )
            } else {
                failed(CompileError::Parse, vars)
            },
            _ => failed(CompileError::Parse, vars),
        }
    }
}

/// No parameters yet.
pub open spec fn no_parameters() -> Parameters {
    Parameters { names: Seq::empty(), types: Seq::empty(), next: 3 }
}

/// The head of a function definition: its name, its parameters, its return
/// type and the place where its body starts.
pub struct Signature {
    pub name: Seq<char>,
    pub parameters: Parameters,
    pub return_type: VarType,
    /// The place of the first token of the body.
    pub body_start: int,
}

/// The head of a function definition: `fn`, a name, the parameters in
/// parentheses, an arrow, the return type, and a colon or none. A head of
/// any other shape is a parse error.
pub open spec fn signature_of(tokens: Seq<TokenView>, vars: Map<Seq<char>, VarType>) -> Outcome<
    Signature,
> {
    if tokens.len() < 3 {
        failed(CompileError::Parse, vars)
    } else {
        match (tokens[1], tokens[2]) {
            (TokenView::Identifier(name), TokenView::LPar) => {
                let read = parameters_from(tokens, 3, no_parameters(), vars);
                match read.result {
                    Ok(p) => if p.next + 1 < tokens.len() && tokens[p.next] == TokenView::Return {
                        match tokens[p.next + 1] {
                            TokenView::Keyword(k) => if is_return_keyword(k) {
                                done(
                                    Signature {
                                        name: name,
                                        parameters: p,
                                        return_type: keyword_type(k),
                                        body_start: if p.next + 2 < tokens.len() && tokens[p.next
                                            + 2] == TokenView::Colon {
                                            p.next + 3
                                        } else {
                                            p.next + 2
                                        },
                                    },
                                    read.vars,
                                )
                            } else {
                                failed(CompileError::Parse, read.vars)
                            },
                            _ => failed(CompileError::Parse, read.vars),
                        }
                    } else {
                        failed(CompileError::Parse, read.vars)
                    },
                    Err(e) => failed(e, read.vars),
                }
            },
            _ => failed(CompileError::Parse, vars),
        }
    }
}

/// The parameters end after the place where reading them starts.
pub proof fn lemma_parameters_from_bounds(
    tokens: Seq<TokenView>,
    i: int,
    so_far: Parameters,
    vars: Map<Seq<char>, VarType>,
)
    requires
        0 <= i,
    ensures
        match parameters_from(tokens, i, so_far, vars).result {
            Ok(p) => i < p.next <= tokens.len(),
            Err(_) => true,
        },
    decreases tokens.len() - i,
{
    if i >= tokens.len() {
    } else if tokens[i] == TokenView::RPar {
    } else if i + 2 >= tokens.len() {
    } else {
        match (tokens[i], tokens[i + 1], tokens[i + 2]) {
            (
                TokenView::Identifier(name),
                TokenView::Colon,
                TokenView::Keyword(k),
            ) => if is_parameter_keyword(k) {
                lemma_parameters_from_bounds(
                    tokens,
                    i + 3,
                    Parameters {
                        names: so_far.names.push(name),
                        types: so_far.types.push(keyword_type(k)),
                        next: so_far.next,
                    },
                    vars.insert(name, keyword_type(k)),
                );
            },
            _ => {},
        }
    }
}

/// What the parts of an `if` or `elif` stand for.
pub struct Branch {
    pub condition: Ast,
    pub body: Seq<Ast>,
    pub next: Option<Box<Ast>>,
}

/// An expression that was parsed, with the bindings as they were.
pub open spec fn expression_outcome(
    expression: Result<Ast, CompileError>,
    vars: Map<Seq<char>, VarType>,
) -> Outcome<Ast> {
    Outcome { result: expression, vars: vars }
}

/// The parts of a branch as an `if` node.
pub open spec fn as_if(parts: Outcome<Branch>) -> Outcome<Ast> {
    match parts.result {
        Ok(b) => done(Ast::If(Box::new(b.condition), b.body, b.next), parts.vars),
        Err(e) => failed(e, parts.vars),
    }
}

/// The parts of a branch as an `elif` node.
pub open spec fn as_elif(parts: Outcome<Branch>) -> Outcome<Ast> {
    match parts.result {
        Ok(b) => done(Ast::Elif(Box::new(b.condition), b.body, b.next), parts.vars),
        Err(e) => failed(e, parts.vars),
    }
}

/// An operand under the operator `op`.
pub open spec fn as_unary(op: OperatorType, operand: Outcome<Ast>) -> Outcome<Ast> {
    match operand.result {
        Ok(ast) => done(Ast::Unary(op, Box::new(ast)), operand.vars),
        Err(e) => failed(e, operand.vars),
    }
}

/// The tree that the tokens of one statement build, and the bindings after
/// it, whether it builds or fails. The forms are tried in this order:
///
/// 1. one token alone: a literal or a name;
/// 2. a type keyword or `auto` first: a declaration or an initialization;
/// 3. `fn` first: a function definition;
/// 4. `if`, `elif`, `else` or `while` first: that block;
/// 5. a name first: a call where an opening parenthesis follows it, an
///    infix expression otherwise;
/// 6. `not` first: that operator on what the remaining tokens build;
/// 7. an operator between operands anywhere: an infix expression;
/// 8. an opening parenthesis first: what the tokens between it and its
///    closing parenthesis build.
///
/// Tokens that fit no form are a parse error.
pub open spec fn build(tokens: Seq<TokenView>, vars: Map<Seq<char>, VarType>) -> Outcome<Ast>
    decreases tokens.len(), 5int,
{
    if tokens.len() == 0 {
        failed(CompileError::Parse, vars)
    } else if tokens.len() == 1 {
        match leaf_ast(tokens[0]) {
            Some(leaf) => done(leaf, vars),
            None => failed(CompileError::Parse, vars),
        }
    } else {
        match tokens[0] {
            TokenView::Keyword(k) => if is_type_keyword(k) {
                build_variable(tokens, vars)
            } else if k == Keyword::Fn {
                build_function(tokens, vars)
            } else if k == Keyword::If {
                as_if(build_branch(tokens, vars))
            } else if k == Keyword::Elif {
                as_elif(build_branch(tokens, vars))
            } else if k == Keyword::Else {
                build_else(tokens, vars)
            } else if k == Keyword::While {
                build_while(tokens, vars)
            } else {
                build_other(tokens, vars)
            },
            TokenView::Identifier(_) => if tokens[1] == TokenView::LPar {
                expression_outcome(build_call(tokens), vars)
            } else {
                expression_outcome(parse_expression(tokens), vars)
            },
            TokenView::Not => as_unary(OperatorType::Not, build(tokens.skip(1), vars)),
            _ => build_other(tokens, vars),
        }
    }
}

/// The last two forms: an infix expression where an operator stands among
/// the tokens, else the content of the parentheses that the tokens start
/// with.
pub open spec fn build_other(tokens: Seq<TokenView>, vars: Map<Seq<char>, VarType>) -> Outcome<Ast>
    decreases tokens.len(), 4int,
{
    if has_binary_operator(tokens) {
        expression_outcome(parse_expression(tokens), vars)
    } else if tokens.len() > 0 && tokens[0] == TokenView::LPar {
        match closing_parenthesis(tokens, 1, 1) {
            Some(close) => {
                proof {
                    lemma_closing_parenthesis_bounds(tokens, 1, 1);
                }
                build(tokens.subrange(1, close), vars)
            },
            None => failed(CompileError::Parse, vars),
        }
    } else {
        failed(CompileError::Parse, vars)
    }
}

/// A condition: an infix expression where a logical operator stands among
/// its tokens, else whatever the tokens build as a statement.
pub open spec fn build_condition(tokens: Seq<TokenView>, vars: Map<Seq<char>, VarType>) -> Outcome<
    Ast,
>
    decreases tokens.len(), 6int,
{
    if has_logical_operator(tokens) {
        expression_outcome(parse_expression(tokens), vars)
    } else {
        build(tokens, vars)
    }
}

/// Trees already built before the trees that follow them, where those did
/// not fail.
pub open spec fn statements_after(done_before: Seq<Ast>, rest: Outcome<Seq<Ast>>) -> Outcome<
    Seq<Ast>,
> {
    match rest.result {
        Ok(trees) => done(done_before + trees, rest.vars),
        Err(e) => failed(e, rest.vars),
    }
}

/// The statements of a body from the `k`th on, built one after the other,
/// each with the bindings that the one before it left. The first statement
/// that fails ends the body with its error.
pub open spec fn build_statements(
    body: Seq<TokenView>,
    k: int,
    vars: Map<Seq<char>, VarType>,
) -> Outcome<Seq<Ast>>
    decreases body.len(), 10 + statement_count(body) - k,
{
    match segment(body) {
        Err(e) => failed(e, vars),
        Ok(statements) => if k < 0 || k >= statements.len() {
            done(Seq::empty(), vars)
        } else {
            proof {
                lemma_segment_bounds(body);
            }
            let first = build(statements[k], vars);
            match first.result {
                Err(e) => failed(e, first.vars),
                Ok(ast) => statements_after(seq![ast], build_statements(body, k + 1, first.vars)),
            }
        },
    }
}

/// The number of statements of a body; 0 where it cannot be cut.
pub open spec fn statement_count(body: Seq<TokenView>) -> int {
    match segment(body) {
        Ok(statements) => statements.len() as int,
        Err(_) => 0,
    }
}

/// The parts of an `if` or `elif`: the condition up to the first colon,
/// the body up to the first `elif`, `else` or `end` of the chain itself,
/// and the rest of the chain from there. A missing colon is a parse error;
/// a body that the chain never ends is a segmentation error.
pub open spec fn build_branch(tokens: Seq<TokenView>, vars: Map<Seq<char>, VarType>) -> Outcome<
    Branch,
>
    decreases tokens.len(), 4int,
{
    let colon = colon_index(tokens, 1);
    if tokens.len() < 2 || colon >= tokens.len() {
        failed(CompileError::Parse, vars)
    } else {
        proof {
            lemma_colon_index_bounds(tokens, 1);
            lemma_sibling_index_bounds(tokens, colon + 1, 0);
        }
        let head = build_condition(tokens.subrange(1, colon), vars);
        match head.result {
            Err(e) => failed(e, head.vars),
            Ok(condition) => match sibling_index(tokens, colon + 1, 0) {
                None => failed(CompileError::Segmentation, head.vars),
                Some(k) => {
                    let inner = build_statements(tokens.subrange(colon + 1, k), 0, head.vars);
                    match inner.result {
                        Err(e) => failed(e, inner.vars),
                        Ok(body) => {
                            let chain = build_chain(tokens.skip(k), inner.vars);
                            match chain.result {
                                Err(e) => failed(e, chain.vars),
                                Ok(next) => done(
                                    Branch { condition: condition, body: body, next: next },
                                    chain.vars,
                                ),
                            }
                        },
                    }
                },
            },
        }
    }
}

/// A node as the next link of a chain.
pub open spec fn as_link(node: Outcome<Ast>) -> Outcome<Option<Box<Ast>>> {
    match node.result {
        Ok(ast) => done(Some(Box::new(ast)), node.vars),
        Err(e) => failed(e, node.vars),
    }
}

/// The rest of an `if` chain: an `elif` or an `else` with all that follows
/// it, or nothing where the chain ends with its `end`.
pub open spec fn build_chain(rest: Seq<TokenView>, vars: Map<Seq<char>, VarType>) -> Outcome<
    Option<Box<Ast>>,
>
    decreases rest.len(), 6int,
{
    if rest.len() == 0 {
        failed(CompileError::Parse, vars)
    } else if rest[0] == TokenView::Keyword(Keyword::Elif) {
        as_link(as_elif(build_branch(rest, vars)))
    } else if rest[0] == TokenView::Keyword(Keyword::Else) {
        as_link(build_else(rest, vars))
    } else if rest.len() == 1 {
        done(None, vars)
    } else {
        failed(CompileError::Parse, vars)
    }
}

/// A body as an `else` node.
pub open spec fn as_else(body: Outcome<Seq<Ast>>) -> Outcome<Ast> {
    match body.result {
        Ok(trees) => done(Ast::Else(trees), body.vars),
        Err(e) => failed(e, body.vars),
    }
}

/// An `else`: the keyword, a colon or none, and the body up to the `end`
/// that is the last token.
pub open spec fn build_else(tokens: Seq<TokenView>, vars: Map<Seq<char>, VarType>) -> Outcome<Ast>
    decreases tokens.len(), 4int,
{
    let start: int = if tokens.len() > 1 && tokens[1] == TokenView::Colon {
        2
    } else {
        1
    };
    if tokens.len() >= 2 && start <= tokens.len() - 1 && tokens.last() == TokenView::Keyword(
        Keyword::End,
    ) {
        as_else(build_statements(tokens.subrange(start, tokens.len() - 1), 0, vars))
    } else {
        failed(CompileError::Parse, vars)
    }
}

/// A condition and a body as a `while` node.
pub open spec fn as_while(condition: Ast, body: Outcome<Seq<Ast>>) -> Outcome<Ast> {
    match body.result {
        Ok(trees) => done(Ast::While(Box::new(condition), trees), body.vars),
        Err(e) => failed(e, body.vars),
    }
}

/// A `while`: the condition up to the first colon, and the body up to the
/// `end` that is the last token.
pub open spec fn build_while(tokens: Seq<TokenView>, vars: Map<Seq<char>, VarType>) -> Outcome<Ast>
    decreases tokens.len(), 4int,
{
    let colon = colon_index(tokens, 1);
    if tokens.len() < 2 || colon >= tokens.len() || tokens.last() != TokenView::Keyword(
        Keyword::End,
    ) {
        failed(CompileError::Parse, vars)
    } else {
        proof {
            lemma_colon_index_bounds(tokens, 1);
        }
        let head = build_condition(tokens.subrange(1, colon), vars);
        match head.result {
            Err(e) => failed(e, head.vars),
            Ok(condition) => as_while(
                condition,
                build_statements(tokens.subrange(colon + 1, tokens.len() - 1), 0, head.vars),
            ),
        }
    }
}

/// A head and a body as a function definition.
pub open spec fn as_function(s: Signature, body: Outcome<Seq<Ast>>) -> Outcome<Ast> {
    match body.result {
        Ok(trees) => done(
            Ast::FunctionDefinition(
                s.name,
                s.parameters.names,
                s.parameters.types,
                s.return_type,
                trees,
            ),
            body.vars,
        ),
        Err(e) => failed(e, body.vars),
    }
}

/// A function definition: its head, and the body up to the `end` that is
/// the last token. Each parameter is bound to its type before the body is
/// built. A head that is not well formed is a parse error.
pub open spec fn build_function(tokens: Seq<TokenView>, vars: Map<Seq<char>, VarType>) -> Outcome<
    Ast,
>
    decreases tokens.len(), 4int,
{
    let head = signature_of(tokens, vars);
    match head.result {
        Err(e) => failed(e, head.vars),
        Ok(s) => if s.body_start <= tokens.len() - 1 && tokens.last() == TokenView::Keyword(
            Keyword::End,
        ) {
            proof {
                lemma_parameters_from_bounds(tokens, 3, no_parameters(), vars);
            }
            as_function(
                s,
                build_statements(tokens.subrange(s.body_start, tokens.len() - 1), 0, head.vars),
            )
        } else {
            failed(CompileError::Parse, head.vars)
        },
    }
}

/// A copy of the tokens from `from` up to `to`.
pub fn copy_range(tokens: &Vec<Token>, from: usize, to: usize) -> (r: Vec<Token>)
    requires
        from <= to <= tokens.len(),
    ensures
        token_views(r@) == token_views(tokens@).subrange(from as int, to as int),
{
    let mut result: Vec<Token> = Vec::new();
    let mut i: usize = from;
    while i < to
        invariant
            from <= i <= to <= tokens.len(),
            token_views(result@) == token_views(tokens@).subrange(from as int, i as int),
        decreases to - i,
    {
        let ghost before = token_views(result@);
        result.push(copy_token(&tokens[i]));
        assert(token_views(result@) =~= before.push(token_views(tokens@)[i as int]));
        i = i + 1;
        assert(token_views(result@) =~= token_views(tokens@).subrange(from as int, i as int));
    }
    assert(token_views(result@) =~= token_views(tokens@).subrange(from as int, to as int));
    result
}

/// Whether an operator between two operands stands among the tokens.
pub fn contains_binary_operator(tokens: &Vec<Token>) -> (r: bool)
    ensures
        r == has_binary_operator(token_views(tokens@)),
{
    let mut i: usize = 0;
    while i < tokens.len()
        invariant
            i <= tokens.len(),
            forall|j: int| 0 <= j < i ==> !is_binary_operator(#[trigger] token_views(tokens@)[j]),
        decreases tokens.len() - i,
    {
        let found = match &tokens[i] {
            Token::Not => false,
            token => match OperatorType::from(token) {
                OperatorType::Absent => false,
                _ => true,
            },
        };
        if found {
            assert(is_binary_operator(token_views(tokens@)[i as int]));
            return true;
        }
        i = i + 1;
    }
    false
}

/// Whether a logical operator stands among the tokens.
pub fn contains_logical_operator(tokens: &Vec<Token>) -> (r: bool)
    ensures
        r == has_logical_operator(token_views(tokens@)),
{
    let mut i: usize = 0;
    while i < tokens.len()
        invariant
            i <= tokens.len(),
            forall|j: int| 0 <= j < i ==> !is_logical(#[trigger] token_views(tokens@)[j]),
        decreases tokens.len() - i,
    {
        let found = match &tokens[i] {
            Token::And => true,
            Token::Or => true,
            _ => false,
        };
        if found {
            assert(is_logical(token_views(tokens@)[i as int]));
            return true;
        }
        i = i + 1;
    }
    false
}

/// The place of the first colon from `start` on; the number of tokens
/// where there is none.
pub fn find_colon(tokens: &Vec<Token>, start: usize) -> (r: usize)
    requires
        start <= tokens.len(),
    ensures
        r == colon_index(token_views(tokens@), start as int),
        start <= r <= tokens.len(),
{
    let mut i: usize = start;
    while i < tokens.len()
        invariant
            start <= i <= tokens.len(),
            colon_index(token_views(tokens@), start as int) == colon_index(
                token_views(tokens@),
                i as int,
            ),
        decreases tokens.len() - i,
    {
        let found = match &tokens[i] {
            Token::Colon => true,
            _ => false,
        };
        assert(token_views(tokens@)[i as int] == tokens@[i as int]@);
        if found {
            return i;
        }
        i = i + 1;
    }
    i
}

/// The place, from `start` on, of the first `elif`, `else` or `end` that
/// belongs to no nested block.
pub fn find_sibling(tokens: &Vec<Token>, start: usize) -> (r: Option<usize>)
    requires
        start <= tokens.len(),
    ensures
        match sibling_index(token_views(tokens@), start as int, 0) {
            Some(k) => r == Some(k as usize) && start <= k < tokens.len(),
            None => r.is_none(),
        },
{
    let mut i: usize = start;
    let mut depth: usize = 0;
    while i < tokens.len()
        invariant
            start <= i <= tokens.len(),
            depth <= i,
            sibling_index(token_views(tokens@), start as int, 0) == sibling_index(
                token_views(tokens@),
                i as int,
                depth as int,
            ),
        decreases tokens.len() - i,
    {
        assert(token_views(tokens@)[i as int] == tokens@[i as int]@);
        match &tokens[i] {
            Token::Keyword(Keyword::Elif) => {
                if depth == 0 {
                    return Some(i);
                }
            },
            Token::Keyword(Keyword::Else) => {
                if depth == 0 {
                    return Some(i);
                }
            },
            Token::Keyword(Keyword::End) => {
                if depth == 0 {
                    return Some(i);
                }
                depth = depth - 1;
            },
            Token::Keyword(Keyword::If) => {
                depth = depth + 1;
            },
            Token::Keyword(Keyword::While) => {
                depth = depth + 1;
            },
            Token::Keyword(Keyword::For) => {
                depth = depth + 1;
            },
            Token::Keyword(Keyword::Fn) => {
                depth = depth + 1;
            },
            _ => {},
        }
        i = i + 1;
    }
    None
}

/// The trees of a run of tokens that are all literals or names.
pub proof fn lemma_leaves_prefix(tokens: Seq<TokenView>, k: int)
    requires
        0 <= k <= tokens.len(),
        leaves(tokens.subrange(0, k)).is_none(),
    ensures
        leaves(tokens).is_none(),
    decreases tokens.len(),
{
    if k == tokens.len() {
        assert(tokens.subrange(0, k) =~= tokens);
    } else {
        assert(tokens.drop_last().subrange(0, k) =~= tokens.subrange(0, k));
        lemma_leaves_prefix(tokens.drop_last(), k);
    }
}

/// An `if`: its parts as an `if` node.
pub open spec fn build_if(tokens: Seq<TokenView>, vars: Map<Seq<char>, VarType>) -> Outcome<Ast> {
    as_if(build_branch(tokens, vars))
}

/// An `elif`: its parts as an `elif` node.
pub open spec fn build_elif(tokens: Seq<TokenView>, vars: Map<Seq<char>, VarType>) -> Outcome<Ast> {
    as_elif(build_branch(tokens, vars))
}

/// An operator before what the remaining tokens build.
pub open spec fn build_unary(tokens: Seq<TokenView>, vars: Map<Seq<char>, VarType>) -> Outcome<
    Ast,
> {
    if tokens.len() < 2 {
        failed(CompileError::Parse, vars)
    } else {
        as_unary(token_operator(tokens[0]), build(tokens.skip(1), vars))
    }
}

} // verus!
