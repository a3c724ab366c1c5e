//! What holds of every tree that building leaves behind: no type is left
//! `auto`, no operator is missing and no placeholder node remains.

use crate::error::CompileError;
use crate::lexer::{Keyword, TokenView};
use crate::nodes::{leaf_ast, render, render_arguments, render_body, render_parameters, Ast};
use crate::nodes::binary_expression::{
    binds_first, empty_state, expr_run, expr_step, is_binary_operator, parse_expression,
    reduce_before, reduce_once, reduce_to_parenthesis, ExprState,
};
use crate::parser::{keyword_type, lemma_segment_bounds, segment, OperatorType, VarType};
use crate::syntax::{
    build, build_branch, build_chain, build_condition, build_else, build_function, build_other,
    build_statements, build_variable, build_while, closing_parenthesis, colon_index,
    expression_type, is_parameter_keyword, is_type_keyword, leaves,
    lemma_closing_parenthesis_bounds, lemma_colon_index_bounds, lemma_parameters_from_bounds,
    lemma_sibling_index_bounds, no_parameters, parameters_from, sibling_index, signature_of,
    statement_count, Parameters,
};
use vstd::prelude::*;

verus! {

/// Whether a type is one that a value can have: neither `auto` nor the
/// type of nothing.
pub open spec fn is_value_type(t: VarType) -> bool {
    t != VarType::Auto && t != VarType::Void
}

/// Whether a tree is fully resolved. Every name declared in it has a
/// value type, every parameter too, no return type is `auto`, every
/// expression has its operator, a function has as many parameter names as
/// parameter types, and the placeholder node occurs nowhere.
pub open spec fn is_resolved(ast: Ast) -> bool
    decreases ast,
{
    match ast {
        Ast::Int(_, t) => is_value_type(t),
        Ast::UInt(_, t) => is_value_type(t),
        Ast::Float(_, t) => is_value_type(t),
        Ast::Str(_, t) => is_value_type(t),
        Ast::VariableCall(_) => true,
        Ast::VariableDeclaration(_, t) => is_value_type(t),
        Ast::VariableInitialization(_, t, value) => is_value_type(t) && is_resolved(*value),
        Ast::Unary(op, operand) => op != OperatorType::Absent && is_resolved(*operand),
        Ast::Binary(op, left, right) => op != OperatorType::Absent && is_resolved(*left)
            && is_resolved(*right),
        Ast::If(condition, body, next) => is_resolved(*condition) && all_resolved(body) && (
        match next {
            Some(e) => is_resolved(*e),
            None => true,
        }),
        Ast::Elif(condition, body, next) => is_resolved(*condition) && all_resolved(body) && (
        match next {
            Some(e) => is_resolved(*e),
            None => true,
        }),
        Ast::Else(body) => all_resolved(body),
        Ast::While(condition, body) => is_resolved(*condition) && all_resolved(body),
        Ast::FunctionDefinition(_, names, types, return_type, body) => names.len() == types.len()
            && all_value_types(types) && return_type != VarType::Auto && all_resolved(body),
        Ast::FunctionCall(_, args) => all_resolved(args),
        Ast::Empty => false,
    }
}

/// Whether every tree of a list is fully resolved.
pub open spec fn all_resolved(trees: Seq<Ast>) -> bool
    decreases trees,
{
    forall|i: int| 0 <= i < trees.len() ==> is_resolved(#[trigger] trees[i])
}

/// Whether every type of a list is one that a value can have.
pub open spec fn all_value_types(types: Seq<VarType>) -> bool {
    forall|i: int| 0 <= i < types.len() ==> is_value_type(#[trigger] types[i])
}

/// Whether the two stacks of the expression parser hold only resolved
/// operands, and only parentheses and operators.
pub open spec fn stacks_resolved(state: ExprState) -> bool {
    &&& all_resolved(state.operands)
    &&& forall|i: int|
        0 <= i < state.operators.len() ==> {
            let t = #[trigger] state.operators[i];
            t == TokenView::LPar || t == TokenView::Not || is_binary_operator(t)
        }
}

/// The tree of a literal or a name is resolved.
pub proof fn lemma_leaf_resolved(token: TokenView)
    ensures
        match leaf_ast(token) {
            Some(ast) => is_resolved(ast),
            None => true,
        },
{
}

/// Applying an operator keeps the stacks resolved.
proof fn lemma_reduce_once_resolved(state: ExprState)
    requires
        stacks_resolved(state),
        state.operators.len() > 0,
        state.operators.last() != TokenView::LPar,
    ensures
        match reduce_once(state) {
            Some(next) => stacks_resolved(next) && next.operators.len() < state.operators.len(),
            None => true,
        },
{
    match reduce_once(state) {
        Some(next) => {
            let top = state.operators.last();
            assert(top == state.operators[state.operators.len() - 1]);
            assert forall|i: int| 0 <= i < next.operands.len() implies is_resolved(
                #[trigger] next.operands[i],
            ) by {
                if i < next.operands.len() - 1 {
                    assert(next.operands[i] == state.operands[i]);
                } else {
                    assert(is_resolved(state.operands[state.operands.len() - 1]));
                    if top != TokenView::Not {
                        assert(is_resolved(state.operands[state.operands.len() - 2]));
                    }
                }
            }
            assert forall|i: int| 0 <= i < next.operators.len() implies {
                let t = #[trigger] next.operators[i];
                t == TokenView::LPar || t == TokenView::Not || is_binary_operator(t)
            } by {
                assert(next.operators[i] == state.operators[i]);
            }
        },
        None => {},
    }
}

/// Applying the operators that bind first keeps the stacks resolved.
proof fn lemma_reduce_before_resolved(state: ExprState, incoming: TokenView)
    requires
        stacks_resolved(state),
    ensures
        match reduce_before(state, incoming) {
            Some(next) => stacks_resolved(next),
            None => true,
        },
    decreases state.operators.len(),
{
    if state.operators.len() > 0 && binds_first(state.operators.last(), incoming) {
        lemma_reduce_once_resolved(state);
        match reduce_once(state) {
            Some(next) => {
                lemma_reduce_before_resolved(next, incoming);
            },
            None => {},
        }
    }
}

/// Applying the operators down to a parenthesis keeps the stacks resolved.
proof fn lemma_reduce_to_parenthesis_resolved(state: ExprState)
    requires
        stacks_resolved(state),
    ensures
        match reduce_to_parenthesis(state) {
            Some(next) => stacks_resolved(next),
            None => true,
        },
    decreases state.operators.len(),
{
    if state.operators.len() > 0 && state.operators.last() != TokenView::LPar {
        lemma_reduce_once_resolved(state);
        match reduce_once(state) {
            Some(next) => {
                lemma_reduce_to_parenthesis_resolved(next);
            },
            None => {},
        }
    }
}

/// Reading one token keeps the stacks resolved.
proof fn lemma_expr_step_resolved(state: ExprState, token: TokenView)
    requires
        stacks_resolved(state),
    ensures
        match expr_step(state, token) {
            Some(next) => stacks_resolved(next),
            None => true,
        },
{
    if token == TokenView::LPar || token == TokenView::Not {
        let next = expr_step(state, token).unwrap();
        assert forall|i: int| 0 <= i < next.operators.len() implies {
            let t = #[trigger] next.operators[i];
            t == TokenView::LPar || t == TokenView::Not || is_binary_operator(t)
        } by {
            if i < state.operators.len() {
                assert(next.operators[i] == state.operators[i]);
            }
        }
    } else if leaf_ast(token).is_some() {
        lemma_leaf_resolved(token);
        let next = expr_step(state, token).unwrap();
        assert forall|i: int| 0 <= i < next.operands.len() implies is_resolved(
            #[trigger] next.operands[i],
        ) by {
            if i < state.operands.len() {
                assert(next.operands[i] == state.operands[i]);
            }
        }
    } else if is_binary_operator(token) {
        lemma_reduce_before_resolved(state, token);
        match reduce_before(state, token) {
            Some(reduced) => {
                let next = expr_step(state, token).unwrap();
                assert forall|i: int| 0 <= i < next.operators.len() implies {
                    let t = #[trigger] next.operators[i];
                    t == TokenView::LPar || t == TokenView::Not || is_binary_operator(t)
                } by {
                    if i < reduced.operators.len() {
                        assert(next.operators[i] == reduced.operators[i]);
                    }
                }
            },
            None => {},
        }
    } else if token == TokenView::RPar {
        lemma_reduce_to_parenthesis_resolved(state);
        match reduce_to_parenthesis(state) {
            Some(reduced) => {
                if reduced.operators.len() > 0 {
                    let next = expr_step(state, token).unwrap();
                    assert forall|i: int| 0 <= i < next.operators.len() implies {
                        let t = #[trigger] next.operators[i];
                        t == TokenView::LPar || t == TokenView::Not || is_binary_operator(t)
                    } by {
                        assert(next.operators[i] == reduced.operators[i]);
                    }
                }
            },
            None => {},
        }
    }
}

/// Reading the rest of the tokens keeps the stacks resolved.
proof fn lemma_expr_run_resolved(tokens: Seq<TokenView>, i: int, state: ExprState)
    requires
        stacks_resolved(state),
    ensures
        match expr_run(tokens, i, state) {
            Some(next) => stacks_resolved(next),
            None => true,
        },
    decreases tokens.len() - i,
{
    if 0 <= i < tokens.len() {
        lemma_expr_step_resolved(state, tokens[i]);
        match expr_step(state, tokens[i]) {
            Some(next) => {
                lemma_expr_run_resolved(tokens, i + 1, next);
            },
            None => {},
        }
    }
}

/// The tree of an infix expression is resolved: each of its operators is
/// one, down to its literals and names.
pub proof fn lemma_parse_expression_resolved(tokens: Seq<TokenView>)
    ensures
        match parse_expression(tokens) {
            Ok(ast) => is_resolved(ast),
            Err(_) => true,
        },
{
    lemma_expr_run_resolved(tokens, 0, empty_state());
    match expr_run(tokens, 0, empty_state()) {
        Some(state) => {
            lemma_reduce_to_parenthesis_resolved(state);
        },
        None => {},
    }
}

/// The trees of a run of literals and names are resolved.
proof fn lemma_leaves_resolved(tokens: Seq<TokenView>)
    ensures
        match leaves(tokens) {
            Some(trees) => all_resolved(trees),
            None => true,
        },
    decreases tokens.len(),
{
    if tokens.len() > 0 {
        lemma_leaves_resolved(tokens.drop_last());
        lemma_leaf_resolved(tokens.last());
        match (leaves(tokens.drop_last()), leaf_ast(tokens.last())) {
            (Some(before), Some(leaf)) => {
                let trees = before.push(leaf);
                assert forall|i: int| 0 <= i < trees.len() implies is_resolved(
                    #[trigger] trees[i],
                ) by {
                    if i < before.len() {
                        assert(trees[i] == before[i]);
                    }
                }
            },
            _ => {},
        }
    }
}

/// A declaration or an initialization that builds binds its name to a
/// value type, never to `auto`; the type of an `auto` is the type of its
/// value; and the name is bound to that very type afterwards.
pub proof fn lemma_variable_resolved(tokens: Seq<TokenView>, vars: Map<Seq<char>, VarType>)
    ensures
        match build_variable(tokens, vars).result {
            Ok(Ast::VariableDeclaration(name, t)) => is_value_type(t) && build_variable(
                tokens,
                vars,
            ).vars == vars.insert(name, t),
            Ok(Ast::VariableInitialization(name, t, value)) => is_value_type(t) && is_resolved(
                *value,
            ) && build_variable(tokens, vars).vars == vars.insert(name, t) && (tokens[0]
                == TokenView::Keyword(Keyword::Auto) ==> expression_type(*value, vars) == Ok::<
                VarType,
                CompileError,
            >(t)),
            Ok(_) => false,
            Err(_) => build_variable(tokens, vars).vars == vars,
        },
{
    if tokens.len() >= 4 {
        lemma_parse_expression_resolved(tokens.skip(3));
        lemma_leaf_resolved(tokens[3]);
    }
}

/// The parameters that are read have value types, one for each name.
proof fn lemma_parameters_resolved(
    tokens: Seq<TokenView>,
    i: int,
    so_far: Parameters,
    vars: Map<Seq<char>, VarType>,
)
    requires
        so_far.names.len() == so_far.types.len(),
        all_value_types(so_far.types),
    ensures
        match parameters_from(tokens, i, so_far, vars).result {
            Ok(p) => p.names.len() == p.types.len() && all_value_types(p.types),
            Err(_) => true,
        },
    decreases tokens.len() - i,
{
    if i < 0 || i >= tokens.len() {
    } else if tokens[i] == TokenView::RPar {
    } else if i + 2 >= tokens.len() {
    } else {
        match (tokens[i], tokens[i + 1], tokens[i + 2]) {
            (
                TokenView::Identifier(name),
                TokenView::Colon,
                TokenView::Keyword(k),
            ) => if is_parameter_keyword(k) {
                let next = Parameters {
                    names: so_far.names.push(name),
                    types: so_far.types.push(keyword_type(k)),
                    next: so_far.next,
                };
                assert forall|j: int| 0 <= j < next.types.len() implies is_value_type(
                    #[trigger] next.types[j],
                ) by {
                    if j < so_far.types.len() {
                        assert(next.types[j] == so_far.types[j]);
                    }
                }
                lemma_parameters_resolved(tokens, i + 3, next, vars.insert(name, keyword_type(k)));
            },
            _ => {},
        }
    }
}

/// Every tree that building leaves behind is fully resolved: whatever the
/// tokens and the bindings, a statement that builds gives a tree in which
/// no type is left `auto`, no operator is missing and no placeholder node
/// remains.
pub proof fn lemma_build_resolved(tokens: Seq<TokenView>, vars: Map<Seq<char>, VarType>)
    ensures
        match build(tokens, vars).result {
            Ok(ast) => is_resolved(ast),
            Err(_) => true,
        },
    decreases tokens.len(), 5int,
{
    if tokens.len() == 0 {
    } else if tokens.len() == 1 {
        lemma_leaf_resolved(tokens[0]);
    } else {
        match tokens[0] {
            TokenView::Keyword(k) => if is_type_keyword(k) {
                lemma_variable_resolved(tokens, vars);
            } else if k == Keyword::Fn {
                lemma_function_resolved(tokens, vars);
            } else if k == Keyword::If {
                lemma_branch_resolved(tokens, vars);
            } else if k == Keyword::Elif {
                lemma_branch_resolved(tokens, vars);
            } else if k == Keyword::Else {
                lemma_else_resolved(tokens, vars);
            } else if k == Keyword::While {
                lemma_while_resolved(tokens, vars);
            } else {
                lemma_other_resolved(tokens, vars);
            },
            TokenView::Identifier(_) => if tokens[1] == TokenView::LPar {
                if tokens.len() >= 3 {
                    lemma_leaves_resolved(tokens.subrange(2, tokens.len() - 1));
                }
            } else {
                lemma_parse_expression_resolved(tokens);
            },
            TokenView::Not => {
                lemma_build_resolved(tokens.skip(1), vars);
            },
            _ => {
                lemma_other_resolved(tokens, vars);
            },
        }
    }
}

/// What the last two statement forms build is resolved.
proof fn lemma_other_resolved(tokens: Seq<TokenView>, vars: Map<Seq<char>, VarType>)
    ensures
        match build_other(tokens, vars).result {
            Ok(ast) => is_resolved(ast),
            Err(_) => true,
        },
    decreases tokens.len(), 4int,
{
    lemma_parse_expression_resolved(tokens);
    if tokens.len() > 0 && tokens[0] == TokenView::LPar {
        match closing_parenthesis(tokens, 1, 1) {
            Some(close) => {
                lemma_closing_parenthesis_bounds(tokens, 1, 1);
                lemma_build_resolved(tokens.subrange(1, close), vars);
            },
            None => {},
        }
    }
}

/// What a condition builds is resolved.
proof fn lemma_condition_resolved(tokens: Seq<TokenView>, vars: Map<Seq<char>, VarType>)
    ensures
        match build_condition(tokens, vars).result {
            Ok(ast) => is_resolved(ast),
            Err(_) => true,
        },
    decreases tokens.len(), 6int,
{
    lemma_parse_expression_resolved(tokens);
    lemma_build_resolved(tokens, vars);
}

/// The statements that a body builds are resolved.
pub proof fn lemma_statements_resolved(
    body: Seq<TokenView>,
    k: int,
    vars: Map<Seq<char>, VarType>,
)
    ensures
        match build_statements(body, k, vars).result {
            Ok(trees) => all_resolved(trees),
            Err(_) => true,
        },
    decreases body.len(), 10 + statement_count(body) - k,
{
    match segment(body) {
        Err(_) => {},
        Ok(statements) => if k < 0 || k >= statements.len() {
        } else {
            lemma_segment_bounds(body);
            lemma_build_resolved(statements[k], vars);
            let first = build(statements[k], vars);
            match first.result {
                Err(_) => {},
                Ok(ast) => {
                    lemma_statements_resolved(body, k + 1, first.vars);
                    match build_statements(body, k + 1, first.vars).result {
                        Err(_) => {},
                        Ok(rest) => {
                            let trees = seq![ast] + rest;
                            assert forall|i: int| 0 <= i < trees.len() implies is_resolved(
                                #[trigger] trees[i],
                            ) by {
                                if i > 0 {
                                    assert(trees[i] == rest[i - 1]);
                                }
                            }
                        },
                    }
                },
            }
        },
    }
}

/// The parts that an `if` or `elif` builds are resolved.
proof fn lemma_branch_resolved(tokens: Seq<TokenView>, vars: Map<Seq<char>, VarType>)
    ensures
        match build_branch(tokens, vars).result {
            Ok(b) => is_resolved(b.condition) && all_resolved(b.body) && (match b.next {
                Some(e) => is_resolved(*e),
                None => true,
            }),
            Err(_) => true,
        },
    decreases tokens.len(), 4int,
{
    let colon = colon_index(tokens, 1);
    if tokens.len() < 2 || colon >= tokens.len() {
    } else {
        lemma_colon_index_bounds(tokens, 1);
        lemma_sibling_index_bounds(tokens, colon + 1, 0);
        lemma_condition_resolved(tokens.subrange(1, colon), vars);
        let head = build_condition(tokens.subrange(1, colon), vars);
        match head.result {
            Err(_) => {},
            Ok(_) => match sibling_index(tokens, colon + 1, 0) {
                None => {},
                Some(k) => {
                    lemma_statements_resolved(tokens.subrange(colon + 1, k), 0, head.vars);
                    let inner = build_statements(tokens.subrange(colon + 1, k), 0, head.vars);
                    match inner.result {
                        Err(_) => {},
                        Ok(_) => {
                            lemma_chain_resolved(tokens.skip(k), inner.vars);
                        },
                    }
                },
            },
        }
    }
}

/// What the rest of an `if` chain builds is resolved.
proof fn lemma_chain_resolved(rest: Seq<TokenView>, vars: Map<Seq<char>, VarType>)
    ensures
        match build_chain(rest, vars).result {
            Ok(Some(e)) => is_resolved(*e),
            _ => true,
        },
    decreases rest.len(), 6int,
{
    if rest.len() == 0 {
    } else if rest[0] == TokenView::Keyword(Keyword::Elif) {
        lemma_branch_resolved(rest, vars);
    } else if rest[0] == TokenView::Keyword(Keyword::Else) {
        lemma_else_resolved(rest, vars);
    }
}

/// What an `else` builds is resolved.
proof fn lemma_else_resolved(tokens: Seq<TokenView>, vars: Map<Seq<char>, VarType>)
    ensures
        match build_else(tokens, vars).result {
            Ok(ast) => is_resolved(ast),
            Err(_) => true,
        },
    decreases tokens.len(), 4int,
{
    let start: int = if tokens.len() > 1 && tokens[1] == TokenView::Colon {
        2
    } else {
        1
    };
    if tokens.len() >= 2 && start <= tokens.len() - 1 {
        lemma_statements_resolved(tokens.subrange(start, tokens.len() - 1), 0, vars);
    }
}

/// What a `while` builds is resolved.
proof fn lemma_while_resolved(tokens: Seq<TokenView>, vars: Map<Seq<char>, VarType>)
    ensures
        match build_while(tokens, vars).result {
            Ok(ast) => is_resolved(ast),
            Err(_) => true,
        },
    decreases tokens.len(), 4int,
{
    let colon = colon_index(tokens, 1);
    if tokens.len() < 2 || colon >= tokens.len() || tokens.last() != TokenView::Keyword(
        Keyword::End,
    ) {
    } else {
        lemma_colon_index_bounds(tokens, 1);
        lemma_condition_resolved(tokens.subrange(1, colon), vars);
        let head = build_condition(tokens.subrange(1, colon), vars);
        lemma_statements_resolved(tokens.subrange(colon + 1, tokens.len() - 1), 0, head.vars);
    }
}

/// What a function definition builds is resolved.
proof fn lemma_function_resolved(tokens: Seq<TokenView>, vars: Map<Seq<char>, VarType>)
    ensures
        match build_function(tokens, vars).result {
            Ok(ast) => is_resolved(ast),
            Err(_) => true,
        },
    decreases tokens.len(), 4int,
{
    let head = signature_of(tokens, vars);
    match head.result {
        Err(_) => {},
        Ok(s) => {
            lemma_parameters_from_bounds(tokens, 3, no_parameters(), vars);
            lemma_parameters_resolved(tokens, 3, no_parameters(), vars);
            if s.body_start <= tokens.len() - 1 {
                lemma_statements_resolved(
                    tokens.subrange(s.body_start, tokens.len() - 1),
                    0,
                    head.vars,
                );
            }
        },
    }
}

/// Whether a tree holds no call of `print`, the one call that is rewritten
/// when it is written out.
pub open spec fn calls_no_print(ast: Ast) -> bool
    decreases ast,
{
    match ast {
        Ast::VariableInitialization(_, _, value) => calls_no_print(*value),
        Ast::Unary(_, operand) => calls_no_print(*operand),
        Ast::Binary(_, left, right) => calls_no_print(*left) && calls_no_print(*right),
        Ast::If(condition, body, next) => calls_no_print(*condition) && none_calls_print(body) && (
        match next {
            Some(e) => calls_no_print(*e),
            None => true,
        }),
        Ast::Elif(condition, body, next) => calls_no_print(*condition) && none_calls_print(body)
            && (match next {
            Some(e) => calls_no_print(*e),
            None => true,
        }),
        Ast::Else(body) => none_calls_print(body),
        Ast::While(condition, body) => calls_no_print(*condition) && none_calls_print(body),
        Ast::FunctionDefinition(_, _, _, _, body) => none_calls_print(body),
        Ast::FunctionCall(name, args) => name != "print"@ && none_calls_print(args),
        _ => true,
    }
}

/// Whether no tree of a list holds a call of `print`.
pub open spec fn none_calls_print(trees: Seq<Ast>) -> bool
    decreases trees,
{
    forall|i: int| 0 <= i < trees.len() ==> calls_no_print(#[trigger] trees[i])
}

/// A parameter list with as many names as types, all of them value types,
/// can be written out.
proof fn lemma_parameters_render(names: Seq<Seq<char>>, types: Seq<VarType>)
    requires
        names.len() == types.len(),
        all_value_types(types),
    ensures
        render_parameters(names, types).is_some(),
    decreases names.len(),
{
    if names.len() > 0 {
        assert forall|i: int| 0 <= i < types.drop_last().len() implies is_value_type(
            #[trigger] types.drop_last()[i],
        ) by {
            assert(types.drop_last()[i] == types[i]);
        }
        lemma_parameters_render(names.drop_last(), types.drop_last());
        assert(is_value_type(types[types.len() - 1]));
    }
}

/// A tree that is fully resolved and holds no call of `print` can always
/// be written out, whatever the bindings: with what building leaves
/// behind, writing out can only fail where a `print` cannot be rewritten.
pub proof fn lemma_resolved_renders(ast: Ast, vars: Map<Seq<char>, VarType>)
    requires
        is_resolved(ast),
        calls_no_print(ast),
    ensures
        render(ast, vars).is_some(),
    decreases ast, 0int,
{
    match ast {
        Ast::VariableInitialization(_, _, value) => {
            lemma_resolved_renders(*value, vars);
        },
        Ast::Unary(_, operand) => {
            lemma_resolved_renders(*operand, vars);
        },
        Ast::Binary(_, left, right) => {
            lemma_resolved_renders(*left, vars);
            lemma_resolved_renders(*right, vars);
        },
        Ast::If(condition, body, next) => {
            lemma_resolved_renders(*condition, vars);
            lemma_body_renders(body, vars);
            match next {
                Some(e) => {
                    lemma_resolved_renders(*e, vars);
                },
                None => {},
            }
        },
        Ast::Elif(condition, body, next) => {
            lemma_resolved_renders(*condition, vars);
            lemma_body_renders(body, vars);
            match next {
                Some(e) => {
                    lemma_resolved_renders(*e, vars);
                },
                None => {},
            }
        },
        Ast::Else(body) => {
            lemma_body_renders(body, vars);
        },
        Ast::While(condition, body) => {
            lemma_resolved_renders(*condition, vars);
            lemma_body_renders(body, vars);
        },
        Ast::FunctionDefinition(_, names, types, _, body) => {
            lemma_parameters_render(names, types);
            lemma_body_renders(body, vars);
        },
        Ast::FunctionCall(_, args) => {
            lemma_arguments_render(args, vars);
        },
        _ => {},
    }
}

/// A body of resolved statements without a call of `print` can be written
/// out.
pub proof fn lemma_body_renders(body: Seq<Ast>, vars: Map<Seq<char>, VarType>)
    requires
        all_resolved(body),
        none_calls_print(body),
    ensures
        render_body(body, vars).is_some(),
    decreases body, 1int,
{
    if body.len() > 0 {
        let before = body.drop_last();
        assert forall|i: int| 0 <= i < before.len() implies is_resolved(#[trigger] before[i])
            && calls_no_print(before[i]) by {
            assert(before[i] == body[i]);
        }
        lemma_body_renders(before, vars);
        assert(is_resolved(body[body.len() - 1]));
        assert(calls_no_print(body[body.len() - 1]));
        lemma_resolved_renders(body.last(), vars);
    }
}

/// A list of resolved arguments without a call of `print` can be written
/// out.
pub proof fn lemma_arguments_render(args: Seq<Ast>, vars: Map<Seq<char>, VarType>)
    requires
        all_resolved(args),
        none_calls_print(args),
    ensures
        render_arguments(args, vars).is_some(),
    decreases args, 1int,
{
    if args.len() > 0 {
        let before = args.drop_last();
        assert forall|i: int| 0 <= i < before.len() implies is_resolved(#[trigger] before[i])
            && calls_no_print(before[i]) by {
            assert(before[i] == args[i]);
        }
        lemma_arguments_render(before, vars);
        assert(is_resolved(args[args.len() - 1]));
        assert(calls_no_print(args[args.len() - 1]));
        lemma_resolved_renders(args.last(), vars);
        if args.len() == 1 {
            assert(args[0] == args.last());
        }
    }
}

} // verus!
