use chc::error::CompileError;
use chc::lexer::{lexer, Keyword, Token};
use chc::nodes::binary_expression::NodeBinaryExpression;
use chc::nodes::control_flow::{
    create_condition, NodeElifStatement, NodeElseStatement, NodeIfStatement, NodeWhileLoop,
};
use chc::nodes::functions::{generate_function, get_call, NodeFunctionCall, NodeFunctionDefinition};
use chc::nodes::unary_expression::NodeUnaryExpression;
use chc::nodes::values::{NodeValueFloat, NodeValueInt, NodeValueString, NodeValueUInt};
use chc::nodes::variables::{
    generate_variable, NodeVariableCall, NodeVariableDeclaration, NodeVariableInitialization,
};
use chc::nodes::{get_closing_rpar, Node};
use chc::parser::{variables_get, variables_insert, OperatorType, VarType, Variables};

fn statement(source: &str) -> Vec<Token> {
    let mut tokens = lexer(source).unwrap();
    tokens.pop();
    tokens
}

fn build(source: &str, variables: &mut Variables) -> Result<Node, CompileError> {
    Node::from(statement(source), variables)
}

fn number(value: u64) -> Node {
    Node::ValueUInt(NodeValueUInt::new(value, VarType::U8))
}

fn name(text: &str) -> Node {
    Node::VariableCall(NodeVariableCall { name: text.to_string() })
}

fn binary(operator: OperatorType, left: Node, right: Node) -> Node {
    Node::BinaryExpression(NodeBinaryExpression {
        left: Box::new(left),
        right: Box::new(right),
        operator,
    })
}

#[test]
fn one_token_builds_a_leaf() {
    let mut variables = Variables::new();
    assert_eq!(build("x", &mut variables), Ok(name("x")));
    assert_eq!(build("-5", &mut variables), Ok(Node::ValueInt(NodeValueInt::new(-5, VarType::I8))));
    assert_eq!(
        build("70000", &mut variables),
        Ok(Node::ValueUInt(NodeValueUInt::new(70000, VarType::U32)))
    );
    assert_eq!(
        build("2.5", &mut variables),
        Ok(Node::ValueFloat(NodeValueFloat::new("2.5".to_string(), VarType::F32)))
    );
    assert_eq!(
        build("\"hi\"", &mut variables),
        Ok(Node::ValueString(NodeValueString::new("\"hi\"".to_string(), VarType::Str)))
    );
}

#[test]
fn one_token_that_is_no_value_is_a_parse_error() {
    let mut variables = Variables::new();
    assert_eq!(build("+", &mut variables), Err(CompileError::Parse));
    assert_eq!(build("i32", &mut variables), Err(CompileError::Parse));
    assert_eq!(build("else", &mut variables), Err(CompileError::Parse));
    assert_eq!(Node::from(vec![], &mut variables), Err(CompileError::Parse));
    assert_eq!(Node::from_token(&Token::Colon), Err(CompileError::Parse));
    assert_eq!(get_call(&Token::Colon), Err(CompileError::Parse));
    assert_eq!(get_call(&Token::UInt8(3)), Ok(number(3)));
}

#[test]
fn a_type_and_a_name_build_a_declaration() {
    let mut variables = Variables::new();
    assert_eq!(
        build("f64 ratio", &mut variables),
        Ok(Node::VariableDeclaration(NodeVariableDeclaration {
            name: "ratio".to_string(),
            var_type: VarType::F64,
        }))
    );
    assert_eq!(variables_get(&variables, &"ratio".to_string()), Ok(VarType::F64));
}

#[test]
fn a_declaration_with_auto_is_a_type_error() {
    let mut variables = Variables::new();
    assert_eq!(build("auto x", &mut variables), Err(CompileError::Type));
}

#[test]
fn a_type_a_name_and_a_value_build_an_initialization() {
    let mut variables = Variables::new();
    assert_eq!(
        build("i32 x = 5", &mut variables),
        Ok(Node::VariableInitialization(NodeVariableInitialization {
            name: "x".to_string(),
            value: Box::new(number(5)),
            var_type: VarType::I32,
        }))
    );
    assert_eq!(variables_get(&variables, &"x".to_string()), Ok(VarType::I32));
    assert_eq!(
        build("i64 y = x * 2 + 1", &mut variables),
        Ok(Node::VariableInitialization(NodeVariableInitialization {
            name: "y".to_string(),
            value: Box::new(binary(
                OperatorType::Plus,
                binary(OperatorType::Mul, name("x"), number(2)),
                number(1)
            )),
            var_type: VarType::I64,
        }))
    );
    assert_eq!(variables_get(&variables, &"y".to_string()), Ok(VarType::I64));
}

#[test]
fn auto_takes_the_type_of_its_value() {
    let mut variables = Variables::new();
    let first = build("auto x = 5", &mut variables).unwrap();
    assert_eq!(
        first,
        Node::VariableInitialization(NodeVariableInitialization {
            name: "x".to_string(),
            value: Box::new(number(5)),
            var_type: VarType::U8,
        })
    );
    assert_eq!(variables_get(&variables, &"x".to_string()), Ok(VarType::U8));
    let second = build("auto y = x + 1.5", &mut variables).unwrap();
    match second {
        Node::VariableInitialization(node) => {
            assert_eq!(node.var_type, VarType::F32);
            assert_ne!(node.var_type, VarType::Auto);
        }
        other => panic!("{:?}", other),
    }
    assert_eq!(variables_get(&variables, &"y".to_string()), Ok(VarType::F32));
    let third = build("auto z = -5", &mut variables).unwrap();
    match third {
        Node::VariableInitialization(node) => assert_eq!(node.var_type, VarType::I8),
        other => panic!("{:?}", other),
    }
    let fourth = build("auto s = \"text\"", &mut variables).unwrap();
    match fourth {
        Node::VariableInitialization(node) => assert_eq!(node.var_type, VarType::Str),
        other => panic!("{:?}", other),
    }
}

#[test]
fn auto_of_an_unbound_name_is_a_type_error() {
    let mut variables = Variables::new();
    assert_eq!(build("auto y = x", &mut variables), Err(CompileError::Type));
    assert_eq!(build("auto y = x + 1", &mut variables), Err(CompileError::Type));
    assert_eq!(variables_get(&variables, &"y".to_string()), Err(CompileError::Type));
}

#[test]
fn malformed_variables_are_parse_errors() {
    let mut variables = Variables::new();
    assert_eq!(build("i32 5", &mut variables), Err(CompileError::Parse));
    assert_eq!(build("i32 x =", &mut variables), Err(CompileError::Parse));
    assert_eq!(build("i32 x 5 6", &mut variables), Err(CompileError::Parse));
    assert_eq!(build("i32 x = +", &mut variables), Err(CompileError::Parse));
    assert_eq!(build("i32 x = 1 +", &mut variables), Err(CompileError::Parse));
    assert_eq!(generate_variable(&statement("x = 5"), &mut variables), Err(CompileError::Parse));
    assert_eq!(generate_variable(&statement("while x"), &mut variables), Err(CompileError::Parse));
    assert_eq!(generate_variable(&vec![], &mut variables), Err(CompileError::Parse));
}

#[test]
fn a_name_before_parentheses_builds_a_call() {
    let mut variables = Variables::new();
    assert_eq!(
        build("add(a, 2)", &mut variables),
        Ok(Node::FunctionCall(NodeFunctionCall {
            name: "add".to_string(),
            args: vec![Box::new(name("a")), Box::new(number(2))],
        }))
    );
    assert_eq!(
        build("tick()", &mut variables),
        Ok(Node::FunctionCall(NodeFunctionCall { name: "tick".to_string(), args: vec![] }))
    );
}

#[test]
fn malformed_calls_are_parse_errors() {
    let mut variables = Variables::new();
    assert_eq!(build("add(a", &mut variables), Err(CompileError::Parse));
    assert_eq!(build("add(", &mut variables), Err(CompileError::Parse));
    assert_eq!(build("add(a + b)", &mut variables), Err(CompileError::Parse));
    assert_eq!(build("add(a) + 1", &mut variables), Err(CompileError::Parse));
    assert_eq!(NodeFunctionCall::new(&statement("( a )")), Err(CompileError::Parse));
}

#[test]
fn a_name_before_anything_else_builds_an_expression() {
    let mut variables = Variables::new();
    assert_eq!(
        build("x = x + 1", &mut variables),
        Ok(binary(OperatorType::Eq, name("x"), binary(OperatorType::Plus, name("x"), number(1))))
    );
    assert_eq!(build("x y", &mut variables), Err(CompileError::Parse));
}

#[test]
fn an_operator_anywhere_builds_an_expression() {
    let mut variables = Variables::new();
    assert_eq!(
        build("1 + x", &mut variables),
        Ok(binary(OperatorType::Plus, number(1), name("x")))
    );
    assert_eq!(
        build("( a + b ) * c", &mut variables),
        Ok(binary(OperatorType::Mul, binary(OperatorType::Plus, name("a"), name("b")), name("c")))
    );
    assert_eq!(
        build("return a + b", &mut variables),
        Ok(binary(OperatorType::Plus, name("a"), name("b")))
    );
}

#[test]
fn parentheses_around_a_statement_are_stripped() {
    let mut variables = Variables::new();
    assert_eq!(build("( x )", &mut variables), Ok(name("x")));
    assert_eq!(build("( ( 7 ) )", &mut variables), Ok(number(7)));
    assert_eq!(build("( x", &mut variables), Err(CompileError::Parse));
    assert_eq!(build("( )", &mut variables), Err(CompileError::Parse));
    assert_eq!(get_closing_rpar(&statement("( ( a ) b ) c")), Some(5));
    assert_eq!(get_closing_rpar(&statement("( ( a )")), None);
}

#[test]
fn a_leading_not_builds_a_unary_expression() {
    let mut variables = Variables::new();
    assert_eq!(
        build("! done", &mut variables),
        Ok(Node::UnaryExpression(NodeUnaryExpression {
            operand: Box::new(name("done")),
            operator: OperatorType::Not,
        }))
    );
    assert_eq!(
        build("not a == b", &mut variables),
        Ok(Node::UnaryExpression(NodeUnaryExpression {
            operand: Box::new(binary(OperatorType::EqEq, name("a"), name("b"))),
            operator: OperatorType::Not,
        }))
    );
    assert_eq!(NodeUnaryExpression::from(&statement("!"), &mut variables), Err(CompileError::Parse));
}

#[test]
fn tokens_that_fit_no_form_are_a_parse_error() {
    let mut variables = Variables::new();
    assert_eq!(build("return x", &mut variables), Err(CompileError::Parse));
    assert_eq!(build(": :", &mut variables), Err(CompileError::Parse));
    assert_eq!(build("5 x", &mut variables), Err(CompileError::Parse));
    assert_eq!(build("end end", &mut variables), Err(CompileError::Parse));
}

#[test]
fn a_while_builds_a_loop() {
    let mut variables = Variables::new();
    assert_eq!(
        build("while i < 10:\n  i += 1\nend", &mut variables),
        Ok(Node::WhileLoop(NodeWhileLoop {
            condition: Box::new(binary(OperatorType::Lt, name("i"), number(10))),
            body: vec![Box::new(binary(OperatorType::PlusEq, name("i"), number(1)))],
        }))
    );
}

#[test]
fn malformed_loops_are_parse_errors() {
    let mut variables = Variables::new();
    assert_eq!(build("while i < 10\n  i += 1\nend", &mut variables), Err(CompileError::Parse));
    assert_eq!(
        NodeWhileLoop::from(&statement("while i < 10:\n  i += 1"), &mut variables),
        Err(CompileError::Parse)
    );
    assert_eq!(build("while :\n  x\nend", &mut variables), Err(CompileError::Parse));
}

#[test]
fn an_if_builds_its_whole_chain() {
    let mut variables = Variables::new();
    let source = "if a < b:\n  x\nelif a == b:\n  y\n  z\nelse:\n  w\nend";
    assert_eq!(
        build(source, &mut variables),
        Ok(Node::IfStatement(NodeIfStatement {
            condition: Box::new(binary(OperatorType::Lt, name("a"), name("b"))),
            body: vec![Box::new(name("x"))],
            else_statement: Some(Box::new(Node::ElifStatement(NodeElifStatement {
                condition: Box::new(binary(OperatorType::EqEq, name("a"), name("b"))),
                body: vec![Box::new(name("y")), Box::new(name("z"))],
                else_statement: Some(Box::new(Node::ElseStatement(NodeElseStatement {
                    body: vec![Box::new(name("w"))],
                }))),
            }))),
        }))
    );
}

#[test]
fn an_if_without_a_chain_has_no_else() {
    let mut variables = Variables::new();
    assert_eq!(
        build("if ok:\n  x\nend", &mut variables),
        Ok(Node::IfStatement(NodeIfStatement {
            condition: Box::new(name("ok")),
            body: vec![Box::new(name("x"))],
            else_statement: None,
        }))
    );
}

#[test]
fn the_chain_of_a_nested_if_stays_with_it() {
    let mut variables = Variables::new();
    let source = "if a:\n  if b:\n    x\n  else:\n    y\n  end\nelse:\n  z\nend";
    assert_eq!(
        build(source, &mut variables),
        Ok(Node::IfStatement(NodeIfStatement {
            condition: Box::new(name("a")),
            body: vec![Box::new(Node::IfStatement(NodeIfStatement {
                condition: Box::new(name("b")),
                body: vec![Box::new(name("x"))],
                else_statement: Some(Box::new(Node::ElseStatement(NodeElseStatement {
                    body: vec![Box::new(name("y"))],
                }))),
            }))],
            else_statement: Some(Box::new(Node::ElseStatement(NodeElseStatement {
                body: vec![Box::new(name("z"))],
            }))),
        }))
    );
}

#[test]
fn a_condition_with_a_logical_operator_is_one_expression() {
    let mut variables = Variables::new();
    assert_eq!(
        build("if a && b:\n  x\nend", &mut variables),
        Ok(Node::IfStatement(NodeIfStatement {
            condition: Box::new(binary(OperatorType::And, name("a"), name("b"))),
            body: vec![Box::new(name("x"))],
            else_statement: None,
        }))
    );
    assert_eq!(
        create_condition(&statement("f ( a ) or b"), &mut variables),
        Err(CompileError::Parse)
    );
    assert_eq!(
        create_condition(&statement("a or b"), &mut variables),
        Ok(Box::new(binary(OperatorType::Or, name("a"), name("b"))))
    );
    assert_eq!(
        create_condition(&statement("done"), &mut variables),
        Ok(Box::new(name("done")))
    );
}

#[test]
fn malformed_conditionals_fail() {
    let mut variables = Variables::new();
    assert_eq!(build("if a\n  x\nend", &mut variables), Err(CompileError::Parse));
    assert_eq!(
        NodeIfStatement::from(&statement("if a:\n  x\n"), &mut variables),
        Err(CompileError::Segmentation)
    );
    assert_eq!(
        NodeIfStatement::from(&statement("if a:\n  x\nend y"), &mut variables),
        Err(CompileError::Parse)
    );
    assert_eq!(
        NodeElseStatement::from(&statement("else:\n  x\n"), &mut variables),
        Err(CompileError::Parse)
    );
    assert_eq!(
        NodeElifStatement::from(&statement("elif a\n x\nend"), &mut variables),
        Err(CompileError::Parse)
    );
}

#[test]
fn a_leading_elif_or_else_builds_that_node() {
    let mut variables = Variables::new();
    assert_eq!(
        build("elif a:\n  x\nend", &mut variables),
        Ok(Node::ElifStatement(NodeElifStatement {
            condition: Box::new(name("a")),
            body: vec![Box::new(name("x"))],
            else_statement: None,
        }))
    );
    assert_eq!(
        build("else:\n  x\nend", &mut variables),
        Ok(Node::ElseStatement(NodeElseStatement { body: vec![Box::new(name("x"))] }))
    );
    assert_eq!(
        build("else\n  x\nend", &mut variables),
        Ok(Node::ElseStatement(NodeElseStatement { body: vec![Box::new(name("x"))] }))
    );
}

#[test]
fn a_function_binds_its_parameters_and_builds_its_body() {
    let mut variables = Variables::new();
    let source = "fn add(a: i32, b: i32) -> i32:\n  return a + b\nend";
    assert_eq!(
        build(source, &mut variables),
        Ok(Node::FunctionDefinition(NodeFunctionDefinition {
            name: "add".to_string(),
            arg_names: vec!["a".to_string(), "b".to_string()],
            arg_types: vec![VarType::I32, VarType::I32],
            return_type: VarType::I32,
            body: vec![Box::new(binary(OperatorType::Plus, name("a"), name("b")))],
        }))
    );
    assert_eq!(variables_get(&variables, &"a".to_string()), Ok(VarType::I32));
    assert_eq!(variables_get(&variables, &"b".to_string()), Ok(VarType::I32));
    assert_eq!(variables_get(&variables, &"add".to_string()), Err(CompileError::Type));
}

#[test]
fn a_function_may_have_no_parameters_and_return_nothing() {
    let mut variables = Variables::new();
    variables_insert(&mut variables, &"n".to_string(), &VarType::U8);
    let source = "fn run() -> none:\n  while n:\n    auto m = n + 1.5\n  end\nend";
    let built = build(source, &mut variables).unwrap();
    match built {
        Node::FunctionDefinition(node) => {
            assert_eq!(node.name, "run");
            assert!(node.arg_names.is_empty());
            assert!(node.arg_types.is_empty());
            assert_eq!(node.return_type, VarType::Void);
            assert_eq!(node.body.len(), 1);
        }
        other => panic!("{:?}", other),
    }
    assert_eq!(variables_get(&variables, &"m".to_string()), Ok(VarType::F32));
}

#[test]
fn malformed_functions_are_parse_errors() {
    let mut variables = Variables::new();
    assert_eq!(build("fn (a: i32) -> i32:\n  a\nend", &mut variables), Err(CompileError::Parse));
    assert_eq!(build("fn f a: i32) -> i32:\n  a\nend", &mut variables), Err(CompileError::Parse));
    assert_eq!(build("fn f(a i32) -> i32:\n  a\nend", &mut variables), Err(CompileError::Parse));
    assert_eq!(build("fn f(a: auto) -> i32:\n  a\nend", &mut variables), Err(CompileError::Parse));
    assert_eq!(build("fn f(a: i32 -> i32:\n  a\nend", &mut variables), Err(CompileError::Parse));
    assert_eq!(build("fn f(a: i32) i32:\n  a\nend", &mut variables), Err(CompileError::Parse));
    assert_eq!(build("fn f(a: i32) -> auto:\n  a\nend", &mut variables), Err(CompileError::Parse));
    assert_eq!(build("fn f(a: i32) -> while:\n  a\nend", &mut variables), Err(CompileError::Parse));
    assert_eq!(
        generate_function(&statement("fn f(a: i32) -> i32:\n  a\n"), &mut variables),
        Err(CompileError::Parse)
    );
    assert_eq!(
        generate_function(&vec![Token::Keyword(Keyword::Fn)], &mut variables),
        Err(CompileError::Parse)
    );
}

#[test]
fn an_error_in_a_body_fails_the_block() {
    let mut variables = Variables::new();
    assert_eq!(build("while a:\n  auto x = y\nend", &mut variables), Err(CompileError::Type));
    assert_eq!(
        build("fn f() -> none:\n  x\n  end\nend", &mut variables),
        Err(CompileError::Segmentation)
    );
    assert_eq!(build("if a:\n  : :\nend", &mut variables), Err(CompileError::Parse));
}

#[test]
fn an_identifier_token_builds_a_read() {
    assert_eq!(
        NodeVariableCall::from(&Token::Identifier("x".to_string())),
        Ok(NodeVariableCall { name: "x".to_string() })
    );
    assert_eq!(NodeVariableCall::from(&Token::UInt8(1)), Err(CompileError::Parse));
    assert_eq!(NodeVariableCall::new().name, "");
}

#[test]
fn a_failure_keeps_the_bindings_made_before_it() {
    let mut variables = Variables::new();
    let tokens = lexer("i32 x = 5\n: :\ni32 y = 6\n").unwrap();
    assert_eq!(
        chc::parser::parse(tokens, &mut variables).map_err(|failure| failure.error),
        Err(CompileError::Parse)
    );
    assert_eq!(variables_get(&variables, &"x".to_string()), Ok(VarType::I32));
    assert_eq!(variables_get(&variables, &"y".to_string()), Err(CompileError::Type));
}

#[test]
fn a_function_that_fails_keeps_the_parameters_read_so_far() {
    let mut variables = Variables::new();
    assert_eq!(
        build("fn f(a: i32, b: f64, c) -> i32:\n  a\nend", &mut variables),
        Err(CompileError::Parse)
    );
    assert_eq!(variables_get(&variables, &"a".to_string()), Ok(VarType::I32));
    assert_eq!(variables_get(&variables, &"b".to_string()), Ok(VarType::F64));
    assert_eq!(variables_get(&variables, &"c".to_string()), Err(CompileError::Type));
    let mut other = Variables::new();
    assert_eq!(
        build("fn g(p: u8) -> none:\n  i16 q = 1\n  auto r = s\n  i16 t = 2\nend", &mut other),
        Err(CompileError::Type)
    );
    assert_eq!(variables_get(&other, &"p".to_string()), Ok(VarType::U8));
    assert_eq!(variables_get(&other, &"q".to_string()), Ok(VarType::I16));
    assert_eq!(variables_get(&other, &"r".to_string()), Err(CompileError::Type));
    assert_eq!(variables_get(&other, &"t".to_string()), Err(CompileError::Type));
}
