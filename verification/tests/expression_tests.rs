use chc::error::CompileError;
use chc::lexer::{lexer, Token};
use chc::nodes::binary_expression::{
    evaluate_var_type, generate_binary_expression_tree, is_arithmetic, NodeBinaryExpression,
};
use chc::nodes::unary_expression::NodeUnaryExpression;
use chc::nodes::values::{NodeValueFloat, NodeValueString, NodeValueUInt};
use chc::nodes::variables::NodeVariableCall;
use chc::nodes::Node;
use chc::parser::{variables_insert, OperatorType, VarType, Variables};

fn expression(source: &str) -> Result<Node, CompileError> {
    let mut tokens = lexer(source).unwrap();
    tokens.pop();
    generate_binary_expression_tree(&tokens)
}

fn text(source: &str) -> String {
    expression(source).unwrap().to_c(&Variables::new()).unwrap()
}

fn number(value: u64) -> Node {
    Node::ValueUInt(NodeValueUInt::new(value, VarType::U8))
}

fn name(text: &str) -> Node {
    Node::VariableCall(NodeVariableCall { name: text.to_string() })
}

fn binary(operator: OperatorType, left: Node, right: Node) -> Node {
    Node::BinaryExpression(NodeBinaryExpression {
        left: Box::new(left),
        right: Box::new(right),
        operator,
    })
}

#[test]
fn multiplication_binds_tighter_than_addition() {
    assert_eq!(
        expression("2 + 3 * 4"),
        Ok(binary(
            OperatorType::Plus,
            number(2),
            binary(OperatorType::Mul, number(3), number(4))
        ))
    );
    assert_eq!(text("2 + 3 * 4"), "(2 + (3 * 4))");
    assert_eq!(text("2 * 3 + 4"), "((2 * 3) + 4)");
}

#[test]
fn exponentiation_groups_to_the_right() {
    assert_eq!(
        expression("2 ** 3 ** 2"),
        Ok(binary(
            OperatorType::Exp,
            number(2),
            binary(OperatorType::Exp, number(3), number(2))
        ))
    );
}

#[test]
fn division_groups_to_the_left() {
    assert_eq!(
        expression("8 / 4 / 2"),
        Ok(binary(
            OperatorType::Div,
            binary(OperatorType::Div, number(8), number(4)),
            number(2)
        ))
    );
    assert_eq!(text("8 / 4 / 2"), "((8 / 4) / 2)");
    assert_eq!(text("8 - 4 - 2"), "((8 - 4) - 2)");
}

#[test]
fn floor_division_binds_like_exponentiation_and_groups_to_the_left() {
    assert_eq!(
        expression("a // b // c"),
        Ok(binary(
            OperatorType::FloorDiv,
            binary(OperatorType::FloorDiv, name("a"), name("b")),
            name("c")
        ))
    );
    assert_eq!(
        expression("a * b // c"),
        Ok(binary(
            OperatorType::Mul,
            name("a"),
            binary(OperatorType::FloorDiv, name("b"), name("c"))
        ))
    );
}

#[test]
fn parentheses_group_what_they_hold() {
    assert_eq!(text("( 2 + 3 ) * 4"), "((2 + 3) * 4)");
    assert_eq!(text("2 * ( 3 + 4 )"), "(2 * (3 + 4))");
    assert_eq!(text("( ( a ) )"), "a");
    assert_eq!(text("( a + ( b - c ) ) / d"), "((a + (b - c)) / d)");
}

#[test]
fn comparisons_and_logic_bind_below_arithmetic() {
    assert_eq!(text("a + 1 < b * 2"), "((a + 1) < (b * 2))");
    assert_eq!(text("a == b"), "(a == b)");
    assert_eq!(text("a != b"), "(a != b)");
    assert_eq!(text("a <= b && c > d"), "(((a <= b) && c) > d)");
    assert_eq!(text("a and b or c"), "((a && b) || c)");
    assert_eq!(text("x = a + b"), "(x = (a + b))");
    assert_eq!(text("a + b % c"), "((a + b) % c)");
}

#[test]
fn compound_assignments_bind_like_their_operators() {
    assert_eq!(text("x += a * b"), "(x += (a * b))");
    assert_eq!(text("x *= a + b"), "((x *= a) + b)");
}

#[test]
fn a_prefix_not_binds_tightest() {
    assert_eq!(
        expression("! a && b"),
        Ok(binary(
            OperatorType::And,
            Node::UnaryExpression(NodeUnaryExpression {
                operand: Box::new(name("a")),
                operator: OperatorType::Not,
            }),
            name("b")
        ))
    );
    assert_eq!(text("a && ! b"), "(a && !(b))");
    assert_eq!(text("not ( a or b )"), "!((a || b))");
}

#[test]
fn tokens_that_are_no_part_of_an_expression_are_passed_over() {
    assert_eq!(text("return a + b"), "(a + b)");
}

#[test]
fn operands_may_be_any_literal_or_name() {
    assert_eq!(
        expression("1.5 + \"s\""),
        Ok(binary(
            OperatorType::Plus,
            Node::ValueFloat(NodeValueFloat::new("1.5".to_string(), VarType::F32)),
            Node::ValueString(NodeValueString::new("\"s\"".to_string(), VarType::Str))
        ))
    );
    assert!(is_arithmetic(&Token::Identifier("x".to_string())));
    assert!(is_arithmetic(&Token::Int16(-300)));
    assert!(is_arithmetic(&Token::Float64("1.0".to_string())));
    assert!(is_arithmetic(&Token::String("\"s\"".to_string())));
    assert!(!is_arithmetic(&Token::Plus));
    assert!(!is_arithmetic(&Token::LPar));
    assert!(!is_arithmetic(&Token::NewLine));
}

#[test]
fn a_lone_operand_is_its_own_tree() {
    assert_eq!(expression("x"), Ok(name("x")));
    assert_eq!(expression("7"), Ok(number(7)));
}

#[test]
fn precedence_follows_the_table() {
    assert_eq!(Token::Plus.precedence(), 1);
    assert_eq!(Token::PlusEq.precedence(), 1);
    assert_eq!(Token::Minus.precedence(), 1);
    assert_eq!(Token::MinusEq.precedence(), 1);
    assert_eq!(Token::Mul.precedence(), 2);
    assert_eq!(Token::MulEq.precedence(), 2);
    assert_eq!(Token::Div.precedence(), 2);
    assert_eq!(Token::DivEq.precedence(), 2);
    assert_eq!(Token::Exp.precedence(), 3);
    assert_eq!(Token::FloorDiv.precedence(), 3);
    assert_eq!(Token::Not.precedence(), 4);
    assert_eq!(Token::EqEq.precedence(), 0);
    assert_eq!(Token::And.precedence(), 0);
    assert_eq!(Token::Mod.precedence(), 0);
    assert_eq!(Token::RPar.precedence(), 0);
}

#[test]
fn missing_operands_are_parse_errors() {
    assert_eq!(expression("+"), Err(CompileError::Parse));
    assert_eq!(expression("a +"), Err(CompileError::Parse));
    assert_eq!(expression("* a"), Err(CompileError::Parse));
    assert_eq!(expression("a + * b"), Err(CompileError::Parse));
    assert_eq!(expression("!"), Err(CompileError::Parse));
    assert_eq!(expression(""), Err(CompileError::Parse));
}

#[test]
fn operands_left_over_are_parse_errors() {
    assert_eq!(expression("a b"), Err(CompileError::Parse));
    assert_eq!(expression("a + b c"), Err(CompileError::Parse));
}

#[test]
fn parentheses_without_a_partner_are_parse_errors() {
    assert_eq!(expression("( a + b"), Err(CompileError::Parse));
    assert_eq!(expression("a + b )"), Err(CompileError::Parse));
    assert_eq!(expression(") a ("), Err(CompileError::Parse));
}

#[test]
fn the_type_of_an_expression_is_the_greatest_of_its_operands() {
    let mut variables = Variables::new();
    variables_insert(&mut variables, &"x".to_string(), &VarType::I64);
    let small = expression("1 + 300").unwrap();
    assert_eq!(evaluate_var_type(&small, &variables), Ok(VarType::U16));
    let mixed = expression("1 + 2.5 * 70000").unwrap();
    assert_eq!(evaluate_var_type(&mixed, &variables), Ok(VarType::F32));
    let named = expression("x + 2.5").unwrap();
    assert_eq!(evaluate_var_type(&named, &variables), Ok(VarType::I64));
    assert_eq!(evaluate_var_type(&number(3), &variables), Ok(VarType::U8));
    assert_eq!(evaluate_var_type(&Node::Empty, &variables), Ok(VarType::Void));
}

#[test]
fn the_type_of_an_unbound_name_is_a_type_error() {
    let variables = Variables::new();
    assert_eq!(evaluate_var_type(&name("y"), &variables), Err(CompileError::Type));
    let tree = expression("1 + y").unwrap();
    assert_eq!(evaluate_var_type(&tree, &variables), Err(CompileError::Type));
}
