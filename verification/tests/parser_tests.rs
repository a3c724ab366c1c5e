use chc::error::{CompileError, Failure, Place};
use chc::lexer::{lexer, Keyword, Token};
use chc::parser::{
    greater_var_type, parse, split_tokens, variables_get, variables_insert, OperatorType, VarType,
    Variables,
};

fn all_types() -> Vec<VarType> {
    vec![
        VarType::I8,
        VarType::I16,
        VarType::I32,
        VarType::I64,
        VarType::U8,
        VarType::U16,
        VarType::U32,
        VarType::U64,
        VarType::F32,
        VarType::F64,
        VarType::Str,
        VarType::Auto,
        VarType::Void,
    ]
}

fn cut_failure(token: usize) -> Failure {
    Failure { error: CompileError::Segmentation, place: Place::Token(token) }
}

fn ident(name: &str) -> Token {
    Token::Identifier(name.to_string())
}

#[test]
fn promotion_is_idempotent() {
    for t in all_types() {
        assert_eq!(greater_var_type(&t, &t), t);
    }
}

#[test]
fn promotion_is_commutative() {
    for a in all_types() {
        for b in all_types() {
            assert_eq!(greater_var_type(&a, &b), greater_var_type(&b, &a));
        }
    }
}

#[test]
fn promotion_follows_the_rank_order() {
    let order = vec![
        VarType::Void,
        VarType::I8,
        VarType::U8,
        VarType::I16,
        VarType::U16,
        VarType::I32,
        VarType::U32,
        VarType::F32,
        VarType::I64,
        VarType::U64,
        VarType::F64,
    ];
    for i in 0..order.len() {
        for j in i..order.len() {
            assert_eq!(greater_var_type(&order[i], &order[j]), order[j]);
            assert_eq!(greater_var_type(&order[j], &order[i]), order[j]);
        }
    }
    assert_eq!(greater_var_type(&VarType::U8, &VarType::I16), VarType::I16);
    assert_eq!(greater_var_type(&VarType::F32, &VarType::I64), VarType::I64);
    assert_eq!(greater_var_type(&VarType::Str, &VarType::I8), VarType::I8);
    assert_eq!(greater_var_type(&VarType::Auto, &VarType::Void), VarType::Void);
}

#[test]
fn keywords_name_their_types() {
    assert_eq!(VarType::from(Keyword::I8), VarType::I8);
    assert_eq!(VarType::from(Keyword::U64), VarType::U64);
    assert_eq!(VarType::from(Keyword::F32), VarType::F32);
    assert_eq!(VarType::from(Keyword::Str), VarType::Str);
    assert_eq!(VarType::from(Keyword::Auto), VarType::Auto);
    assert_eq!(VarType::from(Keyword::Void), VarType::Void);
    assert_eq!(VarType::from(Keyword::While), VarType::Void);
    assert_eq!(VarType::new(), VarType::Void);
}

#[test]
fn types_have_c_keywords() {
    assert_eq!(VarType::I8.to_c(), Ok("char ".to_string()));
    assert_eq!(VarType::I16.to_c(), Ok("int ".to_string()));
    assert_eq!(VarType::I32.to_c(), Ok("long ".to_string()));
    assert_eq!(VarType::I64.to_c(), Ok("long long ".to_string()));
    assert_eq!(VarType::U8.to_c(), Ok("unsigned char ".to_string()));
    assert_eq!(VarType::U16.to_c(), Ok("unsigned int ".to_string()));
    assert_eq!(VarType::U32.to_c(), Ok("unsigned long ".to_string()));
    assert_eq!(VarType::U64.to_c(), Ok("unsigned long long ".to_string()));
    assert_eq!(VarType::F32.to_c(), Ok("float ".to_string()));
    assert_eq!(VarType::F64.to_c(), Ok("double ".to_string()));
    assert_eq!(VarType::Str.to_c(), Ok("str ".to_string()));
    assert_eq!(VarType::Void.to_c(), Ok("void ".to_string()));
    assert_eq!(VarType::Auto.to_c(), Err(CompileError::Render));
}

#[test]
fn types_have_printf_conversions() {
    assert_eq!(VarType::I8.to_c_printf(), Ok("%hd".to_string()));
    assert_eq!(VarType::I16.to_c_printf(), Ok("%d".to_string()));
    assert_eq!(VarType::I32.to_c_printf(), Ok("%ld".to_string()));
    assert_eq!(VarType::I64.to_c_printf(), Ok("%lld".to_string()));
    assert_eq!(VarType::U8.to_c_printf(), Ok("%hu".to_string()));
    assert_eq!(VarType::U16.to_c_printf(), Ok("%u".to_string()));
    assert_eq!(VarType::U32.to_c_printf(), Ok("%lu".to_string()));
    assert_eq!(VarType::U64.to_c_printf(), Ok("%llu".to_string()));
    assert_eq!(VarType::F32.to_c_printf(), Ok("%f".to_string()));
    assert_eq!(VarType::F64.to_c_printf(), Ok("%lf".to_string()));
    assert_eq!(VarType::Str.to_c_printf(), Ok("%s".to_string()));
    assert_eq!(VarType::Void.to_c_printf(), Err(CompileError::Render));
    assert_eq!(VarType::Auto.to_c_printf(), Err(CompileError::Render));
}

#[test]
fn types_have_zero_values() {
    assert_eq!(VarType::I8.to_c_default_value(), Ok("0".to_string()));
    assert_eq!(VarType::U64.to_c_default_value(), Ok("0".to_string()));
    assert_eq!(VarType::F32.to_c_default_value(), Ok("0.0f".to_string()));
    assert_eq!(VarType::F64.to_c_default_value(), Ok("0.0".to_string()));
    assert_eq!(VarType::Str.to_c_default_value(), Ok("\"\"".to_string()));
    assert_eq!(VarType::Void.to_c_default_value(), Err(CompileError::Render));
    assert_eq!(VarType::Auto.to_c_default_value(), Err(CompileError::Render));
}

#[test]
fn tokens_name_their_operators() {
    assert_eq!(OperatorType::from(&Token::Plus), OperatorType::Plus);
    assert_eq!(OperatorType::from(&Token::NotEq), OperatorType::NEq);
    assert_eq!(OperatorType::from(&Token::Exp), OperatorType::Exp);
    assert_eq!(OperatorType::from(&Token::And), OperatorType::And);
    assert_eq!(OperatorType::from(&Token::Not), OperatorType::Not);
    assert_eq!(OperatorType::from(&Token::Mod), OperatorType::Mod);
    assert_eq!(OperatorType::from(&Token::LPar), OperatorType::Absent);
    assert_eq!(OperatorType::from(&Token::NewLine), OperatorType::Absent);
    assert_eq!(OperatorType::from(&ident("x")), OperatorType::Absent);
    assert_eq!(OperatorType::new(), OperatorType::Absent);
}

#[test]
fn operators_have_c_text() {
    assert_eq!(OperatorType::Plus.to_c(), "+ ");
    assert_eq!(OperatorType::Minus.to_c(), "- ");
    assert_eq!(OperatorType::Mul.to_c(), "* ");
    assert_eq!(OperatorType::Div.to_c(), "/ ");
    assert_eq!(OperatorType::Mod.to_c(), "% ");
    assert_eq!(OperatorType::Eq.to_c(), "= ");
    assert_eq!(OperatorType::EqEq.to_c(), "== ");
    assert_eq!(OperatorType::NEq.to_c(), "!= ");
    assert_eq!(OperatorType::Lt.to_c(), "< ");
    assert_eq!(OperatorType::Gt.to_c(), "> ");
    assert_eq!(OperatorType::LtEq.to_c(), "<= ");
    assert_eq!(OperatorType::GtEq.to_c(), ">= ");
    assert_eq!(OperatorType::PlusEq.to_c(), "+= ");
    assert_eq!(OperatorType::MinusEq.to_c(), "-= ");
    assert_eq!(OperatorType::MulEq.to_c(), "*= ");
    assert_eq!(OperatorType::DivEq.to_c(), "/= ");
    assert_eq!(OperatorType::ModEq.to_c(), "%= ");
    assert_eq!(OperatorType::And.to_c(), "&& ");
    assert_eq!(OperatorType::Or.to_c(), "|| ");
    assert_eq!(OperatorType::Not.to_c(), "!");
    assert_eq!(OperatorType::FloorDiv.to_c(), "");
    assert_eq!(OperatorType::Exp.to_c(), "");
    assert_eq!(OperatorType::Absent.to_c(), "");
}

#[test]
fn a_new_table_binds_nothing() {
    let variables = Variables::new();
    assert_eq!(variables_get(&variables, &"x".to_string()), Err(CompileError::Type));
}

#[test]
fn a_binding_is_found_again() {
    let mut variables = Variables::new();
    variables_insert(&mut variables, &"x".to_string(), &VarType::I32);
    variables_insert(&mut variables, &"y".to_string(), &VarType::F64);
    assert_eq!(variables_get(&variables, &"x".to_string()), Ok(VarType::I32));
    assert_eq!(variables_get(&variables, &"y".to_string()), Ok(VarType::F64));
    assert_eq!(variables_get(&variables, &"z".to_string()), Err(CompileError::Type));
}

#[test]
fn a_later_binding_replaces_an_earlier_one() {
    let mut variables = Variables::new();
    variables_insert(&mut variables, &"x".to_string(), &VarType::I32);
    variables_insert(&mut variables, &"y".to_string(), &VarType::U8);
    variables_insert(&mut variables, &"x".to_string(), &VarType::Str);
    assert_eq!(variables_get(&variables, &"x".to_string()), Ok(VarType::Str));
    assert_eq!(variables_get(&variables, &"y".to_string()), Ok(VarType::U8));
}

#[test]
fn each_line_outside_a_block_is_a_statement() {
    let tokens = vec![
        ident("a"),
        Token::NewLine,
        Token::NewLine,
        ident("b"),
        Token::Plus,
        ident("c"),
        Token::NewLine,
    ];
    assert_eq!(
        split_tokens(tokens),
        Ok(vec![vec![ident("a")], vec![ident("b"), Token::Plus, ident("c")]])
    );
}

#[test]
fn a_last_line_without_an_end_of_line_token_is_a_statement() {
    let tokens = vec![ident("a"), Token::NewLine, ident("b")];
    assert_eq!(split_tokens(tokens), Ok(vec![vec![ident("a")], vec![ident("b")]]));
}

#[test]
fn no_tokens_are_no_statements() {
    assert_eq!(split_tokens(vec![]), Ok(vec![]));
    assert_eq!(split_tokens(vec![Token::NewLine, Token::NewLine]), Ok(vec![]));
}

#[test]
fn a_nested_block_is_one_statement() {
    let source = "if a:\n  while b:\n    if c:\n      x\n    end\n  end\nelse:\n  y\nend\n";
    let tokens = lexer(source).unwrap();
    let end = tokens.iter().rposition(|t| *t == Token::Keyword(Keyword::End)).unwrap();
    let block: Vec<Token> = tokens[..=end].to_vec();
    let statements = split_tokens(tokens).unwrap();
    assert_eq!(statements.len(), 1);
    assert_eq!(statements[0].len(), block.len());
    assert_eq!(statements[0], block);
}

#[test]
fn a_function_block_is_one_statement_among_others() {
    let source = "i32 x = 1\nfn f() -> none:\n  if x:\n    x\n  end\nend\nx\n";
    let statements = split_tokens(lexer(source).unwrap()).unwrap();
    assert_eq!(statements.len(), 3);
    assert_eq!(statements[0].len(), 4);
    assert_eq!(statements[1].first(), Some(&Token::Keyword(Keyword::Fn)));
    assert_eq!(statements[1].last(), Some(&Token::Keyword(Keyword::End)));
    assert_eq!(statements[1].len(), 17);
    assert_eq!(statements[2], vec![ident("x")]);
}

#[test]
fn an_end_without_an_opener_is_a_segmentation_error() {
    assert_eq!(split_tokens(lexer("x\nend\n").unwrap()), Err(cut_failure(2)));
    assert_eq!(split_tokens(lexer("if a:\n  x\nend\nend\n").unwrap()), Err(cut_failure(8)));
    let mut variables = Variables::new();
    assert_eq!(parse(lexer("i32 x = 5\nend\n").unwrap(), &mut variables), Err(cut_failure(5)));
}

#[test]
fn a_block_that_is_never_closed_is_a_segmentation_error() {
    assert_eq!(split_tokens(lexer("while a:\n  x\n").unwrap()), Err(cut_failure(7)));
    assert_eq!(
        split_tokens(lexer("fn f() -> none:\n  if a:\n    x\n  end\n").unwrap()),
        Err(cut_failure(17))
    );
}

#[test]
fn parse_builds_one_node_for_each_statement() {
    let mut variables = Variables::new();
    let nodes = parse(lexer("i32 x = 5\n\nx + 1\n").unwrap(), &mut variables).unwrap();
    assert_eq!(nodes.len(), 2);
    assert_eq!(nodes[0].to_c(&variables), Ok("long x = 5".to_string()));
    assert_eq!(nodes[1].to_c(&variables), Ok("(x + 1)".to_string()));
    assert_eq!(variables_get(&variables, &"x".to_string()), Ok(VarType::I32));
}

#[test]
fn parse_of_nothing_is_nothing() {
    let mut variables = Variables::new();
    assert_eq!(parse(vec![], &mut variables), Ok(vec![]));
    assert_eq!(parse(lexer("\n# nothing\n").unwrap(), &mut variables), Ok(vec![]));
}

#[test]
fn parse_stops_at_the_first_statement_that_fails() {
    let mut variables = Variables::new();
    assert_eq!(
        parse(lexer("i32 x = 5\n: :\ni32 y = 6\n").unwrap(), &mut variables),
        Err(Failure { error: CompileError::Parse, place: Place::Statement(1) })
    );
    let mut others = Variables::new();
    assert_eq!(
        parse(lexer("i32 x = 5\n\nx + 1\nauto y = z\n: :\n").unwrap(), &mut others),
        Err(Failure { error: CompileError::Type, place: Place::Statement(2) })
    );
}
