use chc::error::{CompileError, Failure, Place};
use chc::interpreter::{interpret, Artifact};
use chc::lexer::lexer;
use chc::nodes::Node;
use chc::parser::{parse, variables_get, VarType, Variables};

fn compile(source: &str) -> Result<(Vec<Node>, Variables), CompileError> {
    let mut variables = Variables::new();
    let tokens = lexer(source).map_err(|failure| failure.error)?;
    let nodes = parse(tokens, &mut variables).map_err(|failure| failure.error)?;
    Ok((nodes, variables))
}

fn render(source: &str) -> Result<Vec<String>, CompileError> {
    let (nodes, variables) = compile(source)?;
    let mut out = Vec::new();
    for node in &nodes {
        out.push(node.to_c(&variables)?);
    }
    Ok(out)
}

#[test]
fn an_initialization_renders_from_source() {
    assert_eq!(render("i32 x = 5\n"), Ok(vec!["long x = 5".to_string()]));
    let (nodes, variables) = compile("i32 x = 5\n").unwrap();
    assert_eq!(nodes.len(), 1);
    match &nodes[0] {
        Node::VariableInitialization(node) => {
            assert_eq!(node.var_type, VarType::I32);
            assert_eq!(VarType::I32.to_c(), Ok("long ".to_string()));
            assert_eq!(node.value.to_c(&variables), Ok("5".to_string()));
        }
        other => panic!("{:?}", other),
    }
}

#[test]
fn a_function_renders_from_source() {
    let source = "fn add(a: i32, b: i32) -> i32:\n  return a + b\nend\n";
    assert_eq!(
        render(source),
        Ok(vec!["long add(long a, long b){\n(a + b);\n}\n".to_string()])
    );
    let (nodes, _) = compile(source).unwrap();
    match &nodes[0] {
        Node::FunctionDefinition(node) => {
            assert_eq!(node.arg_types, vec![VarType::I32, VarType::I32]);
            assert_eq!(node.return_type, VarType::I32);
        }
        other => panic!("{:?}", other),
    }
}

#[test]
fn a_print_renders_from_source() {
    assert_eq!(
        render("i32 x = 5\nprint(\"x = {x}\")\n"),
        Ok(vec!["long x = 5".to_string(), "printf(\"x = %ld\", x)".to_string()])
    );
}

#[test]
fn auto_is_resolved_from_source() {
    let (nodes, variables) = compile("auto x = 5\nauto y = x + 1.5\n").unwrap();
    assert_eq!(variables_get(&variables, &"x".to_string()), Ok(VarType::U8));
    assert_eq!(variables_get(&variables, &"y".to_string()), Ok(VarType::F32));
    assert_eq!(nodes[0].to_c(&variables), Ok("unsigned char x = 5".to_string()));
    assert_eq!(nodes[1].to_c(&variables), Ok("float y = (x + 1.5)".to_string()));
}

#[test]
fn a_whole_program_renders_from_source() {
    let source = "\
# counts down
i32 n = 3
fn step(k: i32) -> i32:
  if k > 0 and k < 100:
    k -= 1
  elif k == 0:
    print(\"done {k}\")
  else:
    k = 0
  end
  return k + 0
end
while n > 0:
  step(n)
  n -= 1
end
";
    let chain = "if((((k > 0) && k) < 100)){\n(k -= 1);\n}else if((k == 0)){\nprintf(\"done %ld\", k);\n}else{\n(k = 0);\n}\n";
    assert_eq!(
        render(source),
        Ok(vec![
            "long n = 3".to_string(),
            format!("long step(long k){{\n{};\n(k + 0);\n}}\n", chain),
            "while((n > 0)){\nstep(n);\n(n -= 1);\n}\n".to_string(),
        ])
    );
}

#[test]
fn a_call_inside_an_expression_is_a_parse_error() {
    assert_eq!(render("n = step(n)\n"), Err(CompileError::Parse));
}

#[test]
fn an_end_without_an_opener_fails_the_compilation() {
    assert_eq!(compile("i32 x = 5\nend\n").err(), Some(CompileError::Segmentation));
    assert_eq!(compile("end\n").err(), Some(CompileError::Segmentation));
    assert_eq!(
        compile("if x:\n  x\nend\nend\ni32 y = 1\n").err(),
        Some(CompileError::Segmentation)
    );
}

#[test]
fn each_kind_of_failure_is_told_apart() {
    assert_eq!(compile("x = 1.2.3\n").err(), Some(CompileError::Lex));
    assert_eq!(compile("while x:\n  x\n").err(), Some(CompileError::Segmentation));
    assert_eq!(compile("i32 = 5\n").err(), Some(CompileError::Parse));
    assert_eq!(compile("auto y = z + 1\n").err(), Some(CompileError::Type));
    assert_eq!(render("print(\"{z}\")\n"), Err(CompileError::Render));
}

#[test]
fn interpret_gives_the_c_file() {
    let (nodes, variables) = compile("i32 x = 5\nprint(\"x = {x}\")\n").unwrap();
    assert_eq!(
        interpret(nodes, "prog.ch".to_string(), &variables),
        Ok(Artifact {
            file_name: "prog.c".to_string(),
            file_data: "#include<stdio.h>\nlong x = 5printf(\"x = %ld\", x)".to_string(),
        })
    );
}

#[test]
fn interpret_of_nothing_is_the_preamble() {
    let variables = Variables::new();
    assert_eq!(
        interpret(vec![], "1.ch".to_string(), &variables),
        Ok(Artifact { file_name: "1.c".to_string(), file_data: "#include<stdio.h>\n".to_string() })
    );
    assert_eq!(
        interpret(vec![], ".ch".to_string(), &variables),
        Ok(Artifact { file_name: ".c".to_string(), file_data: "#include<stdio.h>\n".to_string() })
    );
}

#[test]
fn interpret_fails_on_a_tree_that_cannot_be_written_out() {
    let variables = Variables::new();
    assert_eq!(
        interpret(vec![Node::Empty], "a.ch".to_string(), &variables),
        Err(Failure { error: CompileError::Render, place: Place::Node(0) })
    );
    let (nodes, variables) = compile("i32 x = 5\nx\nprint(\"{y}\")\nprint(\"{z}\")\n").unwrap();
    assert_eq!(
        interpret(nodes, "a.ch".to_string(), &variables),
        Err(Failure { error: CompileError::Render, place: Place::Node(2) })
    );
}

#[test]
fn a_decimal_renders_in_canonical_form_from_source() {
    assert_eq!(render("f32 r = 02.50\n"), Ok(vec!["float r = 2.5".to_string()]));
    assert_eq!(render("f64 r = -1.\n"), Ok(vec!["double r = -1.0".to_string()]));
}
