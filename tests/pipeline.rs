use frontend::ast::ASTBlockType;
use frontend::ast_types::UVValue;
use frontend::get_ast;
use frontend::span::Span;

fn error_of(code: &str) -> (String, Span) {
    match get_ast(code.to_owned()) {
        Ok(a) => panic!("expected a diagnostic, got {:?}", a),
        Err(e) => (e.message, e.span),
    }
}

#[test]
fn program_with_one_definition() {
    let ast = get_ast(
        "<program><main><let><name>x</name><value><int>42</int></value></let></main></program>"
            .to_owned(),
    )
    .unwrap();
    let program = match ast {
        ASTBlockType::Program(p) => p,
        other => panic!("{:?}", other),
    };
    assert!(program.head.is_none());
    match program.main {
        ASTBlockType::MainBlock(v) => {
            assert_eq!(v.len(), 1);
            match &v[0] {
                ASTBlockType::VariableDefinition(d) => {
                    assert_eq!(d.name.value, "x");
                    assert!(!d.is_const);
                    match d.value.value.as_ref() {
                        ASTBlockType::Value(UVValue::Int(42)) => {}
                        other => panic!("{:?}", other),
                    }
                }
                other => panic!("{:?}", other),
            }
        }
        other => panic!("{:?}", other),
    }
}

#[test]
fn invalid_name_points_at_it() {
    assert_eq!(
        error_of("<program><main><let><name>1x</name><value><null/></value></let></main></program>"),
        ("`1x` is not a valid name for variable".to_owned(), Span::new(26, 28))
    );
}

#[test]
fn comments_and_raw_strings_in_a_program() {
    let ast = get_ast(
        "<program>\n  <!-- values -->\n  <main><str-q> <int>1</int> </str-q></main>\n</program>"
            .to_owned(),
    )
    .unwrap();
    match ast {
        ASTBlockType::Program(p) => match p.main {
            ASTBlockType::MainBlock(v) => match &v[0] {
                ASTBlockType::Value(UVValue::String(s)) => assert_eq!(s, " <int>1</int> "),
                other => panic!("{:?}", other),
            },
            other => panic!("{:?}", other),
        },
        other => panic!("{:?}", other),
    }
}

#[test]
fn lexer_errors_reach_the_parser() {
    assert_eq!(
        error_of("<program><main>@</main></program>"),
        ("Unexpected token: '@'".to_owned(), Span::new(15, 16))
    );
}

#[test]
fn parse_errors_stop_the_pipeline() {
    assert_eq!(
        error_of("<program><main></program>"),
        ("Unexpected closing tag '</program>'. Expected '</main>'".to_owned(), Span::new(17, 24))
    );
}

#[test]
fn same_input_same_result() {
    let code = "<program><main><let><name>v</name><value><float>1.5</float></value></let></main></program>";
    let a = format!("{:?}", get_ast(code.to_owned()));
    let b = format!("{:?}", get_ast(code.to_owned()));
    assert_eq!(a, b);
}

#[test]
fn spans_nest_in_program() {
    let code = "<program><head><let><name>a</name><value><null/></value></let></head><main><let><name>b</name><value><let><name>c</name><value><int>1</int></value></let></value></let></main></program>";
    let ast = get_ast(code.to_owned()).unwrap();
    let program = match ast {
        ASTBlockType::Program(p) => p,
        other => panic!("{:?}", other),
    };
    let outer = program.span;
    assert_eq!(outer, Span::new(0, code.chars().count()));
    let mut statements = Vec::new();
    if let Some(ASTBlockType::HeadBlock(v)) = program.head {
        statements.extend(v);
    }
    if let ASTBlockType::MainBlock(v) = program.main {
        statements.extend(v);
    }
    assert_eq!(statements.len(), 2);
    let mut pending: Vec<(ASTBlockType, Span)> = statements.into_iter().map(|s| (s, outer)).collect();
    let mut seen = 0;
    while let Some((node, within)) = pending.pop() {
        if let ASTBlockType::VariableDefinition(d) = node {
            seen += 1;
            assert!(within.start <= d.span.start && d.span.end <= within.end);
            assert!(d.span.start <= d.name.span.start && d.name.span.end <= d.span.end);
            assert!(d.span.start <= d.value.span.start && d.value.span.end <= d.span.end);
            pending.push((*d.value.value, d.value.span));
        }
    }
    assert_eq!(seen, 3);
}

#[test]
fn lexing_reads_to_the_end() {
    let code = "<a>x</a>  \n <b/> ?";
    let tokens = frontend::lexer::Lexer::new(code.to_owned()).parse();
    let n = code.chars().count();
    let mut last_end = 0;
    for t in &tokens {
        assert!(last_end <= t.start && t.start <= t.end && t.end <= n);
        last_end = t.end;
    }
    assert_eq!(tokens.last().unwrap().end, n);
}
