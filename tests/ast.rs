use frontend::ast::{gen_main_ast, generate_ast, parse_value, parse_var_definition, ASTBlockType};
use frontend::ast_types::{GetType, IsAssignable, StringToType, UVType, UVValue};
use frontend::lexer::Lexer;
use frontend::span::Span;
use frontend::tokens_parser::{TokenParser, UVParseNode};
use frontend::values::{is_float_literal, is_valid_identifier, parse_bool_text, parse_int_text};

fn tree(code: &str) -> UVParseNode {
    TokenParser::new(Lexer::new(code.to_owned()).parse())
        .parse()
        .unwrap()
}

fn value(code: &str) -> Result<UVValue, (String, Span)> {
    match generate_ast(tree(code)) {
        Ok(ASTBlockType::Value(v)) => Ok(v),
        Ok(other) => panic!("not a value: {:?}", other),
        Err(e) => Err((e.message, e.span)),
    }
}

fn ast_error(code: &str) -> (String, Span) {
    match gen_main_ast(tree(code)) {
        Ok(a) => panic!("expected a diagnostic, got {:?}", a),
        Err(e) => (e.message, e.span),
    }
}

#[test]
fn parse_type() {
    assert_eq!(String::from("int").to_uvtype(), Some(UVType::Int));
    assert_eq!(String::from("bool").to_uvtype(), Some(UVType::Boolean));
    assert_eq!(String::from("float").to_uvtype(), Some(UVType::Float));
    assert_eq!(String::from("null").to_uvtype(), Some(UVType::Null));
    assert_eq!(String::from("str").to_uvtype(), Some(UVType::String));

    assert_eq!(String::from("unknown").to_uvtype(), None);
}

#[test]
fn type_compatible_with() {
    assert_eq!(
        UVType::Union(vec![UVType::Int, UVType::Null]).is_assignable_from(&UVType::Null),
        true
    );

    assert_eq!(
        UVType::Int.is_assignable_from(&UVType::Union(vec![UVType::Int, UVType::Null])),
        false
    );

    assert_eq!(UVType::Int.is_assignable_from(&UVType::Boolean), false);
}

#[test]
fn assignability_is_reflexive() {
    let types = vec![
        UVType::Int,
        UVType::Float,
        UVType::String,
        UVType::Boolean,
        UVType::Null,
        UVType::Union(vec![UVType::Int, UVType::Union(vec![UVType::Null, UVType::String])]),
    ];
    for t in &types {
        assert!(t.is_assignable_from(t));
    }
}

#[test]
fn union_target_needs_one_member() {
    let u = UVType::Union(vec![UVType::Int, UVType::String]);
    assert!(u.is_assignable_from(&UVType::Int));
    assert!(u.is_assignable_from(&UVType::String));
    assert!(!u.is_assignable_from(&UVType::Float));
    assert!(!UVType::Union(vec![]).is_assignable_from(&UVType::Null));
}

#[test]
fn union_source_needs_every_member() {
    let u = UVType::Union(vec![UVType::Int, UVType::Null]);
    let wide = UVType::Union(vec![UVType::Null, UVType::Boolean, UVType::Int]);
    assert!(wide.is_assignable_from(&u));
    assert!(!u.is_assignable_from(&wide));
    assert!(UVType::Int.is_assignable_from(&UVType::Union(vec![UVType::Int])));
    assert!(UVType::Int.is_assignable_from(&UVType::Union(vec![])));
}

#[test]
fn union_order_is_irrelevant() {
    let a = UVType::Union(vec![UVType::Int, UVType::Null]);
    let b = UVType::Union(vec![UVType::Null, UVType::Int]);
    assert!(a.is_assignable_from(&b));
    assert!(b.is_assignable_from(&a));
}

#[test]
fn value_types() {
    assert_eq!(UVValue::Int(3).get_type(), UVType::Int);
    assert_eq!(UVValue::Float("1.5".to_owned()).get_type(), UVType::Float);
    assert_eq!(UVValue::String("a".to_owned()).get_type(), UVType::String);
    assert_eq!(UVValue::Boolean(true).get_type(), UVType::Boolean);
    assert_eq!(UVValue::Null.get_type(), UVType::Null);
}

#[test]
fn int_values() {
    assert_eq!(value("<int>42</int>"), Ok(UVValue::Int(42)));
    assert_eq!(value("<int>0</int>"), Ok(UVValue::Int(0)));
    assert_eq!(value("<int>9223372036854775807</int>"), Ok(UVValue::Int(i64::MAX)));
    assert_eq!(
        value("<int>9223372036854775808</int>"),
        Err(("Cannot parse `9223372036854775808` to an integer".to_owned(), Span::new(5, 24)))
    );
    assert_eq!(
        value("<int>4x</int>"),
        Err(("Cannot parse `4x` to an integer".to_owned(), Span::new(5, 7)))
    );
    assert_eq!(
        value("<int></int>"),
        Err(("Invalid value for `int` type".to_owned(), Span::new(0, 11)))
    );
    assert_eq!(
        value("<int>1 2</int>"),
        Err(("Invalid value for `int` type".to_owned(), Span::new(0, 14)))
    );
}

#[test]
fn integer_text() {
    assert_eq!(parse_int_text("-9223372036854775808"), Some(i64::MIN));
    assert_eq!(parse_int_text("-9223372036854775809"), None);
    assert_eq!(parse_int_text("+17"), Some(17));
    assert_eq!(parse_int_text("-"), None);
    assert_eq!(parse_int_text(""), None);
    assert_eq!(parse_int_text("00012"), Some(12));
    assert_eq!(parse_int_text("99999999999999999999999"), None);
}

#[test]
fn float_values() {
    assert_eq!(value("<float>1.5</float>"), Ok(UVValue::Float("1.5".to_owned())));
    assert_eq!(value("<float>2e10</float>"), Ok(UVValue::Float("2e10".to_owned())));
    assert_eq!(
        value("<float>1.2.3</float>"),
        Err(("Cannot parse `1.2.3` to a float".to_owned(), Span::new(7, 12)))
    );
}

#[test]
fn float_text() {
    for ok in ["1", "1.", ".5", "1.5e3", "1E-3", "+2.0", "-inf", "Infinity", "NaN", "nan"] {
        assert!(is_float_literal(ok), "{}", ok);
        assert!(ok.parse::<f64>().is_ok(), "{}", ok);
    }
    for bad in ["", ".", "e5", "1e", "1.2.3", "1,5", "abc", "infinit", "1e+"] {
        assert!(!is_float_literal(bad), "{}", bad);
        assert!(bad.parse::<f64>().is_err(), "{}", bad);
    }
}

#[test]
fn string_values() {
    assert_eq!(value("<str> a <b/> </str>"), Ok(UVValue::String(" a <b/> ".to_owned())));
    assert_eq!(value("<str></str>"), Ok(UVValue::String(String::new())));
    assert_eq!(value("<str/>"), Ok(UVValue::String(String::new())));
}

#[test]
fn bool_values() {
    assert_eq!(value("<bool>true</bool>"), Ok(UVValue::Boolean(true)));
    assert_eq!(value("<bool>1</bool>"), Ok(UVValue::Boolean(true)));
    assert_eq!(value("<bool>false</bool>"), Ok(UVValue::Boolean(false)));
    assert_eq!(value("<bool>0</bool>"), Ok(UVValue::Boolean(false)));
    assert_eq!(
        value("<bool>yes</bool>"),
        Err(("Cannot parse `yes` to a boolean".to_owned(), Span::new(6, 9)))
    );
    assert_eq!(parse_bool_text("TRUE"), None);
}

#[test]
fn null_values() {
    assert_eq!(value("<null/>"), Ok(UVValue::Null));
    assert_eq!(
        value("<null></null>"),
        Err(("`null` tag must be self-closing".to_owned(), Span::new(0, 13)))
    );
}

#[test]
fn parse_value_reads_keyword_tags() {
    match parse_value(tree("<int>7</int>")) {
        Ok(ASTBlockType::Value(UVValue::Int(7))) => {}
        other => panic!("{:?}", other),
    }
}

#[test]
fn unknown_statement_tag() {
    assert_eq!(
        value("<foo/>"),
        Err(("Unexpected <foo> tag".to_owned(), Span::new(0, 6)))
    );
}

#[test]
fn identifier_rule() {
    for ok in ["x", "_", "_a1", "camelCase", "A_B_9"] {
        assert!(is_valid_identifier(ok), "{}", ok);
    }
    for bad in ["", "1x", "a-b", "a b", "é", "x\n", "a.b"] {
        assert!(!is_valid_identifier(bad), "{}", bad);
    }
}

#[test]
fn program_required_root() {
    assert_eq!(
        ast_error("<main></main>"),
        ("The program must begin with the <program> tag".to_owned(), Span::new(0, 13))
    );
}

#[test]
fn program_requires_main() {
    assert_eq!(
        ast_error("<program><head></head></program>"),
        ("Main block in <program> is required".to_owned(), Span::new(0, 32))
    );
}

#[test]
fn let_diagnostics() {
    assert_eq!(
        ast_error("<program><main><let></let></main></program>"),
        ("Variable definition should have an inner <name> tag".to_owned(), Span::new(15, 26))
    );
    assert_eq!(
        ast_error("<program><main><let><name></name></let></main></program>"),
        ("Invalid variable name".to_owned(), Span::new(20, 33))
    );
    assert_eq!(
        ast_error("<program><main><let><name>1x</name><value><null/></value></let></main></program>"),
        ("`1x` is not a valid name for variable".to_owned(), Span::new(26, 28))
    );
    assert_eq!(
        ast_error("<program><main><let><name>x</name></let></main></program>"),
        ("Variable must be initialized".to_owned(), Span::new(15, 40))
    );
    assert_eq!(
        ast_error("<program><main><let><name>x</name><value><null/><null/></value></let></main></program>"),
        (
            "Variable value must have only one inner tag.\ntip: If you want to place multiple tags, wrap them in a <b> tag."
                .to_owned(),
            Span::new(34, 63)
        )
    );
}

#[test]
fn unwrapped_literal_in_main() {
    assert_eq!(
        ast_error("<program><main>x</main></program>"),
        ("Unexpected unwrapped literal in root tag".to_owned(), Span::new(15, 16))
    );
}

#[test]
fn variable_definition() {
    let ast = gen_main_ast(tree(
        "<program><main><let><name>x</name><value><int>42</int></value></let></main></program>",
    ))
    .unwrap();
    let program = match ast {
        ASTBlockType::Program(p) => p,
        other => panic!("{:?}", other),
    };
    assert!(program.head.is_none());
    assert_eq!(program.span, Span::new(0, 85));
    let statements = match program.main {
        ASTBlockType::MainBlock(v) => v,
        other => panic!("{:?}", other),
    };
    assert_eq!(statements.len(), 1);
    match &statements[0] {
        ASTBlockType::VariableDefinition(d) => {
            assert_eq!(d.name.value, "x");
            assert_eq!(d.name.span, Span::new(20, 34));
            assert!(!d.is_const);
            assert_eq!(d.span, Span::new(15, 68));
            assert_eq!(d.value.span, Span::new(34, 62));
            match d.value.value.as_ref() {
                ASTBlockType::Value(UVValue::Int(42)) => {}
                other => panic!("{:?}", other),
            }
        }
        other => panic!("{:?}", other),
    }
}

#[test]
fn constant_definition_in_head() {
    let ast = gen_main_ast(tree(
        "<program><head><let><name>k</name><value><bool>1</bool></value><const/></let></head><main></main></program>",
    ))
    .unwrap();
    let program = match ast {
        ASTBlockType::Program(p) => p,
        other => panic!("{:?}", other),
    };
    match program.head {
        Some(ASTBlockType::HeadBlock(v)) => match &v[0] {
            ASTBlockType::VariableDefinition(d) => {
                assert!(d.is_const);
                assert_eq!(d.name.value, "k");
            }
            other => panic!("{:?}", other),
        },
        other => panic!("{:?}", other),
    }
    match program.main {
        ASTBlockType::MainBlock(v) => assert!(v.is_empty()),
        other => panic!("{:?}", other),
    }
}

#[test]
fn nested_definition_as_value() {
    let ast = generate_ast(tree(
        "<let><name>a</name><value><let><name>b</name><value><str>s</str></value></let></value></let>",
    ))
    .unwrap();
    match ast {
        ASTBlockType::VariableDefinition(d) => match *d.value.value {
            ASTBlockType::VariableDefinition(inner) => assert_eq!(inner.name.value, "b"),
            other => panic!("{:?}", other),
        },
        other => panic!("{:?}", other),
    }
}

#[test]
fn unions_compare_as_sets() {
    let a = UVType::Union(vec![UVType::Int, UVType::Null]);
    let b = UVType::Union(vec![UVType::Null, UVType::Int]);
    let c = UVType::Union(vec![UVType::Int, UVType::Int, UVType::Null]);
    assert_eq!(a, b);
    assert_eq!(a, c);
    assert_ne!(a, UVType::Union(vec![UVType::Int]));
    assert_ne!(UVType::Union(vec![UVType::Int]), UVType::Int);
    assert_eq!(
        UVType::Union(vec![UVType::Union(vec![UVType::Null, UVType::String]), UVType::Float]),
        UVType::Union(vec![UVType::Float, UVType::Union(vec![UVType::String, UVType::Null])])
    );
    assert_ne!(UVType::Int, UVType::Float);
    assert_eq!(UVType::Boolean, UVType::Boolean);
}

#[test]
fn variable_name_rule_at_the_definition() {
    match parse_var_definition(&tree("<let><name>1x</name><value><null/></value></let>")) {
        Err(e) => {
            assert_eq!(e.message, "`1x` is not a valid name for variable");
            assert_eq!(e.span, Span::new(11, 13));
        }
        Ok(a) => panic!("{:?}", a),
    }
    match parse_var_definition(&tree("<let><name>_x1</name><value><null/></value></let>")) {
        Ok(ASTBlockType::VariableDefinition(d)) => assert_eq!(d.name.value, "_x1"),
        other => panic!("{:?}", other),
    }
}
