use frontend::lexer::Lexer;
use frontend::span::{Span, Spanned};
use frontend::tokens_parser::{TokenParser, UVParseBody, UVParseNode};

fn get_nodes(code: &str) -> UVParseNode {
    TokenParser::new(Lexer::new(code.to_owned()).parse())
        .parse()
        .unwrap()
}

fn parse_error(code: &str) -> (String, Span) {
    match TokenParser::new(Lexer::new(code.to_owned()).parse()).parse() {
        Ok(_) => panic!("expected a diagnostic"),
        Err(e) => (e.message, e.span),
    }
}

#[test]
fn simple() {
    assert_eq!(
        get_nodes("<main><inner/></main>"),
        UVParseNode {
            name: "main".to_owned(),
            children: vec![UVParseBody::Tag(Box::new(UVParseNode {
                name: "inner".to_owned(),
                children: vec![],
                self_closing: true,
                extra_param: String::new(),
                span: Span::new(6, 14)
            }))],
            self_closing: false,
            extra_param: String::new(),
            span: Span::new(0, 21)
        }
    )
}

#[test]
fn literal() {
    assert_eq!(
        get_nodes("<main>literal</main>"),
        UVParseNode {
            name: "main".to_owned(),
            children: vec![UVParseBody::String(Spanned {
                value: "literal".to_owned(),
                span: Span::new(6, 13)
            })],
            self_closing: false,
            extra_param: String::new(),
            span: Span::new(0, 20)
        }
    )
}

#[test]
#[should_panic]
fn unexpected_token() {
    get_nodes("<main>literal?</main>");
}

#[test]
fn main_with_literal_child_span() {
    let node = get_nodes("<main>test</main>");
    assert_eq!(
        node.children,
        vec![UVParseBody::String(Spanned::new("test".to_owned(), Span::new(6, 10)))]
    );
}

#[test]
fn extra_param_is_kept() {
    let node = get_nodes("<tag param/>");
    assert_eq!(node.name, "tag");
    assert_eq!(node.extra_param, "param");
    assert!(node.self_closing);
    assert_eq!(node.span, Span::new(0, 12));
}

#[test]
fn children_keep_source_order() {
    let node = get_nodes("<a><b/>x<c></c></a>");
    assert_eq!(node.children_len(), 3);
    assert_eq!(node.get_child_node(0).unwrap().name, "b");
    assert!(node.get_child_node(1).is_none());
    assert_eq!(node.get_child_node(2).unwrap().name, "c");
    assert_eq!(node.get_child_by_name("c").unwrap().span, Span::new(8, 15));
    assert_eq!(node.get_inner_literal().unwrap().value, "x");
    assert!(!node.all_literals());
    assert!(!node.all_tags());
}

#[test]
fn first_child_by_name_wins() {
    let node = get_nodes("<a><b>1</b><b>2</b></a>");
    let b = node.get_child_by_name("b").unwrap();
    assert_eq!(b.get_inner_literal().unwrap().value, "1");
    assert!(node.get_child_by_name("z").is_none());
    assert!(node.all_tags());
    assert!(b.all_literals());
}

#[test]
fn raw_string_becomes_a_literal_child() {
    let node = get_nodes("<str> a <b> </str>");
    assert_eq!(
        node.children,
        vec![UVParseBody::String(Spanned::new(" a <b> ".to_owned(), Span::new(5, 12)))]
    );
}

#[test]
fn unexpected_closing_tag() {
    assert_eq!(
        parse_error("<a></b>"),
        ("Unexpected closing tag '</b>'. Expected '</a>'".to_owned(), Span::new(5, 6))
    );
}

#[test]
fn unexpected_symbols() {
    assert_eq!(parse_error("<<"), ("Unexpected '<' token".to_owned(), Span::new(1, 2)));
    assert_eq!(parse_error(">"), ("Unexpected '>' token".to_owned(), Span::new(0, 1)));
    assert_eq!(parse_error("<a></>"), ("Unexpected '>' token".to_owned(), Span::new(5, 6)));
    assert_eq!(parse_error("/>"), ("Unexpected '/>' token".to_owned(), Span::new(0, 2)));
    assert_eq!(parse_error("</a>"), ("Unexpected '</' token".to_owned(), Span::new(0, 2)));
    assert_eq!(parse_error("<a b c>"), ("Unexpected literal 'c'".to_owned(), Span::new(5, 6)));
    assert_eq!(parse_error("<a>?</a>"), ("Unexpected token: '?'".to_owned(), Span::new(3, 4)));
}

#[test]
fn unexpected_eof() {
    assert_eq!(parse_error("<main>"), ("Unexpected EOF".to_owned(), Span::new(3, 6)));
    assert_eq!(parse_error(""), ("Unexpected EOF".to_owned(), Span::new(0, 0)));
    assert_eq!(parse_error("<"), ("Unexpected EOF".to_owned(), Span::new(0, 1)));
}

#[test]
fn trailing_tokens_are_left_unread() {
    let node = get_nodes("<a/><b/>");
    assert_eq!(node.name, "a");
}

#[test]
fn deep_nesting_does_not_overflow() {
    let mut code = String::new();
    for _ in 0..2000 {
        code.push_str("<a>");
    }
    for _ in 0..2000 {
        code.push_str("</a>");
    }
    let node = get_nodes(&code);
    assert_eq!(node.name, "a");
    assert_eq!(node.children_len(), 1);
}
