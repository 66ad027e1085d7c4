use frontend::code_parser::{ASTBody, ASTNode, CodeParser};
use frontend::span::Span;

fn read(code: &str) -> ASTNode {
    CodeParser::new(code.to_owned()).parse().unwrap()
}

fn read_error(code: &str) -> (String, Span) {
    match CodeParser::new(code.to_owned()).parse() {
        Ok(n) => panic!("expected a diagnostic, got {:?}", n),
        Err(e) => (e.message, e.span),
    }
}

fn text_of(body: &ASTBody) -> &str {
    match body {
        ASTBody::String(s) => s,
        ASTBody::Node(n) => panic!("not text: {:?}", n),
    }
}

#[test]
fn nested_self_closing_tag() {
    let node = read("<main><inner/></main>");
    assert_eq!(node.name, "main");
    assert!(!node.self_closing);
    assert_eq!(node.children.len(), 1);
    match &node.children[0] {
        ASTBody::Node(inner) => {
            assert_eq!(inner.name, "inner");
            assert!(inner.self_closing);
            assert!(inner.children.is_empty());
        }
        other => panic!("{:?}", other),
    }
}

#[test]
fn text_is_trimmed() {
    let node = read("<main>  hello world \n</main>");
    assert_eq!(node.children.len(), 1);
    assert_eq!(text_of(&node.children[0]), "hello world");
}

#[test]
fn comments_are_removed_first() {
    let node = read("<a><!-- c -->x<!--\n--></a>");
    assert_eq!(node.children.len(), 1);
    assert_eq!(text_of(&node.children[0]), "x");
}

#[test]
fn extra_param_is_read() {
    let node = read("<a p/>");
    assert_eq!(node.name, "a");
    assert_eq!(node.extra_param, "p");
    assert!(node.self_closing);
}

#[test]
fn lone_slash_is_dropped() {
    let node = read("<a>1/2</a>");
    assert_eq!(text_of(&node.children[0]), "12");
}

#[test]
fn text_and_tags_keep_their_order() {
    let node = read("<a>x<b>y</b>z</a>");
    assert_eq!(node.children.len(), 3);
    assert_eq!(text_of(&node.children[0]), "x");
    match &node.children[1] {
        ASTBody::Node(b) => assert_eq!(text_of(&b.children[0]), "y"),
        other => panic!("{:?}", other),
    }
    assert_eq!(text_of(&node.children[2]), "z");
}

#[test]
fn closing_tag_must_match() {
    assert_eq!(
        read_error("<a></b>"),
        ("Unexpected closing tag: </b>. Expected </a>".to_owned(), Span::new(6, 7))
    );
}

#[test]
fn reader_diagnostics() {
    assert_eq!(read_error("<a>"), ("Unexpected EOF".to_owned(), Span::new(2, 3)));
    assert_eq!(read_error(""), ("Unexpected EOF".to_owned(), Span::new(0, 0)));
    assert_eq!(read_error("/>"), ("Self-closing tag without name".to_owned(), Span::new(1, 2)));
    assert_eq!(read_error("x"), ("Unexpected literal".to_owned(), Span::new(0, 1)));
    assert_eq!(read_error(">"), ("Unexpected `>` tag".to_owned(), Span::new(0, 1)));
    assert_eq!(read_error("<a<"), ("Unexpected `<` tag".to_owned(), Span::new(2, 3)));
}

#[test]
fn unclosed_comment_stays() {
    assert_eq!(read_error("<a><!-- x</a>"), ("Unexpected `<` tag".to_owned(), Span::new(9, 10)));
}
