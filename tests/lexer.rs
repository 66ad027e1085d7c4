use frontend::lexer::{Lexer, UVLexerTokens, UVToken};

fn get_tokens(code: &str) -> Vec<UVLexerTokens> {
    Lexer::new(code.to_owned())
        .parse()
        .into_iter()
        .map(|t| t.token)
        .collect::<Vec<UVLexerTokens>>()
}

fn lit(s: &str) -> UVLexerTokens {
    UVLexerTokens::Literal(s.to_owned())
}

fn tok(token: UVLexerTokens, start: usize, end: usize) -> UVToken {
    UVToken { token, start, end }
}

#[test]
fn parse_simple() {
    assert_eq!(
        get_tokens("<main><test /></main>"),
        [
            UVLexerTokens::OpeningAngleBracket,
            UVLexerTokens::Literal("main".to_owned()),
            UVLexerTokens::ClosingAngleBracket,
            UVLexerTokens::OpeningAngleBracket,
            UVLexerTokens::Literal("test".to_owned()),
            UVLexerTokens::SelfClosingAngleBracket,
            UVLexerTokens::OpeningAngleBracketSlash,
            UVLexerTokens::Literal("main".to_owned()),
            UVLexerTokens::ClosingAngleBracket
        ]
    )
}

#[test]
fn parse_inner_literal() {
    assert_eq!(
        get_tokens("<main>test</main>"),
        [
            UVLexerTokens::OpeningAngleBracket,
            UVLexerTokens::Literal("main".to_owned()),
            UVLexerTokens::ClosingAngleBracket,
            UVLexerTokens::Literal("test".to_owned()),
            UVLexerTokens::OpeningAngleBracketSlash,
            UVLexerTokens::Literal("main".to_owned()),
            UVLexerTokens::ClosingAngleBracket
        ]
    )
}

#[test]
fn parse_unknown() {
    assert_eq!(
        get_tokens("<main>?</main>"),
        [
            UVLexerTokens::OpeningAngleBracket,
            UVLexerTokens::Literal("main".to_owned()),
            UVLexerTokens::ClosingAngleBracket,
            UVLexerTokens::Unknown('?'),
            UVLexerTokens::OpeningAngleBracketSlash,
            UVLexerTokens::Literal("main".to_owned()),
            UVLexerTokens::ClosingAngleBracket
        ]
    )
}

#[test]
fn parse_comments() {
    assert_eq!(
        get_tokens("<main><!-- this is a comment! --></main>"),
        [
            UVLexerTokens::OpeningAngleBracket,
            UVLexerTokens::Literal("main".to_owned()),
            UVLexerTokens::ClosingAngleBracket,
            UVLexerTokens::OpeningAngleBracketSlash,
            UVLexerTokens::Literal("main".to_owned()),
            UVLexerTokens::ClosingAngleBracket
        ]
    )
}

#[test]
fn unclosed_comment() {
    assert_eq!(
        get_tokens("<main><!-- this is an unclosed comment!</main>"),
        [
            UVLexerTokens::OpeningAngleBracket,
            UVLexerTokens::Literal("main".to_owned()),
            UVLexerTokens::ClosingAngleBracket
        ]
    )
}

#[test]
fn parse_raw_str() {
    assert_eq!(
        get_tokens("<str> Random content <null /> </str>"),
        [
            UVLexerTokens::OpeningAngleBracket,
            UVLexerTokens::Literal("str".to_owned()),
            UVLexerTokens::ClosingAngleBracket,
            UVLexerTokens::RawString(" Random content <null /> ".to_owned()),
            UVLexerTokens::OpeningAngleBracketSlash,
            UVLexerTokens::Literal("str".to_owned()),
            UVLexerTokens::ClosingAngleBracket
        ]
    )
}

#[test]
fn parse_labeled_str() {
    assert_eq!(
        get_tokens("<str-test> Random content <str-123></str-123> <null /> </str-test>"),
        [
            UVLexerTokens::OpeningAngleBracket,
            UVLexerTokens::Literal("str".to_owned()),
            UVLexerTokens::ClosingAngleBracket,
            UVLexerTokens::RawString(" Random content <str-123></str-123> <null /> ".to_owned()),
            UVLexerTokens::OpeningAngleBracketSlash,
            UVLexerTokens::Literal("str".to_owned()),
            UVLexerTokens::ClosingAngleBracket
        ]
    )
}

#[test]
fn parse_broken_raw_str() {
    assert_eq!(
        get_tokens("<str> Random content <null /> </str"),
        [
            UVLexerTokens::OpeningAngleBracket,
            UVLexerTokens::Literal("str".to_owned()),
            UVLexerTokens::ClosingAngleBracket,
            UVLexerTokens::RawString(" Random content <null /> </str".to_owned())
        ]
    )
}

#[test]
fn test_indexes() {
    assert_eq!(
        Lexer::new("<main>test</main>".to_owned()).parse(),
        [
            UVToken { token: UVLexerTokens::OpeningAngleBracket, start: 0, end: 1 },
            UVToken { token: UVLexerTokens::Literal("main".to_owned()), start: 1, end: 5 },
            UVToken { token: UVLexerTokens::ClosingAngleBracket, start: 5, end: 6 },
            UVToken { token: UVLexerTokens::Literal("test".to_owned()), start: 6, end: 10 },
            UVToken { token: UVLexerTokens::OpeningAngleBracketSlash, start: 10, end: 12 },
            UVToken { token: UVLexerTokens::Literal("main".to_owned()), start: 12, end: 16 },
            UVToken { token: UVLexerTokens::ClosingAngleBracket, start: 16, end: 17 },
        ]
    )
}

#[test]
fn raw_string_span_excludes_its_tags() {
    let tokens = Lexer::new("<str> ab </str>".to_owned()).parse();
    assert_eq!(
        tokens,
        [
            tok(UVLexerTokens::OpeningAngleBracket, 0, 1),
            tok(lit("str"), 1, 4),
            tok(UVLexerTokens::ClosingAngleBracket, 4, 5),
            tok(UVLexerTokens::RawString(" ab ".to_owned()), 5, 9),
            tok(UVLexerTokens::OpeningAngleBracketSlash, 9, 11),
            tok(lit("str"), 11, 14),
            tok(UVLexerTokens::ClosingAngleBracket, 14, 15),
        ]
    );
}

#[test]
fn labeled_tag_literal_covers_the_label() {
    let tokens = Lexer::new("<str-ab>x</str-ab>".to_owned()).parse();
    assert_eq!(
        tokens,
        [
            tok(UVLexerTokens::OpeningAngleBracket, 0, 1),
            tok(lit("str"), 1, 7),
            tok(UVLexerTokens::ClosingAngleBracket, 7, 8),
            tok(UVLexerTokens::RawString("x".to_owned()), 8, 9),
            tok(UVLexerTokens::OpeningAngleBracketSlash, 9, 11),
            tok(lit("str"), 11, 17),
            tok(UVLexerTokens::ClosingAngleBracket, 17, 18),
        ]
    );
}

#[test]
fn mismatched_label_never_closes() {
    assert_eq!(
        get_tokens("<str-x> foo </str-y>"),
        [
            UVLexerTokens::OpeningAngleBracket,
            lit("str"),
            UVLexerTokens::ClosingAngleBracket,
            UVLexerTokens::RawString(" foo </str-y>".to_owned()),
        ]
    );
}

#[test]
fn unlabeled_raw_string_ignores_labeled_close() {
    assert_eq!(
        get_tokens("<str>a</str-b></str>"),
        [
            UVLexerTokens::OpeningAngleBracket,
            lit("str"),
            UVLexerTokens::ClosingAngleBracket,
            UVLexerTokens::RawString("a</str-b>".to_owned()),
            UVLexerTokens::OpeningAngleBracketSlash,
            lit("str"),
            UVLexerTokens::ClosingAngleBracket,
        ]
    );
}

#[test]
fn empty_raw_string_gives_no_body_token() {
    assert_eq!(
        get_tokens("<str></str>"),
        [
            UVLexerTokens::OpeningAngleBracket,
            lit("str"),
            UVLexerTokens::ClosingAngleBracket,
            UVLexerTokens::OpeningAngleBracketSlash,
            lit("str"),
            UVLexerTokens::ClosingAngleBracket,
        ]
    );
}

#[test]
fn raw_string_hides_nested_tags() {
    let tokens = get_tokens("<str> Random <null/> </str>");
    assert_eq!(tokens.len(), 7);
    assert_eq!(tokens[3], UVLexerTokens::RawString(" Random <null/> ".to_owned()));
}

#[test]
fn lone_slash_is_unknown() {
    assert_eq!(
        get_tokens("a/b"),
        [lit("a"), UVLexerTokens::Unknown('/'), lit("b")]
    );
}

#[test]
fn literal_class_and_whitespace() {
    let tokens = Lexer::new("x1.5,_y \t\n z#".to_owned()).parse();
    assert_eq!(
        tokens,
        [
            tok(lit("x1.5,_y"), 0, 7),
            tok(lit("z"), 11, 12),
            tok(UVLexerTokens::Unknown('#'), 12, 13),
        ]
    );
}

#[test]
fn string_tag_prefix_is_not_raw() {
    assert_eq!(
        get_tokens("<string>"),
        [UVLexerTokens::OpeningAngleBracket, lit("string"), UVLexerTokens::ClosingAngleBracket]
    );
}

#[test]
fn unterminated_label_is_a_plain_tag() {
    assert_eq!(
        get_tokens("<str-ab"),
        [
            UVLexerTokens::OpeningAngleBracket,
            lit("str"),
            UVLexerTokens::Unknown('-'),
            lit("ab"),
        ]
    );
}

#[test]
fn empty_input_has_no_tokens() {
    assert_eq!(get_tokens(""), []);
    assert_eq!(get_tokens("  \n "), []);
}

#[test]
fn spans_count_characters_not_bytes() {
    let tokens = Lexer::new("é<a>".to_owned()).parse();
    assert_eq!(
        tokens,
        [
            tok(UVLexerTokens::Unknown('é'), 0, 1),
            tok(UVLexerTokens::OpeningAngleBracket, 1, 2),
            tok(lit("a"), 2, 3),
            tok(UVLexerTokens::ClosingAngleBracket, 3, 4),
        ]
    );
}

#[test]
fn lexing_twice_gives_the_same_tokens() {
    let a = Lexer::new("<main><int>4</int></main>".to_owned()).parse();
    let b = Lexer::new("<main><int>4</int></main>".to_owned()).parse();
    assert_eq!(a, b);
}

#[test]
fn line_indexes() {
    let lexer = Lexer::new("ab\ncd\n\ne".to_owned());
    assert_eq!(lexer.get_lines_indexes(), vec![0, 3, 6, 7]);
}

#[test]
fn token_printed_forms() {
    assert_eq!(UVLexerTokens::OpeningAngleBracket.to_string(), "<");
    assert_eq!(UVLexerTokens::SelfClosingAngleBracket.to_string(), "/>");
    assert_eq!(lit("ab").to_string(), "[Literal \"ab\"]");
    assert_eq!(UVLexerTokens::RawString(" x".to_owned()).to_string(), "[Raw string \" x\"]");
    assert_eq!(UVLexerTokens::Unknown('?').to_string(), "?");
}
