use vstd::prelude::*;

pub mod ast;
pub mod ast_types;
pub mod code_parser;
pub mod errors;
pub mod iterator;
pub mod lexer;
pub mod span;
pub mod text;
pub mod tokens_parser;
pub mod values;

use ast::{ast_result_view, ast_within, gen_main_ast, gen_program, lemma_gen_program_within, ASTBlockType, AstView};
use errors::{ErrorView, SpannedError};
use lexer::{lex, Lexer};
use tokens_parser::{lemma_parse_tree_spans_nested, parse_tokens, TokenParser};

verus! {

/// The program tree of a source text: its tokens, read into a parse tree, read into a program.
/// The first diagnostic of any stage is the result.
pub open spec fn frontend(code: Seq<char>) -> Result<AstView, ErrorView> {
    match parse_tokens(lex(code)) {
        Err(e) => Err(e),
        Ok(tree) => gen_program(tree),
    }
}

/// Reads a source text into its program tree, or the first diagnostic.
pub fn get_ast(code: String) -> (r: Result<ASTBlockType, SpannedError>)
    ensures
        ast_result_view(r) == frontend(code@),
{
    let mut lexer = Lexer::new(code);
    let tokens = lexer.parse();
    let mut parser = TokenParser::new(tokens);
    match parser.parse() {
        Err(e) => Err(e),
        Ok(tree) => gen_main_ast(tree),
    }
}

/// Equal source texts give equal program trees, or equal diagnostics.
pub proof fn lemma_frontend_deterministic(a: Seq<char>, b: Seq<char>)
    requires
        a == b,
    ensures
        frontend(a) == frontend(b),
{
}

/// In the program tree of any source text, the span of every node lies within the span of each
/// node that holds it.
pub proof fn lemma_ast_spans_nested(code: Seq<char>)
    ensures
        frontend(code) matches Ok(a) ==> (a matches AstView::Program { start, end, .. } && ast_within(
            a,
            start,
            end,
        )),
{
    lemma_parse_tree_spans_nested(code);
    if let Ok(tree) = parse_tokens(lex(code)) {
        lemma_gen_program_within(tree);
    }
}

} // verus!
