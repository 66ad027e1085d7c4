use vstd::prelude::*;

use crate::ast_types::{keyword_type, type_view, StringToType, TypeView, UVType, UVValue, ValueView};
use crate::errors::{concat3, error_view, ErrorView, SpannedError};
use crate::span::{Span, Spanned};
use crate::text::same_text;
use crate::tokens_parser::{
    all_literals_view, all_tags_view, first_literal, first_tag_named, lemma_first_literal,
    lemma_bodies_view_index, lemma_first_tag_named, node_view, bodies_view, body_view, ParseBodyView,
    child_within, children_within, lemma_children_within_grow, spans_nested,
    UVParseBody,
    ParseNodeView, UVParseNode,
};
use crate::values::{
    is_float_literal, is_float_text, is_identifier, is_valid_identifier, parse_bool, parse_bool_text,
    parse_i64, parse_int_text,
};

verus! {

broadcast use {vstd::seq::group_seq_axioms, vstd::std_specs::vec::group_vec_axioms};

/// A node of the program tree.
#[derive(Debug)]
pub enum ASTBlockType {
    Program(Box<ProgramBlock>),
    HeadBlock(Vec<ASTBlockType>),
    MainBlock(Vec<ASTBlockType>),
    VariableDefinition(VariableDefinition),
    FunctionDefinition,
    FunctionCall,
    VariableAssignment,
    ConditionalOp,
    MathOp,
    LogicalOp,
    ForLoop,
    WhileLoop,
    Value(UVValue),
    Type(UVType),
    GroupBlock,
}

/// A whole program: an optional head block and the main block.
#[derive(Debug)]
pub struct ProgramBlock {
    pub head: Option<ASTBlockType>,
    pub main: ASTBlockType,
    pub span: Span,
}

/// A variable definition: its name, its initial value, and whether it is constant.
#[derive(Debug)]
pub struct VariableDefinition {
    pub name: Spanned<String>,
    pub value: Spanned<Box<ASTBlockType>>,
    pub is_const: bool,
    pub span: Span,
}

/// The mathematical value of a node of the program tree.
pub enum AstView {
    Program { head: Option<Box<AstView>>, main: Box<AstView>, start: int, end: int },
    HeadBlock(Seq<AstView>),
    MainBlock(Seq<AstView>),
    VariableDefinition {
        name: Seq<char>,
        name_start: int,
        name_end: int,
        value: Box<AstView>,
        value_start: int,
        value_end: int,
        is_const: bool,
        start: int,
        end: int,
    },
    FunctionDefinition,
    FunctionCall,
    VariableAssignment,
    ConditionalOp,
    MathOp,
    LogicalOp,
    ForLoop,
    WhileLoop,
    Value(ValueView),
    Type(TypeView),
    GroupBlock,
}

pub open spec fn ast_view(a: ASTBlockType) -> AstView
    decreases a,
{
    match a {
        ASTBlockType::Program(p) => AstView::Program {
            head: match p.head {
                Some(h) => Some(Box::new(ast_view(h))),
                None => None,
            },
            main: Box::new(ast_view(p.main)),
            start: p.span.start as int,
            end: p.span.end as int,
        },
        ASTBlockType::HeadBlock(v) => AstView::HeadBlock(asts_view(v@)),
        ASTBlockType::MainBlock(v) => AstView::MainBlock(asts_view(v@)),
        ASTBlockType::VariableDefinition(d) => AstView::VariableDefinition {
            name: d.name.value@,
            name_start: d.name.span.start as int,
            name_end: d.name.span.end as int,
            value: Box::new(ast_view(*d.value.value)),
            value_start: d.value.span.start as int,
            value_end: d.value.span.end as int,
            is_const: d.is_const,
            start: d.span.start as int,
            end: d.span.end as int,
        },
        ASTBlockType::FunctionDefinition => AstView::FunctionDefinition,
        ASTBlockType::FunctionCall => AstView::FunctionCall,
        ASTBlockType::VariableAssignment => AstView::VariableAssignment,
        ASTBlockType::ConditionalOp => AstView::ConditionalOp,
        ASTBlockType::MathOp => AstView::MathOp,
        ASTBlockType::LogicalOp => AstView::LogicalOp,
        ASTBlockType::ForLoop => AstView::ForLoop,
        ASTBlockType::WhileLoop => AstView::WhileLoop,
        ASTBlockType::Value(v) => AstView::Value(v@),
        ASTBlockType::Type(t) => AstView::Type(type_view(t)),
        ASTBlockType::GroupBlock => AstView::GroupBlock,
    }
}

pub open spec fn asts_view(v: Seq<ASTBlockType>) -> Seq<AstView>
    decreases v,
{
    if v.len() == 0 {
        seq![]
    } else {
        asts_view(v.drop_last()).push(ast_view(v.last()))
    }
}

pub open spec fn ast_result_view(r: Result<ASTBlockType, SpannedError>) -> Result<
    AstView,
    ErrorView,
> {
    match r {
        Ok(a) => Ok(ast_view(a)),
        Err(e) => Err(e@),
    }
}

pub open spec fn value_result_view(r: Result<UVValue, SpannedError>) -> Result<
    ValueView,
    ErrorView,
> {
    match r {
        Ok(v) => Ok(v@),
        Err(e) => Err(e@),
    }
}

pub open spec fn multiple_values_message() -> Seq<char> {
    "Variable value must have only one inner tag.\ntip: If you want to place multiple tags, wrap them in a <b> tag."@
}

/// The check that a value tag holds exactly one literal.
pub open spec fn inner_check(n: ParseNodeView) -> Result<(), ErrorView> {
    if n.children.len() == 1 && all_literals_view(n.children) {
        Ok(())
    } else {
        Err(error_view("Invalid value for `"@ + n.name + "` type"@, n.start, n.end))
    }
}

/// The one literal of a value tag that passed `inner_check`, with its span.
pub open spec fn inner_text(n: ParseNodeView) -> Seq<char> {
    n.children[0]->Literal_0
}

pub open spec fn cannot_parse(n: ParseNodeView, suffix: Seq<char>) -> ErrorView {
    error_view(
        "Cannot parse `"@ + inner_text(n) + suffix,
        n.children[0]->Literal_1,
        n.children[0]->Literal_2,
    )
}

/// The integer of an `<int>` tag.
pub open spec fn int_spec(n: ParseNodeView) -> Result<int, ErrorView> {
    match inner_check(n) {
        Err(e) => Err(e),
        Ok(_) => match parse_i64(inner_text(n)) {
            Some(v) => Ok(v as int),
            None => Err(cannot_parse(n, "` to an integer"@)),
        },
    }
}

/// The float literal of a `<float>` tag.
pub open spec fn float_spec(n: ParseNodeView) -> Result<Seq<char>, ErrorView> {
    match inner_check(n) {
        Err(e) => Err(e),
        Ok(_) => if is_float_text(inner_text(n)) {
            Ok(inner_text(n))
        } else {
            Err(cannot_parse(n, "` to a float"@))
        },
    }
}

/// The text of a `<str>` tag: its first literal, or nothing.
pub open spec fn str_spec(n: ParseNodeView) -> Seq<char> {
    let k = first_literal(n.children, 0);
    if k < n.children.len() {
        n.children[k]->Literal_0
    } else {
        seq![]
    }
}

/// The boolean of a `<bool>` tag.
pub open spec fn bool_spec(n: ParseNodeView) -> Result<bool, ErrorView> {
    match inner_check(n) {
        Err(e) => Err(e),
        Ok(_) => match parse_bool(inner_text(n)) {
            Some(b) => Ok(b),
            None => Err(cannot_parse(n, "` to a boolean"@)),
        },
    }
}

/// The check that a `<null>` tag closes itself.
pub open spec fn null_spec(n: ParseNodeView) -> Result<(), ErrorView> {
    if n.self_closing {
        Ok(())
    } else {
        Err(error_view("`null` tag must be self-closing"@, n.start, n.end))
    }
}

/// The value a tag of a type keyword stands for.
pub open spec fn gen_value(n: ParseNodeView) -> Result<ValueView, ErrorView> {
    if n.name == "int"@ {
        match int_spec(n) {
            Ok(v) => Ok(ValueView::Int(v)),
            Err(e) => Err(e),
        }
    } else if n.name == "float"@ {
        match float_spec(n) {
            Ok(t) => Ok(ValueView::Float(t)),
            Err(e) => Err(e),
        }
    } else if n.name == "str"@ {
        Ok(ValueView::String(str_spec(n)))
    } else if n.name == "bool"@ {
        match bool_spec(n) {
            Ok(b) => Ok(ValueView::Boolean(b)),
            Err(e) => Err(e),
        }
    } else {
        match null_spec(n) {
            Ok(_) => Ok(ValueView::Null),
            Err(e) => Err(e),
        }
    }
}

/// The program tree of a statement: a variable definition or a value.
pub open spec fn gen_node(n: ParseNodeView) -> Result<AstView, ErrorView>
    decreases n,
    via gen_node_decreases
{
    let cs = n.children;
    if n.name == "let"@ {
        let ni = first_tag_named(cs, "name"@, 0);
        if ni >= cs.len() || ni < 0 {
            Err(error_view("Variable definition should have an inner <name> tag"@, n.start, n.end))
        } else {
            let nb = cs[ni]->Tag_0;
            if nb.children.len() != 1 || !all_literals_view(nb.children) {
                Err(error_view("Invalid variable name"@, nb.start, nb.end))
            } else {
                let text = nb.children[0]->Literal_0;
                if !is_identifier(text) {
                    Err(
                        error_view(
                            "`"@ + text + "` is not a valid name for variable"@,
                            nb.children[0]->Literal_1,
                            nb.children[0]->Literal_2,
                        ),
                    )
                } else {
                    let vi = first_tag_named(cs, "value"@, 0);
                    if vi >= cs.len() || vi < 0 {
                        Err(error_view("Variable must be initialized"@, n.start, n.end))
                    } else {
                        let vb = cs[vi]->Tag_0;
                        if vb.children.len() != 1 || !all_tags_view(vb.children) {
                            Err(error_view(multiple_values_message(), vb.start, vb.end))
                        } else {
                            let ci = first_tag_named(cs, "const"@, 0);
                            let is_const = 0 <= ci < cs.len() && cs[ci]->Tag_0.self_closing;
                            match gen_node(vb.children[0]->Tag_0) {
                                Err(e) => Err(e),
                                Ok(a) => Ok(
                                    AstView::VariableDefinition {
                                        name: text,
                                        name_start: nb.start,
                                        name_end: nb.end,
                                        value: Box::new(a),
                                        value_start: vb.start,
                                        value_end: vb.end,
                                        is_const,
                                        start: n.start,
                                        end: n.end,
                                    },
                                ),
                            }
                        }
                    }
                }
            }
        }
    } else if keyword_type(n.name) is Some {
        match gen_value(n) {
            Ok(v) => Ok(AstView::Value(v)),
            Err(e) => Err(e),
        }
    } else {
        Err(error_view("Unexpected <"@ + n.name + "> tag"@, n.start, n.end))
    }
}

#[via_fn]
proof fn gen_node_decreases(n: ParseNodeView) {
    let cs = n.children;
    let vi = first_tag_named(cs, "value"@, 0);
    lemma_first_tag_named(cs, "value"@, 0);
    if 0 <= vi < cs.len() {
        let vb = cs[vi]->Tag_0;
        if vb.children.len() == 1 && all_tags_view(vb.children) {
            assert(vb.children[0] is Tag);
            assert(decreases_to!(n => cs));
            assert(decreases_to!(cs => cs[vi]));
            assert(decreases_to!(cs[vi] => vb));
            assert(decreases_to!(vb => vb.children));
            assert(decreases_to!(vb.children => vb.children[0]));
            assert(decreases_to!(vb.children[0] => vb.children[0]->Tag_0));
        }
    }
}

/// The statements of a head or main block, in order; the first error stops the reading.
pub open spec fn gen_children(cs: Seq<ParseBodyView>) -> Result<Seq<AstView>, ErrorView>
    decreases cs.len(),
{
    if cs.len() == 0 {
        Ok(seq![])
    } else {
        match cs[0] {
            ParseBodyView::Literal(_, s, e) => Err(
                error_view("Unexpected unwrapped literal in root tag"@, s, e),
            ),
            ParseBodyView::Tag(t) => match gen_node(t) {
                Err(e) => Err(e),
                Ok(a) => match gen_children(cs.drop_first()) {
                    Err(e) => Err(e),
                    Ok(rest) => Ok(seq![a] + rest),
                },
            },
        }
    }
}

/// The program tree of a whole parse tree, whose root must be `<program>`.
pub open spec fn gen_program(n: ParseNodeView) -> Result<AstView, ErrorView> {
    let cs = n.children;
    if n.name != "program"@ {
        Err(error_view("The program must begin with the <program> tag"@, n.start, n.end))
    } else {
        let hi = first_tag_named(cs, "head"@, 0);
        let head = if 0 <= hi < cs.len() {
            match gen_children(cs[hi]->Tag_0.children) {
                Ok(h) => Ok(Some(Box::new(AstView::HeadBlock(h)))),
                Err(e) => Err(e),
            }
        } else {
            Ok(None)
        };
        match head {
            Err(e) => Err(e),
            Ok(h) => {
                let mi = first_tag_named(cs, "main"@, 0);
                if mi >= cs.len() || mi < 0 {
                    Err(error_view("Main block in <program> is required"@, n.start, n.end))
                } else {
                    match gen_children(cs[mi]->Tag_0.children) {
                        Err(e) => Err(e),
                        Ok(m) => Ok(
                            AstView::Program {
                                head: h,
                                main: Box::new(AstView::MainBlock(m)),
                                start: n.start,
                                end: n.end,
                            },
                        ),
                    }
                }
            }
        }
    }
}

/// Checks that a value tag holds exactly one literal.
pub fn validate_inner(node: &UVParseNode) -> (r: Result<(), SpannedError>)
    ensures
        r is Ok ==> inner_check(node_view(*node)) is Ok,
        r is Err ==> inner_check(node_view(*node)) == Err::<(), ErrorView>(r->Err_0@),
{
    if node.children_len() != 1 || !node.all_literals() {
        return Err(SpannedError::new(concat3("Invalid value for `", node.name.as_str(), "` type"), node.span));
    }
    Ok(())
}

/// The one literal of a value tag that passed `validate_inner`.
fn inner_literal(node: &UVParseNode) -> (r: &Spanned<String>)
    requires
        inner_check(node_view(*node)) is Ok,
    ensures
        node_view(*node).children[0] == ParseBodyView::Literal(
            r.value@,
            r.span.start as int,
            r.span.end as int,
        ),
{
    proof {
        lemma_first_literal(node_view(*node).children, 0);
    }
    match node.get_inner_literal() {
        Some(l) => l,
        None => vstd::pervasive::unreached(),
    }
}

/// Reads the integer of an `<int>` tag.
pub fn parse_int(node: &UVParseNode) -> (r: Result<i64, SpannedError>)
    ensures
        r is Ok ==> int_spec(node_view(*node)) == Ok::<int, ErrorView>(r->Ok_0 as int),
        r is Err ==> int_spec(node_view(*node)) == Err::<int, ErrorView>(r->Err_0@),
{
    let checked = validate_inner(node);
    if let Err(e) = checked {
        return Err(e);
    }
    let lit = inner_literal(node);
    match parse_int_text(lit.value.as_str()) {
        Some(v) => {
            Ok(v)
        },
        None => Err(SpannedError::new(concat3("Cannot parse `", lit.value.as_str(), "` to an integer"), lit.span)),
    }
}

/// Reads the float literal of a `<float>` tag.
pub fn parse_float(node: &UVParseNode) -> (r: Result<String, SpannedError>)
    ensures
        r is Ok ==> float_spec(node_view(*node)) == Ok::<Seq<char>, ErrorView>(r->Ok_0@),
        r is Err ==> float_spec(node_view(*node)) == Err::<Seq<char>, ErrorView>(r->Err_0@),
{
    let checked = validate_inner(node);
    if let Err(e) = checked {
        return Err(e);
    }
    let lit = inner_literal(node);
    if is_float_literal(lit.value.as_str()) {
        Ok(lit.value.clone())
    } else {
        Err(SpannedError::new(concat3("Cannot parse `", lit.value.as_str(), "` to a float"), lit.span))
    }
}

/// Reads the text of a `<str>` tag: its first literal, or nothing.
pub fn parse_str(node: &UVParseNode) -> (r: String)
    ensures
        r@ == str_spec(node_view(*node)),
{
    proof {
        lemma_first_literal(node_view(*node).children, 0);
    }
    match node.get_inner_literal() {
        Some(lit) => lit.value.clone(),
        None => String::new(),
    }
}

/// Reads the boolean of a `<bool>` tag.
pub fn parse_boolean(node: &UVParseNode) -> (r: Result<bool, SpannedError>)
    ensures
        r is Ok ==> bool_spec(node_view(*node)) == Ok::<bool, ErrorView>(r->Ok_0),
        r is Err ==> bool_spec(node_view(*node)) == Err::<bool, ErrorView>(r->Err_0@),
{
    let checked = validate_inner(node);
    if let Err(e) = checked {
        return Err(e);
    }
    let lit = inner_literal(node);
    match parse_bool_text(lit.value.as_str()) {
        Some(b) => Ok(b),
        None => Err(SpannedError::new(concat3("Cannot parse `", lit.value.as_str(), "` to a boolean"), lit.span)),
    }
}

/// Checks that a `<null>` tag closes itself.
pub fn validate_null(node: &UVParseNode) -> (r: Result<(), SpannedError>)
    ensures
        r is Ok ==> null_spec(node_view(*node)) is Ok,
        r is Err ==> null_spec(node_view(*node)) == Err::<(), ErrorView>(r->Err_0@),
{
    if !node.self_closing {
        return Err(SpannedError::new("`null` tag must be self-closing".to_owned(), node.span));
    }
    Ok(())
}

/// Reads the value of a tag of a type keyword.
fn value_of(node: &UVParseNode) -> (r: Result<UVValue, SpannedError>)
    ensures
        value_result_view(r) == gen_value(node_view(*node)),
{
    let name = node.name.as_str();
    if same_text(name, "int") {
        Ok(UVValue::Int(parse_int(node)?))
    } else if same_text(name, "float") {
        Ok(UVValue::Float(parse_float(node)?))
    } else if same_text(name, "str") {
        Ok(UVValue::String(parse_str(node)))
    } else if same_text(name, "bool") {
        Ok(UVValue::Boolean(parse_boolean(node)?))
    } else {
        validate_null(node)?;
        Ok(UVValue::Null)
    }
}

/// Reads the value of a tag whose name is a type keyword: `int`, `float`, `str`, `bool` or
/// `null`.
pub fn parse_value(node: UVParseNode) -> (r: Result<ASTBlockType, SpannedError>)
    requires
        keyword_type(node.name@) is Some,
    ensures
        ast_result_view(r) == match gen_value(node_view(node)) {
            Ok(v) => Ok(AstView::Value(v)),
            Err(e) => Err(e),
        },
{
    Ok(ASTBlockType::Value(value_of(&node)?))
}

/// Reads a statement: a variable definition or a value.
fn generate_node(node: &UVParseNode) -> (r: Result<ASTBlockType, SpannedError>)
    ensures
        ast_result_view(r) == gen_node(node_view(*node)),
    decreases node_view(*node), 1int,
{
    if same_text(node.name.as_str(), "let") {
        parse_var_definition(node)
    } else if node.name.to_uvtype().is_some() {
        match value_of(node) {
            Ok(v) => Ok(ASTBlockType::Value(v)),
            Err(e) => Err(e),
        }
    } else {
        Err(SpannedError::new(concat3("Unexpected <", node.name.as_str(), "> tag"), node.span))
    }
}

/// Reads a variable definition `<let>`.
pub fn parse_var_definition(node: &UVParseNode) -> (r: Result<ASTBlockType, SpannedError>)
    requires
        node_view(*node).name == "let"@,
    ensures
        ast_result_view(r) == gen_node(node_view(*node)),
        ({
            let cs = node_view(*node).children;
            let ni = first_tag_named(cs, "name"@, 0);
            let lit = cs[ni]->Tag_0.children[0];
            (0 <= ni < cs.len() && cs[ni]->Tag_0.children.len() == 1 && lit is Literal) ==> ((
            r is Err && r->Err_0@ == error_view(
                name_message(lit->Literal_0),
                lit->Literal_1,
                lit->Literal_2,
            )) <==> !is_identifier(lit->Literal_0))
        }),
    decreases node_view(*node), 0int,
{
    let ghost n = node_view(*node);
    let ghost cs = n.children;
    proof {
        let ni = first_tag_named(cs, "name"@, 0);
        if 0 <= ni < cs.len() && cs[ni]->Tag_0.children.len() == 1 && cs[ni]->Tag_0.children[0] is Literal {
            lemma_name_rule(n);
        }
    }
    proof {
        lemma_first_tag_named(cs, "name"@, 0);
        lemma_first_tag_named(cs, "value"@, 0);
        lemma_first_tag_named(cs, "const"@, 0);
    }
    let name_block = match node.get_child_by_name("name") {
        Some(b) => b,
        None => {
            return Err(SpannedError::new("Variable definition should have an inner <name> tag".to_owned(), node.span));
        },
    };
    if name_block.children_len() != 1 || !name_block.all_literals() {
        return Err(SpannedError::new("Invalid variable name".to_owned(), name_block.span));
    }
    let name = inner_name(name_block);
    if !is_valid_identifier(name.value.as_str()) {
        return Err(SpannedError::new(concat3("`", name.value.as_str(), "` is not a valid name for variable"), name.span));
    }
    let value_block = match node.get_child_by_name("value") {
        Some(b) => b,
        None => {
            return Err(SpannedError::new("Variable must be initialized".to_owned(), node.span));
        },
    };
    if value_block.children_len() != 1 || !value_block.all_tags() {
        return Err(SpannedError::new(
            "Variable value must have only one inner tag.\ntip: If you want to place multiple tags, wrap them in a <b> tag.".to_owned(),
            value_block.span,
        ));
    }
    let value = match value_block.get_child_node(0) {
        Some(v) => v,
        None => vstd::pervasive::unreached(),
    };
    let is_const = match node.get_child_by_name("const") {
        Some(c) => c.self_closing,
        None => false,
    };
    proof {
        let vi = first_tag_named(cs, "value"@, 0);
        let vb = cs[vi]->Tag_0;
        assert(decreases_to!(n => cs));
        assert(decreases_to!(cs => cs[vi]));
        assert(decreases_to!(cs[vi] => vb));
        assert(decreases_to!(vb => vb.children));
        assert(decreases_to!(vb.children => vb.children[0]));
        assert(decreases_to!(vb.children[0] => vb.children[0]->Tag_0));
    }
    let generated = match generate_node(value) {
        Ok(a) => a,
        Err(e) => {
            return Err(e);
        },
    };
    Ok(ASTBlockType::VariableDefinition(VariableDefinition {
        name: Spanned { value: name.value.clone(), span: name_block.span },
        value: Spanned { value: Box::new(generated), span: value_block.span },
        is_const,
        span: node.span,
    }))
}

/// The one literal of a `<name>` block that holds exactly one literal.
fn inner_name(block: &UVParseNode) -> (r: &Spanned<String>)
    requires
        node_view(*block).children.len() == 1,
        all_literals_view(node_view(*block).children),
    ensures
        node_view(*block).children[0] == ParseBodyView::Literal(
            r.value@,
            r.span.start as int,
            r.span.end as int,
        ),
{
    proof {
        lemma_first_literal(node_view(*block).children, 0);
    }
    match block.get_inner_literal() {
        Some(l) => l,
        None => vstd::pervasive::unreached(),
    }
}

pub open spec fn children_result_view(r: Result<Vec<ASTBlockType>, SpannedError>) -> Result<
    Seq<AstView>,
    ErrorView,
> {
    match r {
        Ok(v) => Ok(asts_view(v@)),
        Err(e) => Err(e@),
    }
}

/// The statements `pre`, followed by those that `r` holds, if it holds no error.
pub open spec fn after(pre: Seq<AstView>, r: Result<Seq<AstView>, ErrorView>) -> Result<
    Seq<AstView>,
    ErrorView,
> {
    match r {
        Ok(rest) => Ok(pre + rest),
        Err(e) => Err(e),
    }
}

/// Reads the statements of a head or main block, in order.
fn parse_root_children(children: &Vec<UVParseBody>) -> (r: Result<Vec<ASTBlockType>, SpannedError>)
    ensures
        children_result_view(r) == gen_children(bodies_view(children@)),
{
    let ghost cs = bodies_view(children@);
    proof {
        lemma_bodies_view_index(children@);
        assert(cs.subrange(0, cs.len() as int) =~= cs);
        assert(asts_view(Seq::<ASTBlockType>::empty()) =~= seq![]);
    }
    let mut out: Vec<ASTBlockType> = Vec::new();
    let mut i: usize = 0;
    while i < children.len()
        invariant
            i <= children.len(),
            cs == bodies_view(children@),
            cs.len() == children.len(),
            forall|j: int| 0 <= j < cs.len() ==> #[trigger] cs[j] == body_view(children@[j]),
            gen_children(cs) == after(asts_view(out@), gen_children(cs.subrange(i as int, cs.len() as int))),
        decreases children.len() - i,
    {
        let ghost sub = cs.subrange(i as int, cs.len() as int);
        assert(sub[0] == cs[i as int]);
        assert(sub.drop_first() =~= cs.subrange(i + 1, cs.len() as int));
        match &children[i] {
            UVParseBody::String(lit) => {
                return Err(SpannedError::new("Unexpected unwrapped literal in root tag".to_owned(), lit.span));
            },
            UVParseBody::Tag(t) => {
                match generate_node(t) {
                    Err(e) => {
                        return Err(e);
                    },
                    Ok(a) => {
                        let ghost before = out@;
                        out.push(a);
                        proof {
                            assert(out@.drop_last() =~= before);
                            let rest = gen_children(cs.subrange(i + 1, cs.len() as int));
                            if let Ok(rs) = rest {
                                assert(asts_view(before) + (seq![ast_view(a)] + rs) =~= asts_view(out@) + rs);
                            }
                        }
                    },
                }
            },
        }
        i = i + 1;
    }
    proof {
        assert(cs.subrange(i as int, cs.len() as int) =~= seq![]);
        assert(asts_view(out@) + seq![] =~= asts_view(out@));
    }
    Ok(out)
}

/// Reads the content of a `<program>` tag.
fn parse_program_block(node: &UVParseNode) -> (r: Result<ASTBlockType, SpannedError>)
    requires
        node_view(*node).name == "program"@,
    ensures
        ast_result_view(r) == gen_program(node_view(*node)),
{
    let ghost cs = node_view(*node).children;
    proof {
        lemma_first_tag_named(cs, "head"@, 0);
        lemma_first_tag_named(cs, "main"@, 0);
    }
    let head = match node.get_child_by_name("head") {
        Some(h) => match parse_root_children(&h.children) {
            Ok(v) => Some(ASTBlockType::HeadBlock(v)),
            Err(e) => {
                return Err(e);
            },
        },
        None => None,
    };
    let main_block = match node.get_child_by_name("main") {
        Some(m) => m,
        None => {
            return Err(SpannedError::new("Main block in <program> is required".to_owned(), node.span));
        },
    };
    let main = match parse_root_children(&main_block.children) {
        Ok(v) => ASTBlockType::MainBlock(v),
        Err(e) => {
            return Err(e);
        },
    };
    proof {
        assert(ast_view(main) == AstView::MainBlock(asts_view(main->MainBlock_0@)));
        if head is Some {
            let h = head->Some_0;
            assert(ast_view(h) == AstView::HeadBlock(asts_view(h->HeadBlock_0@)));
        }
    }
    let r = ASTBlockType::Program(Box::new(ProgramBlock { head, main, span: node.span }));
    Ok(r)
}

/// Reads a whole parse tree, whose root must be the `<program>` tag.
pub fn gen_main_ast(parse_tree: UVParseNode) -> (r: Result<ASTBlockType, SpannedError>)
    ensures
        ast_result_view(r) == gen_program(node_view(parse_tree)),
{
    if !same_text(parse_tree.name.as_str(), "program") {
        return Err(SpannedError::new("The program must begin with the <program> tag".to_owned(), parse_tree.span));
    }
    parse_program_block(&parse_tree)
}

/// Reads one statement: a variable definition `<let>` or a value.
pub fn generate_ast(parse_tree: UVParseNode) -> (r: Result<ASTBlockType, SpannedError>)
    ensures
        ast_result_view(r) == gen_node(node_view(parse_tree)),
{
    generate_node(&parse_tree)
}

/// Whether the spans of `a` lie within `[lo, hi]`, and the spans of what each node holds lie
/// within that node's span, down the whole tree.
pub open spec fn ast_within(a: AstView, lo: int, hi: int) -> bool
    decreases a,
{
    match a {
        AstView::Program { head, main, start, end } => {
            &&& lo <= start && start <= end && end <= hi
            &&& match head {
                Some(h) => ast_within(*h, start, end),
                None => true,
            }
            &&& ast_within(*main, start, end)
        },
        AstView::HeadBlock(v) => forall|i: int| 0 <= i < v.len() ==> ast_within(#[trigger] v[i], lo, hi),
        AstView::MainBlock(v) => forall|i: int| 0 <= i < v.len() ==> ast_within(#[trigger] v[i], lo, hi),
        AstView::VariableDefinition {
            name_start,
            name_end,
            value,
            value_start,
            value_end,
            start,
            end,
            ..
        } => {
            &&& lo <= start && start <= end && end <= hi
            &&& start <= name_start && name_start <= name_end && name_end <= end
            &&& start <= value_start && value_start <= value_end && value_end <= end
            &&& ast_within(*value, value_start, value_end)
        },
        _ => true,
    }
}

proof fn lemma_gen_node_within(n: ParseNodeView, lo: int, hi: int)
    requires
        child_within(ParseBodyView::Tag(n), lo, hi),
    ensures
        gen_node(n) matches Ok(a) ==> ast_within(a, lo, hi),
    decreases n,
{
    let cs = n.children;
    if n.name == "let"@ {
        lemma_first_tag_named(cs, "name"@, 0);
        lemma_first_tag_named(cs, "value"@, 0);
        let ni = first_tag_named(cs, "name"@, 0);
        let vi = first_tag_named(cs, "value"@, 0);
        if 0 <= ni < cs.len() && 0 <= vi < cs.len() {
            assert(child_within(cs[ni], n.start, n.end));
            assert(child_within(cs[vi], n.start, n.end));
            let vb = cs[vi]->Tag_0;
            if vb.children.len() == 1 && all_tags_view(vb.children) {
                assert(child_within(vb.children[0], vb.start, vb.end));
                let v = vb.children[0]->Tag_0;
                assert(decreases_to!(n => cs));
                assert(decreases_to!(cs => cs[vi]));
                assert(decreases_to!(cs[vi] => vb));
                assert(decreases_to!(vb => vb.children));
                assert(decreases_to!(vb.children => vb.children[0]));
                assert(decreases_to!(vb.children[0] => v));
                lemma_gen_node_within(v, vb.start, vb.end);
            }
        }
    }
}

proof fn lemma_gen_children_within(cs: Seq<ParseBodyView>, lo: int, hi: int)
    requires
        children_within(cs, lo, hi),
    ensures
        gen_children(cs) matches Ok(v) ==> forall|i: int| 0 <= i < v.len() ==> ast_within(#[trigger] v[i], lo, hi),
    decreases cs.len(),
{
    if cs.len() > 0 {
        assert(child_within(cs[0], lo, hi));
        let rest = cs.drop_first();
        assert forall|i: int| 0 <= i < rest.len() implies child_within(#[trigger] rest[i], lo, hi) by {
            assert(rest[i] == cs[i + 1]);
            assert(child_within(cs[i + 1], lo, hi));
        }
        lemma_gen_children_within(rest, lo, hi);
        if let ParseBodyView::Tag(t) = cs[0] {
            lemma_gen_node_within(t, lo, hi);
            if let Ok(a) = gen_node(t) {
                if let Ok(r) = gen_children(rest) {
                    let v = seq![a] + r;
                    assert forall|i: int| 0 <= i < v.len() implies ast_within(#[trigger] v[i], lo, hi) by {
                        if i > 0 {
                            assert(v[i] == r[i - 1]);
                        }
                    }
                }
            }
        }
    }
}

/// In the program tree of a parse tree whose spans nest, every node lies within the span of each
/// node that holds it.
pub proof fn lemma_gen_program_within(n: ParseNodeView)
    requires
        spans_nested(n),
    ensures
        gen_program(n) matches Ok(a) ==> ast_within(a, n.start, n.end),
{
    let cs = n.children;
    lemma_first_tag_named(cs, "head"@, 0);
    lemma_first_tag_named(cs, "main"@, 0);
    let hi = first_tag_named(cs, "head"@, 0);
    let mi = first_tag_named(cs, "main"@, 0);
    if 0 <= hi < cs.len() {
        assert(child_within(cs[hi], n.start, n.end));
        let h = cs[hi]->Tag_0;
        lemma_children_within_grow(h.children, h.start, h.end, n.start, n.end);
        lemma_gen_children_within(h.children, n.start, n.end);
        if let Ok(hv) = gen_children(h.children) {
            assert(ast_within(AstView::HeadBlock(hv), n.start, n.end));
        }
    }
    if 0 <= mi < cs.len() {
        assert(child_within(cs[mi], n.start, n.end));
        let m = cs[mi]->Tag_0;
        lemma_children_within_grow(m.children, m.start, m.end, n.start, n.end);
        lemma_gen_children_within(m.children, n.start, n.end);
        if let Ok(mv) = gen_children(m.children) {
            assert(ast_within(AstView::MainBlock(mv), n.start, n.end));
        }
    }
}

/// The message that refuses `t` as the name of a variable.
pub open spec fn name_message(t: Seq<char>) -> Seq<char> {
    "`"@ + t + "` is not a valid name for variable"@
}

proof fn lemma_name_message_shape(t: Seq<char>)
    ensures
        name_message(t)[0] == '`',
        name_message(t).len() == t.len() + 35,
        name_message(t).last() == 'e',
        forall|u: Seq<char>| name_message(u) == name_message(t) ==> u == t,
{
    reveal_strlit("`");
    reveal_strlit("` is not a valid name for variable");
    let suffix = "` is not a valid name for variable"@;
    assert(suffix.len() == 34);
    assert(name_message(t)[0] == '`');
    assert(name_message(t).last() == suffix.last());
    assert forall|u: Seq<char>| name_message(u) == name_message(t) implies u == t by {
        if name_message(u) == name_message(t) {
            assert(u.len() == t.len());
            assert forall|k: int| 0 <= k < u.len() implies u[k] == t[k] by {
                assert(name_message(u)[k + 1] == u[k]);
                assert(name_message(t)[k + 1] == t[k]);
            }
            assert(u =~= t);
        }
    }
}

/// A message whose first character is not a backquote is no name message.
proof fn lemma_not_name_message(m: Seq<char>, t: Seq<char>)
    requires
        m.len() > 0,
        m[0] != '`',
    ensures
        m != name_message(t),
{
    lemma_name_message_shape(t);
}

/// The value diagnostics are no name messages.
proof fn lemma_value_errors_differ(n: ParseNodeView, t: Seq<char>)
    ensures
        gen_value(n) matches Err(ev) ==> ev.message != name_message(t),
{
    lemma_name_message_shape(t);
    reveal_strlit("Invalid value for `");
    reveal_strlit("Cannot parse `");
    reveal_strlit("`null` tag must be self-closing");
    let inv = "Invalid value for `"@ + n.name + "` type"@;
    assert(inv[0] == 'I');
    if n.children.len() > 0 {
        let c = "Cannot parse `"@ + inner_text(n);
        assert(c[0] == 'C');
        assert(("Cannot parse `"@ + inner_text(n) + "` to an integer"@)[0] == 'C');
        assert(("Cannot parse `"@ + inner_text(n) + "` to a float"@)[0] == 'C');
        assert(("Cannot parse `"@ + inner_text(n) + "` to a boolean"@)[0] == 'C');
    }
    let nl = "`null` tag must be self-closing"@;
    assert(nl.last() == 'g');
}

/// Only a name that fails the identifier rule yields the message that refuses it.
proof fn lemma_name_errors_are_invalid_names(m: ParseNodeView, t: Seq<char>)
    ensures
        gen_node(m) matches Err(ev) && ev.message == name_message(t) ==> !is_identifier(t),
    decreases m,
{
    lemma_name_message_shape(t);
    reveal_strlit("Variable definition should have an inner <name> tag");
    reveal_strlit("Invalid variable name");
    reveal_strlit("Variable must be initialized");
    reveal_strlit("Variable value must have only one inner tag.\ntip: If you want to place multiple tags, wrap them in a <b> tag.");
    reveal_strlit("Unexpected <");
    lemma_not_name_message("Variable definition should have an inner <name> tag"@, t);
    lemma_not_name_message("Invalid variable name"@, t);
    lemma_not_name_message("Variable must be initialized"@, t);
    lemma_not_name_message(multiple_values_message(), t);
    lemma_not_name_message("Unexpected <"@ + m.name + "> tag"@, t);
    lemma_value_errors_differ(m, t);
    let cs = m.children;
    if m.name == "let"@ {
        lemma_first_tag_named(cs, "name"@, 0);
        lemma_first_tag_named(cs, "value"@, 0);
        let ni = first_tag_named(cs, "name"@, 0);
        if 0 <= ni < cs.len() {
            let nb = cs[ni]->Tag_0;
            if nb.children.len() == 1 && all_literals_view(nb.children) {
                lemma_name_message_shape(nb.children[0]->Literal_0);
            }
        }
        let vi = first_tag_named(cs, "value"@, 0);
        if 0 <= vi < cs.len() {
            let vb = cs[vi]->Tag_0;
            if vb.children.len() == 1 && all_tags_view(vb.children) {
                assert(vb.children[0] is Tag);
                let v = vb.children[0]->Tag_0;
                assert(decreases_to!(m => cs));
                assert(decreases_to!(cs => cs[vi]));
                assert(decreases_to!(cs[vi] => vb));
                assert(decreases_to!(vb => vb.children));
                assert(decreases_to!(vb.children => vb.children[0]));
                assert(decreases_to!(vb.children[0] => v));
                lemma_name_errors_are_invalid_names(v, t);
            }
        }
    }
}

/// A `<let>` tag whose first `<name>` holds a single literal is refused for that name exactly
/// when the literal does not match `^[A-Za-z_][A-Za-z0-9_]*$`.
pub proof fn lemma_name_rule(n: ParseNodeView)
    requires
        n.name == "let"@,
        0 <= first_tag_named(n.children, "name"@, 0) < n.children.len(),
        n.children[first_tag_named(n.children, "name"@, 0)]->Tag_0.children.len() == 1,
        n.children[first_tag_named(n.children, "name"@, 0)]->Tag_0.children[0] is Literal,
    ensures
        ({
            let lit = n.children[first_tag_named(n.children, "name"@, 0)]->Tag_0.children[0];
            (gen_node(n) == Err::<AstView, ErrorView>(
                error_view(name_message(lit->Literal_0), lit->Literal_1, lit->Literal_2),
            )) <==> !is_identifier(lit->Literal_0)
        }),
{
    let cs = n.children;
    let ni = first_tag_named(cs, "name"@, 0);
    let nb = cs[ni]->Tag_0;
    let lit = nb.children[0];
    let text = lit->Literal_0;
    assert(all_literals_view(nb.children));
    lemma_name_errors_are_invalid_names(n, text);
}

} // verus!
