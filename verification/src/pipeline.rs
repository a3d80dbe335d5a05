//! From the text of a file to the text that is written back.
//!
//! Parsing, comparing, printing and formatting are done by `full_moon` and
//! `stylua_lib`; what they return is named here, not described.

use full_moon::ast::Ast;
use vstd::prelude::*;

verus! {

/// `full_moon::ast::Ast`, the tree of one file.
#[verifier::external_type_specification]
#[verifier::external_body]
pub struct ExAst(full_moon::ast::Ast);

/// `full_moon::Error`, an error of `full_moon::parse`.
#[verifier::external_type_specification]
#[verifier::external_body]
pub struct ExParseError(full_moon::Error);

/// `stylua_lib::Error`, an error of `stylua_lib::format_code`.
#[verifier::external_type_specification]
#[verifier::external_body]
pub struct ExFormatError(stylua_lib::Error);

/// The tree that [`parse_lua`] gives for a source text, where it gives one.
pub uninterp spec fn parse_result(source: Seq<char>) -> Option<Ast>;

/// The result of [`similar`].
pub uninterp spec fn trees_similar(before: Ast, after: Ast) -> bool;

/// The result of [`print`].
pub uninterp spec fn printed(tree: Ast) -> Seq<char>;

/// The text that [`format_lua`] gives for a source text, where it gives one.
pub uninterp spec fn format_result(
    source: Seq<char>,
    spaces: bool,
    width: usize,
    verified: bool,
) -> Option<Seq<char>>;

/// `full_moon::parse`: the tree of a source text, or the errors in it.
#[verifier::external_body]
fn parse_lua(source: &str) -> (tree: Result<Ast, Vec<full_moon::Error>>)
    ensures
        match tree {
            Ok(tree) => parse_result(source@) == Some(tree),
            Err(_) => parse_result(source@) is None,
        },
{
    full_moon::parse(source)
}

/// `Node::similar` on two trees: whether they are the same but for trivia and
/// positions.
#[verifier::external_body]
fn similar(before: &Ast, after: &Ast) -> (same: bool)
    ensures
        same == trees_similar(*before, *after),
{
    full_moon::node::Node::similar(before, after)
}

/// `ToString::to_string` of a tree: its source text.
#[verifier::external_body]
fn print(tree: &Ast) -> (text: String)
    ensures
        text@ == printed(*tree),
{
    tree.to_string()
}

/// `stylua_lib::format_code` over the whole text, with the given kind and
/// width of indentation and the defaults of `stylua_lib::Config` otherwise,
/// and with or without the verification of the output: the formatted text,
/// or the reason why there is none.
#[verifier::external_body]
fn format_lua(source: &str, spaces: bool, width: usize, verified: bool) -> (text: Result<
    String,
    stylua_lib::Error,
>)
    ensures
        match text {
            Ok(text) => format_result(source@, spaces, width, verified) == Some(text@),
            Err(_) => format_result(source@, spaces, width, verified) is None,
        },
{
    let mut config = stylua_lib::Config::new();
    config.indent_type = match spaces {
        true => stylua_lib::IndentType::Spaces,
        false => stylua_lib::IndentType::Tabs,
    };
    config.indent_width = width;
    let verification = match verified {
        true => stylua_lib::OutputVerification::Full,
        false => stylua_lib::OutputVerification::None,
    };
    stylua_lib::format_code(source, config, None, verification)
}

/// `ToString::to_string` of a formatting error: its message.
#[verifier::external_body]
fn describe(error: &stylua_lib::Error) -> (message: String) {
    error.to_string()
}

/// `ToString::to_string` of a parsing error: its message.
#[verifier::external_body]
fn describe_parse(error: &full_moon::Error) -> (message: String) {
    error.to_string()
}

/// Why a text has no tree: the messages of the errors that the parser found
/// in it.
#[derive(Debug)]
pub struct ParseError {
    pub messages: Vec<String>,
}

/// Why the text of a rewritten tree is not to be written: formatting it
/// failed, or the formatted text did not read as the same tree.
#[derive(Debug)]
pub struct FormatError {
    pub message: String,
}

/// The width of one level of indentation in a file that is written.
pub const INDENT_WIDTH: usize = 2;

/// The tree of a source text, or the errors of a text that is not valid
/// source, for the caller to hand on.
pub fn parse(source: &str) -> (tree: Result<Ast, ParseError>)
    ensures
        match tree {
            Ok(tree) => parse_result(source@) == Some(tree),
            Err(error) => parse_result(source@) is None,
        },
{
    match parse_lua(source) {
        Ok(tree) => Ok(tree),
        Err(errors) => {
            let mut messages: Vec<String> = Vec::new();
            let mut index: usize = 0;
            while index < errors.len()
                invariant
                    index <= errors@.len(),
                decreases errors@.len() - index,
            {
                messages.push(describe_parse(&errors[index]));
                index += 1;
            }
            Err(ParseError { messages })
        },
    }
}

/// The formatted text of the source of a tree: indented with spaces,
/// [`INDENT_WIDTH`] for a level, and checked to read as the same tree.
pub open spec fn formatted(tree: Ast) -> Option<Seq<char>> {
    format_result(printed(tree), true, INDENT_WIDTH, true)
}

/// The text to write for a tree after the rules ran on it. Nothing is to be
/// written where the tree is similar to the tree before. Else the text is the
/// formatted source of the tree; where formatting fails, or the formatted
/// text does not read as the same tree, there is an error and nothing to
/// write.
pub fn rewrite(before: &Ast, after: &Ast) -> (text: Result<Option<String>, FormatError>)
    ensures
        match text {
            Ok(None) => trees_similar(*before, *after),
            Ok(Some(text)) => !trees_similar(*before, *after) && formatted(*after) == Some(text@),
            Err(_) => !trees_similar(*before, *after) && formatted(*after) is None,
        },
{
    if similar(before, after) {
        return Ok(None);
    }
    let source = print(after);
    match format_lua(source.as_str(), true, INDENT_WIDTH, true) {
        Ok(text) => Ok(Some(text)),
        Err(error) => Err(FormatError { message: describe(&error) }),
    }
}

} // verus!
