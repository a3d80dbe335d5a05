//! The boundary with the `full_moon` syntax tree.
//!
//! Nodes of the tree are opaque to the verifier. Each reader below comes with
//! an uninterpreted function that names what it finds in a node, and each
//! builder says what the readers find in the node it made. Everything in this
//! file is believed, not proved; the rest of the crate is proved from it.

use full_moon::ast::punctuated::Pair;
use full_moon::ast::span::ContainedSpan;
use full_moon::ast::{BinOp, Expression, Field, TableConstructor, UnOp};
use full_moon::tokenizer::{StringLiteralQuoteType, Symbol, Token, TokenReference, TokenType};
use full_moon::ShortString;
use vstd::prelude::*;

verus! {

/// `full_moon::ast::Expression`, an expression.
#[verifier::external_type_specification]
#[verifier::external_body]
pub struct ExExpression(full_moon::ast::Expression);

/// `full_moon::ast::Field`, one field of a table constructor.
#[verifier::external_type_specification]
#[verifier::external_body]
pub struct ExField(full_moon::ast::Field);

/// `full_moon::ast::TableConstructor`, a table literal.
#[verifier::external_type_specification]
#[verifier::external_body]
pub struct ExTableConstructor(full_moon::ast::TableConstructor);

/// `full_moon::ast::span::ContainedSpan`, a pair of brackets.
#[verifier::external_type_specification]
#[verifier::external_body]
pub struct ExContainedSpan(full_moon::ast::span::ContainedSpan);

/// `full_moon::tokenizer::Token`, a token; trivia are tokens.
#[verifier::external_type_specification]
#[verifier::external_body]
pub struct ExToken(full_moon::tokenizer::Token);

/// `full_moon::tokenizer::TokenReference`, a token with the trivia around it.
#[verifier::external_type_specification]
#[verifier::external_body]
pub struct ExTokenReference(full_moon::tokenizer::TokenReference);

/// `full_moon::ast::punctuated::Pair`, a node with the separator behind it.
#[verifier::external_type_specification]
#[verifier::external_body]
#[verifier::reject_recursive_types(T)]
pub struct ExPair<T>(full_moon::ast::punctuated::Pair<T>);

/// What a single token says, for the kinds of token the library reads or
/// writes: the text of a number, the content of a string literal, an
/// identifier, or one of the three literal keywords.
#[derive(Debug)]
pub enum Atom {
    Number(String),
    Text(String),
    Identifier(String),
    True,
    False,
    Nil,
}

/// An [`Atom`] with its strings as sequences of characters.
pub enum AtomView {
    Number(Seq<char>),
    Text(Seq<char>),
    Identifier(Seq<char>),
    True,
    False,
    Nil,
}

impl View for Atom {
    type V = AtomView;

    open spec fn view(&self) -> AtomView {
        match *self {
            Atom::Number(s) => AtomView::Number(s@),
            Atom::Text(s) => AtomView::Text(s@),
            Atom::Identifier(s) => AtomView::Identifier(s@),
            Atom::True => AtomView::True,
            Atom::False => AtomView::False,
            Atom::Nil => AtomView::Nil,
        }
    }
}

/// The outermost level of an expression, with the nodes below it untouched.
pub enum ExpressionParts {
    /// A table constructor.
    Table(TableConstructor),
    /// A number token.
    Number(TokenReference),
    /// A string token.
    String(TokenReference),
    /// A symbol token, such as `true`.
    Symbol(TokenReference),
    /// Unary minus and its operand.
    Minus(Expression),
    /// `lhs or rhs`.
    Or(Expression, Expression),
    /// `lhs and rhs`.
    And(Expression, Expression),
    /// Any other expression, whole.
    Other(Expression),
}

/// The outermost level of an expression that the library writes.
pub enum Written {
    Table(TableConstructor),
    Number(TokenReference),
    String(TokenReference),
    Symbol(TokenReference),
    Minus(Expression),
}

impl Written {
    /// What the expression is taken apart into.
    pub open spec fn parts(self) -> ExpressionParts {
        match self {
            Written::Table(table) => ExpressionParts::Table(table),
            Written::Number(token) => ExpressionParts::Number(token),
            Written::String(token) => ExpressionParts::String(token),
            Written::Symbol(token) => ExpressionParts::Symbol(token),
            Written::Minus(operand) => ExpressionParts::Minus(operand),
        }
    }
}

/// How a field of a table constructor is keyed.
pub enum FieldLabel {
    /// `name = value`, with the token of the name.
    Name(TokenReference),
    /// A bare `value`.
    Position,
    /// Any other form, such as `[expression] = value`.
    Other,
}

/// The result of [`read_token`].
pub uninterp spec fn token_atom(token: TokenReference) -> Option<AtomView>;

/// The result of [`split_expression`].
pub uninterp spec fn expression_parts(expression: Expression) -> ExpressionParts;

/// The field that a pair holds: the result of [`node_of`].
pub uninterp spec fn pair_node(pair: Pair<Field>) -> Field;

/// The result of [`is_punctuated`].
pub uninterp spec fn pair_is_punctuated(pair: Pair<Field>) -> bool;

/// The result of [`label_of`], for the field that the pair holds.
pub uninterp spec fn field_label(field: Field) -> FieldLabel;

/// The result of [`value_of`], for the field that the pair holds.
pub uninterp spec fn field_value(field: Field) -> Option<Expression>;

/// The result of [`trivia_of`], for the field that the pair holds.
pub uninterp spec fn field_trivia(field: Field) -> Seq<Token>;

/// The result of [`lead_of`], for the field that the pair holds.
pub uninterp spec fn field_lead(field: Field) -> Seq<Token>;

/// The name of a field written `name = value`.
pub open spec fn field_name(field: Field) -> Option<Seq<char>> {
    match field_label(field) {
        FieldLabel::Name(key) => match token_atom(key) {
            Some(AtomView::Identifier(name)) => Some(name),
            _ => None,
        },
        _ => None,
    }
}

/// The result of [`braces_of`].
pub uninterp spec fn constructor_braces(constructor: TableConstructor) -> ContainedSpan;

/// The result of [`pairs_of`].
pub uninterp spec fn constructor_pairs(constructor: TableConstructor) -> Seq<Pair<Field>>;

/// The fields that pairs hold, in order.
pub open spec fn nodes_of_pairs(pairs: Seq<Pair<Field>>) -> Seq<Field> {
    Seq::new(pairs.len(), |i: int| pair_node(pairs[i]))
}

/// The fields of a table constructor, in order.
pub open spec fn constructor_fields(constructor: TableConstructor) -> Seq<Field> {
    nodes_of_pairs(constructor_pairs(constructor))
}

/// A separator stands behind every pair but the last, as the syntax asks.
pub open spec fn is_separated(pairs: Seq<Pair<Field>>) -> bool {
    forall|i: int| 0 <= i < pairs.len() - 1 ==> pair_is_punctuated(#[trigger] pairs[i])
}

/// Reads `TokenReference::token_type`: a number token gives its text, a string
/// literal its content without the quotes, an identifier its name, the symbols
/// `true`, `false` and `nil` themselves, and any other token nothing.
#[verifier::external_body]
pub(crate) fn read_token(token: &TokenReference) -> (atom: Option<Atom>)
    ensures
        match atom {
            Some(a) => token_atom(*token) == Some(a@),
            None => token_atom(*token) is None,
        },
{
    match token.token_type() {
        TokenType::Number { text } => Some(Atom::Number(text.to_string())),
        TokenType::StringLiteral { literal, .. } => Some(Atom::Text(literal.to_string())),
        TokenType::Identifier { identifier } => Some(Atom::Identifier(identifier.to_string())),
        TokenType::Symbol { symbol: Symbol::True } => Some(Atom::True),
        TokenType::Symbol { symbol: Symbol::False } => Some(Atom::False),
        TokenType::Symbol { symbol: Symbol::Nil } => Some(Atom::Nil),
        _ => None,
    }
}

/// Builds a token without trivia through `Token::new` and
/// `TokenReference::new`; a string literal is double-quoted. Reading the token
/// back gives the atom it was made from.
#[verifier::external_body]
pub(crate) fn make_token(atom: Atom) -> (token: TokenReference)
    ensures
        token_atom(token) == Some(atom@),
{
    let token_type = match atom {
        Atom::Number(text) => TokenType::Number { text: ShortString::new(text) },
        Atom::Text(text) => TokenType::StringLiteral {
            literal: ShortString::new(text),
            multi_line_depth: 0,
            quote_type: StringLiteralQuoteType::Double,
        },
        Atom::Identifier(text) => TokenType::Identifier { identifier: ShortString::new(text) },
        Atom::True => TokenType::Symbol { symbol: Symbol::True },
        Atom::False => TokenType::Symbol { symbol: Symbol::False },
        Atom::Nil => TokenType::Symbol { symbol: Symbol::Nil },
    };
    TokenReference::new(Vec::new(), Token::new(token_type), Vec::new())
}

/// Takes an `Expression` apart by its variant: a table constructor, a number,
/// string or symbol token, a unary minus with its operand, an `or` or `and`
/// with both operands; any other expression comes back whole.
#[verifier::external_body]
pub(crate) fn split_expression(expression: Expression) -> (parts: ExpressionParts)
    ensures
        parts == expression_parts(expression),
{
    match expression {
        Expression::TableConstructor(table) => ExpressionParts::Table(*table),
        Expression::Number(token) => ExpressionParts::Number(token),
        Expression::String(token) => ExpressionParts::String(token),
        Expression::Symbol(token) => ExpressionParts::Symbol(token),
        Expression::UnaryOperator { unop: UnOp::Minus(_), expression } => ExpressionParts::Minus(*expression),
        Expression::BinaryOperator { lhs, binop: BinOp::Or(_), rhs } => ExpressionParts::Or(*lhs, *rhs),
        Expression::BinaryOperator { lhs, binop: BinOp::And(_), rhs } => ExpressionParts::And(*lhs, *rhs),
        other => ExpressionParts::Other(other),
    }
}

/// Builds the `Expression` of the variant that `written` names; a minus sign
/// gets a fresh token from `TokenReference::symbol`. Taking the result apart
/// gives the same parts back.
#[verifier::external_body]
pub(crate) fn write_expression(written: Written) -> (expression: Expression)
    ensures
        expression_parts(expression) == written.parts(),
{
    match written {
        Written::Table(table) => Expression::TableConstructor(Box::new(table)),
        Written::Number(token) => Expression::Number(token),
        Written::String(token) => Expression::String(token),
        Written::Symbol(token) => Expression::Symbol(token),
        Written::Minus(operand) => Expression::UnaryOperator {
            unop: UnOp::Minus(TokenReference::symbol("-").unwrap()),
            expression: Box::new(operand),
        },
    }
}

/// `Clone::clone` of an `Expression`: the copy is the same tree.
#[verifier::external_body]
pub(crate) fn copy_expression(expression: &Expression) -> (copy: Expression)
    ensures
        copy == *expression,
{
    expression.clone()
}

/// `Pair::into_value`: the field that the pair holds.
#[verifier::external_body]
pub(crate) fn node_of(pair: Pair<Field>) -> (field: Field)
    ensures
        field == pair_node(pair),
{
    pair.into_value()
}

/// `Pair::punctuation`: whether a separator stands behind the field.
#[verifier::external_body]
pub(crate) fn is_punctuated(pair: &Pair<Field>) -> (punctuated: bool)
    ensures
        punctuated == pair_is_punctuated(*pair),
{
    pair.punctuation().is_some()
}

/// Puts a comma and a newline behind a field that has no separator, with
/// `Pair::new`; a pair that has one stays as it is. The field is the same.
#[verifier::external_body]
pub(crate) fn punctuate(pair: Pair<Field>) -> (punctuated: Pair<Field>)
    ensures
        pair_node(punctuated) == pair_node(pair),
        pair_is_punctuated(punctuated),
{
    match pair {
        Pair::End(field) => Pair::new(field, Some(TokenReference::symbol(",\n").unwrap())),
        punctuated => punctuated,
    }
}

/// Reads the variant of the `Field` under `Pair::value`: a named field gives
/// a copy of its name token, a bare value `Position`. These two are the
/// forms that have a value; a field of another form has none.
#[verifier::external_body]
pub(crate) fn label_of(pair: &Pair<Field>) -> (label: FieldLabel)
    ensures
        label == field_label(pair_node(*pair)),
        label is Other <==> field_value(pair_node(*pair)) is None,
{
    match pair.value() {
        Field::NameKey { key, .. } => FieldLabel::Name(key.clone()),
        Field::NoKey(_) => FieldLabel::Position,
        _ => FieldLabel::Other,
    }
}

/// Borrows the value expression of the `Field` under `Pair::value`. A named
/// field and a bare value have one; a field of another form has none.
#[verifier::external_body]
pub(crate) fn value_of(pair: &Pair<Field>) -> (value: Option<&Expression>)
    ensures
        match value {
            Some(expression) => field_value(pair_node(*pair)) == Some(*expression),
            None => field_value(pair_node(*pair)) is None,
        },
        value is None <==> field_label(pair_node(*pair)) is Other,
{
    match pair.value() {
        Field::NameKey { value, .. } => Some(&**value),
        Field::NoKey(value) => Some(value),
        _ => None,
    }
}

/// Copies the second list that `Node::surrounding_trivia` returns for the
/// field: the trivia behind its last token.
#[verifier::external_body]
pub(crate) fn trivia_of(pair: &Pair<Field>) -> (trivia: Vec<Token>)
    ensures
        trivia@ == field_trivia(pair_node(*pair)),
{
    full_moon::node::Node::surrounding_trivia(pair.value()).1.into_iter().cloned().collect()
}

/// Copies the first list that `Node::surrounding_trivia` returns for the
/// field: the trivia in front of its first token.
#[verifier::external_body]
pub(crate) fn lead_of(pair: &Pair<Field>) -> (trivia: Vec<Token>)
    ensures
        trivia@ == field_lead(pair_node(*pair)),
{
    full_moon::node::Node::surrounding_trivia(pair.value()).0.into_iter().cloned().collect()
}

/// Builds `name = value` followed by a comma and a newline, with `trivia` in
/// front of the name: a `Field::NameKey` in a `Pair::new`. The readers find
/// the name, the value and the trivia in front in it.
#[verifier::external_body]
pub(crate) fn named_pair(trivia: Vec<Token>, name: &str, value: Expression) -> (pair: Pair<Field>)
    ensures
        field_name(pair_node(pair)) == Some(name@),
        field_value(pair_node(pair)) == Some(value),
        field_lead(pair_node(pair)) == trivia@,
        pair_is_punctuated(pair),
{
    let identifier = TokenType::Identifier { identifier: ShortString::new(name) };
    let field = Field::NameKey {
        key: TokenReference::new(trivia, Token::new(identifier), Vec::new()),
        equal: TokenReference::symbol(" = ").unwrap(),
        value: Box::new(value),
    };
    Pair::new(field, Some(TokenReference::symbol(",\n").unwrap()))
}

/// Builds a bare `value` followed by a comma and a newline: a `Field::NoKey`
/// in a `Pair::new`.
#[verifier::external_body]
pub(crate) fn positional_pair(value: Expression) -> (pair: Pair<Field>)
    ensures
        field_label(pair_node(pair)) == FieldLabel::Position,
        field_value(pair_node(pair)) == Some(value),
        pair_is_punctuated(pair),
{
    Pair::new(Field::NoKey(value), Some(TokenReference::symbol(",\n").unwrap()))
}

/// Copies `TableConstructor::braces`.
#[verifier::external_body]
pub(crate) fn braces_of(constructor: &TableConstructor) -> (braces: ContainedSpan)
    ensures
        braces == constructor_braces(*constructor),
{
    constructor.braces().clone()
}

/// Copies the pairs of `TableConstructor::fields`, in order.
#[verifier::external_body]
pub(crate) fn pairs_of(constructor: &TableConstructor) -> (pairs: Vec<Pair<Field>>)
    ensures
        pairs@ == constructor_pairs(*constructor),
{
    constructor.fields().pairs().cloned().collect()
}

/// `TableConstructor::new`: a constructor without fields.
#[verifier::external_body]
pub(crate) fn empty_constructor() -> (constructor: TableConstructor)
    ensures
        constructor_pairs(constructor).len() == 0,
{
    TableConstructor::new()
}

/// Puts braces and pairs together with `TableConstructor::with_braces` and
/// `TableConstructor::with_fields`; the readers find both in the result.
#[verifier::external_body]
pub(crate) fn assemble_constructor(braces: ContainedSpan, pairs: Vec<Pair<Field>>) -> (constructor:
    TableConstructor)
    ensures
        constructor_braces(constructor) == braces,
        constructor_pairs(constructor) == pairs@,
{
    TableConstructor::new().with_braces(braces).with_fields(pairs.into_iter().collect())
}

} // verus!
