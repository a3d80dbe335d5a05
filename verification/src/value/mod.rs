//! The values that a literal expression can stand for, and the conversions
//! between values and expressions.

use crate::syntax::{
    constructor_braces, constructor_fields, copy_expression, expression_parts, make_token,
    read_token, split_expression, token_atom, write_expression, Atom, AtomView, ExpressionParts,
    Written,
};
use full_moon::ast::span::ContainedSpan;
use full_moon::ast::Expression;
use table::{is_new_field, lemma_first_match, lemma_lookup, lookup, nodes_of, numbered};
use vstd::prelude::*;

pub mod table;

pub use table::{FieldView, Table, TableField};

verus! {

/// A number as it is written: its digits, and whether a minus sign stands in
/// front of them.
#[derive(Debug)]
pub struct Number {
    pub negative: bool,
    pub text: String,
}

impl Number {
    /// The value that the number is.
    pub open spec fn as_value(&self) -> ValueView {
        ValueView::Number { negative: self.negative, text: self.text@ }
    }
}

/// What a literal expression stands for.
#[derive(Debug)]
pub enum Value {
    Bool(bool),
    String(String),
    Number(Number),
    Table(Box<Table>),
    Null,
}

/// What a [`Value`] stands for.
pub enum ValueView {
    Bool(bool),
    String(Seq<char>),
    Number { negative: bool, text: Seq<char> },
    Table { braces: ContainedSpan, fields: Seq<FieldView> },
    Null,
}

impl View for Value {
    type V = ValueView;

    open spec fn view(&self) -> ValueView {
        match *self {
            Value::Bool(value) => ValueView::Bool(value),
            Value::String(text) => ValueView::String(text@),
            Value::Number(number) => ValueView::Number {
                negative: number.negative,
                text: number.text@,
            },
            Value::Table(table) => ValueView::Table { braces: table.braces(), fields: table@ },
            Value::Null => ValueView::Null,
        }
    }
}

/// The number that a number token stands for.
pub open spec fn number_of(token: full_moon::tokenizer::TokenReference, negative: bool) -> Option<
    ValueView,
> {
    match token_atom(token) {
        Some(AtomView::Number(text)) => Some(ValueView::Number { negative, text }),
        _ => None,
    }
}

/// The value that one level of an expression stands for, if it is a literal.
pub open spec fn literal_of_parts(parts: ExpressionParts) -> Option<ValueView> {
    match parts {
        ExpressionParts::Table(table) => Some(
            ValueView::Table {
                braces: constructor_braces(table),
                fields: numbered(constructor_fields(table)),
            },
        ),
        ExpressionParts::Number(token) => number_of(token, false),
        ExpressionParts::String(token) => match token_atom(token) {
            Some(AtomView::Text(text)) => Some(ValueView::String(text)),
            _ => None,
        },
        ExpressionParts::Symbol(token) => match token_atom(token) {
            Some(AtomView::True) => Some(ValueView::Bool(true)),
            Some(AtomView::False) => Some(ValueView::Bool(false)),
            Some(AtomView::Nil) => Some(ValueView::Null),
            _ => None,
        },
        ExpressionParts::Minus(operand) => match expression_parts(operand) {
            ExpressionParts::Number(token) => number_of(token, true),
            _ => None,
        },
        _ => None,
    }
}

/// The value that an expression stands for, if it is a literal: a table, a
/// number with or without a minus sign, a string, `true`, `false` or `nil`.
pub open spec fn literal_value(expression: Expression) -> Option<ValueView> {
    literal_of_parts(expression_parts(expression))
}

/// The operand that stands for the whole in `a and b or c` and in `x or y`:
/// the right operand of the `or` where its left operand is an `and`, else its
/// left operand. Any other expression stands for itself.
pub open spec fn fallback_parts(parts: ExpressionParts) -> ExpressionParts {
    match parts {
        ExpressionParts::Or(lhs, rhs) => if expression_parts(lhs) is And {
            expression_parts(rhs)
        } else {
            expression_parts(lhs)
        },
        _ => parts,
    }
}

/// `result` is what coercing the value of `expression` gives: nothing where
/// there is no expression, where it is no literal, or where the literal is of
/// another kind.
pub open spec fn coerces_to<T>(expression: Option<Expression>, result: Option<T>) -> bool where
    Value: MaybeInto<T>,
 {
    match expression {
        Some(e) => match literal_value(e) {
            Some(value) => {
                &&& result is Some <==> <Value as MaybeInto<T>>::accepts(value)
                &&& result matches Some(r) ==> <Value as MaybeInto<T>>::yields(value, r)
            },
            None => result is None,
        },
        None => result is None,
    }
}

impl Value {
    /// Whether the value is `Null`.
    #[must_use]
    pub fn is_null(&self) -> (null: bool)
        ensures
            null == (self@ is Null),
    {
        matches!(self, Self::Null)
    }

    fn number(token: &full_moon::tokenizer::TokenReference, negative: bool) -> (value: Option<Self>)
        ensures
            match value {
                Some(v) => number_of(*token, negative) == Some(v@),
                None => number_of(*token, negative) is None,
            },
    {
        match read_token(token) {
            Some(Atom::Number(text)) => Some(Self::Number(Number { negative, text })),
            _ => None,
        }
    }

    /// The value of an expression that was taken apart.
    pub fn from_parts(parts: ExpressionParts) -> (value: Option<Self>)
        ensures
            match value {
                Some(v) => literal_of_parts(parts) == Some(v@),
                None => literal_of_parts(parts) is None,
            },
    {
        match parts {
            ExpressionParts::Table(table) => Some(Self::Table(Box::new(Table::new(&table)))),
            ExpressionParts::Number(token) => Self::number(&token, false),
            ExpressionParts::String(token) => match read_token(&token) {
                Some(Atom::Text(text)) => Some(Self::String(text)),
                _ => None,
            },
            ExpressionParts::Symbol(token) => match read_token(&token) {
                Some(Atom::True) => Some(Self::Bool(true)),
                Some(Atom::False) => Some(Self::Bool(false)),
                Some(Atom::Nil) => Some(Self::Null),
                _ => None,
            },
            ExpressionParts::Minus(operand) => match split_expression(operand) {
                ExpressionParts::Number(token) => Self::number(&token, true),
                _ => None,
            },
            _ => None,
        }
    }

    /// The value that an expression stands for. Nothing comes back for an
    /// expression that is no literal.
    #[must_use]
    pub fn from_raw(value: Expression) -> (result: Option<Self>)
        ensures
            match result {
                Some(v) => literal_value(value) == Some(v@),
                None => literal_value(value) is None,
            },
    {
        Self::from_parts(split_expression(value))
    }

    /// The value of an expression after the unwrapping of `a and b or c` and
    /// of `x or y`.
    #[must_use]
    pub fn from_fallback(value: Expression) -> (result: Option<Self>)
        ensures
            match result {
                Some(v) => literal_of_parts(fallback_parts(expression_parts(value))) == Some(v@),
                None => literal_of_parts(fallback_parts(expression_parts(value))) is None,
            },
    {
        match split_expression(value) {
            ExpressionParts::Or(lhs, rhs) => match split_expression(lhs) {
                ExpressionParts::And(_, _) => Self::from_raw(rhs),
                parts => Self::from_parts(parts),
            },
            parts => Self::from_parts(parts),
        }
    }
}

/// Narrowing a value to the type `T`.
pub trait MaybeInto<T>: Sized + View<V = ValueView> {
    /// Whether a value coerces.
    spec fn accepts(value: ValueView) -> bool;

    /// Whether `result` is what the value coerces to.
    spec fn yields(value: ValueView, result: T) -> bool;

    /// Whether the value coerces with nothing of it left out.
    spec fn keeps(value: ValueView) -> bool;

    fn try_into(self) -> (result: Option<T>)
        ensures
            result is Some <==> Self::accepts(self@),
            result matches Some(r) ==> Self::yields(self@, r),
    ;
}

impl MaybeInto<bool> for Value {
    open spec fn accepts(value: ValueView) -> bool {
        value is Bool
    }

    open spec fn keeps(value: ValueView) -> bool {
        value is Bool
    }

    open spec fn yields(value: ValueView, result: bool) -> bool {
        value == ValueView::Bool(result)
    }

    fn try_into(self) -> (result: Option<bool>) {
        if let Self::Bool(v) = self {
            Some(v)
        } else {
            None
        }
    }
}

impl MaybeInto<String> for Value {
    open spec fn accepts(value: ValueView) -> bool {
        value is String
    }

    open spec fn keeps(value: ValueView) -> bool {
        value is String
    }

    open spec fn yields(value: ValueView, result: String) -> bool {
        value == ValueView::String(result@)
    }

    fn try_into(self) -> (result: Option<String>) {
        if let Self::String(v) = self {
            Some(v)
        } else {
            None
        }
    }
}

impl MaybeInto<Number> for Value {
    open spec fn accepts(value: ValueView) -> bool {
        value is Number
    }

    open spec fn keeps(value: ValueView) -> bool {
        value is Number
    }

    open spec fn yields(value: ValueView, result: Number) -> bool {
        value == (ValueView::Number { negative: result.negative, text: result.text@ })
    }

    fn try_into(self) -> (result: Option<Number>) {
        if let Self::Number(v) = self {
            Some(v)
        } else {
            None
        }
    }
}

impl MaybeInto<Table> for Value {
    open spec fn accepts(value: ValueView) -> bool {
        value is Table
    }

    open spec fn keeps(value: ValueView) -> bool {
        value is Table
    }

    open spec fn yields(value: ValueView, result: Table) -> bool {
        value == (ValueView::Table { braces: result.braces(), fields: result@ })
    }

    fn try_into(self) -> (result: Option<Table>) {
        if let Self::Table(v) = self {
            Some(*v)
        } else {
            None
        }
    }
}

/// Writing a value as an expression.
pub trait IntoExpr: Sized {
    /// Whether `expression` is a way of writing the value.
    spec fn expressed_by(&self, expression: Expression) -> bool;

    fn into_expr(self) -> (expression: Expression)
        ensures
            self.expressed_by(expression),
    ;
}

impl IntoExpr for bool {
    open spec fn expressed_by(&self, expression: Expression) -> bool {
        literal_value(expression) == Some(ValueView::Bool(*self))
    }

    fn into_expr(self) -> (expression: Expression) {
        let atom = if self {
            Atom::True
        } else {
            Atom::False
        };
        write_expression(Written::Symbol(make_token(atom)))
    }
}

impl IntoExpr for Expression {
    open spec fn expressed_by(&self, expression: Expression) -> bool {
        expression == *self
    }

    fn into_expr(self) -> (expression: Expression) {
        self
    }
}

/// The value that a bare value of a table stands for.
pub open spec fn element_value(field: FieldView) -> Option<ValueView> {
    if field.is_element() {
        match field.value() {
            Some(expression) => literal_value(expression),
            None => None,
        }
    } else {
        None
    }
}

/// The field is a bare value that coerces to `T`.
pub open spec fn is_collected<T>(field: FieldView) -> bool where Value: MaybeInto<T> {
    element_value(field) matches Some(value) && <Value as MaybeInto<T>>::accepts(value)
}

/// The number of bare values among `fields` that coerce to `T`.
pub open spec fn collected_count<T>(fields: Seq<FieldView>) -> nat where Value: MaybeInto<T>
    decreases fields.len(),
{
    if fields.len() == 0 {
        0
    } else {
        collected_count::<T>(fields.drop_last()) + if is_collected::<T>(fields.last()) {
            1nat
        } else {
            0nat
        }
    }
}

/// `out` holds what the bare values among `fields` coerce to, in their order;
/// named fields and values that do not coerce are left out.
pub open spec fn collects<T>(fields: Seq<FieldView>, out: Seq<T>) -> bool where Value: MaybeInto<T>
    decreases fields.len(),
{
    if fields.len() == 0 {
        out.len() == 0
    } else if is_collected::<T>(fields.last()) {
        &&& out.len() > 0
        &&& <Value as MaybeInto<T>>::yields(element_value(fields.last()).unwrap(), out.last())
        &&& collects::<T>(fields.drop_last(), out.drop_last())
    } else {
        collects::<T>(fields.drop_last(), out)
    }
}

/// The values of the bare values among `fields` that coerce to `T`, in their
/// order.
pub open spec fn collected_values<T>(fields: Seq<FieldView>) -> Seq<ValueView> where
    Value: MaybeInto<T>,

    decreases fields.len(),
{
    if fields.len() == 0 {
        Seq::empty()
    } else if is_collected::<T>(fields.last()) {
        collected_values::<T>(fields.drop_last()).push(element_value(fields.last()).unwrap())
    } else {
        collected_values::<T>(fields.drop_last())
    }
}

/// What is collected is, item by item, what the values that coerce give.
pub proof fn lemma_collects_values<T>(fields: Seq<FieldView>, out: Seq<T>) where
    Value: MaybeInto<T>,

    requires
        collects::<T>(fields, out),
    ensures
        out.len() == collected_values::<T>(fields).len(),
        out.len() == collected_count::<T>(fields),
        forall|i: int|
            0 <= i < out.len() ==> <Value as MaybeInto<T>>::yields(
                collected_values::<T>(fields)[i],
                #[trigger] out[i],
            ),
    decreases fields.len(),
{
    if fields.len() > 0 {
        if is_collected::<T>(fields.last()) {
            lemma_collects_values::<T>(fields.drop_last(), out.drop_last());
            assert forall|i: int| 0 <= i < out.len() implies <Value as MaybeInto<T>>::yields(
                collected_values::<T>(fields)[i],
                #[trigger] out[i],
            ) by {
                if i < out.len() - 1 {
                    assert(out.drop_last()[i] == out[i]);
                }
            }
        } else {
            lemma_collects_values::<T>(fields.drop_last(), out);
        }
    }
}

/// What is collected has as many items as there are bare values that coerce.
pub proof fn lemma_collects_len<T>(fields: Seq<FieldView>, out: Seq<T>) where Value: MaybeInto<T>
    requires
        collects::<T>(fields, out),
    ensures
        out.len() == collected_count::<T>(fields),
    decreases fields.len(),
{
    if fields.len() > 0 {
        if is_collected::<T>(fields.last()) {
            lemma_collects_len::<T>(fields.drop_last(), out.drop_last());
        } else {
            lemma_collects_len::<T>(fields.drop_last(), out);
        }
    }
}

/// The number of bare values among `fields`.
pub open spec fn element_count(fields: Seq<FieldView>) -> nat
    decreases fields.len(),
{
    if fields.len() == 0 {
        0
    } else {
        element_count(fields.drop_last()) + if fields.last().is_element() {
            1nat
        } else {
            0nat
        }
    }
}

/// Every bare value among `fields` coerces to `T`.
pub open spec fn elements_coerce<T>(fields: Seq<FieldView>) -> bool where Value: MaybeInto<T> {
    forall|i: int|
        0 <= i < fields.len() && (#[trigger] fields[i]).is_element() ==> is_collected::<T>(
            fields[i],
        )
}

/// No more values are collected than there are bare values, and as many
/// exactly where every bare value coerces.
pub proof fn lemma_count_of_elements<T>(fields: Seq<FieldView>) where Value: MaybeInto<T>
    ensures
        collected_count::<T>(fields) <= element_count(fields),
        collected_count::<T>(fields) == element_count(fields) <==> elements_coerce::<T>(fields),
    decreases fields.len(),
{
    if fields.len() > 0 {
        let rest = fields.drop_last();
        let last = fields.len() - 1;
        lemma_count_of_elements::<T>(rest);
        assert(fields.last() == fields[last]);
        if elements_coerce::<T>(fields) {
            assert forall|i: int|
                0 <= i < rest.len() && (#[trigger] rest[i]).is_element() implies is_collected::<T>(
                rest[i],
            ) by {
                assert(rest[i] == fields[i]);
            }
        }
        if elements_coerce::<T>(rest) && (fields[last].is_element() ==> is_collected::<T>(
            fields[last],
        )) {
            assert forall|i: int|
                0 <= i < fields.len() && (#[trigger] fields[i]).is_element() implies is_collected::<
                T,
            >(fields[i]) by {
                if i < last {
                    assert(rest[i] == fields[i]);
                }
            }
        }
    }
}

/// Coercing a table to a sequence: where every bare value of the table
/// coerces, the sequence has one item for each bare value, in the order of
/// the fields; named fields are left out.
pub proof fn sequence_coercion_law<T>(fields: Seq<FieldView>, out: Seq<T>) where
    Value: MaybeInto<T>,

    requires
        collects::<T>(fields, out),
        elements_coerce::<T>(fields),
    ensures
        out.len() == element_count(fields),
        forall|i: int|
            0 <= i < fields.len() && (#[trigger] fields[i]).is_element() ==> {
                &&& element_count(fields.take(i)) < out.len()
                &&& <Value as MaybeInto<T>>::yields(
                    element_value(fields[i]).unwrap(),
                    out[element_count(fields.take(i)) as int],
                )
            },
    decreases fields.len(),
{
    if fields.len() > 0 {
        let rest = fields.drop_last();
        let last = fields.len() - 1;
        assert(fields.last() == fields[last]);
        assert forall|i: int|
            0 <= i < rest.len() && (#[trigger] rest[i]).is_element() implies is_collected::<T>(
            rest[i],
        ) by {
            assert(rest[i] == fields[i]);
        }
        let kept = if is_collected::<T>(fields.last()) {
            out.drop_last()
        } else {
            out
        };
        sequence_coercion_law::<T>(rest, kept);
        assert(fields.take(last) =~= rest);
        assert forall|i: int| 0 <= i < fields.len() && (#[trigger] fields[i]).is_element() implies {
            &&& element_count(fields.take(i)) < out.len()
            &&& <Value as MaybeInto<T>>::yields(
                element_value(fields[i]).unwrap(),
                out[element_count(fields.take(i)) as int],
            )
        } by {
            if i < last {
                assert(rest[i] == fields[i]);
                assert(fields.take(i) =~= rest.take(i));
                assert(kept[element_count(rest.take(i)) as int] == out[element_count(
                    rest.take(i),
                ) as int]);
            }
        }
    }
}

/// Coercing a table to an array of `N` items succeeds exactly where the
/// table has `N` bare values and each of them coerces: one bare value more or
/// fewer, or one that does not coerce, and nothing comes back.
pub proof fn array_coercion_law<T, const N: usize>(
    braces: ContainedSpan,
    fields: Seq<FieldView>,
) where Value: MaybeInto<T>
    ensures
        element_count(fields) != N ==> !<Value as MaybeInto<[T; N]>>::accepts(
            ValueView::Table { braces, fields },
        ),
        !elements_coerce::<T>(fields) ==> !<Value as MaybeInto<[T; N]>>::accepts(
            ValueView::Table { braces, fields },
        ),
        element_count(fields) == N && elements_coerce::<T>(fields) ==> <Value as MaybeInto<
            [T; N],
        >>::accepts(ValueView::Table { braces, fields }) && collected_count::<T>(fields) == N,
{
    lemma_count_of_elements::<T>(fields);
}

/// Every field is a bare value that coerces to `T` with nothing of it left
/// out.
pub open spec fn are_kept<T>(fields: Seq<FieldView>) -> bool where Value: MaybeInto<T> {
    forall|i: int|
        0 <= i < fields.len() ==> is_collected::<T>(#[trigger] fields[i]) && <Value as MaybeInto<
            T,
        >>::keeps(element_value(fields[i]).unwrap())
}

/// The items that the bare values of `table` coerce to, and the number of
/// its bare values.
fn collect_elements<T>(table: Table) -> (found: (Vec<T>, usize)) where Value: MaybeInto<T>
    ensures
        collects::<T>(table@, found.0@),
        found.1 == element_count(table@),
{
    let fields = table.into_fields();
    let ghost all = table@;
    let mut out: Vec<T> = Vec::new();
    let mut elements: usize = 0;
    let mut index: usize = 0;
    while index < fields.len()
        invariant
            index <= fields@.len(),
            fields@.len() == all.len(),
            forall|i: int| 0 <= i < fields@.len() ==> (#[trigger] fields@[i])@ == all[i],
            collects::<T>(all.take(index as int), out@),
            elements == element_count(all.take(index as int)),
            elements <= index,
        decreases fields@.len() - index,
    {
        let field = &fields[index];
        let ghost before = out@;
        let mut item: Option<T> = None;
        proof {
            assert(all.take(index + 1).drop_last() =~= all.take(index as int));
            assert(all.take(index + 1).last() == all[index as int]);
        }
        if field.is_element() {
            elements += 1;
            if let Some(expression) = field.get_value() {
                if let Some(value) = Value::from_raw(copy_expression(expression)) {
                    item = MaybeInto::try_into(value);
                }
            }
        }
        proof {
            assert(item is Some <==> is_collected::<T>(all[index as int]));
        }
        if let Some(found) = item {
            out.push(found);
            assert(out@.drop_last() =~= before);
        }
        index += 1;
    }
    assert(all.take(index as int) =~= all);
    (out, elements)
}

impl<T> MaybeInto<Vec<T>> for Value where Value: MaybeInto<T> {
    open spec fn accepts(value: ValueView) -> bool {
        value is Table
    }

    open spec fn keeps(value: ValueView) -> bool {
        match value {
            ValueView::Table { fields, .. } => are_kept::<T>(fields),
            _ => false,
        }
    }

    open spec fn yields(value: ValueView, result: Vec<T>) -> bool {
        value matches ValueView::Table { fields, .. } && collects::<T>(fields, result@)
    }

    fn try_into(self) -> (result: Option<Vec<T>>) {
        if let Self::Table(table) = self {
            Some(collect_elements(*table).0)
        } else {
            None
        }
    }
}

/// `TryFrom<Vec<T>>` for an array: the array holds the items of the vector
/// where there are exactly `N` of them, and there is none where not.
#[verifier::external_body]
fn vec_into_array<T, const N: usize>(items: Vec<T>) -> (array: Option<[T; N]>)
    ensures
        array is Some <==> items@.len() == N,
        array matches Some(a) ==> a@ == items@,
{
    items.try_into().ok()
}

/// `From<[T; N]>` for a vector: the vector holds the items of the array.
#[verifier::external_body]
pub(crate) fn array_into_vec<T, const N: usize>(array: [T; N]) -> (items: Vec<T>)
    ensures
        items@ == array@,
{
    Vec::from(array)
}

impl<T, const N: usize> MaybeInto<[T; N]> for Value where Value: MaybeInto<T> {
    open spec fn accepts(value: ValueView) -> bool {
        &&& value matches ValueView::Table { fields, .. }
        &&& element_count(fields) == N
        &&& elements_coerce::<T>(fields)
    }

    open spec fn keeps(value: ValueView) -> bool {
        match value {
            ValueView::Table { fields, .. } => fields.len() == N && are_kept::<T>(fields),
            _ => false,
        }
    }

    open spec fn yields(value: ValueView, result: [T; N]) -> bool {
        value matches ValueView::Table { fields, .. } && collects::<T>(fields, result@)
    }

    fn try_into(self) -> (result: Option<[T; N]>) {
        if let Self::Table(table) = self {
            let (items, elements) = collect_elements(*table);
            proof {
                lemma_collects_len::<T>(table@, items@);
                lemma_count_of_elements::<T>(table@);
            }
            if elements == N && items.len() == elements {
                vec_into_array(items)
            } else {
                None
            }
        } else {
            None
        }
    }
}

/// The table that the table literal made of `fields` is read as.
pub open spec fn reread(braces: ContainedSpan, fields: Seq<FieldView>) -> ValueView {
    ValueView::Table { braces, fields: numbered(nodes_of(fields)) }
}

/// The value that the literal written for `value` is read as: the value
/// itself, with the fields of a table numbered anew.
pub open spec fn rewritten(value: ValueView) -> ValueView {
    match value {
        ValueView::Table { braces, fields } => reread(braces, fields),
        _ => value,
    }
}

/// `expression` is the literal of a table with one bare value for each of
/// `items`, in order.
pub open spec fn lists<T: IntoExpr>(expression: Expression, items: Seq<T>) -> bool {
    &&& literal_value(expression) matches Some(ValueView::Table { fields, .. })
    &&& fields.len() == items.len()
    &&& forall|i: int|
        0 <= i < items.len() ==> {
            &&& (#[trigger] fields[i]).at == i
            &&& fields[i].is_element()
            &&& fields[i].value() matches Some(written) && items[i].expressed_by(written)
        }
}

impl IntoExpr for String {
    open spec fn expressed_by(&self, expression: Expression) -> bool {
        literal_value(expression) == Some(ValueView::String(self@))
    }

    fn into_expr(self) -> (expression: Expression) {
        write_expression(Written::String(make_token(Atom::Text(self))))
    }
}

impl IntoExpr for Number {
    open spec fn expressed_by(&self, expression: Expression) -> bool {
        literal_value(expression) == Some(
            ValueView::Number { negative: self.negative, text: self.text@ },
        )
    }

    fn into_expr(self) -> (expression: Expression) {
        let digits = write_expression(Written::Number(make_token(Atom::Number(self.text))));
        if self.negative {
            write_expression(Written::Minus(digits))
        } else {
            digits
        }
    }
}

impl IntoExpr for () {
    open spec fn expressed_by(&self, expression: Expression) -> bool {
        literal_value(expression) == Some(ValueView::Null)
    }

    fn into_expr(self) -> (expression: Expression) {
        write_expression(Written::Symbol(make_token(Atom::Nil)))
    }
}

impl<T: IntoExpr> IntoExpr for Option<T> {
    open spec fn expressed_by(&self, expression: Expression) -> bool {
        match *self {
            Some(value) => value.expressed_by(expression),
            None => literal_value(expression) == Some(ValueView::Null),
        }
    }

    fn into_expr(self) -> (expression: Expression) {
        match self {
            Some(value) => value.into_expr(),
            None => ().into_expr(),
        }
    }
}

impl IntoExpr for Table {
    open spec fn expressed_by(&self, expression: Expression) -> bool {
        literal_value(expression) == Some(reread(self.braces(), self@))
    }

    fn into_expr(self) -> (expression: Expression) {
        write_expression(Written::Table(self.into_constructor()))
    }
}

impl IntoExpr for Value {
    open spec fn expressed_by(&self, expression: Expression) -> bool {
        literal_value(expression) == Some(rewritten(self@))
    }

    fn into_expr(self) -> (expression: Expression) {
        match self {
            Self::Bool(v) => v.into_expr(),
            Self::String(v) => v.into_expr(),
            Self::Number(v) => v.into_expr(),
            Self::Table(table) => (*table).into_expr(),
            Self::Null => ().into_expr(),
        }
    }
}

impl<T: IntoExpr> IntoExpr for Vec<T> {
    open spec fn expressed_by(&self, expression: Expression) -> bool {
        lists(expression, self@)
    }

    fn into_expr(self) -> (expression: Expression) {
        let ghost items = self@;
        let mut table = Table::default();
        for value in it: self
            invariant
                it.seq() == items,
                table@.len() == it.index(),
                forall|i: int|
                    0 <= i < table@.len() ==> {
                        &&& (#[trigger] table@[i]).is_element()
                        &&& table@[i].value() matches Some(written) && items[i].expressed_by(
                            written,
                        )
                    },
        {
            table.push(value);
        }
        let ghost fields = table@;
        let expression = table.into_expr();
        proof {
            let read = numbered(nodes_of(fields));
            assert forall|i: int| 0 <= i < items.len() implies {
                &&& (#[trigger] read[i]).at == i
                &&& read[i].is_element()
                &&& read[i].value() matches Some(written) && items[i].expressed_by(written)
            } by {
                assert(read[i].field == fields[i].field);
            }
        }
        expression
    }
}

impl<T: IntoExpr, const N: usize> IntoExpr for [T; N] {
    open spec fn expressed_by(&self, expression: Expression) -> bool {
        lists(expression, self@)
    }

    fn into_expr(self) -> (expression: Expression) {
        array_into_vec(self).into_expr()
    }
}

/// The literal of a string.
pub fn string_expr(value: &str) -> (expression: Expression)
    ensures
        literal_value(expression) == Some(ValueView::String(value@)),
{
    String::from_str(value).into_expr()
}

/// Two values say the same. Literals that are written differently count as
/// the same down to `depth` tables inside one another: two tables say the
/// same where they have as many fields and those say the same, one by one.
pub open spec fn alike(a: ValueView, b: ValueView, depth: nat) -> bool
    decreases depth, 0nat,
{
    a == b || (depth > 0 && match (a, b) {
        (ValueView::Table { fields: left, .. }, ValueView::Table { fields: right, .. }) => {
            &&& left.len() == right.len()
            &&& forall|i: int|
                0 <= i < left.len() ==> same_field(
                    #[trigger] left[i],
                    right[i],
                    (depth - 1) as nat,
                )
        },
        _ => false,
    })
}

/// Two fields say the same: they have the same key, and the same value or
/// literals of values that say the same.
pub open spec fn same_field(a: FieldView, b: FieldView, depth: nat) -> bool
    decreases depth, 1nat,
{
    &&& a.key() == b.key()
    &&& a.value() == b.value() || match (a.value(), b.value()) {
        (Some(x), Some(y)) => match (literal_value(x), literal_value(y)) {
            (Some(left), Some(right)) => alike(left, right, depth),
            _ => false,
        },
        _ => false,
    }
}

/// Two tables say the same, field by field.
pub open spec fn same_content(a: Seq<FieldView>, b: Seq<FieldView>, depth: nat) -> bool {
    &&& a.len() == b.len()
    &&& forall|i: int| 0 <= i < a.len() ==> same_field(#[trigger] a[i], b[i], depth)
}

/// Writing `item`, which `source` coerced to with nothing left out, gives a
/// literal of a value that says the same as `source`.
pub open spec fn reads_back<T>(
    source: Expression,
    item: T,
    written: Expression,
    depth: nat,
) -> bool where Value: MaybeInto<T>, T: IntoExpr {
    match literal_value(source) {
        Some(value) => (<Value as MaybeInto<T>>::keeps(value) && <Value as MaybeInto<T>>::yields(
            value,
            item,
        ) && item.expressed_by(written)) ==> match literal_value(written) {
            Some(read) => alike(read, value, depth),
            None => false,
        },
        None => true,
    }
}

/// Every item of the type `T` is written as a literal that says the same as
/// the value that it was coerced from with nothing left out.
pub open spec fn is_faithful<T>(depth: nat) -> bool where Value: MaybeInto<T>, T: IntoExpr {
    forall|source: Expression, item: T, written: Expression| #[trigger]
        reads_back::<T>(source, item, written, depth)
}

/// Booleans are written as they were read.
pub proof fn bool_is_faithful()
    ensures
        is_faithful::<bool>(0),
{
}

/// Strings are written as they were read.
pub proof fn string_is_faithful()
    ensures
        is_faithful::<String>(0),
{
}

/// Numbers are written as they were read.
pub proof fn number_is_faithful()
    ensures
        is_faithful::<Number>(0),
{
}

/// Tables are written as they were read.
pub proof fn table_is_faithful()
    ensures
        is_faithful::<Table>(0),
{
    assert forall|source: Expression, item: Table, written: Expression| #[trigger]
        reads_back(source, item, written, 0) by {
        if let Some(value) = literal_value(source) {
            if <Value as MaybeInto<Table>>::yields(value, item) && item.expressed_by(written) {
                assert(numbered(nodes_of(item@)) =~= item@);
            }
        }
    }
}

/// What says the same looking less deep says the same looking deeper.
pub proof fn lemma_alike_deeper(a: ValueView, b: ValueView, depth: nat)
    requires
        alike(a, b, depth),
    ensures
        alike(a, b, depth + 1),
    decreases depth,
{
    if a != b {
        if let (ValueView::Table { fields: left, .. }, ValueView::Table { fields: right, .. }) = (
            a,
            b,
        ) {
            assert forall|i: int| 0 <= i < left.len() implies same_field(
                #[trigger] left[i],
                right[i],
                depth,
            ) by {
                assert(same_field(left[i], right[i], (depth - 1) as nat));
                if left[i].value() != right[i].value() {
                    let x = literal_value(left[i].value().unwrap()).unwrap();
                    let y = literal_value(right[i].value().unwrap()).unwrap();
                    lemma_alike_deeper(x, y, (depth - 1) as nat);
                }
            }
        }
    }
}

/// Where every field is a bare value, the number of bare values in front of
/// a field is its position.
proof fn lemma_count_of_bare_values(fields: Seq<FieldView>)
    requires
        forall|i: int| 0 <= i < fields.len() ==> (#[trigger] fields[i]).is_element(),
    ensures
        element_count(fields) == fields.len(),
    decreases fields.len(),
{
    if fields.len() > 0 {
        let rest = fields.drop_last();
        assert(fields.last() == fields[fields.len() - 1]);
        assert forall|i: int| 0 <= i < rest.len() implies (#[trigger] rest[i]).is_element() by {
            assert(rest[i] == fields[i]);
        }
        lemma_count_of_bare_values(rest);
    }
}

/// The literal of a list of items, each written as a literal that says the
/// same as the bare value that it was coerced from, says the same as the
/// table of those bare values.
proof fn lemma_list_reads_back<T>(
    source: Expression,
    items: Seq<T>,
    written: Expression,
    depth: nat,
) where Value: MaybeInto<T>, T: IntoExpr
    requires
        is_faithful::<T>(depth),
        literal_value(source) matches Some(ValueView::Table { fields, .. }) && are_kept::<T>(
            fields,
        ) && collects::<T>(fields, items),
        lists(written, items),
    ensures
        literal_value(written) matches Some(read) && alike(
            read,
            literal_value(source).unwrap(),
            depth + 1,
        ),
{
    let value = literal_value(source).unwrap();
    let read = literal_value(written).unwrap();
    if let (ValueView::Table { fields: left, .. }, ValueView::Table { fields: right, .. }) = (
        read,
        value,
    ) {
        assert(elements_coerce::<T>(right));
        sequence_coercion_law::<T>(right, items);
        lemma_count_of_bare_values(right);
        assert forall|i: int| 0 <= i < left.len() implies same_field(
            #[trigger] left[i],
            right[i],
            depth,
        ) by {
            assert(right[i].is_element() && is_collected::<T>(right[i]));
            let prefix = right.take(i);
            assert forall|j: int| 0 <= j < prefix.len() implies (
            #[trigger] prefix[j]).is_element() by {
                assert(prefix[j] == right[j]);
            }
            lemma_count_of_bare_values(prefix);
            assert(element_count(right.take(i)) == i);
            assert(right[i].at == i);
            let old_node = right[i].value().unwrap();
            let new_node = left[i].value().unwrap();
            assert(reads_back(old_node, items[i], new_node, depth));
        }
    }
}

/// Sequences are written as tables that say the same as the tables of bare
/// values that they were read from, one table deeper than their items.
pub proof fn sequence_is_faithful<T>(depth: nat) where Value: MaybeInto<T>, T: IntoExpr
    requires
        is_faithful::<T>(depth),
    ensures
        is_faithful::<Vec<T>>(depth + 1),
{
    assert forall|source: Expression, item: Vec<T>, written: Expression| #[trigger]
        reads_back::<Vec<T>>(source, item, written, depth + 1) by {
        if let Some(value) = literal_value(source) {
            if <Value as MaybeInto<Vec<T>>>::keeps(value) && <Value as MaybeInto<Vec<T>>>::yields(
                value,
                item,
            ) && item.expressed_by(written) {
                lemma_list_reads_back::<T>(source, item@, written, depth);
            }
        }
    }
}

/// Arrays are written as tables that say the same as the tables of bare
/// values that they were read from, one table deeper than their items.
pub proof fn array_is_faithful<T, const N: usize>(depth: nat) where
    Value: MaybeInto<T>,
    T: IntoExpr,

    requires
        is_faithful::<T>(depth),
    ensures
        is_faithful::<[T; N]>(depth + 1),
{
    assert forall|source: Expression, item: [T; N], written: Expression| #[trigger]
        reads_back::<[T; N]>(source, item, written, depth + 1) by {
        if let Some(value) = literal_value(source) {
            if <Value as MaybeInto<[T; N]>>::keeps(value) && <Value as MaybeInto<[T; N]>>::yields(
                value,
                item,
            ) && item.expressed_by(written) {
                lemma_list_reads_back::<T>(source, item@, written, depth);
            }
        }
    }
}

/// Removing the field of a name together with its position and inserting
/// what it coerced to, with nothing left out, under the same name at that
/// position gives a table that says the same as before: every other field is
/// the field that it was, and the new field has the name and a value that
/// says the same.
pub proof fn reinsertion_law<T>(
    before: Seq<FieldView>,
    after: Seq<FieldView>,
    name: Seq<char>,
    position: int,
    item: T,
    depth: nat,
) where Value: MaybeInto<T>, T: IntoExpr
    requires
        is_faithful::<T>(depth),
        lookup(before, name) == Some(position),
        coerces_to(before[position].value(), Some(item)),
        before[position].value() matches Some(source) && literal_value(source) matches Some(value)
            && <Value as MaybeInto<T>>::keeps(value),
        after == before.remove(position).insert(position, after[position]),
        is_new_field(after[position], before.remove(position), name, item),
    ensures
        same_content(after, before, depth),
        lookup(after, name) == Some(position),
        forall|i: int| 0 <= i < before.len() && i != position ==> #[trigger] after[i] == before[i],
{
    lemma_lookup(before, name);
    let source = before[position].value().unwrap();
    let written = after[position].value().unwrap();
    assert(reads_back(source, item, written, depth));
    assert forall|i: int| 0 <= i < after.len() implies same_field(
        #[trigger] after[i],
        before[i],
        depth,
    ) by {
        if i != position {
            assert(after[i] == before[i]);
        }
    }
    assert forall|j: int| 0 <= j < position implies !(#[trigger] after[j]).has_key(name) by {
        assert(after[j] == before[j]);
    }
    lemma_first_match(after, name, position);
}

} // verus!
