//! An ordered, editable view of the fields of one table literal.

use crate::search::{first_true, lemma_first_true, lemma_is_first_true};
use crate::syntax::{
    assemble_constructor, braces_of, constructor_braces, constructor_fields, constructor_pairs,
    copy_expression, empty_constructor, field_label, field_lead, field_name, field_trivia,
    field_value, is_punctuated, is_separated, label_of, lead_of, named_pair, node_of,
    nodes_of_pairs, pair_is_punctuated, pair_node, pairs_of, positional_pair, punctuate,
    read_token, trivia_of, value_of, Atom, FieldLabel,
};
use crate::text::{decimal, decimal_string, text_eq};
use crate::value::{coerces_to, IntoExpr, MaybeInto, Value};
use full_moon::ast::punctuated::Pair;
use full_moon::ast::span::ContainedSpan;
use full_moon::ast::{Expression, Field, TableConstructor};
use full_moon::tokenizer::Token;
use vstd::prelude::*;

verus! {

/// What a [`TableField`] stands for: the node of one field and the index
/// that a field without a name is keyed by.
pub struct FieldView {
    pub at: nat,
    pub field: Field,
}

impl FieldView {
    /// The field is written `name = value`.
    pub open spec fn is_key_value(self) -> bool {
        field_label(self.field) is Name
    }

    /// The field is a bare `value`.
    pub open spec fn is_element(self) -> bool {
        field_label(self.field) is Position
    }

    /// The key under which the field is found: its name, or for a bare value
    /// the decimal numeral of `at`. A field of any other form has none.
    pub open spec fn key(self) -> Option<Seq<char>> {
        match field_label(self.field) {
            FieldLabel::Name(_) => field_name(self.field),
            FieldLabel::Position => Some(decimal(self.at)),
            FieldLabel::Other => None,
        }
    }

    /// The value of the field.
    pub open spec fn value(self) -> Option<Expression> {
        field_value(self.field)
    }

    /// The trivia behind the field.
    pub open spec fn trivia(self) -> Seq<Token> {
        field_trivia(self.field)
    }

    /// The trivia in front of the field.
    pub open spec fn lead(self) -> Seq<Token> {
        field_lead(self.field)
    }

    /// The field is found under `name`.
    pub open spec fn has_key(self, name: Seq<char>) -> bool {
        self.key() == Some(name)
    }
}

/// One field of a table literal.
#[derive(Debug)]
pub struct TableField {
    at: usize,
    value: Pair<Field>,
}

impl View for TableField {
    type V = FieldView;

    closed spec fn view(&self) -> FieldView {
        FieldView { at: self.at as nat, field: pair_node(self.value) }
    }
}

impl TableField {
    /// Whether the field is written `name = value`.
    #[must_use]
    pub fn is_key_value(&self) -> (named: bool)
        ensures
            named == self@.is_key_value(),
    {
        match label_of(&self.value) {
            FieldLabel::Name(_) => true,
            _ => false,
        }
    }

    /// Whether the field is a bare `value`.
    #[must_use]
    pub fn is_element(&self) -> (bare: bool)
        ensures
            bare == self@.is_element(),
    {
        match label_of(&self.value) {
            FieldLabel::Position => true,
            _ => false,
        }
    }

    /// The key under which the field is found: its name, or for a bare
    /// value the numeral of its index.
    #[must_use]
    pub fn get_key(&self) -> (key: Option<String>)
        ensures
            match key {
                Some(text) => self@.key() == Some(text@) && self@.value() is Some,
                None => self@.key() is None,
            },
    {
        match label_of(&self.value) {
            FieldLabel::Name(token) => match read_token(&token) {
                Some(Atom::Identifier(name)) => Some(name),
                _ => None,
            },
            FieldLabel::Position => Some(decimal_string(self.at)),
            FieldLabel::Other => None,
        }
    }

    /// The value of the field.
    #[must_use]
    pub fn get_value(&self) -> (value: Option<&Expression>)
        ensures
            match value {
                Some(expression) => self@.value() == Some(*expression),
                None => self@.value() is None,
            },
    {
        value_of(&self.value)
    }

    /// The key and the value of the field, where it has a key.
    #[must_use]
    pub fn get_key_value(&self) -> (entry: Option<(String, &Expression)>)
        ensures
            match entry {
                Some((key, value)) => self@.key() == Some(key@) && self@.value() == Some(*value),
                None => self@.key() is None,
            },
    {
        match value_of(&self.value) {
            Some(value) => match self.get_key() {
                Some(key) => Some((key, value)),
                None => None,
            },
            None => None,
        }
    }

    /// The trivia behind the field: the white space and the comments that
    /// follow its last token.
    #[must_use]
    pub fn get_trailing_trivia(&self) -> (trivia: Vec<Token>)
        ensures
            trivia@ == self@.trivia(),
    {
        trivia_of(&self.value)
    }

    /// The trivia in front of the field: the white space and the comments
    /// that stand between the separator in front of it and its first token.
    #[must_use]
    pub fn get_leading_trivia(&self) -> (trivia: Vec<Token>)
        ensures
            trivia@ == self@.lead(),
    {
        lead_of(&self.value)
    }

    /// The field of a node, keyed by `at` where it has no name.
    #[must_use]
    pub fn from_raw(at: usize, value: Pair<Field>) -> (field: Self)
        ensures
            field@ == (FieldView { at: at as nat, field: pair_node(value) }),
    {
        Self { at, value }
    }

    /// Whether the field is found under `name`.
    pub fn has_key(&self, name: &str) -> (found: bool)
        ensures
            found == self@.has_key(name@),
            found ==> self@.value() is Some,
    {
        match self.get_key() {
            Some(key) => text_eq(key.as_str(), name),
            None => false,
        }
    }

    /// The value of a field that has one.
    #[must_use]
    pub fn into_value(self) -> (value: Expression)
        requires
            self@.value() is Some,
        ensures
            self@.value() == Some(value),
    {
        match value_of(&self.value) {
            Some(value) => copy_expression(value),
            None => vstd::pervasive::unreached(),
        }
    }

    /// The node of the field with its separator.
    #[must_use]
    pub fn into_pair(self) -> (pair: Pair<Field>)
        ensures
            pair_node(pair) == self@.field,
    {
        self.value
    }

    /// The node of the field.
    #[must_use]
    pub fn into_raw(self) -> (field: Field)
        ensures
            field == self@.field,
    {
        node_of(self.value)
    }
}

/// The fields that a table literal with these fields is read as: each field
/// with its index.
pub open spec fn numbered(fields: Seq<Field>) -> Seq<FieldView> {
    Seq::new(fields.len(), |i: int| FieldView { at: i as nat, field: fields[i] })
}

/// The nodes of the fields, in order.
pub open spec fn nodes_of(fields: Seq<FieldView>) -> Seq<Field> {
    Seq::new(fields.len(), |i: int| fields[i].field)
}

/// `index` is the first field found under `name`.
pub open spec fn is_first_match(fields: Seq<FieldView>, name: Seq<char>, index: int) -> bool {
    &&& 0 <= index < fields.len()
    &&& fields[index].has_key(name)
    &&& forall|j: int| 0 <= j < index ==> !(#[trigger] fields[j]).has_key(name)
}

/// No field is found under `name`.
pub open spec fn no_match(fields: Seq<FieldView>, name: Seq<char>) -> bool {
    forall|j: int| 0 <= j < fields.len() ==> !(#[trigger] fields[j]).has_key(name)
}

/// Where each field is found under `name`.
pub open spec fn found_flags(fields: Seq<FieldView>, name: Seq<char>) -> Seq<bool> {
    Seq::new(fields.len(), |i: int| fields[i].has_key(name))
}

/// The index of the first field found under `name`.
pub open spec fn lookup(fields: Seq<FieldView>, name: Seq<char>) -> Option<int> {
    first_true(found_flags(fields, name))
}

/// `lookup` gives the first match, and nothing only where nothing matches.
pub proof fn lemma_lookup(fields: Seq<FieldView>, name: Seq<char>)
    ensures
        match lookup(fields, name) {
            Some(i) => is_first_match(fields, name, i),
            None => no_match(fields, name),
        },
{
    let flags = found_flags(fields, name);
    lemma_first_true(flags);
    match lookup(fields, name) {
        Some(i) => {
            assert forall|j: int| 0 <= j < i implies !(#[trigger] fields[j]).has_key(name) by {
                assert(!flags[j]);
            }
        },
        None => {
            assert forall|j: int| 0 <= j < fields.len() implies !(#[trigger] fields[j]).has_key(
                name,
            ) by {
                assert(!flags[j]);
            }
        },
    }
}

/// The first match is what `lookup` gives.
pub proof fn lemma_first_match(fields: Seq<FieldView>, name: Seq<char>, index: int)
    requires
        is_first_match(fields, name, index),
    ensures
        lookup(fields, name) == Some(index),
{
    let flags = found_flags(fields, name);
    assert forall|j: int| 0 <= j < index implies !#[trigger] flags[j] by {
        assert(!fields[j].has_key(name));
    }
    lemma_is_first_true(flags, index);
}

/// `field` is what inserting `value` under `name` adds to `before`: a field
/// `name = value`, with a copy of the trivia behind the last field in front
/// of it.
pub open spec fn is_new_field<T: IntoExpr>(
    field: FieldView,
    before: Seq<FieldView>,
    name: Seq<char>,
    value: T,
) -> bool {
    &&& field.at == before.len()
    &&& field.is_key_value()
    &&& field.key() == Some(name)
    &&& field.value() matches Some(expression) && value.expressed_by(expression)
    &&& field.lead() == if before.len() > 0 {
        before.last().trivia()
    } else {
        Seq::empty()
    }
}

/// `field` is what pushing `value` adds to `before`: a bare value.
pub open spec fn is_new_element<T: IntoExpr>(
    field: FieldView,
    before: Seq<FieldView>,
    value: T,
) -> bool {
    &&& field.at == before.len()
    &&& field.is_element()
    &&& field.value() matches Some(expression) && value.expressed_by(expression)
}

/// The fields of one table literal, in order, with its braces.
#[derive(Debug)]
pub struct Table {
    braces: ContainedSpan,
    fields: Vec<TableField>,
}

impl View for Table {
    type V = Seq<FieldView>;

    closed spec fn view(&self) -> Seq<FieldView> {
        Seq::new(self.fields@.len(), |i: int| self.fields@[i]@)
    }
}

impl Table {
    /// The braces around the fields.
    pub closed spec fn braces(&self) -> ContainedSpan {
        self.braces
    }

    /// The view of a table literal: its fields in order, each keyed by its
    /// index where it has no name.
    #[must_use]
    pub fn new(table: &TableConstructor) -> (view: Self)
        ensures
            view.braces() == constructor_braces(*table),
            view@ == numbered(constructor_fields(*table)),
    {
        let pairs = pairs_of(table);
        let ghost all = pairs@;
        let mut fields: Vec<TableField> = Vec::new();
        for pair in it: pairs
            invariant
                it.seq() == all,
                fields@.len() == it.index(),
                forall|i: int| 0 <= i < fields@.len() ==> (#[trigger] fields@[i])@ == (FieldView {
                    at: i as nat,
                    field: pair_node(all[i]),
                }),
        {
            let at = fields.len();
            fields.push(TableField::from_raw(at, pair));
        }
        let view = Self { braces: braces_of(table), fields };
        assert(view@ =~= numbered(constructor_fields(*table)));
        view
    }

    /// The number of fields.
    #[must_use]
    pub fn len(&self) -> (count: usize)
        ensures
            count == self@.len(),
    {
        self.fields.len()
    }

    /// Whether there is no field.
    #[must_use]
    pub fn is_empty(&self) -> (empty: bool)
        ensures
            empty == (self@.len() == 0),
    {
        self.fields.len() == 0
    }

    /// Takes every field away; the braces stay.
    pub fn clear(&mut self)
        ensures
            final(self)@.len() == 0,
            final(self).braces() == old(self).braces(),
    {
        self.fields.clear();
    }

    /// Puts the fields of `table` behind the fields of this table, in their
    /// order.
    pub fn extend(&mut self, table: Self)
        ensures
            final(self)@ == old(self)@ + table@,
            final(self).braces() == old(self).braces(),
    {
        let mut other = table.fields;
        self.fields.append(&mut other);
        assert(self@ =~= old(self)@ + table@);
    }

    /// The position of the first field found under `name`.
    pub fn index_of(&self, name: &str) -> (position: Option<usize>)
        ensures
            match position {
                Some(index) => {
                    &&& lookup(self@, name@) == Some(index as int)
                    &&& index < self@.len()
                    &&& self@[index as int].value() is Some
                },
                None => lookup(self@, name@) is None,
            },
    {
        let mut index: usize = 0;
        while index < self.fields.len()
            invariant
                index <= self.fields@.len(),
                forall|j: int| 0 <= j < index ==> !(#[trigger] self@[j]).has_key(name@),
            decreases self.fields@.len() - index,
        {
            if self.fields[index].has_key(name) {
                proof {
                    assert(is_first_match(self@, name@, index as int));
                    lemma_first_match(self@, name@, index as int);
                }
                return Some(index);
            }
            index += 1;
        }
        proof {
            lemma_lookup(self@, name@);
        }
        None
    }

    /// Takes the first field found under `field` away and gives its value.
    pub fn remove(&mut self, field: &str) -> (value: Option<Expression>)
        ensures
            final(self).braces() == old(self).braces(),
            value is Some <==> lookup(old(self)@, field@) is Some,
            match lookup(old(self)@, field@) {
                Some(index) => {
                    &&& value == old(self)@[index].value()
                    &&& final(self)@ == old(self)@.remove(index)
                },
                None => value is None && final(self)@ == old(self)@,
            },
    {
        match self.index_of(field) {
            Some(position) => {
                proof {
                    lemma_lookup(self@, field@);
                }
                let removed = self.fields.remove(position);
                assert(self@ =~= old(self)@.remove(position as int));
                match removed.get_value() {
                    Some(value) => Some(copy_expression(value)),
                    None => None,
                }
            },
            None => None,
        }
    }

    /// Takes the first field found under `field` away and gives what its
    /// value coerces to. The field is gone whether the value coerces or not.
    pub fn remove_value<T>(&mut self, field: &str) -> (value: Option<T>) where Value: MaybeInto<T>
        ensures
            final(self).braces() == old(self).braces(),
            match lookup(old(self)@, field@) {
                Some(index) => coerces_to(old(self)@[index].value(), value) && final(self)@ == old(
                    self,
                )@.remove(index),
                None => value is None && final(self)@ == old(self)@,
            },
    {
        match self.remove(field) {
            Some(expression) => match Value::from_raw(expression) {
                Some(value) => MaybeInto::try_into(value),
                None => None,
            },
            None => None,
        }
    }

    /// Takes the first field found under `field` away and gives what its
    /// value coerces to, together with the position that the field had.
    pub fn remove_value_pos<T>(&mut self, field: &str) -> (value: Option<(T, usize)>) where
        Value: MaybeInto<T>,

        ensures
            final(self).braces() == old(self).braces(),
            match lookup(old(self)@, field@) {
                Some(index) => {
                    &&& final(self)@ == old(self)@.remove(index)
                    &&& match value {
                        Some((coerced, position)) => position == index && coerces_to(
                            old(self)@[index].value(),
                            Some(coerced),
                        ),
                        None => coerces_to::<T>(old(self)@[index].value(), None),
                    }
                },
                None => value is None && final(self)@ == old(self)@,
            },
    {
        match self.index_of(field) {
            Some(position) => {
                let removed: Option<T> = self.remove_value(field);
                match removed {
                    Some(value) => Some((value, position)),
                    None => None,
                }
            },
            None => None,
        }
    }

    /// Puts a field `name = value` behind the position `pos`.
    pub fn insert_after<T: IntoExpr>(&mut self, pos: usize, name: &str, value: T)
        requires
            pos < old(self)@.len(),
        ensures
            final(self).braces() == old(self).braces(),
            final(self)@ == old(self)@.insert(pos + 1, final(self)@[pos + 1]),
            is_new_field(final(self)@[pos + 1], old(self)@, name@, value),
    {
        let count = self.fields.len();
        assert(pos < count);
        self.insert_at(pos + 1, name, value);
    }

    /// Puts a field `name = value` in front of the position in front of
    /// `pos`, which must not be 0.
    pub fn insert_before<T: IntoExpr>(&mut self, pos: usize, name: &str, value: T)
        requires
            0 < pos <= old(self)@.len() + 1,
        ensures
            final(self).braces() == old(self).braces(),
            final(self)@ == old(self)@.insert(pos - 1, final(self)@[pos - 1]),
            is_new_field(final(self)@[pos - 1], old(self)@, name@, value),
    {
        self.insert_at(pos - 1, name, value);
    }

    /// Puts a field `name = value` at the position `pos`; the fields from
    /// that position on move back by one. The trivia behind the last field
    /// is copied in front of the new one.
    pub fn insert_at<T: IntoExpr>(&mut self, pos: usize, name: &str, value: T)
        requires
            pos <= old(self)@.len(),
        ensures
            final(self).braces() == old(self).braces(),
            final(self)@ == old(self)@.insert(pos as int, final(self)@[pos as int]),
            is_new_field(final(self)@[pos as int], old(self)@, name@, value),
    {
        let expression = value.into_expr();
        let count = self.fields.len();
        let trivia = if count > 0 {
            self.fields[count - 1].get_trailing_trivia()
        } else {
            Vec::new()
        };
        let field = TableField::from_raw(count, named_pair(trivia, name, expression));
        self.fields.insert(pos, field);
        assert(self@ =~= old(self)@.insert(pos as int, self@[pos as int]));
    }

    /// Puts a field `name = value` behind the last field, with a copy of
    /// the trivia behind that field in front of it.
    pub fn insert<T: IntoExpr>(&mut self, name: &str, value: T)
        ensures
            final(self).braces() == old(self).braces(),
            final(self)@ == old(self)@.push(final(self)@.last()),
            is_new_field(final(self)@.last(), old(self)@, name@, value),
    {
        let expression = value.into_expr();
        let count = self.fields.len();
        let trivia = if count > 0 {
            self.fields[count - 1].get_trailing_trivia()
        } else {
            Vec::new()
        };
        self.fields.push(TableField::from_raw(count, named_pair(trivia, name, expression)));
        assert(self@ =~= old(self)@.push(self@.last()));
    }

    /// Puts a bare `value` behind the last field.
    pub fn push<T: IntoExpr>(&mut self, value: T)
        ensures
            final(self).braces() == old(self).braces(),
            final(self)@ == old(self)@.push(final(self)@.last()),
            is_new_element(final(self)@.last(), old(self)@, value),
    {
        let count = self.fields.len();
        self.fields.push(TableField::from_raw(count, positional_pair(value.into_expr())));
        assert(self@ =~= old(self)@.push(self@.last()));
    }

    /// The value of the first field found under `name`.
    pub fn get_expr(&self, name: &str) -> (value: Option<&Expression>)
        ensures
            value is Some <==> lookup(self@, name@) is Some,
            match lookup(self@, name@) {
                Some(index) => match value {
                    Some(expression) => self@[index].value() == Some(*expression),
                    None => self@[index].value() is None,
                },
                None => value is None,
            },
    {
        match self.index_of(name) {
            Some(position) => {
                proof {
                    lemma_lookup(self@, name@);
                }
                self.fields[position].get_value()
            },
            None => None,
        }
    }

    /// What the value of the first field found under `name` coerces to.
    /// Nothing comes back where there is no such field and where its value
    /// does not coerce.
    pub fn get_value<T>(&self, name: &str) -> (value: Option<T>) where Value: MaybeInto<T>
        ensures
            match lookup(self@, name@) {
                Some(index) => coerces_to(self@[index].value(), value),
                None => value is None,
            },
    {
        match self.get_expr(name) {
            Some(expression) => match Value::from_raw(copy_expression(expression)) {
                Some(value) => MaybeInto::try_into(value),
                None => None,
            },
            None => None,
        }
    }

    /// What the value of the field at the position `pos` coerces to.
    pub fn get_value_at<T>(&self, pos: usize) -> (value: Option<T>) where Value: MaybeInto<T>
        ensures
            if pos < self@.len() {
                coerces_to(self@[pos as int].value(), value)
            } else {
                value is None
            },
    {
        if pos < self.fields.len() {
            match self.fields[pos].get_value() {
                Some(expression) => match Value::from_raw(copy_expression(expression)) {
                    Some(value) => MaybeInto::try_into(value),
                    None => None,
                },
                None => None,
            }
        } else {
            None
        }
    }

    /// The key of the field at the position `pos`.
    pub fn get_key_at(&self, pos: usize) -> (key: Option<String>)
        ensures
            match key {
                Some(text) => pos < self@.len() && self@[pos as int].key() == Some(text@),
                None => pos < self@.len() ==> self@[pos as int].key() is None,
            },
    {
        if pos < self.fields.len() {
            self.fields[pos].get_key()
        } else {
            None
        }
    }

    /// Whether a field is found under `name`.
    pub fn contains_key(&self, name: &str) -> (found: bool)
        ensures
            found == lookup(self@, name@) is Some,
            found ==> taken(self@, name@) is Some,
    {
        self.index_of(name).is_some()
    }

    /// Whether a field is found under each of `names`.
    pub fn contains_keys(&self, names: &[&str]) -> (found: bool)
        ensures
            found == forall|k: int|
                0 <= k < names@.len() ==> lookup(self@, (#[trigger] names@[k])@) is Some,
    {
        let mut k: usize = 0;
        while k < names.len()
            invariant
                k <= names@.len(),
                forall|j: int| 0 <= j < k ==> lookup(self@, (#[trigger] names@[j])@) is Some,
            decreases names@.len() - k,
        {
            if !self.contains_key(names[k]) {
                return false;
            }
            k += 1;
        }
        true
    }

    /// The table with a field `name = value` behind its last field.
    #[must_use]
    pub fn with_field<T: IntoExpr>(self, name: &str, value: T) -> (table: Self)
        ensures
            table.braces() == self.braces(),
            table@ == self@.push(table@.last()),
            is_new_field(table@.last(), self@, name@, value),
    {
        let mut table = self;
        table.insert(name, value);
        table
    }

    /// The table literal of the view. A separator stands behind every field
    /// but the last, whether the field had one or not.
    pub fn into_constructor(self) -> (constructor: TableConstructor)
        ensures
            constructor_braces(constructor) == self.braces(),
            constructor_fields(constructor) == nodes_of(self@),
            is_separated(constructor_pairs(constructor)),
    {
        let ghost all = self@;
        let count = self.fields.len();
        let mut pairs: Vec<Pair<Field>> = Vec::new();
        for field in it: self.fields
            invariant
                pairs@.len() == it.index(),
                count == all.len(),
                it.seq().len() == all.len(),
                forall|i: int| 0 <= i < it.seq().len() ==> (#[trigger] it.seq()[i])@ == all[i],
                forall|i: int|
                    0 <= i < pairs@.len() ==> pair_node(#[trigger] pairs@[i]) == all[i].field,
                forall|i: int|
                    0 <= i < pairs@.len() && i < count - 1 ==> pair_is_punctuated(
                        #[trigger] pairs@[i],
                    ),
        {
            let last = pairs.len() + 1 == count;
            let pair = field.into_pair();
            if last || is_punctuated(&pair) {
                pairs.push(pair);
            } else {
                pairs.push(punctuate(pair));
            }
        }
        assert(nodes_of_pairs(pairs@) =~= nodes_of(all));
        assemble_constructor(self.braces, pairs)
    }

    /// The fields, in order.
    pub fn into_fields(self) -> (fields: Vec<TableField>)
        ensures
            fields@.len() == self@.len(),
            forall|i: int| 0 <= i < fields@.len() ==> (#[trigger] fields@[i])@ == self@[i],
    {
        self.fields
    }
}

/// Whether a field is found under `name`.
pub open spec fn has_field(fields: Seq<FieldView>, name: Seq<char>) -> bool {
    lookup(fields, name) is Some
}

/// The value of the first field found under `name`.
pub open spec fn taken(fields: Seq<FieldView>, name: Seq<char>) -> Option<Expression> {
    match lookup(fields, name) {
        Some(index) => fields[index].value(),
        None => None,
    }
}

/// The fields without the first one found under `name`.
pub open spec fn without(fields: Seq<FieldView>, name: Seq<char>) -> Seq<FieldView> {
    match lookup(fields, name) {
        Some(index) => fields.remove(index),
        None => fields,
    }
}

/// Reading a table literal and writing the view back without a change gives
/// a table literal with the braces and the fields of the one that was read.
pub proof fn round_trip_law(node: TableConstructor, view: Table, back: TableConstructor)
    requires
        view.braces() == constructor_braces(node),
        view@ == numbered(constructor_fields(node)),
        constructor_braces(back) == view.braces(),
        constructor_fields(back) == nodes_of(view@),
    ensures
        constructor_braces(back) == constructor_braces(node),
        constructor_fields(back) == constructor_fields(node),
{
    assert(nodes_of(numbered(constructor_fields(node))) =~= constructor_fields(node));
}

/// Inserting a field under a name that no field in front of it has: the name
/// is then found at the position of the new field, the fields in front of it
/// stay where they were, and each field from that position on stands one
/// place further back.
pub proof fn insertion_law(
    before: Seq<FieldView>,
    after: Seq<FieldView>,
    position: int,
    name: Seq<char>,
)
    requires
        0 <= position <= before.len(),
        after == before.insert(position, after[position]),
        after[position].has_key(name),
        forall|j: int| 0 <= j < position ==> !(#[trigger] before[j]).has_key(name),
    ensures
        lookup(after, name) == Some(position),
        after.len() == before.len() + 1,
        forall|i: int| 0 <= i < position ==> #[trigger] after[i] == before[i],
        forall|i: int| position <= i < before.len() ==> #[trigger] after[i + 1] == before[i],
{
    assert forall|j: int| 0 <= j < position implies !(#[trigger] after[j]).has_key(name) by {
        assert(after[j] == before[j]);
    }
    lemma_first_match(after, name, position);
}

impl Default for Table {
    fn default() -> (table: Self)
        ensures
            table@.len() == 0,
    {
        Self::new(&empty_constructor())
    }
}

} // verus!
