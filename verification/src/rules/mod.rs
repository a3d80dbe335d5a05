//! Rules that find tables of a shape and rewrite them.

use crate::locales::{CategoryView, Locales};
use crate::text::{find_name, is_one_of, names_of, text_eq};
use crate::value::table::{
    lemma_first_match, lemma_lookup, lookup, nodes_of, numbered, taken, without,
};
use crate::value::{literal_value, FieldView, Table, ValueView};
use full_moon::ast::Expression;
use vstd::prelude::*;

pub mod fluid_boxes;
pub mod graphics;
pub mod recipe;

verus! {

/// How a rule tells the prototypes that it is for.
#[derive(Debug)]
pub enum PrototypeKind {
    /// The prototypes of one type.
    Single(&'static str),
    /// The prototypes of a family of types.
    Verify(Vec<&'static str>),
    /// For tables where there is no `type` field
    Untyped,
}

impl PrototypeKind {
    /// Whether a prototype of the type `kind` is one that the rule is for.
    pub open spec fn verifies(self, kind: Seq<char>) -> bool {
        match self {
            PrototypeKind::Single(value) => value@ == kind,
            PrototypeKind::Verify(family) => names_of(family@).contains(kind),
            PrototypeKind::Untyped => false,
        }
    }

    /// Whether a prototype of the type `kind` is one that the rule is for.
    pub fn verify(&self, kind: &str) -> (matches: bool)
        ensures
            matches == self.verifies(kind@),
    {
        match self {
            Self::Single(value) => text_eq(value, kind),
            Self::Verify(family) => is_one_of(kind, family.as_slice()),
            Self::Untyped => false,
        }
    }

    /// Whether the rule is for tables without a type.
    pub fn is_none(&self) -> (none: bool)
        ensures
            none == (self is Untyped),
    {
        matches!(self, Self::Untyped)
    }
}

/// The string that the first field found under `name` holds.
pub open spec fn string_in(fields: Seq<FieldView>, name: Seq<char>) -> Option<Seq<char>> {
    match taken(fields, name) {
        Some(expression) => match literal_value(expression) {
            Some(ValueView::String(text)) => Some(text),
            _ => None,
        },
        None => None,
    }
}

/// The fields of the table that an expression is the literal of.
pub open spec fn table_of(expression: Option<Expression>) -> Option<Seq<FieldView>> {
    match expression {
        Some(e) => match literal_value(e) {
            Some(ValueView::Table { fields, .. }) => Some(fields),
            _ => None,
        },
        None => None,
    }
}

/// The field is `name = value`.
pub open spec fn holds(field: FieldView, name: Seq<char>, value: Expression) -> bool {
    &&& field.is_key_value()
    &&& field.key() == Some(name)
    &&& field.value() == Some(value)
}

/// The fields of the table literal that the field `name = { .. }` holds.
pub open spec fn table_in(field: FieldView, name: Seq<char>) -> Option<Seq<FieldView>> {
    if field.is_key_value() && field.key() == Some(name) {
        match field.value() {
            Some(expression) => match literal_value(expression) {
                Some(ValueView::Table { fields, .. }) => Some(fields),
                _ => None,
            },
            None => None,
        }
    } else {
        None
    }
}

/// The fields are `name = value` for each of `entries`, in order.
pub open spec fn holds_all(fields: Seq<FieldView>, entries: Seq<(Seq<char>, Expression)>) -> bool {
    &&& fields.len() == entries.len()
    &&& forall|i: int|
        0 <= i < entries.len() ==> holds(#[trigger] fields[i], entries[i].0, entries[i].1)
}

/// The position of the field of the first of `names` that has one.
pub open spec fn first_position(fields: Seq<FieldView>, names: Seq<Seq<char>>) -> Option<int>
    decreases names.len(),
{
    if names.len() == 0 {
        None
    } else {
        match lookup(fields, names[0]) {
            Some(index) => Some(index),
            None => first_position(fields, names.drop_first()),
        }
    }
}

/// The fields that are left when, for each of `names` in turn, the first
/// field found under it is taken away.
pub open spec fn remaining(fields: Seq<FieldView>, names: Seq<Seq<char>>) -> Seq<FieldView>
    decreases names.len(),
{
    if names.len() == 0 {
        fields
    } else {
        without(remaining(fields, names.drop_last()), names.last())
    }
}

/// The names and values that are taken away with them, in the order of
/// `names`.
pub open spec fn moved(fields: Seq<FieldView>, names: Seq<Seq<char>>) -> Seq<
    (Seq<char>, Expression),
>
    decreases names.len(),
{
    if names.len() == 0 {
        Seq::empty()
    } else {
        let before = moved(fields, names.drop_last());
        match taken(remaining(fields, names.drop_last()), names.last()) {
            Some(value) => before.push((names.last(), value)),
            None => before,
        }
    }
}

/// A table that was written and read again holds what it held.
pub proof fn lemma_reread_holds_all(fields: Seq<FieldView>, entries: Seq<(Seq<char>, Expression)>)
    requires
        holds_all(fields, entries),
    ensures
        holds_all(numbered(nodes_of(fields)), entries),
{
    let read = numbered(nodes_of(fields));
    assert forall|i: int| 0 <= i < entries.len() implies holds(
        #[trigger] read[i],
        entries[i].0,
        entries[i].1,
    ) by {
        assert(holds(fields[i], entries[i].0, entries[i].1));
        assert(read[i].field == fields[i].field);
    }
}

/// The names among `names` under which a field is found, in the order of
/// the first field of each among the first `count` fields.
pub open spec fn found_in_order(fields: Seq<FieldView>, names: Seq<Seq<char>>, count: int) -> Seq<
    Seq<char>,
>
    decreases count,
{
    if count <= 0 {
        Seq::empty()
    } else {
        let before = found_in_order(fields, names, count - 1);
        match fields[count - 1].key() {
            Some(key) => if names.contains(key) && lookup(fields, key) == Some(count - 1) {
                before.push(key)
            } else {
                before
            },
            None => before,
        }
    }
}

/// The names in source order are names of the list, each is found, and the
/// fields found under them stand in the order of the names.
pub proof fn source_order_law(fields: Seq<FieldView>, names: Seq<Seq<char>>, count: int)
    requires
        count <= fields.len(),
    ensures
        ({
            let found = found_in_order(fields, names, count);
            &&& forall|k: int|
                0 <= k < found.len() ==> {
                    &&& names.contains(#[trigger] found[k])
                    &&& lookup(fields, found[k]) matches Some(at)
                    &&& 0 <= at < count
                }
            &&& forall|j: int, k: int|
                0 <= j < k < found.len() ==> lookup(fields, #[trigger] found[j]).unwrap() < lookup(
                    fields,
                    #[trigger] found[k],
                ).unwrap()
        }),
    decreases count,
{
    if count > 0 {
        source_order_law(fields, names, count - 1);
    }
}

/// Taking the first field of one name away leaves the first field of any
/// other name the first of that name, with its value.
pub proof fn lemma_without_keeps(fields: Seq<FieldView>, gone: Seq<char>, name: Seq<char>)
    requires
        gone != name,
    ensures
        taken(without(fields, gone), name) == taken(fields, name),
        lookup(without(fields, gone), name) is Some <==> lookup(fields, name) is Some,
{
    lemma_lookup(fields, gone);
    lemma_lookup(fields, name);
    if let Some(at) = lookup(fields, gone) {
        let rest = fields.remove(at);
        lemma_lookup(rest, name);
        match lookup(fields, name) {
            Some(found) => {
                let moved = if found < at {
                    found
                } else {
                    found - 1
                };
                assert(rest[moved] == fields[found]);
                assert forall|j: int| 0 <= j < moved implies !(#[trigger] rest[j]).has_key(
                    name,
                ) by {
                    if j < at {
                        assert(rest[j] == fields[j]);
                    } else {
                        assert(rest[j] == fields[j + 1]);
                    }
                }
                lemma_first_match(rest, name, moved);
            },
            None => {
                if let Some(found) = lookup(rest, name) {
                    if found < at {
                        assert(rest[found] == fields[found]);
                    } else {
                        assert(rest[found] == fields[found + 1]);
                    }
                }
            },
        }
    }
}

/// No name occurs twice.
pub open spec fn are_distinct(names: Seq<Seq<char>>) -> bool {
    forall|i: int, j: int| 0 <= i < j < names.len() ==> #[trigger] names[i] != #[trigger] names[j]
}

/// Taking the first fields of some names away leaves the first field of any
/// other name the first of that name, with its value.
pub proof fn lemma_remaining_keeps(fields: Seq<FieldView>, names: Seq<Seq<char>>, name: Seq<char>)
    requires
        !names.contains(name),
    ensures
        taken(remaining(fields, names), name) == taken(fields, name),
    decreases names.len(),
{
    if names.len() > 0 {
        let front = names.drop_last();
        assert(names.last() == names[names.len() - 1]);
        assert forall|i: int| 0 <= i < front.len() implies front[i] != name by {
            assert(front[i] == names[i]);
        }
        lemma_remaining_keeps(fields, front, name);
        lemma_without_keeps(remaining(fields, front), names.last(), name);
    }
}

/// The names with the values of the first fields found under them.
pub open spec fn entries_of(fields: Seq<FieldView>, names: Seq<Seq<char>>) -> Seq<
    (Seq<char>, Expression),
> {
    Seq::new(names.len(), |i: int| (names[i], taken(fields, names[i]).unwrap()))
}

/// Where a field with a value is found under each of the names and no name
/// occurs twice, what is taken away is, name by name, the first field found
/// under the name.
pub proof fn lemma_moved_entries(fields: Seq<FieldView>, names: Seq<Seq<char>>)
    requires
        are_distinct(names),
        forall|i: int| 0 <= i < names.len() ==> taken(fields, #[trigger] names[i]) is Some,
    ensures
        moved(fields, names) == entries_of(fields, names),
    decreases names.len(),
{
    if names.len() > 0 {
        let front = names.drop_last();
        let last = names.len() - 1;
        assert(names.last() == names[last]);
        assert forall|i: int, j: int| 0 <= i < j < front.len() implies #[trigger] front[i]
            != #[trigger] front[j] by {
            assert(front[i] == names[i] && front[j] == names[j]);
        }
        assert forall|i: int| 0 <= i < front.len() implies taken(fields, #[trigger] front[i])
            is Some by {
            assert(front[i] == names[i]);
        }
        lemma_moved_entries(fields, front);
        assert forall|i: int| 0 <= i < front.len() implies front[i] != names[last] by {
            assert(front[i] == names[i]);
        }
        lemma_remaining_keeps(fields, front, names[last]);
        assert(moved(fields, names) =~= entries_of(fields, names));
    } else {
        assert(moved(fields, names) =~= entries_of(fields, names));
    }
}

/// The names among `names` under which a field of `table` is found, in the
/// order of those fields.
pub fn names_in_order<'a>(table: &Table, names: &[&'a str]) -> (ordered: Vec<&'a str>)
    ensures
        names_of(ordered@) == found_in_order(table@, names_of(names@), table@.len() as int),
        forall|k: int|
            0 <= k < ordered@.len() ==> taken(table@, (#[trigger] names_of(ordered@)[k])) is Some,
{
    let ghost all = names_of(names@);
    let mut ordered: Vec<&'a str> = Vec::new();
    let mut index: usize = 0;
    assert(names_of(ordered@) =~= found_in_order(table@, all, 0));
    while index < table.len()
        invariant
            index <= table@.len(),
            all == names_of(names@),
            names_of(ordered@) == found_in_order(table@, all, index as int),
            forall|k: int|
                0 <= k < ordered@.len() ==> taken(table@, (#[trigger] names_of(ordered@)[k]))
                    is Some,
        decreases table@.len() - index,
    {
        let ghost before = ordered@;
        let mut found: Option<&'a str> = None;
        if let Some(key) = table.get_key_at(index) {
            if let Some(at) = find_name(key.as_str(), names) {
                assert(all[at as int] == key@);
                if let Some(first) = table.index_of(names[at]) {
                    if first == index {
                        found = Some(names[at]);
                    }
                }
            }
        }
        if let Some(name) = found {
            ordered.push(name);
            assert(names_of(ordered@) =~= names_of(before).push(name@));
        }
        index += 1;
    }
    ordered
}

/// The position of the field of the first of `names` that has one.
pub fn first_index(table: &Table, names: &[&str]) -> (position: Option<usize>)
    ensures
        match position {
            Some(index) => first_position(table@, names_of(names@)) == Some(index as int) && index
                < table@.len(),
            None => first_position(table@, names_of(names@)) is None,
        },
{
    let ghost all = names_of(names@);
    let mut k: usize = 0;
    assert(all.skip(0) =~= all);
    while k < names.len()
        invariant
            k <= names@.len(),
            all == names_of(names@),
            first_position(table@, all) == first_position(table@, all.skip(k as int)),
        decreases names@.len() - k,
    {
        proof {
            assert(all.skip(k as int).drop_first() =~= all.skip(k + 1));
            assert(all.skip(k as int)[0] == names@[k as int]@);
            lemma_lookup(table@, names@[k as int]@);
        }
        if let Some(index) = table.index_of(names[k]) {
            return Some(index);
        }
        k += 1;
    }
    None
}

/// Takes the first field of each of `names` out of `table` and puts it, under
/// its name, into a new table.
pub fn take_fields(table: &mut Table, names: &[&str]) -> (target: Table)
    ensures
        final(table).braces() == old(table).braces(),
        final(table)@ == remaining(old(table)@, names_of(names@)),
        holds_all(target@, moved(old(table)@, names_of(names@))),
{
    let ghost all = names_of(names@);
    let mut target = Table::default();
    let mut k: usize = 0;
    assert(all.take(0) =~= Seq::empty());
    while k < names.len()
        invariant
            k <= names@.len(),
            all == names_of(names@),
            table.braces() == old(table).braces(),
            table@ == remaining(old(table)@, all.take(k as int)),
            holds_all(target@, moved(old(table)@, all.take(k as int))),
        decreases names@.len() - k,
    {
        proof {
            assert(all.take(k + 1).drop_last() =~= all.take(k as int));
            assert(all.take(k + 1).last() == names@[k as int]@);
        }
        let ghost held = target@;
        if let Some(value) = table.remove(names[k]) {
            target.insert(names[k], value);
            proof {
                let entries = moved(old(table)@, all.take(k + 1));
                assert forall|i: int| 0 <= i < entries.len() implies holds(
                    #[trigger] target@[i],
                    entries[i].0,
                    entries[i].1,
                ) by {
                    if i < held.len() {
                        assert(target@[i] == held[i]);
                    }
                }
            }
        }
        k += 1;
    }
    assert(all.take(k as int) =~= all);
    target
}

/// Why a rule that looked at a table did not rewrite it.
#[derive(Debug, Clone, Copy, PartialEq, Eq)]
pub enum Reason {
    /// A field that the rule needs is missing or of another shape.
    Missing,
    /// The recipe has no single result to take the name of.
    Results,
    /// The product is the recipe itself, which has a name of its own.
    OwnName,
    /// The product is a void.
    Void,
    /// The product is a slag.
    Slag,
    /// No category has a name for the product.
    NoCategory,
}

/// What became of a rule on a table.
#[derive(Debug, Clone, Copy, PartialEq, Eq)]
pub enum Outcome {
    /// The rule rewrote the table.
    Applied,
    /// The rule left the table as it was, for this reason.
    Failed(Reason),
}

/// The outcome of a rule that has no reasons of its own.
pub fn outcome_of(done: Option<()>) -> (outcome: Outcome)
    ensures
        outcome == match done {
            Some(_) => Outcome::Applied,
            None => Outcome::Failed(Reason::Missing),
        },
{
    match done {
        Some(_) => Outcome::Applied,
        None => Outcome::Failed(Reason::Missing),
    }
}

/// The transformations that rules make.
#[derive(Debug)]
pub enum Fix {
    Recipe,
    BeamGraphics,
    MachineGraphics,
    OffshorePumpGraphics,
    TurretGraphics,
    HighResGraphics,
    FluidBoxes,
}

impl Fix {
    /// The tables that the transformation is for, of the prototype `name`.
    pub open spec fn matches(
        self,
        name: Seq<char>,
        locales: Seq<CategoryView>,
        fields: Seq<FieldView>,
    ) -> bool {
        match self {
            Fix::Recipe => recipe::matches(name, locales, fields),
            Fix::BeamGraphics => graphics::beam::matches(fields),
            Fix::MachineGraphics => graphics::machine::matches(fields),
            Fix::OffshorePumpGraphics => graphics::offshore_pump::matches(fields),
            Fix::TurretGraphics => graphics::turret::matches(fields),
            Fix::HighResGraphics => graphics::hr_version::matches(fields),
            Fix::FluidBoxes => fluid_boxes::matches(fields),
        }
    }

    /// Why the transformation fails on a table on which it fails.
    pub open spec fn failure(
        self,
        name: Seq<char>,
        locales: Seq<CategoryView>,
        before: Seq<FieldView>,
    ) -> Reason {
        match self {
            Fix::Recipe => recipe::failure(name, locales, before),
            _ => Reason::Missing,
        }
    }

    /// The transformation makes `after` of `before`, and `done` says whether
    /// it came to its end. A transformation that fails leaves the table as
    /// it was.
    pub open spec fn rewrites(
        self,
        name: Seq<char>,
        locales: Seq<CategoryView>,
        before: Seq<FieldView>,
        after: Seq<FieldView>,
        done: bool,
    ) -> bool {
        match self {
            Fix::Recipe => recipe::rewrites(name, locales, before, after, done),
            Fix::BeamGraphics => graphics::beam::rewrites(before, after, done),
            Fix::MachineGraphics => graphics::machine::rewrites(before, after, done),
            Fix::OffshorePumpGraphics => graphics::offshore_pump::rewrites(before, after, done),
            Fix::TurretGraphics => graphics::turret::rewrites(before, after, done),
            Fix::HighResGraphics => graphics::hr_version::rewrites(before, after, done),
            Fix::FluidBoxes => fluid_boxes::rewrites(before, after, done),
        }
    }
}

/// A transformation that fails leaves the table as it was.
pub proof fn atomicity_law(
    fix: Fix,
    name: Seq<char>,
    locales: Seq<CategoryView>,
    before: Seq<FieldView>,
    after: Seq<FieldView>,
)
    requires
        fix.rewrites(name, locales, before, after, false),
    ensures
        after == before,
{
}

/// One rule of the catalog: whether it takes part, the prototypes that it is
/// for, and what it does to their tables.
#[derive(Debug)]
pub struct FixRule {
    pub enabled: bool,
    pub kind: PrototypeKind,
    pub fix: Fix,
}

impl FixRule {
    /// Whether the rule is for this table of the prototype `prototype_name`.
    pub fn filter(&self, prototype_name: &str, locales: &Locales, table: &Table) -> (found: bool)
        ensures
            found == self.fix.matches(prototype_name@, locales@, table@),
    {
        match self.fix {
            Fix::Recipe => recipe::filter(prototype_name, locales, table),
            Fix::BeamGraphics => graphics::beam::filter(table),
            Fix::MachineGraphics => graphics::machine::filter(table),
            Fix::OffshorePumpGraphics => graphics::offshore_pump::filter(table),
            Fix::TurretGraphics => graphics::turret::filter(table),
            Fix::HighResGraphics => graphics::hr_version::filter(table),
            Fix::FluidBoxes => fluid_boxes::filter(table),
        }
    }

    /// Rewrites the table, or leaves it as it was and gives the reason.
    pub fn apply(
        &self,
        mod_name: &str,
        prototype_name: &str,
        locales: &Locales,
        table: &mut Table,
    ) -> (outcome: Outcome)
        ensures
            final(table).braces() == old(table).braces(),
            self.fix.rewrites(
                prototype_name@,
                locales@,
                old(table)@,
                final(table)@,
                outcome is Applied,
            ),
            outcome matches Outcome::Failed(reason) ==> reason == self.fix.failure(
                prototype_name@,
                locales@,
                old(table)@,
            ),
    {
        match self.fix {
            Fix::Recipe => recipe::apply(prototype_name, locales, table),
            Fix::BeamGraphics => outcome_of(graphics::beam::action(table)),
            Fix::MachineGraphics => outcome_of(graphics::machine::action(table)),
            Fix::OffshorePumpGraphics => outcome_of(graphics::offshore_pump::action(table)),
            Fix::TurretGraphics => outcome_of(graphics::turret::action(table)),
            Fix::HighResGraphics => outcome_of(graphics::hr_version::action(table)),
            Fix::FluidBoxes => outcome_of(fluid_boxes::action(table)),
        }
    }

    /// Rewrites the table. Nothing comes back where the rule could not come
    /// to its end; the table is then as it was.
    pub fn action(
        &self,
        mod_name: &str,
        prototype_name: &str,
        locales: &Locales,
        table: &mut Table,
    ) -> (done: Option<()>)
        ensures
            final(table).braces() == old(table).braces(),
            self.fix.rewrites(
                prototype_name@,
                locales@,
                old(table)@,
                final(table)@,
                done is Some,
            ),
    {
        match self.apply(mod_name, prototype_name, locales, table) {
            Outcome::Applied => Some(()),
            Outcome::Failed(_) => None,
        }
    }
}

} // verus!
