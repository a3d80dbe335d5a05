//! Beams: `start`, `ending`, `head`, `tail` and `body` belong under
//! `graphics_set.beam`.

use crate::rules::{
    entries_of, first_index, first_position, found_in_order, holds, holds_all,
    lemma_moved_entries, lemma_reread_holds_all, names_in_order, remaining, source_order_law,
    table_in, take_fields,
};
use crate::value::table::{has_field, lemma_first_match, lookup};
use crate::value::{FieldView, Table};
use crate::rules::{Fix, FixRule, PrototypeKind};
use vstd::prelude::*;

verus! {

/// The names of the fields that the rule moves, in the order in which it
/// looks for them.
pub open spec fn moved_names() -> Seq<Seq<char>> {
    seq!["start"@, "ending"@, "head"@, "tail"@, "body"@]
}

/// The tables that the rule is for: those without `graphics_set`.
pub open spec fn matches(fields: Seq<FieldView>) -> bool {
    !has_field(fields, "graphics_set"@)
}

/// The names of the fields that the rule moves, in the order in which the
/// fields stand in the table.
pub open spec fn names_in_source(fields: Seq<FieldView>) -> Seq<Seq<char>> {
    found_in_order(fields, moved_names(), fields.len() as int)
}

/// What the rule makes of a table. Where none of the fields is there, nothing
/// changes and the rule fails. Else the first field of each name is taken
/// out, and a field `graphics_set`, which holds one field `beam`, which holds
/// them in the order in which they stood, stands where `start` stood, or
/// else `ending`, `head`, `tail` or `body`, or at the end where the table has
/// become too short for that.
pub open spec fn rewrites(before: Seq<FieldView>, after: Seq<FieldView>, done: bool) -> bool {
    match first_position(before, moved_names()) {
        Some(position) => {
            let rest = remaining(before, names_in_source(before));
            let at = if position <= rest.len() {
                position
            } else {
                rest.len() as int
            };
            &&& done
            &&& after == rest.insert(at, after[at])
            &&& table_in(after[at], "graphics_set"@) matches Some(outer)
            &&& outer.len() == 1
            &&& table_in(outer[0], "beam"@) matches Some(inner)
            &&& holds_all(inner, entries_of(before, names_in_source(before)))
        },
        None => !done && after == before,
    }
}

/// The fields under `beam` stand in the order in which they stood in the
/// table: each is the field found under its name, and of two of them the one
/// stands first whose name was found first in the table.
pub proof fn order_law(before: Seq<FieldView>, inner: Seq<FieldView>, first: int, second: int)
    requires
        holds_all(inner, entries_of(before, names_in_source(before))),
        0 <= first < second < inner.len(),
    ensures
        inner[first].key() matches Some(one) && inner[second].key() matches Some(other) && lookup(
            inner,
            one,
        ) == Some(first) && lookup(inner, other) == Some(second) && lookup(before, one).unwrap()
            < lookup(before, other).unwrap(),
{
    let found = names_in_source(before);
    source_order_law(before, moved_names(), before.len() as int);
    assert forall|k: int| 0 <= k < inner.len() implies lookup(inner, found[k]) == Some(k) by {
        assert(holds(inner[k], found[k], entries_of(before, found)[k].1));
        assert forall|j: int| 0 <= j < k implies !(#[trigger] inner[j]).has_key(found[k]) by {
            assert(holds(inner[j], found[j], entries_of(before, found)[j].1));
            assert(lookup(before, found[j]).unwrap() < lookup(before, found[k]).unwrap());
        }
        lemma_first_match(inner, found[k], k);
    }
    assert(holds(inner[first], found[first], entries_of(before, found)[first].1));
    assert(holds(inner[second], found[second], entries_of(before, found)[second].1));
    assert(lookup(before, found[first]).unwrap() < lookup(before, found[second]).unwrap());
}

/// Whether the table is one that the rule is for.
pub fn filter(table: &Table) -> (found: bool)
    ensures
        found == matches(table@),
{
    !table.contains_key("graphics_set")
}

/// Rewrites the table. Nothing comes back where the rule fails.
pub fn action(table: &mut Table) -> (done: Option<()>)
    ensures
        final(table).braces() == old(table).braces(),
        rewrites(old(table)@, final(table)@, done is Some),
{
    let names = ["start", "ending", "head", "tail", "body"];
    assert(crate::text::names_of(names@) =~= moved_names());
    match first_index(table, names.as_slice()) {
        Some(position) => {
            let ordered = names_in_order(table, names.as_slice());
            let animation = take_fields(table, ordered.as_slice());
            let at = if position <= table.len() {
                position
            } else {
                table.len()
            };
            proof {
                let found = names_in_source(old(table)@);
                source_order_law(old(table)@, moved_names(), old(table)@.len() as int);
                assert forall|i: int, j: int| 0 <= i < j < found.len() implies #[trigger] found[i]
                    != #[trigger] found[j] by {
                    assert(lookup(old(table)@, found[i]).unwrap() < lookup(
                        old(table)@,
                        found[j],
                    ).unwrap());
                }
                lemma_moved_entries(old(table)@, found);
                lemma_reread_holds_all(animation@, entries_of(old(table)@, found));
            }
            let graphics_set = Table::default().with_field("beam", animation);
            table.insert_at(at, "graphics_set", graphics_set);
            Some(())
        },
        None => None,
    }
}

/// The rule of the catalog that gathers the graphics of beams.
pub open spec fn is_rule(rule: FixRule) -> bool {
    &&& !rule.enabled
    &&& rule.kind matches PrototypeKind::Single(kind)
    &&& kind@ == "beam"@
    &&& rule.fix is BeamGraphics
}

/// The rule as it stands in the catalog.
pub fn fix_beam_graphics() -> (rule: FixRule)
    ensures
        is_rule(rule),
{
    FixRule { enabled: false, kind: PrototypeKind::Single("beam"), fix: Fix::BeamGraphics }
}

} // verus!
