//! Offshore pumps: `picture` belongs under `graphics_set.base_pictures`.

use crate::rules::{holds, table_in};
use crate::value::table::{has_field, lemma_lookup, lookup, taken};
use crate::value::{FieldView, Table};
use crate::rules::{Fix, FixRule, PrototypeKind};
use vstd::prelude::*;

verus! {

/// The tables that the rule is for: those without `graphics_set`.
pub open spec fn matches(fields: Seq<FieldView>) -> bool {
    !has_field(fields, "graphics_set"@)
}

/// What the rule makes of a table; it never fails. Where there is a
/// `picture`, a field `graphics_set` stands in its place, which holds one
/// field `base_pictures` with the value that `picture` had. Where there is
/// none, an empty `graphics_set` stands at the end.
pub open spec fn rewrites(before: Seq<FieldView>, after: Seq<FieldView>, done: bool) -> bool {
    &&& done
    &&& match taken(before, "picture"@) {
        Some(picture) => {
            let position = lookup(before, "picture"@).unwrap();
            &&& after == before.remove(position).insert(position, after[position])
            &&& table_in(after[position], "graphics_set"@) matches Some(inner)
            &&& inner.len() == 1
            &&& holds(inner[0], "base_pictures"@, picture)
        },
        None => {
            &&& after == before.push(after.last())
            &&& table_in(after.last(), "graphics_set"@) matches Some(inner)
            &&& inner.len() == 0
        },
    }
}

/// Whether the table is one that the rule is for.
pub fn filter(table: &Table) -> (found: bool)
    ensures
        found == matches(table@),
{
    !table.contains_key("graphics_set")
}

/// Rewrites the table. Nothing comes back where the rule fails.
pub fn action(table: &mut Table) -> (done: Option<()>)
    ensures
        final(table).braces() == old(table).braces(),
        rewrites(old(table)@, final(table)@, done is Some),
{
    let mut graphics_set = Table::default();
    let position = table.index_of("picture");
    proof {
        lemma_lookup(table@, "picture"@);
    }
    if let Some(picture) = table.remove("picture") {
        graphics_set.insert("base_pictures", picture);
    }
    if let Some(position) = position {
        table.insert_at(position, "graphics_set", graphics_set);
    } else {
        table.insert("graphics_set", graphics_set);
    }
    Some(())
}

/// The rule of the catalog that gathers the graphics of offshore pumps.
pub open spec fn is_rule(rule: FixRule) -> bool {
    &&& !rule.enabled
    &&& rule.kind matches PrototypeKind::Single(kind)
    &&& kind@ == "offshore-pump"@
    &&& rule.fix is OffshorePumpGraphics
}

/// The rule as it stands in the catalog.
pub fn fix_offshore_pump_graphics() -> (rule: FixRule)
    ensures
        is_rule(rule),
{
    FixRule {
        enabled: false,
        kind: PrototypeKind::Single("offshore-pump"),
        fix: Fix::OffshorePumpGraphics,
    }
}

} // verus!
