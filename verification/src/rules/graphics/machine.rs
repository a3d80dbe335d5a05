//! Machines: `animation`, `idle_animation` and `working_visualisations`
//! belong under `graphics_set`.

use crate::rules::{
    first_index, first_position, holds_all, lemma_reread_holds_all, moved, remaining, table_in,
    take_fields,
};
use crate::value::table::has_field;
use crate::value::{FieldView, Table};
use crate::rules::{Fix, FixRule, PrototypeKind};
use vstd::prelude::*;

verus! {

/// The names of the fields that the rule moves, in the order in which it
/// looks for them.
pub open spec fn moved_names() -> Seq<Seq<char>> {
    seq!["animation"@, "idle_animation"@, "working_visualisations"@]
}

/// The tables that the rule is for: those without `graphics_set` that have
/// one of the fields that it moves.
pub open spec fn matches(fields: Seq<FieldView>) -> bool {
    &&& !has_field(fields, "graphics_set"@)
    &&& has_field(fields, "animation"@) || has_field(fields, "idle_animation"@) || has_field(
        fields,
        "working_visualisations"@,
    )
}

/// What the rule makes of a table. Where none of the fields is there, nothing
/// changes and the rule fails. Else the fields are taken out, and a field
/// `graphics_set` that holds them, in the order of their names, stands where
/// the first of them that was found stood, or at the end where the table has
/// become too short for that.
pub open spec fn rewrites(before: Seq<FieldView>, after: Seq<FieldView>, done: bool) -> bool {
    match first_position(before, moved_names()) {
        Some(position) => {
            let rest = remaining(before, moved_names());
            let at = if position <= rest.len() {
                position
            } else {
                rest.len() as int
            };
            &&& done
            &&& after == rest.insert(at, after[at])
            &&& table_in(after[at], "graphics_set"@) matches Some(inner)
            &&& holds_all(inner, moved(before, moved_names()))
        },
        None => !done && after == before,
    }
}

/// Whether the table is one that the rule is for.
pub fn filter(table: &Table) -> (found: bool)
    ensures
        found == matches(table@),
{
    !table.contains_key("graphics_set") && (table.contains_key("animation") || table.contains_key(
        "idle_animation",
    ) || table.contains_key("working_visualisations"))
}

/// Rewrites the table. Nothing comes back where the rule fails.
pub fn action(table: &mut Table) -> (done: Option<()>)
    ensures
        final(table).braces() == old(table).braces(),
        rewrites(old(table)@, final(table)@, done is Some),
{
    let names = ["animation", "idle_animation", "working_visualisations"];
    assert(crate::text::names_of(names@) =~= moved_names());
    match first_index(table, names.as_slice()) {
        Some(position) => {
            let graphics_set = take_fields(table, names.as_slice());
            let at = if position <= table.len() {
                position
            } else {
                table.len()
            };
            proof {
                lemma_reread_holds_all(graphics_set@, moved(old(table)@, moved_names()));
            }
            table.insert_at(at, "graphics_set", graphics_set);
            Some(())
        },
        None => None,
    }
}

/// The types of the prototypes that count as machines.
pub open spec fn kinds() -> Seq<Seq<char>> {
    seq!["assembling-machine"@, "furnace"@, "mining-drill"@, "rocket-silo"@]
}

/// The rule of the catalog that gathers the graphics of machines.
pub open spec fn is_rule(rule: FixRule) -> bool {
    &&& !rule.enabled
    &&& rule.kind matches PrototypeKind::Verify(family)
    &&& crate::text::names_of(family@) == kinds()
    &&& rule.fix is MachineGraphics
}

/// The rule as it stands in the catalog.
pub fn fix_machine_graphics() -> (rule: FixRule)
    ensures
        is_rule(rule),
{
    let mut family: Vec<&'static str> = Vec::new();
    family.push("assembling-machine");
    family.push("furnace");
    family.push("mining-drill");
    family.push("rocket-silo");
    assert(crate::text::names_of(family@) =~= kinds());
    FixRule { enabled: false, kind: PrototypeKind::Verify(family), fix: Fix::MachineGraphics }
}

} // verus!
