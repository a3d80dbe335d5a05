//! Turrets: `base_picture` belongs under
//! `graphics_set.base_visualisation.animation`.

use crate::rules::{holds, table_in};
use crate::value::table::{has_field, lemma_lookup, lookup, taken};
use crate::value::{FieldView, Table};
use crate::rules::{Fix, FixRule, PrototypeKind};
use vstd::prelude::*;

verus! {

/// The tables that the rule is for: those without `graphics_set` that have
/// `base_picture`.
pub open spec fn matches(fields: Seq<FieldView>) -> bool {
    !has_field(fields, "graphics_set"@) && has_field(fields, "base_picture"@)
}

/// What the rule makes of a table. Where there is no `base_picture`, nothing
/// changes and the rule fails. Else a field `graphics_set` stands in its
/// place, which holds one field `base_visualisation`, which holds one field
/// `animation` with the value that `base_picture` had.
pub open spec fn rewrites(before: Seq<FieldView>, after: Seq<FieldView>, done: bool) -> bool {
    match taken(before, "base_picture"@) {
        Some(picture) => {
            let position = lookup(before, "base_picture"@).unwrap();
            &&& done
            &&& after == before.remove(position).insert(position, after[position])
            &&& table_in(after[position], "graphics_set"@) matches Some(outer)
            &&& outer.len() == 1
            &&& table_in(outer[0], "base_visualisation"@) matches Some(inner)
            &&& inner.len() == 1
            &&& holds(inner[0], "animation"@, picture)
        },
        None => !done && after == before,
    }
}

/// Whether the table is one that the rule is for.
pub fn filter(table: &Table) -> (found: bool)
    ensures
        found == matches(table@),
{
    !table.contains_key("graphics_set") && table.contains_key("base_picture")
}

/// Rewrites the table. Nothing comes back where the rule fails.
pub fn action(table: &mut Table) -> (done: Option<()>)
    ensures
        final(table).braces() == old(table).braces(),
        rewrites(old(table)@, final(table)@, done is Some),
{
    let position = match table.index_of("base_picture") {
        Some(position) => position,
        None => {
            return None;
        },
    };
    proof {
        lemma_lookup(table@, "base_picture"@);
    }
    let picture = match table.remove("base_picture") {
        Some(picture) => picture,
        None => {
            return None;
        },
    };
    let animation = Table::default().with_field("animation", picture);
    let mut graphics_set = Table::default();
    graphics_set.insert("base_visualisation", animation);
    table.insert_at(position, "graphics_set", graphics_set);
    Some(())
}

/// The types of the prototypes that count as turrets.
pub open spec fn kinds() -> Seq<Seq<char>> {
    seq!["turret"@, "electric-turret"@, "ammo-turret"@, "fluid-turret"@]
}

/// The rule of the catalog that gathers the graphics of turrets.
pub open spec fn is_rule(rule: FixRule) -> bool {
    &&& !rule.enabled
    &&& rule.kind matches PrototypeKind::Verify(family)
    &&& crate::text::names_of(family@) == kinds()
    &&& rule.fix is TurretGraphics
}

/// The rule as it stands in the catalog.
pub fn fix_turret_graphics() -> (rule: FixRule)
    ensures
        is_rule(rule),
{
    let mut family: Vec<&'static str> = Vec::new();
    family.push("turret");
    family.push("electric-turret");
    family.push("ammo-turret");
    family.push("fluid-turret");
    assert(crate::text::names_of(family@) =~= kinds());
    FixRule { enabled: false, kind: PrototypeKind::Verify(family), fix: Fix::TurretGraphics }
}

} // verus!
