//! High-resolution graphics: the table under `hr_version` takes the place of
//! the fields of the table that holds it.

use crate::rules::{string_in, Fix, FixRule, PrototypeKind};
use crate::syntax::{copy_expression, expression_parts};
use crate::value::table::{has_field, lemma_lookup, taken};
use crate::value::{
    fallback_parts, literal_of_parts, FieldView, MaybeInto, Table, Value, ValueView,
};
use vstd::prelude::*;

verus! {

/// The tables that the rule is for: those with `hr_version`.
pub open spec fn matches(fields: Seq<FieldView>) -> bool {
    has_field(fields, "hr_version"@)
}

/// The fields of the table that stands for the high-resolution version: the
/// value of `hr_version`, after the unwrapping of `a and b or c` and of
/// `x or y`, where that is a table with a string `filename`.
pub open spec fn replacement(fields: Seq<FieldView>) -> Option<Seq<FieldView>> {
    match taken(fields, "hr_version"@) {
        Some(expression) => match literal_of_parts(fallback_parts(expression_parts(expression))) {
            Some(ValueView::Table { fields: inner, .. }) => if string_in(inner, "filename"@)
                is Some {
                Some(inner)
            } else {
                None
            },
            _ => None,
        },
        None => None,
    }
}

/// What the rule makes of a table. Where there is a replacement, its fields
/// are the fields of the table. Where there is none the rule fails, and the
/// table stays as it was.
pub open spec fn rewrites(before: Seq<FieldView>, after: Seq<FieldView>, done: bool) -> bool {
    match replacement(before) {
        Some(inner) => done && after == inner,
        None => !done && after == before,
    }
}

/// Whether the table is one that the rule is for.
pub fn filter(table: &Table) -> (found: bool)
    ensures
        found == matches(table@),
{
    table.contains_key("hr_version")
}

/// Rewrites the table. Nothing comes back where the rule fails.
pub fn action(table: &mut Table) -> (done: Option<()>)
    ensures
        final(table).braces() == old(table).braces(),
        rewrites(old(table)@, final(table)@, done is Some),
{
    proof {
        lemma_lookup(table@, "hr_version"@);
    }
    let version = match table.get_expr("hr_version") {
        Some(version) => copy_expression(version),
        None => {
            return None;
        },
    };
    let value = match Value::from_fallback(version) {
        Some(value) => value,
        None => {
            return None;
        },
    };
    let high_res: Table = match MaybeInto::try_into(value) {
        Some(high_res) => high_res,
        None => {
            return None;
        },
    };
    let filename: Option<String> = high_res.get_value("filename");
    if filename.is_none() {
        return None;
    }
    table.clear();
    table.extend(high_res);
    Some(())
}

/// The rule of the catalog that puts the high-resolution version in place.
pub open spec fn is_rule(rule: FixRule) -> bool {
    &&& !rule.enabled
    &&& rule.kind is Untyped
    &&& rule.fix is HighResGraphics
}

/// The rule as it stands in the catalog.
pub fn fix_high_res_graphics() -> (rule: FixRule)
    ensures
        is_rule(rule),
{
    FixRule { enabled: false, kind: PrototypeKind::Untyped, fix: Fix::HighResGraphics }
}

} // verus!
