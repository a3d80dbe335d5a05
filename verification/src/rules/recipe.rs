//! Recipes: a recipe whose name has no string of its own is given the
//! localised name of its product.

use crate::locales::{holder_flags, named_holder_flags, CategoryView, Locales};
use crate::rules::{string_in, table_in, table_of};
use crate::search::first_true;
use crate::text::{contains_text, has_part, text_eq};
use crate::value::table::{has_field, lemma_lookup, lookup, taken};
use crate::value::{literal_value, string_expr, FieldView, Table, ValueView};
use crate::rules::{Fix, FixRule, Outcome, PrototypeKind, Reason};
use vstd::prelude::*;

verus! {

/// The first category with a string for `name` is `recipe-name`.
pub open spec fn is_recipe_name(locales: Seq<CategoryView>, name: Seq<char>) -> bool {
    first_true(holder_flags(locales, name)) matches Some(index) && locales[index].name
        == "recipe-name"@
}

/// The tables that the rule is for: those of a recipe whose name has no
/// string under `recipe-name`, with `main_product` or `results` and without
/// `localised_name`.
pub open spec fn matches(
    name: Seq<char>,
    locales: Seq<CategoryView>,
    fields: Seq<FieldView>,
) -> bool {
    &&& !is_recipe_name(locales, name)
    &&& has_field(fields, "main_product"@) || has_field(fields, "results"@)
    &&& !has_field(fields, "localised_name"@)
}

/// The name of what the recipe makes: the string under `main_product`, or
/// else the string under `name` in the only field of the table under
/// `results`.
pub open spec fn product_name(fields: Seq<FieldView>) -> Option<Seq<char>> {
    match string_in(fields, "main_product"@) {
        Some(product) => Some(product),
        None => match lookup(fields, "results"@) {
            Some(index) => match table_of(fields[index].value()) {
                Some(results) => if results.len() == 1 {
                    match table_of(results[0].value()) {
                        Some(result) => string_in(result, "name"@),
                        None => None,
                    }
                } else {
                    None
                },
                None => None,
            },
            None => None,
        },
    }
}

/// The categories in which the name of a product is looked for.
pub open spec fn product_categories() -> Seq<Seq<char>> {
    seq!["item-name"@, "fluid-name"@, "entity-name"@]
}

/// The first of the product categories that has a string for `product`.
pub open spec fn product_category(locales: Seq<CategoryView>, product: Seq<char>) -> Option<
    Seq<char>,
> {
    match first_true(named_holder_flags(locales, product_categories(), product)) {
        Some(index) => Some(locales[index].name),
        None => None,
    }
}

/// The products that no name is taken from.
pub open spec fn is_excluded(product: Seq<char>) -> bool {
    has_part(product, "void"@) || has_part(product, "slag"@)
}

/// What the rule makes of the table of the recipe `name`. It fails, and
/// changes nothing, where the product has no name, where the product is the
/// recipe itself and that has a string under `recipe-name`, where the product
/// is excluded, where no product category has a string for the product, and
/// where the table has no `name`. Else a field
/// `localised_name` stands behind `name`, which holds a table with one
/// string: the category, a dot, and the name of the product.
pub open spec fn rewrites(
    name: Seq<char>,
    locales: Seq<CategoryView>,
    before: Seq<FieldView>,
    after: Seq<FieldView>,
    done: bool,
) -> bool {
    match product_name(before) {
        Some(product) => {
            if (product == name && is_recipe_name(locales, name)) || is_excluded(product) {
                !done && after == before
            } else {
                match product_category(locales, product) {
                    Some(category) => match lookup(before, "name"@) {
                        Some(position) => {
                            &&& done
                            &&& after == before.insert(position + 1, after[position + 1])
                            &&& table_in(after[position + 1], "localised_name"@) matches Some(inner)
                            &&& inner.len() == 1
                            &&& inner[0].is_element()
                            &&& inner[0].value() matches Some(written)
                            &&& literal_value(written) == Some(
                                ValueView::String(category + "."@ + product),
                            )
                        },
                        None => !done && after == before,
                    },
                    None => !done && after == before,
                }
            }
        },
        None => !done && after == before,
    }
}

/// Why the rule fails on a table on which it fails: the table under
/// `results` does not hold one result, the product is the recipe itself, a
/// void or a slag, or no category has a name for it; in every other case a
/// field is missing or of another shape.
pub open spec fn failure(
    name: Seq<char>,
    locales: Seq<CategoryView>,
    before: Seq<FieldView>,
) -> Reason {
    match product_name(before) {
        Some(product) => {
            if product == name && is_recipe_name(locales, name) {
                Reason::OwnName
            } else if has_part(product, "void"@) {
                Reason::Void
            } else if has_part(product, "slag"@) {
                Reason::Slag
            } else if product_category(locales, product) is None {
                Reason::NoCategory
            } else {
                Reason::Missing
            }
        },
        None => match table_of(taken(before, "results"@)) {
            Some(results) => if string_in(before, "main_product"@) is None && results.len() != 1 {
                Reason::Results
            } else {
                Reason::Missing
            },
            None => Reason::Missing,
        },
    }
}

fn names_recipe(locales: &Locales, name: &str) -> (found: bool)
    ensures
        found == is_recipe_name(locales@, name@),
{
    match locales.find_category_by_key(name) {
        Some(category) => text_eq(category, "recipe-name"),
        None => false,
    }
}

/// Whether the table is one that the rule is for.
pub fn filter(prototype_name: &str, locales: &Locales, table: &Table) -> (found: bool)
    ensures
        found == matches(prototype_name@, locales@, table@),
{
    !names_recipe(locales, prototype_name) && (table.contains_key("main_product")
        || table.contains_key("results")) && !table.contains_key("localised_name")
}

fn product(table: &Table) -> (name: Result<String, Reason>)
    ensures
        match name {
            Ok(text) => product_name(table@) == Some(text@),
            Err(reason) => product_name(table@) is None && reason == failure(
                Seq::empty(),
                Seq::empty(),
                table@,
            ),
        },
{
    proof {
        lemma_lookup(table@, "main_product"@);
        lemma_lookup(table@, "results"@);
    }
    let main: Option<String> = table.get_value("main_product");
    if let Some(main) = main {
        return Ok(main);
    }
    let results: Table = match table.get_value("results") {
        Some(results) => results,
        None => {
            return Err(Reason::Missing);
        },
    };
    if results.len() != 1 {
        return Err(Reason::Results);
    }
    let result: Table = match results.get_value_at(0) {
        Some(result) => result,
        None => {
            return Err(Reason::Missing);
        },
    };
    proof {
        lemma_lookup(result@, "name"@);
    }
    match result.get_value("name") {
        Some(name) => Ok(name),
        None => Err(Reason::Missing),
    }
}

/// Rewrites the table, or leaves it as it was and gives the reason.
pub fn apply(prototype_name: &str, locales: &Locales, table: &mut Table) -> (outcome: Outcome)
    ensures
        final(table).braces() == old(table).braces(),
        rewrites(prototype_name@, locales@, old(table)@, final(table)@, outcome is Applied),
        outcome matches Outcome::Failed(reason) ==> reason == failure(
            prototype_name@,
            locales@,
            old(table)@,
        ),
{
    let name = match product(table) {
        Ok(name) => name,
        Err(reason) => {
            return Outcome::Failed(reason);
        },
    };
    if text_eq(name.as_str(), prototype_name) && names_recipe(locales, prototype_name) {
        return Outcome::Failed(Reason::OwnName);
    }
    if contains_text(name.as_str(), "void") {
        return Outcome::Failed(Reason::Void);
    }
    if contains_text(name.as_str(), "slag") {
        return Outcome::Failed(Reason::Slag);
    }
    let categories = ["item-name", "fluid-name", "entity-name"];
    assert(crate::text::names_of(categories@) =~= product_categories());
    let found = locales.find_in_categories_by_key(categories.as_slice(), name.as_str());
    let category = match found {
        Some(category) => category,
        None => {
            return Outcome::Failed(Reason::NoCategory);
        },
    };
    proof {
        lemma_lookup(table@, "name"@);
    }
    let position = match table.index_of("name") {
        Some(position) => position,
        None => {
            return Outcome::Failed(Reason::Missing);
        },
    };
    let text = String::from_str(category).concat(".").concat(name.as_str());
    let mut localised = Table::default();
    localised.push(string_expr(text.as_str()));
    table.insert_after(position, "localised_name", localised);
    proof {
        let inner = table_in(table@[position + 1], "localised_name"@).unwrap();
        assert(inner[0].field == localised@[0].field);
    }
    Outcome::Applied
}

/// Rewrites the table. Nothing comes back where the rule fails.
pub fn action(prototype_name: &str, locales: &Locales, table: &mut Table) -> (done: Option<()>)
    ensures
        final(table).braces() == old(table).braces(),
        rewrites(prototype_name@, locales@, old(table)@, final(table)@, done is Some),
{
    match apply(prototype_name, locales, table) {
        Outcome::Applied => Some(()),
        Outcome::Failed(_) => None,
    }
}

/// The rule of the catalog that gives recipes a localised name.
pub open spec fn is_rule(rule: FixRule) -> bool {
    &&& !rule.enabled
    &&& rule.kind matches PrototypeKind::Single(kind)
    &&& kind@ == "recipe"@
    &&& rule.fix is Recipe
}

/// The rule as it stands in the catalog.
pub fn fix_recipe() -> (rule: FixRule)
    ensures
        is_rule(rule),
{
    FixRule { enabled: false, kind: PrototypeKind::Single("recipe"), fix: Fix::Recipe }
}

} // verus!
