//! The engine: every enabled rule of the catalog, in order, on one table.

use crate::locales::{CategoryView, Locales};
use crate::rules::graphics::{beam, hr_version, machine, offshore_pump, turret};
use crate::rules::{fluid_boxes, recipe, string_in, FixRule, Outcome};
use crate::syntax::{constructor_braces, constructor_fields};
use crate::value::table::{lemma_lookup, nodes_of, numbered};
use crate::value::{FieldView, Table};
use full_moon::ast::TableConstructor;
use vstd::prelude::*;

verus! {

/// The name of the prototype with which `rule` looks at a table, where it
/// looks at it at all. A rule for tables without a type looks at every
/// table, under the name `table`. Any other rule looks at the tables that
/// have a string `type` that is one of its types and a string `name`, under
/// that name.
pub open spec fn prototype_name(rule: FixRule, fields: Seq<FieldView>) -> Option<Seq<char>> {
    if !rule.enabled {
        None
    } else if rule.kind is Untyped {
        Some("table"@)
    } else {
        match (string_in(fields, "type"@), string_in(fields, "name"@)) {
            (Some(kind), Some(name)) => if rule.kind.verifies(kind) {
                Some(name)
            } else {
                None
            },
            _ => None,
        }
    }
}

/// The name of the prototype under which `rule` rewrites a table, where it
/// does: the rule looks at the table, and the table is one that it is for.
pub open spec fn applies(
    rule: FixRule,
    locales: Seq<CategoryView>,
    fields: Seq<FieldView>,
) -> Option<Seq<char>> {
    match prototype_name(rule, fields) {
        Some(name) => if rule.fix.matches(name, locales, fields) {
            Some(name)
        } else {
            None
        },
        None => None,
    }
}

/// `after` is what one rule makes of `before`: where it applies, what its
/// transformation leaves, whether that came to its end or not; where it does
/// not apply, the same table.
pub open spec fn after_rule(
    rule: FixRule,
    locales: Seq<CategoryView>,
    before: Seq<FieldView>,
    after: Seq<FieldView>,
) -> bool {
    match applies(rule, locales, before) {
        Some(name) => exists|done: bool|
            #[trigger] rule.fix.rewrites(name, locales, before, after, done),
        None => after == before,
    }
}

/// The rule at `index` makes of the table at `index` the table behind it.
pub open spec fn is_step(
    rules: Seq<FixRule>,
    locales: Seq<CategoryView>,
    tables: Seq<Seq<FieldView>>,
    index: int,
) -> bool {
    after_rule(rules[index], locales, tables[index], tables[index + 1])
}

/// `tables` are the tables that the rules see and leave: the first rule sees
/// the first table, and each rule sees what the rule in front of it left.
pub open spec fn is_run(
    rules: Seq<FixRule>,
    locales: Seq<CategoryView>,
    tables: Seq<Seq<FieldView>>,
) -> bool {
    &&& tables.len() == rules.len() + 1
    &&& forall|index: int|
        0 <= index < rules.len() ==> #[trigger] is_step(rules, locales, tables, index)
}

/// `after` is what the rules make of `before`, one after the other.
pub open spec fn after_rules(
    rules: Seq<FixRule>,
    locales: Seq<CategoryView>,
    before: Seq<FieldView>,
    after: Seq<FieldView>,
) -> bool {
    exists|tables: Seq<Seq<FieldView>>|
        (#[trigger] is_run(rules, locales, tables)) && tables.first() == before && tables.last()
            == after
}

/// What became of one rule that looked at a table that it is for.
#[derive(Debug)]
pub struct Report {
    /// The position of the rule among the rules.
    pub rule: usize,
    /// The name of the prototype under which the rule took the table on.
    pub prototype: String,
    /// Whether the rule rewrote the table, or why it did not.
    pub outcome: Outcome,
}

/// The positions of the rules, among the first `count`, that applied to the
/// table that they saw.
pub open spec fn applying(
    rules: Seq<FixRule>,
    locales: Seq<CategoryView>,
    tables: Seq<Seq<FieldView>>,
    count: int,
) -> Seq<int>
    decreases count,
{
    if count <= 0 {
        Seq::empty()
    } else {
        let before = applying(rules, locales, tables, count - 1);
        if applies(rules[count - 1], locales, tables[count - 1]) is Some {
            before.push(count - 1)
        } else {
            before
        }
    }
}

/// The report tells of the rule at `index`: the name under which it looked
/// at the table that it saw, whether it rewrote it into the table that it
/// left, and why where it did not.
pub open spec fn tells_of(
    report: Report,
    rules: Seq<FixRule>,
    locales: Seq<CategoryView>,
    tables: Seq<Seq<FieldView>>,
    index: int,
) -> bool {
    &&& report.rule == index
    &&& applies(rules[index], locales, tables[index]) == Some(report.prototype@)
    &&& rules[index].fix.rewrites(
        report.prototype@,
        locales,
        tables[index],
        tables[index + 1],
        report.outcome is Applied,
    )
    &&& report.outcome matches Outcome::Failed(reason) ==> reason == rules[index].fix.failure(
        report.prototype@,
        locales,
        tables[index],
    )
}

/// There is one report for each of the first `count` rules that applied to the
/// table that it saw, in the order of the rules.
pub open spec fn are_reports(
    reports: Seq<Report>,
    rules: Seq<FixRule>,
    locales: Seq<CategoryView>,
    tables: Seq<Seq<FieldView>>,
    count: int,
) -> bool {
    let indices = applying(rules, locales, tables, count);
    &&& reports.len() == indices.len()
    &&& forall|k: int|
        0 <= k < reports.len() ==> tells_of(
            #[trigger] reports[k],
            rules,
            locales,
            tables,
            indices[k],
        )
}

/// `after` is what the rules make of `before`, with a report for each rule
/// that applied to it.
pub open spec fn after_rules_with(
    rules: Seq<FixRule>,
    locales: Seq<CategoryView>,
    before: Seq<FieldView>,
    after: Seq<FieldView>,
    reports: Seq<Report>,
) -> bool {
    exists|tables: Seq<Seq<FieldView>>|
        (#[trigger] is_run(rules, locales, tables)) && tables.first() == before && tables.last()
            == after && are_reports(reports, rules, locales, tables, rules.len() as int)
}

/// Which rules applied is a matter of the tables that they saw.
proof fn lemma_applying_reads_what_was_seen(
    rules: Seq<FixRule>,
    locales: Seq<CategoryView>,
    tables: Seq<Seq<FieldView>>,
    more: Seq<Seq<FieldView>>,
    count: int,
)
    requires
        count <= tables.len() <= more.len(),
        forall|i: int| 0 <= i < tables.len() ==> #[trigger] more[i] == tables[i],
    ensures
        applying(rules, locales, more, count) == applying(rules, locales, tables, count),
        forall|i: int|
            #![trigger applying(rules, locales, tables, count)[i]]
            0 <= i < applying(rules, locales, tables, count).len() ==> 0 <= applying(
                rules,
                locales,
                tables,
                count,
            )[i] < count,
    decreases count,
{
    if count > 0 {
        lemma_applying_reads_what_was_seen(rules, locales, tables, more, count - 1);
        assert(more[count - 1] == tables[count - 1]);
    }
}

/// Of two rules, the second one works on the table that the first one left:
/// what the first did is what the second one's filter and transformation
/// see.
pub proof fn precedence_law(
    first: FixRule,
    second: FixRule,
    locales: Seq<CategoryView>,
    before: Seq<FieldView>,
    after: Seq<FieldView>,
)
    requires
        after_rules(seq![first, second], locales, before, after),
    ensures
        exists|middle: Seq<FieldView>|
            (#[trigger] after_rule(first, locales, before, middle)) && after_rule(
                second,
                locales,
                middle,
                after,
            ),
{
    let both = seq![first, second];
    let tables = choose|tables: Seq<Seq<FieldView>>|
        (#[trigger] is_run(both, locales, tables)) && tables.first() == before && tables.last()
            == after;
    assert(is_step(both, locales, tables, 0));
    assert(is_step(both, locales, tables, 1));
    assert(after_rule(first, locales, before, tables[1]) && after_rule(
        second,
        locales,
        tables[1],
        after,
    ));
}

/// The rules of the catalog, in its order.
pub open spec fn is_catalog(rules: Seq<FixRule>) -> bool {
    &&& rules.len() == 7
    &&& recipe::is_rule(rules[0])
    &&& beam::is_rule(rules[1])
    &&& machine::is_rule(rules[2])
    &&& offshore_pump::is_rule(rules[3])
    &&& turret::is_rule(rules[4])
    &&& hr_version::is_rule(rules[5])
    &&& fluid_boxes::is_rule(rules[6])
}

/// The rules of the catalog with what they read: the name of the mod at
/// hand and the index of localised strings.
#[derive(Debug)]
pub struct LuaFixApplier {
    pub name: String,
    pub locales: Locales,
    pub rules: Vec<FixRule>,
}

impl LuaFixApplier {
    /// An applier for the mod `name`, with the rules of the catalog and an
    /// empty index.
    pub fn new(name: &str) -> (applier: Self)
        ensures
            applier.name@ == name@,
            applier.locales@.len() == 0,
            is_catalog(applier.rules@),
    {
        let mut rules: Vec<FixRule> = Vec::new();
        rules.push(recipe::fix_recipe());
        rules.push(beam::fix_beam_graphics());
        rules.push(machine::fix_machine_graphics());
        rules.push(offshore_pump::fix_offshore_pump_graphics());
        rules.push(turret::fix_turret_graphics());
        rules.push(hr_version::fix_high_res_graphics());
        rules.push(fluid_boxes::fix_fluid_boxes());
        Self { name: String::from_str(name), locales: Locales::default(), rules }
    }

    /// Goes on to the mod `name`.
    pub fn set_name(&mut self, name: &str)
        ensures
            final(self).name@ == name@,
            final(self).locales == old(self).locales,
            final(self).rules == old(self).rules,
    {
        self.name = String::from_str(name);
    }

    /// Runs the rules on one table and reports on each rule that applied to
    /// it.
    pub fn visit_table(&self, node: Table) -> (result: (Table, Vec<Report>))
        ensures
            result.0.braces() == node.braces(),
            after_rules_with(self.rules@, self.locales@, node@, result.0@, result.1@),
    {
        let mut table = node;
        let mut reports: Vec<Report> = Vec::new();
        let mut index: usize = 0;
        let ghost mut tables: Seq<Seq<FieldView>> = seq![node@];
        while index < self.rules.len()
            invariant
                index <= self.rules@.len(),
                table.braces() == node.braces(),
                tables.len() == index + 1,
                tables.first() == node@,
                tables.last() == table@,
                forall|i: int|
                    0 <= i < index ==> #[trigger] is_step(self.rules@, self.locales@, tables, i),
                are_reports(reports@, self.rules@, self.locales@, tables, index as int),
            decreases self.rules@.len() - index,
        {
            let rule = &self.rules[index];
            let ghost middle = table@;
            let ghost told = reports@;
            let mut name: Option<String> = None;
            if rule.enabled {
                if rule.kind.is_none() {
                    name = Some(String::from_str("table"));
                } else {
                    proof {
                        lemma_lookup(table@, "type"@);
                        lemma_lookup(table@, "name"@);
                    }
                    let kind: Option<String> = table.get_value("type");
                    let found: Option<String> = table.get_value("name");
                    if let Some(kind) = kind {
                        if rule.kind.verify(kind.as_str()) {
                            name = found;
                        }
                    }
                }
            }
            assert(match name {
                Some(text) => prototype_name(*rule, middle) == Some(text@),
                None => prototype_name(*rule, middle) is None,
            });
            let mut report: Option<Report> = None;
            if let Some(prototype) = name {
                if rule.filter(prototype.as_str(), &self.locales, &table) {
                    let outcome = rule.apply(
                        self.name.as_str(),
                        prototype.as_str(),
                        &self.locales,
                        &mut table,
                    );
                    assert(rule.fix.rewrites(
                        prototype@,
                        self.locales@,
                        middle,
                        table@,
                        outcome is Applied,
                    ));
                    report = Some(Report { rule: index, prototype, outcome });
                }
            }
            proof {
                assert(after_rule(*rule, self.locales@, middle, table@));
                let ghost seen = tables;
                tables = tables.push(table@);
                assert forall|i: int| 0 <= i < index + 1 implies #[trigger] is_step(
                    self.rules@,
                    self.locales@,
                    tables,
                    i,
                ) by {
                    if i < index {
                        assert(is_step(self.rules@, self.locales@, seen, i));
                    }
                }
                lemma_applying_reads_what_was_seen(
                    self.rules@,
                    self.locales@,
                    seen,
                    tables,
                    index as int,
                );
                let earlier = applying(self.rules@, self.locales@, seen, index as int);
                assert forall|k: int| 0 <= k < told.len() implies tells_of(
                    #[trigger] told[k],
                    self.rules@,
                    self.locales@,
                    tables,
                    earlier[k],
                ) by {
                    assert(tells_of(told[k], self.rules@, self.locales@, seen, earlier[k]));
                    assert(0 <= earlier[k] < index);
                }
            }
            if let Some(report) = report {
                reports.push(report);
            }
            index += 1;
        }
        assert(is_run(self.rules@, self.locales@, tables));
        (table, reports)
    }

    /// Runs the rules on one table.
    pub fn try_visit_table(&self, node: Table) -> (result: Option<Table>)
        ensures
            result matches Some(table) && table.braces() == node.braces() && after_rules(
                self.rules@,
                self.locales@,
                node@,
                table@,
            ),
    {
        let (table, _) = self.visit_table(node);
        Some(table)
    }

    /// What stands in the place of one table literal after the rules have
    /// run on it.
    pub fn visit_table_constructor(&self, node: TableConstructor) -> (result: TableConstructor)
        ensures
            constructor_braces(result) == constructor_braces(node),
            exists|fields: Seq<FieldView>|
                (#[trigger] after_rules(
                    self.rules@,
                    self.locales@,
                    numbered(constructor_fields(node)),
                    fields,
                )) && constructor_fields(result) == nodes_of(fields),
    {
        match self.try_visit_table(Table::new(&node)) {
            Some(table) => table.into_constructor(),
            None => node,
        }
    }
}

} // verus!
