//! Fluid boxes: the position of each pipe connection belongs on the grid of
//! halves.

use crate::rules::{string_in, table_in, table_of, Fix, FixRule, PrototypeKind};
use crate::text::{chars_of, find_char, find_in_range, string_of};
use crate::value::table::{has_field, lemma_lookup, lookup, nodes_of, taken};
use crate::value::{
    array_into_vec, collected_values, element_count, elements_coerce, is_collected,
    lemma_collects_values, lemma_count_of_elements, literal_value, FieldView, Number, Table,
    ValueView,
};
use full_moon::ast::Expression;
use vstd::prelude::*;
use vstd::slice::slice_subrange;

verus! {

/// The character is one of `0` to `9`.
pub open spec fn is_digit(c: char) -> bool {
    0x30 <= c as u32 <= 0x39
}

/// Every character is a digit.
pub open spec fn digits_only(text: Seq<char>) -> bool {
    forall|i: int| 0 <= i < text.len() ==> is_digit(#[trigger] text[i])
}

/// Every character is `0`.
pub open spec fn zeros_only(text: Seq<char>) -> bool {
    forall|i: int| 0 <= i < text.len() ==> #[trigger] text[i] == '0'
}

/// The digits in front of the point and those behind it, where `text` is a
/// plain decimal numeral: digits, with at most one point among them.
pub open spec fn decimal_parts(text: Seq<char>) -> Option<(Seq<char>, Seq<char>)> {
    match find_char(text, '.') {
        Some(point) => {
            let whole = text.take(point);
            let fraction = text.skip(point + 1);
            if digits_only(whole) && digits_only(fraction) && whole.len() + fraction.len() > 0 {
                Some((whole, fraction))
            } else {
                None
            }
        },
        None => if text.len() > 0 && digits_only(text) {
            Some((text, Seq::empty()))
        } else {
            None
        },
    }
}

/// The fraction is a half or more.
pub open spec fn reaches_half(fraction: Seq<char>) -> bool {
    fraction.len() > 0 && fraction[0] as u32 >= 0x35
}

/// The number on the grid of halves that is nearest to the number between it
/// and zero: the digits in front of the point, and `.5` where the fraction
/// reaches a half. Zero has no sign. A number that is not written as a plain
/// decimal numeral stays as it is.
pub open spec fn snapped(negative: bool, text: Seq<char>) -> ValueView {
    match decimal_parts(text) {
        Some((whole, fraction)) => {
            let kept = if whole.len() == 0 {
                "0"@
            } else {
                whole
            };
            if reaches_half(fraction) {
                ValueView::Number { negative, text: kept + ".5"@ }
            } else {
                ValueView::Number { negative: negative && !zeros_only(whole), text: kept }
            }
        },
        None => ValueView::Number { negative, text },
    }
}

/// The number that a value is, on the grid of halves.
pub open spec fn snapped_value(value: ValueView) -> ValueView {
    match value {
        ValueView::Number { negative, text } => snapped(negative, text),
        _ => value,
    }
}

fn all_digits(chars: &Vec<char>, from: usize, to: usize) -> (all: bool)
    requires
        from <= to <= chars@.len(),
    ensures
        all == digits_only(chars@.subrange(from as int, to as int)),
{
    let mut index = from;
    while index < to
        invariant
            from <= index <= to <= chars@.len(),
            forall|i: int| from <= i < index ==> is_digit(#[trigger] chars@[i]),
        decreases to - index,
    {
        let code = chars[index] as u32;
        if code < 0x30 || code > 0x39 {
            assert(!is_digit(chars@.subrange(from as int, to as int)[index - from]));
            return false;
        }
        index += 1;
    }
    assert forall|i: int| 0 <= i < to - from implies is_digit(
        #[trigger] chars@.subrange(from as int, to as int)[i],
    ) by {
        assert(is_digit(chars@[from + i]));
    }
    true
}

fn all_zeros(chars: &Vec<char>, from: usize, to: usize) -> (all: bool)
    requires
        from <= to <= chars@.len(),
    ensures
        all == zeros_only(chars@.subrange(from as int, to as int)),
{
    let mut index = from;
    while index < to
        invariant
            from <= index <= to <= chars@.len(),
            forall|i: int| from <= i < index ==> #[trigger] chars@[i] == '0',
        decreases to - index,
    {
        if chars[index] != '0' {
            assert(chars@.subrange(from as int, to as int)[index - from] != '0');
            return false;
        }
        index += 1;
    }
    assert forall|i: int| 0 <= i < to - from implies #[trigger] chars@.subrange(
        from as int,
        to as int,
    )[i] == '0' by {
        assert(chars@[from + i] == '0');
    }
    true
}

/// Puts a number on the grid of halves.
pub fn snap(number: Number) -> (result: Number)
    ensures
        result.as_value() == snapped(number.negative, number.text@),
{
    let chars = chars_of(number.text.as_str());
    let count = chars.len();
    assert(chars@.subrange(0, count as int) =~= chars@);
    let (point, behind) = match find_in_range(&chars, 0, count, '.') {
        Some(point) => (point, point + 1),
        None => (count, count),
    };
    assert(chars@.subrange(0, point as int) =~= chars@.take(point as int));
    assert(chars@.subrange(behind as int, count as int) =~= chars@.skip(behind as int));
    if !all_digits(&chars, 0, point) || !all_digits(&chars, behind, count) || point + (count
        - behind) == 0 {
        return number;
    }
    let kept = if point == 0 {
        String::from_str("0")
    } else {
        string_of(slice_subrange(chars.as_slice(), 0, point))
    };
    if behind < count && chars[behind] as u32 >= 0x35 {
        Number { negative: number.negative, text: kept.concat(".5") }
    } else {
        let zero = all_zeros(&chars, 0, point);
        Number { negative: number.negative && !zero, text: kept }
    }
}

/// The two numbers that the table literal `expression` holds, where it holds
/// exactly two.
pub open spec fn numbers_of(expression: Option<Expression>) -> Option<Seq<ValueView>> {
    match table_of(expression) {
        Some(fields) => if element_count(fields) == 2 && elements_coerce::<Number>(fields) {
            Some(collected_values::<Number>(fields))
        } else {
            None
        },
        None => None,
    }
}

/// The field is `name = { .. }` with a bare value for each of `items`, in
/// order.
pub open spec fn holds_list(field: FieldView, name: Seq<char>, items: Seq<ValueView>) -> bool {
    &&& table_in(field, name) matches Some(fields)
    &&& fields.len() == items.len()
    &&& forall|i: int|
        0 <= i < items.len() ==> {
            &&& (#[trigger] fields[i]).is_element()
            &&& fields[i].value() matches Some(written)
            &&& literal_value(written) == Some(items[i])
        }
}

/// What the rule makes of the table of one pipe connection. Where `position`
/// holds two numbers, it holds them on the grid afterwards. Else the rule
/// fails and nothing changes.
pub open spec fn snaps_position(before: Seq<FieldView>, after: Seq<FieldView>, done: bool) -> bool {
    match numbers_of(taken(before, "position"@)) {
        Some(numbers) => {
            let at = lookup(before, "position"@).unwrap();
            &&& done
            &&& after == before.remove(at).insert(at, after[at])
            &&& holds_list(
                after[at],
                "position"@,
                seq![snapped_value(numbers[0]), snapped_value(numbers[1])],
            )
        },
        None => !done && after == before,
    }
}

/// The position of the pipe connection can be put on the grid.
pub open spec fn can_snap(fields: Seq<FieldView>) -> bool {
    numbers_of(taken(fields, "position"@)) is Some
}

/// The position of each of the pipe connections can be put on the grid.
pub open spec fn all_can_snap(connections: Seq<Seq<FieldView>>) -> bool {
    forall|i: int| 0 <= i < connections.len() ==> can_snap(#[trigger] connections[i])
}

/// Each of the fields is a bare table.
pub open spec fn all_tables(fields: Seq<FieldView>) -> bool {
    forall|i: int| 0 <= i < fields.len() ==> is_collected::<Table>(#[trigger] fields[i])
}

/// The fields of the tables that the tables among `values` are.
pub open spec fn fields_of_tables(values: Seq<ValueView>) -> Seq<Seq<FieldView>> {
    Seq::new(
        values.len(),
        |i: int|
            match values[i] {
                ValueView::Table { fields, .. } => fields,
                _ => Seq::empty(),
            },
    )
}

/// The fields of the tables that the table literal `expression` lists.
pub open spec fn tables_of(expression: Option<Expression>) -> Option<Seq<Seq<FieldView>>> {
    match table_of(expression) {
        Some(fields) => Some(fields_of_tables(collected_values::<Table>(fields))),
        None => None,
    }
}

/// The fields of the tables that the field `name = { {..}, {..} }` lists,
/// where each of its fields is a bare table.
pub open spec fn table_list_in(field: FieldView, name: Seq<char>) -> Option<Seq<Seq<FieldView>>> {
    match table_in(field, name) {
        Some(fields) => if all_tables(fields) {
            Some(Seq::new(fields.len(), |i: int| table_of(fields[i].value()).unwrap()))
        } else {
            None
        },
        None => None,
    }
}

/// `read` has the fields of a table that the rule made of the pipe
/// connection `before`.
pub open spec fn snapped_as(before: Seq<FieldView>, read: Seq<FieldView>) -> bool {
    exists|made: Seq<FieldView>|
        (#[trigger] snaps_position(before, made, true)) && nodes_of(made)
            == nodes_of(read)
}

/// What the rule makes of the table of one fluid box. Where
/// `pipe_connections` lists tables whose positions can all be put on the
/// grid, it lists them with their positions on the grid afterwards. Else the
/// rule fails and nothing changes.
pub open spec fn fixes_box(before: Seq<FieldView>, after: Seq<FieldView>, done: bool) -> bool {
    match tables_of(taken(before, "pipe_connections"@)) {
        Some(connections) => if all_can_snap(connections) {
            let at = lookup(before, "pipe_connections"@).unwrap();
            &&& done
            &&& after == before.remove(at).insert(at, after[at])
            &&& table_list_in(after[at], "pipe_connections"@) matches Some(fixed)
            &&& fixed.len() == connections.len()
            &&& forall|i: int|
                0 <= i < fixed.len() ==> snapped_as(connections[i], #[trigger] fixed[i])
        } else {
            !done && after == before
        },
        None => !done && after == before,
    }
}

/// `made` is what the rule made of the fluid box `before`, whether it came
/// to its end or not.
pub open spec fn is_fixed(before: Seq<FieldView>, made: Seq<FieldView>) -> bool {
    exists|done: bool| #[trigger] fixes_box(before, made, done)
}

/// `read` has the fields of a table that the rule made of the fluid box
/// `before`, whether it came to its end or not.
pub open spec fn fixed_as(before: Seq<FieldView>, read: Seq<FieldView>) -> bool {
    exists|made: Seq<FieldView>, done: bool|
        (#[trigger] fixes_box(before, made, done)) && nodes_of(made) == nodes_of(
            read,
        )
}

/// The tables that the rule is for: those with `name`, `collision_box` and
/// one of `fluid_box` and `fluid_boxes`.
pub open spec fn matches(fields: Seq<FieldView>) -> bool {
    &&& has_field(fields, "name"@)
    &&& has_field(fields, "collision_box"@)
    &&& has_field(fields, "fluid_box"@) || has_field(fields, "fluid_boxes"@)
}

/// What the rule makes of a table. Where `name` is a string and `fluid_box`
/// is a table, the rule makes that table anew and leaves it in its place.
/// Where `name` is a string, `fluid_box` is no table and `fluid_boxes` lists
/// tables, the rule makes each of them anew and leaves the list in its place.
/// Else the rule fails and nothing changes.
pub open spec fn rewrites(before: Seq<FieldView>, after: Seq<FieldView>, done: bool) -> bool {
    if string_in(before, "name"@) is None {
        !done && after == before
    } else {
        match table_of(taken(before, "fluid_box"@)) {
            Some(inner) => {
                let at = lookup(before, "fluid_box"@).unwrap();
                &&& done
                &&& after == before.remove(at).insert(at, after[at])
                &&& table_in(after[at], "fluid_box"@) matches Some(fixed)
                &&& fixed_as(inner, fixed)
            },
            None => match tables_of(taken(before, "fluid_boxes"@)) {
                Some(boxes) => {
                    let at = lookup(before, "fluid_boxes"@).unwrap();
                    &&& done
                    &&& after == before.remove(at).insert(at, after[at])
                    &&& table_list_in(after[at], "fluid_boxes"@) matches Some(fixed)
                    &&& fixed.len() == boxes.len()
                    &&& forall|i: int|
                        0 <= i < fixed.len() ==> fixed_as(boxes[i], #[trigger] fixed[i])
                },
                None => !done && after == before,
            },
        }
    }
}

/// Whether the table is one that the rule is for.
pub fn filter(table: &Table) -> (found: bool)
    ensures
        found == matches(table@),
{
    table.contains_key("name") && table.contains_key("collision_box") && (table.contains_key(
        "fluid_box",
    ) || table.contains_key("fluid_boxes"))
}

/// Puts the position of one pipe connection on the grid.
pub fn snap_position(connection: &mut Table) -> (done: Option<()>)
    ensures
        final(connection).braces() == old(connection).braces(),
        snaps_position(old(connection)@, final(connection)@, done is Some),
{
    proof {
        lemma_lookup(connection@, "position"@);
    }
    let found: Option<[Number; 2]> = connection.get_value("position");
    let position = match found {
        Some(position) => position,
        None => {
            proof {
                if let Some(fields) = table_of(taken(connection@, "position"@)) {
                    lemma_count_of_elements::<Number>(fields);
                }
            }
            return None;
        },
    };
    let at = match connection.index_of("position") {
        Some(at) => at,
        None => {
            return None;
        },
    };
    let ghost fields = table_of(taken(connection@, "position"@)).unwrap();
    proof {
        lemma_collects_values::<Number>(fields, position@);
        lemma_count_of_elements::<Number>(fields);
    }
    let mut numbers = array_into_vec(position);
    let y = match numbers.pop() {
        Some(y) => y,
        None => {
            return None;
        },
    };
    let x = match numbers.pop() {
        Some(x) => x,
        None => {
            return None;
        },
    };
    assert(x.as_value() == collected_values::<Number>(fields)[0]);
    assert(y.as_value() == collected_values::<Number>(fields)[1]);
    let mut moved: Vec<Number> = Vec::new();
    moved.push(snap(x));
    moved.push(snap(y));
    let _ = connection.remove("position");
    connection.insert_at(at, "position", moved);
    Some(())
}

/// Puts the positions of the pipe connections of one fluid box on the grid.
pub fn fix_fluid_box(fluid_box: &mut Table) -> (done: Option<()>)
    ensures
        final(fluid_box).braces() == old(fluid_box).braces(),
        fixes_box(old(fluid_box)@, final(fluid_box)@, done is Some),
{
    proof {
        lemma_lookup(fluid_box@, "pipe_connections"@);
    }
    let found: Option<Vec<Table>> = fluid_box.get_value("pipe_connections");
    let connections = match found {
        Some(connections) => connections,
        None => {
            return None;
        },
    };
    let at = match fluid_box.index_of("pipe_connections") {
        Some(at) => at,
        None => {
            return None;
        },
    };
    let ghost listed = table_of(taken(fluid_box@, "pipe_connections"@)).unwrap();
    let ghost before = fields_of_tables(collected_values::<Table>(listed));
    proof {
        lemma_collects_values::<Table>(listed, connections@);
    }
    let mut fixed: Vec<Table> = Vec::new();
    for connection in it: connections
        invariant
            it.seq().len() == before.len(),
            forall|i: int| 0 <= i < before.len() ==> (#[trigger] it.seq()[i])@ == before[i],
            fixed@.len() == it.index(),
            forall|i: int|
                0 <= i < fixed@.len() ==> snaps_position(
                    before[i],
                    (#[trigger] fixed@[i])@,
                    true,
                ),
            fluid_box@ == old(fluid_box)@,
            fluid_box.braces() == old(fluid_box).braces(),
            lookup(old(fluid_box)@, "pipe_connections"@) == Some(at as int),
            tables_of(taken(old(fluid_box)@, "pipe_connections"@)) == Some(before),
            at < old(fluid_box)@.len(),
    {
        let mut connection = connection;
        let done = snap_position(&mut connection);
        if done.is_none() {
            proof {
                let index = fixed@.len() as int;
                assert(0 <= index < before.len());
                assert(!can_snap(before[index]));
                assert(!all_can_snap(before));
            }
            return None;
        }
        fixed.push(connection);
    }
    let ghost made = fixed@;
    let _ = fluid_box.remove("pipe_connections");
    fluid_box.insert_at(at, "pipe_connections", fixed);
    proof {
        let inner = table_in(fluid_box@[at as int], "pipe_connections"@).unwrap();
        assert forall|i: int| 0 <= i < inner.len() implies is_collected::<Table>(
            #[trigger] inner[i],
        ) by {
            assert(inner[i].is_element());
        }
        assert(all_tables(inner));
        let read = table_list_in(fluid_box@[at as int], "pipe_connections"@).unwrap();
        assert forall|i: int| 0 <= i < read.len() implies snapped_as(
            before[i],
            #[trigger] read[i],
        ) by {
            assert(inner[i].is_element());
            assert(snaps_position(before[i], made[i]@, true));
            assert(nodes_of(made[i]@) =~= nodes_of(read[i]));
        }
        assert forall|i: int| 0 <= i < before.len() implies can_snap(#[trigger] before[i]) by {
            assert(snaps_position(before[i], made[i]@, true));
        }
        assert(all_can_snap(before));
    }
    Some(())
}

/// Rewrites the table. Nothing comes back where the rule fails.
pub fn action(table: &mut Table) -> (done: Option<()>)
    ensures
        final(table).braces() == old(table).braces(),
        rewrites(old(table)@, final(table)@, done is Some),
{
    proof {
        lemma_lookup(table@, "name"@);
        lemma_lookup(table@, "fluid_box"@);
        lemma_lookup(table@, "fluid_boxes"@);
    }
    let name: Option<String> = table.get_value("name");
    if name.is_none() {
        return None;
    }
    let single: Option<Table> = table.get_value("fluid_box");
    if let Some(fluid_box) = single {
        let at = match table.index_of("fluid_box") {
            Some(at) => at,
            None => {
                return None;
            },
        };
        let mut fluid_box = fluid_box;
        let ghost inner = fluid_box@;
        let done = fix_fluid_box(&mut fluid_box);
        let ghost made = fluid_box@;
        let _ = table.remove("fluid_box");
        table.insert_at(at, "fluid_box", fluid_box);
        proof {
            let read = table_in(table@[at as int], "fluid_box"@).unwrap();
            assert(fixes_box(inner, made, done is Some));
            assert(nodes_of(made) =~= nodes_of(read));
        }
        return Some(());
    }
    let found: Option<Vec<Table>> = table.get_value("fluid_boxes");
    let boxes = match found {
        Some(boxes) => boxes,
        None => {
            return None;
        },
    };
    let at = match table.index_of("fluid_boxes") {
        Some(at) => at,
        None => {
            return None;
        },
    };
    let ghost listed = table_of(taken(table@, "fluid_boxes"@)).unwrap();
    let ghost before = fields_of_tables(collected_values::<Table>(listed));
    proof {
        lemma_collects_values::<Table>(listed, boxes@);
    }
    let mut fixed: Vec<Table> = Vec::new();
    for fluid_box in it: boxes
        invariant
            it.seq().len() == before.len(),
            forall|i: int| 0 <= i < before.len() ==> (#[trigger] it.seq()[i])@ == before[i],
            fixed@.len() == it.index(),
            forall|i: int| 0 <= i < fixed@.len() ==> is_fixed(before[i], (#[trigger] fixed@[i])@),
    {
        let mut fluid_box = fluid_box;
        let ghost index = fixed@.len() as int;
        let ghost seen = fixed@;
        let done = fix_fluid_box(&mut fluid_box);
        fixed.push(fluid_box);
        proof {
            assert(fixes_box(before[index], fixed@[index]@, done is Some));
            assert forall|i: int| 0 <= i < fixed@.len() implies is_fixed(
                before[i],
                (#[trigger] fixed@[i])@,
            ) by {
                if i < index {
                    assert(fixed@[i] == seen[i]);
                }
            }
        }
    }
    let ghost made = fixed@;
    let _ = table.remove("fluid_boxes");
    table.insert_at(at, "fluid_boxes", fixed);
    proof {
        let inner = table_in(table@[at as int], "fluid_boxes"@).unwrap();
        assert forall|i: int| 0 <= i < inner.len() implies is_collected::<Table>(
            #[trigger] inner[i],
        ) by {
            assert(inner[i].is_element());
        }
        assert(all_tables(inner));
        let read = table_list_in(table@[at as int], "fluid_boxes"@).unwrap();
        assert forall|i: int| 0 <= i < read.len() implies fixed_as(
            before[i],
            #[trigger] read[i],
        ) by {
            assert(inner[i].is_element());
            assert(is_fixed(before[i], made[i]@));
            let done = choose|done: bool| #[trigger] fixes_box(before[i], made[i]@, done);
            assert(fixes_box(before[i], made[i]@, done));
            assert(nodes_of(made[i]@) =~= nodes_of(read[i]));
        }
    }
    Some(())
}

/// The rule of the catalog that puts pipe connections on the grid.
pub open spec fn is_rule(rule: FixRule) -> bool {
    &&& rule.enabled
    &&& rule.kind is Untyped
    &&& rule.fix is FluidBoxes
}

pub fn fix_fluid_boxes() -> (rule: FixRule)
    ensures
        is_rule(rule),
{
    FixRule { enabled: true, kind: PrototypeKind::Untyped, fix: Fix::FluidBoxes }
}

} // verus!
