use full_moon::ast::{Expression, LastStmt, TableConstructor};
use full_moon::node::Node;
use luafix::value::{Number, Table, TableField, Value};
use luafix::{string_expr, IntoExpr};

fn table_of(source: &str) -> TableConstructor {
    let ast = full_moon::parse(&format!("return {source}")).unwrap();
    let Some(LastStmt::Return(ret)) = ast.nodes().last_stmt() else {
        panic!("no return statement");
    };
    let Some(Expression::TableConstructor(table)) = ret.returns().iter().next() else {
        panic!("no table");
    };
    (**table).clone()
}

fn view_of(source: &str) -> Table {
    Table::new(&table_of(source))
}

fn text_of(table: Table) -> String {
    table.into_constructor().to_string()
}

/// The table prints as source that parses to the same tree as `expected`.
fn assert_reads_as(table: Table, expected: &str) {
    let printed = text_of(table);
    let back = table_of(&printed);
    assert!(
        back.similar(&table_of(expected)),
        "{printed:?} does not read as {expected:?}"
    );
}

#[test]
fn round_trip_is_similar() {
    let sources = [
        "{}",
        "{ 1, 2, 3 }",
        "{ type = \"beam\", name = 'x', [1] = f(), nested = { a = { b = nil } }, -2.5 }",
        "{\n  -- comment\n  a = 1, -- trailing\n  b = true;\n  \"s\",\n}",
    ];
    for source in sources {
        let node = table_of(source);
        let back = Table::new(&node).into_constructor();
        assert!(node.similar(&back), "{source}");
        assert_eq!(node.to_string(), back.to_string());
    }
}

#[test]
fn length_counts_fields_not_content() {
    assert_eq!(view_of("{}").len(), 0);
    assert!(view_of("{}").is_empty());
    let table = view_of("{ a = { 1, 2, 3 }, { x = 1, y = 2 }, [3] = 4 }");
    assert_eq!(table.len(), 3);
    assert!(!table.is_empty());
}

#[test]
fn index_of_finds_named_fields() {
    let table = view_of("{ type = \"beam\", name = \"x\", 5 }");
    assert_eq!(table.len(), 3);
    assert_eq!(table.index_of("type"), Some(0));
    assert_eq!(table.index_of("name"), Some(1));
    assert_eq!(table.index_of("missing"), None);
    assert!(table.contains_key("name"));
    assert!(!table.contains_key("nam"));
}

#[test]
fn positional_fields_are_keyed_by_their_index() {
    let table = view_of("{ a = 1, \"x\", \"y\", [\"k\"] = 2, \"z\" }");
    assert_eq!(table.index_of("0"), None);
    assert_eq!(table.index_of("1"), Some(1));
    assert_eq!(table.index_of("2"), Some(2));
    assert_eq!(table.index_of("3"), None);
    assert_eq!(table.index_of("4"), Some(4));
    assert_eq!(table.index_of("k"), None);
    assert_eq!(table.get_value::<String>("2"), Some("y".to_string()));
}

#[test]
fn positional_key_keeps_the_index_it_was_read_with() {
    let mut table = view_of("{ \"x\", \"y\", \"z\" }");
    assert!(table.remove("0").is_some());
    assert_eq!(table.index_of("1"), Some(0));
    assert_eq!(table.index_of("2"), Some(1));
    assert_eq!(table.index_of("0"), None);
    table.push(string_expr("w"));
    assert_eq!(table.index_of("2"), Some(1));
    assert_eq!(table.len(), 3);
}

#[test]
fn lookup_returns_the_first_of_duplicates() {
    let table = view_of("{ a = 1, a = \"second\", b = true }");
    assert_eq!(table.index_of("a"), Some(0));
    assert_eq!(table.get_value::<String>("a"), None);
    let number: Number = table.get_value("a").unwrap();
    assert_eq!(number.text, "1");
    assert!(!number.negative);
}

#[test]
fn contains_keys_asks_for_every_name() {
    let table = view_of("{ a = 1, b = 2, c = 3 }");
    assert!(table.contains_keys(&["a", "c"]));
    assert!(table.contains_keys(&["c", "b", "a", "a"]));
    assert!(!table.contains_keys(&["a", "d"]));
    assert!(table.contains_keys(&[]));
    assert!(view_of("{}").contains_keys(&[]));
    assert!(!view_of("{}").contains_keys(&["a"]));
}

#[test]
fn get_value_coerces_or_gives_nothing() {
    let table = view_of("{ flag = true, off = false, text = \"hi\", n = 12, m = -0.5, t = { 1 }, z = nil, f = g() }");
    assert_eq!(table.get_value::<bool>("flag"), Some(true));
    assert_eq!(table.get_value::<bool>("off"), Some(false));
    assert_eq!(table.get_value::<String>("text"), Some("hi".to_string()));
    assert_eq!(table.get_value::<bool>("text"), None);
    assert_eq!(table.get_value::<String>("flag"), None);
    assert_eq!(table.get_value::<bool>("absent"), None);
    assert_eq!(table.get_value::<bool>("f"), None);
    let n: Number = table.get_value("n").unwrap();
    assert_eq!((n.negative, n.text.as_str()), (false, "12"));
    let m: Number = table.get_value("m").unwrap();
    assert_eq!((m.negative, m.text.as_str()), (true, "0.5"));
    let inner: Table = table.get_value("t").unwrap();
    assert_eq!(inner.len(), 1);
    assert!(table.get_value::<Table>("n").is_none());
    assert_eq!(table.len(), 8);
}

#[test]
fn get_value_at_reads_a_slot() {
    let table = view_of("{ \"a\", k = \"b\", 3 }");
    assert_eq!(table.get_value_at::<String>(0), Some("a".to_string()));
    assert_eq!(table.get_value_at::<String>(1), Some("b".to_string()));
    assert_eq!(table.get_value_at::<String>(2), None);
    assert_eq!(table.get_value_at::<String>(3), None);
    assert_eq!(table.get_value_at::<String>(usize::MAX), None);
}

#[test]
fn get_expr_gives_the_raw_node() {
    let table = view_of("{ a = f(1), b = 2 }");
    assert_eq!(table.get_expr("a").unwrap().to_string(), "f(1)");
    assert_eq!(table.get_expr("b").unwrap().to_string().trim(), "2");
    assert!(table.get_expr("c").is_none());
}

#[test]
fn insert_appends_a_named_field() {
    let mut table = view_of("{ a = 1, b = 2 }");
    table.insert("c", true);
    assert_eq!(table.len(), 3);
    assert_eq!(table.index_of("c"), Some(2));
    assert_eq!(table.index_of("a"), Some(0));
    assert_eq!(table.index_of("b"), Some(1));
    assert_reads_as(table, "{ a = 1, b = 2, c = true }");
}

#[test]
fn insert_into_an_empty_table() {
    let mut table = view_of("{}");
    table.insert("only", string_expr("one"));
    assert_eq!(table.index_of("only"), Some(0));
    assert_reads_as(table, "{ only = \"one\" }");
}

#[test]
fn insert_copies_the_trivia_behind_the_last_field() {
    let mut table = view_of("{ a = 1 --[[x]] }");
    table.insert("b", true);
    assert_eq!(text_of(table), "{ a = 1 --[[x]] ,\n --[[x]] b = true,\n}");
    let mut table = view_of("{\n    a = 1,\n    b = 2,\n}");
    table.insert("c", false);
    assert_eq!(text_of(table), "{\n    a = 1,\n    b = 2,\nc = false,\n}");
}

#[test]
fn insert_at_puts_the_field_at_the_position() {
    let mut table = view_of("{\n  a = 1,\n  b = 2,\n}");
    table.insert_at(1, "c", string_expr("x"));
    assert_eq!(table.index_of("c"), Some(1));
    assert_eq!(table.index_of("a"), Some(0));
    assert_eq!(table.index_of("b"), Some(2));
    assert_eq!(text_of(table), "{\n  a = 1,\nc = \"x\",\n  b = 2,\n}");
}

#[test]
fn insert_at_the_ends() {
    let mut table = view_of("{ a = 1, b = 2 }");
    table.insert_at(0, "first", 1 == 1);
    table.insert_at(3, "last", ());
    assert_eq!(table.index_of("first"), Some(0));
    assert_eq!(table.index_of("a"), Some(1));
    assert_eq!(table.index_of("b"), Some(2));
    assert_eq!(table.index_of("last"), Some(3));
    assert_reads_as(table, "{ first = true, a = 1, b = 2, last = nil }");
}

#[test]
fn insert_after_and_before() {
    let mut table = view_of("{ a = 1, b = 2, c = 3 }");
    table.insert_after(0, "x", true);
    assert_eq!(table.index_of("x"), Some(1));
    table.insert_before(1, "y", false);
    assert_eq!(table.index_of("y"), Some(0));
    table.insert_before(5, "z", ());
    assert_eq!(table.index_of("z"), Some(4));
    assert_reads_as(table, "{ y = false, a = 1, x = true, b = 2, z = nil, c = 3 }");
}

#[test]
fn index_of_after_insert_at_finds_an_earlier_field_of_the_name() {
    let mut table = view_of("{ a = 1, b = 2 }");
    table.insert_at(2, "a", true);
    assert_eq!(table.index_of("a"), Some(0));
    assert_eq!(table.get_value::<bool>("a"), None);
}

#[test]
fn remove_takes_the_field_out() {
    let mut table = view_of("{ a = 1, b = f(), c = 3 }");
    let removed = table.remove("b").unwrap();
    assert_eq!(removed.to_string(), "f()");
    assert_eq!(table.len(), 2);
    assert_eq!(table.index_of("c"), Some(1));
    assert!(table.remove("b").is_none());
    assert_eq!(table.len(), 2);
    assert_reads_as(table, "{ a = 1, c = 3 }");
}

#[test]
fn remove_value_removes_even_when_it_does_not_coerce() {
    let mut table = view_of("{ a = 1, b = \"text\" }");
    assert_eq!(table.remove_value::<bool>("b"), None);
    assert_eq!(table.len(), 1);
    assert!(!table.contains_key("b"));
    assert_eq!(table.remove_value::<bool>("absent"), None);
    assert_eq!(table.len(), 1);
    let a: Number = table.remove_value("a").unwrap();
    assert_eq!(a.text, "1");
    assert!(table.is_empty());
}

#[test]
fn remove_value_pos_reports_the_slot() {
    let mut table = view_of("{ a = 1, b = \"text\", c = true }");
    assert_eq!(table.remove_value_pos::<String>("b"), Some(("text".to_string(), 1)));
    assert_eq!(table.remove_value_pos::<bool>("c"), Some((true, 1)));
    assert_eq!(table.remove_value_pos::<bool>("a"), None);
    assert!(table.is_empty());
}

#[test]
fn removing_and_reinserting_restores_the_table() {
    let source = "{ a = 1, b = 'text', c = { x = 1, 2 }, d = true, e = -4 }";
    let mut table = view_of(source);
    let (text, at) = table.remove_value_pos::<String>("b").unwrap();
    table.insert_at(at, "b", text);
    let (inner, at) = table.remove_value_pos::<Table>("c").unwrap();
    table.insert_at(at, "c", inner);
    let (flag, at) = table.remove_value_pos::<bool>("d").unwrap();
    table.insert_at(at, "d", flag);
    let (number, at) = table.remove_value_pos::<Number>("e").unwrap();
    table.insert_at(at, "e", number);
    assert_eq!(table.index_of("b"), Some(1));
    assert_eq!(table.get_value::<String>("b"), Some("text".to_string()));
    assert_eq!(table.get_value::<bool>("d"), Some(true));
    assert_reads_as(table, "{ a = 1, b = \"text\", c = { x = 1, 2 }, d = true, e = -4 }");
}

#[test]
fn removing_and_reinserting_a_sequence_restores_the_table() {
    let mut table = view_of("{ a = 1, list = { 'x', \"y\" }, pos = { 1.5, -2 }, rows = { { true }, {} } }");
    let (list, at) = table.remove_value_pos::<Vec<String>>("list").unwrap();
    assert_eq!((list.clone(), at), (vec!["x".to_string(), "y".to_string()], 1));
    table.insert_at(at, "list", list);
    let (pos, at) = table.remove_value_pos::<[Number; 2]>("pos").unwrap();
    assert_eq!(at, 2);
    table.insert_at(at, "pos", pos);
    let (rows, at) = table.remove_value_pos::<Vec<Vec<bool>>>("rows").unwrap();
    assert_eq!(at, 3);
    table.insert_at(at, "rows", rows);
    assert_eq!(table.len(), 4);
    assert_eq!(table.index_of("list"), Some(1));
    assert_eq!(table.index_of("pos"), Some(2));
    assert_eq!(table.get_value::<Vec<String>>("list"), Some(vec!["x".to_string(), "y".to_string()]));
    assert_reads_as(table, "{ a = 1, list = { \"x\", \"y\" }, pos = { 1.5, -2 }, rows = { { true }, {} } }");
}

#[test]
fn a_found_field_has_a_value() {
    let mut table = view_of("{ a = f(), 2, [3] = 4 }");
    assert_eq!(table.get_key_at(0), Some("a".to_string()));
    assert_eq!(table.get_key_at(1), Some("1".to_string()));
    assert_eq!(table.get_key_at(2), None);
    assert_eq!(table.get_key_at(3), None);
    assert!(table.get_expr("a").is_some());
    assert!(table.get_expr("1").is_some());
    assert!(table.remove("1").is_some());
    assert!(table.remove("a").is_some());
    assert!(table.remove("3").is_none());
    assert_eq!(table.len(), 1);
}

#[test]
fn push_appends_bare_values() {
    let mut table = view_of("{}");
    table.push(Number { negative: true, text: "1.5".to_string() });
    table.push(());
    table.push(vec![true, false]);
    table.push("text".to_string());
    assert_eq!(table.len(), 4);
    assert_eq!(table.index_of("0"), Some(0));
    assert_eq!(table.index_of("3"), Some(3));
    assert_eq!(table.get_value_at::<String>(3), Some("text".to_string()));
    assert_reads_as(table, "{ -1.5, nil, { true, false }, \"text\" }");
}

#[test]
fn extend_and_clear_replace_the_fields() {
    let mut table = view_of("{ a = 1, b = 2 }");
    let other = view_of("{ c = 3, 4 }");
    table.extend(other);
    assert_eq!(table.len(), 4);
    assert_eq!(table.index_of("c"), Some(2));
    assert_reads_as(table, "{ a = 1, b = 2, c = 3, 4 }");

    let mut table = view_of("{   old = 1   }");
    table.clear();
    assert!(table.is_empty());
    table.extend(view_of("{ new = 2 }"));
    assert_eq!(table.len(), 1);
    let printed = text_of(table);
    assert!(printed.starts_with("{   "), "{printed:?}");
    assert!(table_of(&printed).similar(&table_of("{ new = 2 }")));
}

#[test]
fn with_field_chains() {
    let table = Table::default().with_field("k", Some("v".to_string())).with_field("n", None::<bool>);
    assert_eq!(table.len(), 2);
    assert_eq!(table.index_of("n"), Some(1));
    assert_reads_as(table, "{ k = \"v\", n = nil }");
}

#[test]
fn default_is_an_empty_table() {
    let table = Table::default();
    assert!(table.is_empty());
    assert_reads_as(table, "{}");
}

#[test]
fn every_field_but_the_last_gets_a_separator() {
    let mut table = view_of("{ a = 1, b = 2 }");
    table.insert("c", true);
    table.push(string_expr("d"));
    let printed = text_of(table);
    assert!(full_moon::parse(&format!("return {printed}")).is_ok(), "{printed:?}");
    let mut table = view_of("{ 1 }");
    table.extend(view_of("{ 2 }"));
    assert_reads_as(table, "{ 1, 2 }");
}

#[test]
fn fields_report_their_form() {
    let fields = view_of("{ a = 1, 2, [3] = 4 }").into_fields();
    assert_eq!(fields.len(), 3);
    assert!(fields[0].is_key_value() && !fields[0].is_element());
    assert!(!fields[1].is_key_value() && fields[1].is_element());
    assert!(!fields[2].is_key_value() && !fields[2].is_element());
    assert_eq!(fields[0].get_key(), Some("a".to_string()));
    assert_eq!(fields[1].get_key(), Some("1".to_string()));
    assert_eq!(fields[2].get_key(), None);
    assert_eq!(fields[0].get_value().unwrap().to_string().trim(), "1");
    assert!(fields[2].get_value().is_none());
    assert!(fields[2].get_key_value().is_none());
    let (key, value) = fields[1].get_key_value().unwrap();
    assert_eq!((key.as_str(), value.to_string().trim()), ("1", "2"));
    assert!(fields[0].has_key("a") && !fields[0].has_key("1"));
}

#[test]
fn the_new_field_has_the_trivia_behind_the_last_field_in_front() {
    let mut table = view_of("{ a = 1 --[[x]] }");
    table.insert("b", true);
    table.insert_at(0, "c", false);
    let fields = table.into_fields();
    let texts = |tokens: Vec<full_moon::tokenizer::Token>| {
        tokens.iter().map(|token| token.to_string()).collect::<Vec<_>>()
    };
    assert_eq!(texts(fields[1].get_trailing_trivia()), vec![" ", "--[[x]]", " "]);
    assert_eq!(texts(fields[2].get_leading_trivia()), vec![" ", "--[[x]]", " "]);
    assert!(fields[2].get_trailing_trivia().is_empty());
    assert!(fields[0].get_leading_trivia().is_empty());
    assert!(fields[1].get_leading_trivia().is_empty());
    let mut table = view_of("{}");
    table.insert("only", true);
    assert!(table.into_fields()[0].get_leading_trivia().is_empty());
}

#[test]
fn fields_come_apart() {
    let mut fields = view_of("{ a = 1,\n  b = g() }").into_fields();
    let second = fields.pop().unwrap();
    let first = fields.pop().unwrap();
    assert_eq!(second.get_trailing_trivia().len(), 1);
    assert_eq!(second.get_trailing_trivia()[0].to_string(), " ");
    assert!(first.get_trailing_trivia().is_empty());
    assert_eq!(second.into_value().to_string().trim(), "g()");
    let pair = first.into_pair();
    assert!(pair.punctuation().is_some());
    let again = TableField::from_raw(7, pair);
    assert_eq!(again.get_key(), Some("a".to_string()));
    assert_eq!(again.into_raw().to_string().trim(), "a = 1");
    let bare = TableField::from_raw(12, view_of("{ 5 }").into_fields().pop().unwrap().into_pair());
    assert_eq!(bare.get_key(), Some("12".to_string()));
}

#[test]
fn values_print_as_literals() {
    assert_eq!(true.into_expr().to_string(), "true");
    assert_eq!(false.into_expr().to_string(), "false");
    assert_eq!(().into_expr().to_string(), "nil");
    assert_eq!("a b".to_string().into_expr().to_string(), "\"a b\"");
    assert_eq!(Value::Null.into_expr().to_string(), "nil");
    assert_eq!(Some(true).into_expr().to_string(), "true");
    assert_eq!(None::<String>.into_expr().to_string(), "nil");
}
