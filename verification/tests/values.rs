use full_moon::ast::{Expression, LastStmt};
use full_moon::node::Node;
use luafix::value::{Number, Table, Value};
use luafix::{string_expr, IntoExpr, MaybeInto};

fn expression_of(source: &str) -> Expression {
    let ast = full_moon::parse(&format!("return {source}")).unwrap();
    let Some(LastStmt::Return(ret)) = ast.nodes().last_stmt() else {
        panic!("no return statement");
    };
    ret.returns().iter().next().unwrap().clone()
}

fn value_of(source: &str) -> Option<Value> {
    Value::from_raw(expression_of(source))
}

fn number(negative: bool, text: &str) -> Number {
    Number { negative, text: text.to_string() }
}

fn pair_of(number: &Number) -> (bool, &str) {
    (number.negative, number.text.as_str())
}

#[test]
fn literals_are_recognised() {
    assert!(matches!(value_of("true"), Some(Value::Bool(true))));
    assert!(matches!(value_of("false"), Some(Value::Bool(false))));
    assert!(matches!(value_of("nil"), Some(Value::Null)));
    assert!(matches!(value_of("\"double\""), Some(Value::String(s)) if s == "double"));
    assert!(matches!(value_of("'single'"), Some(Value::String(s)) if s == "single"));
    assert!(matches!(value_of("[[long]]"), Some(Value::String(s)) if s == "long"));
    assert!(matches!(value_of("\"\""), Some(Value::String(s)) if s.is_empty()));
    assert!(matches!(value_of("{ 1, a = 2 }"), Some(Value::Table(t)) if t.len() == 2));
    assert!(matches!(value_of("{}"), Some(Value::Table(t)) if t.is_empty()));
}

#[test]
fn numbers_keep_their_text() {
    assert!(matches!(value_of("12"), Some(Value::Number(n)) if pair_of(&n) == (false, "12")));
    assert!(matches!(value_of("0.50"), Some(Value::Number(n)) if pair_of(&n) == (false, "0.50")));
    assert!(matches!(value_of("1e3"), Some(Value::Number(n)) if pair_of(&n) == (false, "1e3")));
    assert!(matches!(value_of("0x1F"), Some(Value::Number(n)) if pair_of(&n) == (false, "0x1F")));
    assert!(matches!(value_of("-7"), Some(Value::Number(n)) if pair_of(&n) == (true, "7")));
    assert!(matches!(value_of("- 1.25"), Some(Value::Number(n)) if pair_of(&n) == (true, "1.25")));
}

#[test]
fn other_shapes_have_no_value() {
    for source in [
        "f()", "x", "a.b", "1 + 2", "not true", "#t", "- x", "-(1)", "- -1", "(1)", "function() end",
        "a and b", "a or b", "\"a\" .. \"b\"", "...", "-'1'", "-true",
    ] {
        assert!(value_of(source).is_none(), "{source}");
    }
}

#[test]
fn is_null_tells_null_apart() {
    assert!(Value::Null.is_null());
    assert!(value_of("nil").unwrap().is_null());
    assert!(!Value::Bool(false).is_null());
    assert!(!Value::String(String::new()).is_null());
    assert!(!Value::Number(number(false, "0")).is_null());
    assert!(!Value::Table(Box::new(Table::default())).is_null());
}

#[test]
fn fallback_takes_the_right_operand_of_or_behind_an_and() {
    let value = Value::from_fallback(expression_of("a and { 1 } or { 1, 2 }")).unwrap();
    assert!(matches!(value, Value::Table(t) if t.len() == 2));
    let value = Value::from_fallback(expression_of("x and y or \"c\"")).unwrap();
    assert!(matches!(value, Value::String(s) if s == "c"));
    assert!(Value::from_fallback(expression_of("a and 1 or f()")).is_none());
}

#[test]
fn fallback_takes_the_left_operand_of_a_plain_or() {
    let value = Value::from_fallback(expression_of("{ 1 } or { 1, 2 }")).unwrap();
    assert!(matches!(value, Value::Table(t) if t.len() == 1));
    let value = Value::from_fallback(expression_of("true or x")).unwrap();
    assert!(matches!(value, Value::Bool(true)));
    assert!(Value::from_fallback(expression_of("x or 1")).is_none());
}

#[test]
fn fallback_leaves_other_expressions_alone() {
    assert!(matches!(Value::from_fallback(expression_of("-3")), Some(Value::Number(n)) if pair_of(&n) == (true, "3")));
    assert!(matches!(Value::from_fallback(expression_of("{ a = 1 }")), Some(Value::Table(t)) if t.len() == 1));
    assert!(Value::from_fallback(expression_of("a and b")).is_none());
    assert!(Value::from_fallback(expression_of("(a or b) or c")).is_none());
    assert!(Value::from_fallback(expression_of("f()")).is_none());
}

#[test]
fn coercion_narrows_to_the_kind_asked_for() {
    let as_bool: Option<bool> = MaybeInto::try_into(Value::Bool(true));
    assert_eq!(as_bool, Some(true));
    let as_bool: Option<bool> = MaybeInto::try_into(Value::String("true".to_string()));
    assert_eq!(as_bool, None);
    let as_bool: Option<bool> = MaybeInto::try_into(Value::Null);
    assert_eq!(as_bool, None);
    let as_text: Option<String> = MaybeInto::try_into(Value::String("s".to_string()));
    assert_eq!(as_text, Some("s".to_string()));
    let as_text: Option<String> = MaybeInto::try_into(Value::Number(number(false, "1")));
    assert_eq!(as_text, None);
    let as_number: Option<Number> = MaybeInto::try_into(Value::Number(number(true, "2")));
    assert_eq!(pair_of(&as_number.unwrap()), (true, "2"));
    let as_number: Option<Number> = MaybeInto::try_into(Value::Bool(false));
    assert!(as_number.is_none());
    let as_table: Option<Table> = MaybeInto::try_into(value_of("{ 1, 2 }").unwrap());
    assert_eq!(as_table.unwrap().len(), 2);
    let as_table: Option<Table> = MaybeInto::try_into(Value::Null);
    assert!(as_table.is_none());
}

#[test]
fn sequence_coercion_takes_the_bare_values_in_order() {
    let items: Vec<String> = MaybeInto::try_into(value_of("{ \"a\", \"b\", \"c\" }").unwrap()).unwrap();
    assert_eq!(items, vec!["a", "b", "c"]);
    let items: Vec<bool> = MaybeInto::try_into(value_of("{ true, false, true, true }").unwrap()).unwrap();
    assert_eq!(items, vec![true, false, true, true]);
    let items: Vec<String> = MaybeInto::try_into(value_of("{}").unwrap()).unwrap();
    assert!(items.is_empty());
}

#[test]
fn sequence_coercion_leaves_named_fields_out() {
    let items: Vec<String> =
        MaybeInto::try_into(value_of("{ \"a\", k = \"named\", \"b\", [1] = \"keyed\", \"c\" }").unwrap()).unwrap();
    assert_eq!(items, vec!["a", "b", "c"]);
    let items: Vec<String> = MaybeInto::try_into(value_of("{ k = \"named\" }").unwrap()).unwrap();
    assert!(items.is_empty());
}

#[test]
fn sequence_coercion_leaves_out_what_does_not_coerce() {
    let items: Vec<String> = MaybeInto::try_into(value_of("{ \"a\", 1, true, f(), \"b\" }").unwrap()).unwrap();
    assert_eq!(items, vec!["a", "b"]);
}

#[test]
fn sequence_coercion_needs_a_table() {
    let items: Option<Vec<String>> = MaybeInto::try_into(Value::String("a".to_string()));
    assert!(items.is_none());
    let items: Option<Vec<bool>> = MaybeInto::try_into(Value::Null);
    assert!(items.is_none());
}

#[test]
fn sequence_coercion_nests() {
    let rows: Vec<Vec<String>> =
        MaybeInto::try_into(value_of("{ { \"a\" }, { \"b\", \"c\" }, {}, 1 }").unwrap()).unwrap();
    assert_eq!(rows, vec![vec!["a".to_string()], vec!["b".to_string(), "c".to_string()], vec![]]);
    let tables: Vec<Table> = MaybeInto::try_into(value_of("{ { x = 1 }, { 1, 2 } }").unwrap()).unwrap();
    assert_eq!(tables.iter().map(Table::len).collect::<Vec<_>>(), vec![1, 2]);
}

#[test]
fn array_coercion_needs_the_exact_count() {
    let two = || value_of("{ \"a\", \"b\" }").unwrap();
    let none: Option<[String; 0]> = MaybeInto::try_into(two());
    assert!(none.is_none());
    let none: Option<[String; 1]> = MaybeInto::try_into(two());
    assert!(none.is_none());
    let some: Option<[String; 2]> = MaybeInto::try_into(two());
    assert_eq!(some, Some(["a".to_string(), "b".to_string()]));
    let none: Option<[String; 3]> = MaybeInto::try_into(two());
    assert!(none.is_none());
    let empty: Option<[bool; 0]> = MaybeInto::try_into(value_of("{}").unwrap());
    assert_eq!(empty, Some([]));
    let none: Option<[bool; 1]> = MaybeInto::try_into(value_of("{}").unwrap());
    assert!(none.is_none());
}

#[test]
fn array_coercion_counts_every_bare_value() {
    let pair: Option<[Number; 2]> = MaybeInto::try_into(value_of("{ 1, 'a', 2 }").unwrap());
    assert!(pair.is_none());
    let three: Option<[Number; 3]> = MaybeInto::try_into(value_of("{ 1, 'a', 2 }").unwrap());
    assert!(three.is_none());
    let pair: Option<[Number; 2]> = MaybeInto::try_into(value_of("{ 1, f(), 2 }").unwrap());
    assert!(pair.is_none());
    let pair: Option<[Number; 2]> = MaybeInto::try_into(value_of("{ 1, 2, 3 }").unwrap());
    assert!(pair.is_none());
}

#[test]
fn array_coercion_leaves_named_fields_out() {
    let source = "{ 1, skip = 2, [9] = 4, 3 }";
    let pair: Option<[Number; 2]> = MaybeInto::try_into(value_of(source).unwrap());
    let [x, y] = pair.unwrap();
    assert_eq!((pair_of(&x), pair_of(&y)), ((false, "1"), (false, "3")));
    let three: Option<[Number; 3]> = MaybeInto::try_into(value_of(source).unwrap());
    assert!(three.is_none());
    let not_a_table: Option<[Number; 0]> = MaybeInto::try_into(Value::Null);
    assert!(not_a_table.is_none());
    let none: Option<[Number; 0]> = MaybeInto::try_into(value_of("{ k = 1 }").unwrap());
    assert!(none.is_some());
}

fn read_back<T: IntoExpr>(item: T) -> Option<Value> {
    let printed = item.into_expr().to_string();
    value_of(&printed)
}

#[test]
fn writing_is_the_inverse_of_reading() {
    assert!(matches!(Value::from_raw(true.into_expr()), Some(Value::Bool(true))));
    assert!(matches!(Value::from_raw(false.into_expr()), Some(Value::Bool(false))));
    assert!(matches!(Value::from_raw(().into_expr()), Some(Value::Null)));
    assert!(matches!(Value::from_raw("text".to_string().into_expr()), Some(Value::String(s)) if s == "text"));
    assert!(matches!(Value::from_raw(number(false, "1.5").into_expr()), Some(Value::Number(n)) if pair_of(&n) == (false, "1.5")));
    assert!(matches!(Value::from_raw(number(true, "1.5").into_expr()), Some(Value::Number(n)) if pair_of(&n) == (true, "1.5")));
    assert!(matches!(Value::from_raw(Table::default().into_expr()), Some(Value::Table(t)) if t.is_empty()));
    assert!(matches!(Value::from_raw(Some(true).into_expr()), Some(Value::Bool(true))));
    assert!(matches!(Value::from_raw(None::<bool>.into_expr()), Some(Value::Null)));
    assert!(matches!(Value::from_raw(string_expr("s")), Some(Value::String(s)) if s == "s"));
}

#[test]
fn written_values_print_as_source_that_reads_the_same() {
    assert!(matches!(read_back(true), Some(Value::Bool(true))));
    assert!(matches!(read_back(()), Some(Value::Null)));
    assert!(matches!(read_back("a b".to_string()), Some(Value::String(s)) if s == "a b"));
    assert!(matches!(read_back(number(true, "0.25")), Some(Value::Number(n)) if pair_of(&n) == (true, "0.25")));
    assert!(matches!(read_back(vec![true, false]), Some(Value::Table(t)) if t.len() == 2));
    assert!(matches!(read_back([number(false, "1"), number(true, "2")]), Some(Value::Table(t)) if t.len() == 2));
}

#[test]
fn every_kind_of_value_is_written() {
    for source in ["true", "false", "nil", "\"s\"", "12", "-12", "{ a = 1, 2 }"] {
        let value = value_of(source).unwrap();
        let written = value.into_expr();
        assert!(written.similar(&expression_of(&written.to_string())), "{source}");
        let again = Value::from_raw(written).unwrap();
        assert_eq!(format!("{:?}", value_of(source).unwrap().is_null()), format!("{:?}", again.is_null()));
    }
    let written = value_of("-12").unwrap().into_expr();
    assert_eq!(written.to_string(), "-12");
    let written = value_of("'s'").unwrap().into_expr();
    assert_eq!(written.to_string(), "\"s\"");
}

#[test]
fn an_expression_is_written_as_itself() {
    let call = expression_of("f(1, 2)");
    let written = call.clone().into_expr();
    assert_eq!(written.to_string(), "f(1, 2)");
    assert!(written.similar(&call));
}

#[test]
fn sequences_are_written_as_tables_of_bare_values() {
    let written = vec!["a".to_string(), "b".to_string()].into_expr();
    let items: Vec<String> = MaybeInto::try_into(Value::from_raw(written).unwrap()).unwrap();
    assert_eq!(items, vec!["a", "b"]);
    let written = [true, false, true].into_expr();
    let items: [bool; 3] = MaybeInto::try_into(Value::from_raw(written).unwrap()).unwrap();
    assert_eq!(items, [true, false, true]);
    let written = Vec::<bool>::new().into_expr();
    assert!(matches!(Value::from_raw(written), Some(Value::Table(t)) if t.is_empty()));
    let nested = vec![vec![number(false, "1")], vec![]].into_expr();
    let rows: Vec<Vec<Number>> = MaybeInto::try_into(Value::from_raw(nested).unwrap()).unwrap();
    assert_eq!(rows.len(), 2);
    assert_eq!(pair_of(&rows[0][0]), (false, "1"));
    assert!(rows[1].is_empty());
}

#[test]
fn a_table_is_written_with_its_fields() {
    let table = Table::default().with_field("a", true).with_field("b", "x".to_string());
    let written = table.into_expr();
    let Some(Value::Table(back)) = Value::from_raw(written) else {
        panic!("not a table");
    };
    assert_eq!(back.index_of("a"), Some(0));
    assert_eq!(back.get_value::<String>("b"), Some("x".to_string()));
}

#[test]
fn string_expr_is_a_string_literal() {
    let expression = string_expr("item-name.foo");
    assert!(matches!(expression, Expression::String(_)));
    assert_eq!(expression.to_string(), "\"item-name.foo\"");
}
