use luafix::locales::Locales;

fn loaded(text: &str) -> Locales {
    let mut locales = Locales::default();
    locales.load(text);
    locales
}

#[test]
fn sections_and_entries_are_read() {
    let locales = loaded("[recipe-name]\nfoo=Foo Item\nbar=Bar\n[item-name]\nbaz=Baz");
    assert!(locales.contains_category("recipe-name"));
    assert!(locales.contains_category("item-name"));
    assert!(!locales.contains_category("fluid-name"));
    assert_eq!(locales.get("recipe-name", "foo"), Some("Foo Item"));
    assert_eq!(locales.get("recipe-name", "bar"), Some("Bar"));
    assert_eq!(locales.get("item-name", "baz"), Some("Baz"));
    assert_eq!(locales.get("item-name", "foo"), None);
    assert_eq!(locales.get("absent", "foo"), None);
}

#[test]
fn an_empty_index_has_nothing() {
    let locales = Locales::default();
    assert!(!locales.contains_category("default"));
    assert!(!locales.contains_key("a"));
    assert!(!locales.contains_key_in_category("default", "a"));
    assert!(locales.get_category("default").is_none());
    assert_eq!(locales.find_category_by_key("a"), None);
    assert_eq!(locales.find_in_categories_by_key(&["default"], "a"), None);
    assert_eq!(locales.get("default", "a"), None);
    let locales = loaded("");
    assert!(!locales.contains_category("default"));
}

#[test]
fn comments_and_blank_lines_are_ignored() {
    let locales = loaded("; comment\n# another\n\n   \n[s]\n;k=v\n#k=v\n  ; indented=comment\nk=v\nno equals sign\n");
    assert_eq!(locales.get("s", "k"), Some("v"));
    assert_eq!(locales.get_category("s").unwrap().len(), 1);
    assert!(!locales.contains_key(";k"));
    assert!(!locales.contains_key("no equals sign"));
    assert!(!locales.contains_category("default"));
}

#[test]
fn lines_are_trimmed_but_keys_and_values_are_not() {
    let locales = loaded("  [ spaced ]  \r\n\tkey = value \r\n");
    assert!(locales.contains_category(" spaced "));
    assert_eq!(locales.get(" spaced ", "key "), Some(" value"));
    assert_eq!(locales.get(" spaced ", "key"), None);
}

#[test]
fn a_value_may_hold_equals_signs_and_be_empty() {
    let locales = loaded("[s]\na=b=c\nempty=\n=nokey");
    assert_eq!(locales.get("s", "a"), Some("b=c"));
    assert_eq!(locales.get("s", "empty"), Some(""));
    assert_eq!(locales.get("s", ""), Some("nokey"));
}

#[test]
fn lines_before_the_first_section_go_to_default() {
    let locales = loaded("early=1\n[s]\nlate=2");
    assert!(locales.contains_category("default"));
    assert_eq!(locales.get("default", "early"), Some("1"));
    assert_eq!(locales.get("s", "late"), Some("2"));
    assert_eq!(locales.get("default", "late"), None);
}

#[test]
fn each_file_starts_in_default() {
    let mut locales = loaded("[s]\na=1");
    locales.load("b=2");
    assert_eq!(locales.get("default", "b"), Some("2"));
    assert_eq!(locales.get("s", "b"), None);
}

#[test]
fn a_duplicate_key_overwrites() {
    let locales = loaded("[s]\nk=first\nother=x\nk=second");
    assert_eq!(locales.get("s", "k"), Some("second"));
    assert_eq!(locales.get_category("s").unwrap().len(), 2);
}

#[test]
fn duplicate_sections_merge_across_files() {
    let mut locales = Locales::default();
    locales.load_dir(&vec!["[s]\na=1\nb=2".to_string(), "[t]\nc=3\n[s]\nb=two\nd=4".to_string()]);
    assert_eq!(locales.get("s", "a"), Some("1"));
    assert_eq!(locales.get("s", "b"), Some("two"));
    assert_eq!(locales.get("s", "d"), Some("4"));
    assert_eq!(locales.get("t", "c"), Some("3"));
    assert_eq!(locales.get_category("s").unwrap().len(), 3);
    locales.load_dir(&vec![]);
    assert_eq!(locales.get_category("s").unwrap().len(), 3);
}

#[test]
fn brackets_that_do_not_close_are_no_section() {
    let locales = loaded("[\n[open\nclose]\n[]\nk=v\n[a]b=c");
    assert!(locales.contains_category(""));
    assert_eq!(locales.get("", "k"), Some("v"));
    assert!(!locales.contains_category("open"));
    assert!(!locales.contains_category("default"));
    assert_eq!(locales.get("", "[a]b"), Some("c"));
}

#[test]
fn a_section_without_entries_exists() {
    let locales = loaded("[empty]\n[full]\nk=v");
    assert!(locales.contains_category("empty"));
    assert_eq!(locales.get_category("empty").unwrap().len(), 0);
    assert_eq!(locales.get_category("empty").unwrap().name(), "empty");
    assert!(!locales.contains_key_in_category("empty", "k"));
    assert!(locales.contains_key_in_category("full", "k"));
    assert!(!locales.contains_key_in_category("absent", "k"));
}

#[test]
fn a_category_answers_for_its_keys() {
    let locales = loaded("[s]\na=1\nb=2");
    let category = locales.get_category("s").unwrap();
    assert_eq!(category.name(), "s");
    assert_eq!(category.len(), 2);
    assert!(category.contains_key("a"));
    assert!(!category.contains_key("c"));
    assert_eq!(category.get("b"), Some("2"));
    assert_eq!(category.get("c"), None);
}

#[test]
fn find_category_by_key_takes_the_first_category_in_load_order() {
    let locales = loaded("[item-name]\nfoo=Item\n[recipe-name]\nfoo=Recipe\nbar=Bar");
    assert_eq!(locales.find_category_by_key("foo"), Some("item-name"));
    assert_eq!(locales.find_category_by_key("bar"), Some("recipe-name"));
    assert_eq!(locales.find_category_by_key("baz"), None);
    assert!(locales.contains_key("foo"));
    assert!(locales.contains_key("bar"));
    assert!(!locales.contains_key("baz"));
}

#[test]
fn find_in_categories_by_key_looks_only_in_the_named_ones() {
    let locales = loaded("[recipe-name]\nfoo=R\n[fluid-name]\nfoo=F\n[item-name]\nfoo=I\nonly=O");
    assert_eq!(
        locales.find_in_categories_by_key(&["item-name", "fluid-name", "entity-name"], "foo"),
        Some("fluid-name")
    );
    assert_eq!(locales.find_in_categories_by_key(&["item-name"], "foo"), Some("item-name"));
    assert_eq!(locales.find_in_categories_by_key(&["entity-name"], "foo"), None);
    assert_eq!(locales.find_in_categories_by_key(&[], "foo"), None);
    assert_eq!(locales.find_in_categories_by_key(&["recipe-name", "item-name"], "only"), Some("item-name"));
}
