use haste::instancebaseline::{InstanceBaseline, UpdateBaselineError};
use haste::stringtables::{StringTable, StringTableContainer, StringTableItem, TableLayout};

fn layout() -> TableLayout {
    TableLayout {
        user_data_fixed_size: false,
        user_data_size: 0,
        user_data_size_bits: 0,
        flags: 0,
        using_varint_bitcounts: true,
    }
}

fn item(string: &[u8], user_data: &[u8]) -> StringTableItem {
    StringTableItem { string: Some(string.to_vec()), user_data: Some(user_data.to_vec()) }
}

fn table(items: Vec<StringTableItem>) -> StringTable {
    StringTable { name: "instancebaseline".to_string(), layout: layout(), items }
}

#[test]
fn baselines_are_named_after_their_classes() {
    let mut baseline = InstanceBaseline::new();
    let items = vec![
        item(b"2", b"two"),
        item(b"+0", b"zero"),
        StringTableItem { string: None, user_data: Some(b"unnamed".to_vec()) },
        item(b"\xff\xfe", b"not text"),
    ];
    assert!(baseline.update(&table(items), 4).is_ok());
    assert_eq!(baseline.by_id(0), b"zero");
    assert_eq!(baseline.by_id(1), b"");
    assert_eq!(baseline.by_id(2), b"two");
    assert_eq!(baseline.by_id(3), b"");
    assert_eq!(baseline.by_id(4), b"");
    assert_eq!(baseline.by_id(-1), b"");
}

#[test]
fn last_baseline_of_a_class_decides() {
    let mut baseline = InstanceBaseline::new();
    assert!(baseline.update(&table(vec![item(b"1", b"a"), item(b"0", b"b")]), 2).is_ok());
    let items = vec![
        item(b"1", b"c"),
        item(b"1", b"d"),
        StringTableItem { string: Some(b"0".to_vec()), user_data: None },
    ];
    assert!(baseline.update(&table(items), 3).is_ok());
    assert_eq!(baseline.by_id(1), b"d");
    assert_eq!(baseline.by_id(0), b"");
    baseline.clear();
    assert_eq!(baseline.by_id(1), b"");
}

#[test]
fn more_classes_keep_the_baselines() {
    let mut baseline = InstanceBaseline::new();
    assert!(baseline.update(&table(vec![item(b"0", b"a")]), 1).is_ok());
    assert!(baseline.update(&table(vec![item(b"5", b"f")]), 6).is_ok());
    assert_eq!(baseline.by_id(0), b"a");
    assert_eq!(baseline.by_id(5), b"f");
}

#[test]
fn baseline_that_is_not_named_after_a_number() {
    for name in [&b"x1"[..], b"", b"1 ", b"-", b"2147483648", b"1.0"] {
        let mut baseline = InstanceBaseline::new();
        let items = vec![item(b"0", b"a"), item(name, b"b"), item(b"1", b"c")];
        assert!(matches!(
            baseline.update(&table(items), 2),
            Err(UpdateBaselineError::ParseIntError(_))
        ));
        assert_eq!(baseline.by_id(0), b"a");
        assert_eq!(baseline.by_id(1), b"");
    }
}

#[test]
fn baseline_of_an_unknown_class() {
    for (name, id) in [(&b"2"[..], 2), (b"-1", -1), (b"2147483647", i32::MAX)] {
        let mut baseline = InstanceBaseline::new();
        match baseline.update(&table(vec![item(name, b"b")]), 2) {
            Err(UpdateBaselineError::UnknownClass { class_id }) => assert_eq!(class_id, id),
            other => panic!("{:?}", other),
        }
    }
}

#[test]
fn tables_are_known_by_place_and_name() {
    let mut tables = StringTableContainer::new();
    assert!(tables.is_empty());
    assert_eq!(tables.create_string_table("a".to_string(), layout()), 0);
    assert_eq!(tables.create_string_table("b".to_string(), layout()), 1);
    assert_eq!(tables.create_string_table("a".to_string(), layout()), 2);
    assert!(!tables.is_empty());
    assert!(tables.has_table(2));
    assert!(!tables.has_table(3));
    tables.set_items(0, vec![item(b"k", b"v")]);
    assert_eq!(tables.find_table("a").unwrap().items.len(), 1);
    assert_eq!(tables.find_table("b").unwrap().items.len(), 0);
    assert!(tables.find_table("c").is_none());
    assert!(tables.get_table(1).unwrap().is_named("b"));
    assert!(tables.get_table(3).is_none());
    tables.clear();
    assert!(tables.is_empty());
}
