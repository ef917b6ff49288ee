use expr_parser::symbols::{SymbolTable, FIRST_OFFSET, STRIDE};

#[test]
fn new_table_is_empty() {
    let table = SymbolTable::new();
    assert_eq!(table.len(), 0);
    assert_eq!(table.cursor(), FIRST_OFFSET);
    assert_eq!(table.get(&"a".to_string()), None);
}

#[test]
fn first_name_gets_the_first_offset() {
    let mut table = SymbolTable::new();
    assert_eq!(table.resolve_or_allocate("a".to_string()), 8);
    assert_eq!(table.cursor(), 16);
    assert_eq!(table.len(), 1);
}

#[test]
fn same_name_gets_the_same_offset() {
    let mut table = SymbolTable::new();
    let first = table.resolve_or_allocate("count".to_string());
    let other = table.resolve_or_allocate("total".to_string());
    let again = table.resolve_or_allocate("count".to_string());
    assert_eq!(first, again);
    assert_ne!(first, other);
    assert_eq!(table.len(), 2);
    assert_eq!(table.cursor(), FIRST_OFFSET + 2 * STRIDE);
}

#[test]
fn new_name_gets_an_offset_above_all_before() {
    let mut table = SymbolTable::new();
    let mut last = 0;
    for name in ["a", "b", "c", "d"] {
        let offset = table.resolve_or_allocate(name.to_string());
        assert!(offset > last);
        assert_eq!(offset, last + STRIDE);
        last = offset;
    }
    assert_eq!(table.get(&"a".to_string()), Some(8));
    assert_eq!(table.get(&"b".to_string()), Some(16));
    assert_eq!(table.get(&"c".to_string()), Some(24));
    assert_eq!(table.get(&"d".to_string()), Some(32));
    assert_eq!(table.get(&"e".to_string()), None);
}

#[test]
fn name_is_told_apart_by_every_letter() {
    let mut table = SymbolTable::new();
    let short = table.resolve_or_allocate("ab".to_string());
    let long = table.resolve_or_allocate("abc".to_string());
    assert_eq!((short, long), (8, 16));
    assert_eq!(table.get(&"a".to_string()), None);
}
