use poker_server::models::table::Table;

#[test]
fn test_table_creation() {
    let table = Table::new(1, "Table 1".to_string(), 50, 100).unwrap();
    assert_eq!(table.max_players, 2);
    assert_eq!(table.current_players, 0);
    assert!(table.can_join());
}

#[test]
fn test_table_full() {
    let mut table = Table::new(1, "Table 1".to_string(), 50, 100).unwrap();
    table.current_players = 2;
    assert!(table.is_full());
    assert!(!table.can_join());
}
