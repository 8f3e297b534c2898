use dns_resolver::tabulation::Table;

#[test]
fn table_new_and_push_test() {
    let mut table = Table::new(None);
    assert_eq!(table.data.len(), 0);
    table.push(vec![Some(String::from("ab")), None]);
    table.push(vec![Some(String::from("c")), Some(String::from("d"))]);
    assert_eq!(table.data.len(), 2);
    assert_eq!(table.data[0][0], Some(String::from("ab")));
    assert_eq!(table.data[1][1], Some(String::from("d")));

    let rows = vec![
        vec![Some(String::from("x")), None],
        vec![None, Some(String::from("y"))],
    ];
    let table = Table::new(Some(rows.clone()));
    assert_eq!(table.data, rows);
}

#[test]
fn table_column_max_length_test() {
    let mut table = Table::new(None);
    table.push(vec![Some(String::from("ab")), None]);
    table.push(vec![Some(String::from("c")), Some(String::from("d"))]);
    assert_eq!(table.get_column_max_length(0), 2);
    assert_eq!(table.get_column_max_length(1), 1);
    let column = table.get_column(0);
    assert_eq!(column.len(), 2);
    assert_eq!(*column[0], Some(String::from("ab")));
    assert_eq!(*column[1], Some(String::from("c")));
}

#[test]
fn table_insert_padding_test() {
    let mut table = Table::new(None);
    table.push(vec![Some(String::from("ab")), None]);
    table.push(vec![Some(String::from("c")), Some(String::from("d"))]);
    table.insert_padding();
    assert_eq!(table.data[0][0], Some(String::from("ab")));
    assert_eq!(table.data[0][1], Some(String::from(" ")));
    assert_eq!(table.data[1][0], Some(String::from("c ")));
    assert_eq!(table.data[1][1], Some(String::from("d")));
}

#[test]
fn table_write_test() {
    let mut table = Table::new(None);
    table.push(vec![Some(String::from("ab")), None]);
    table.push(vec![Some(String::from("c")), Some(String::from("d"))]);
    let rendered = table.write();
    assert_eq!(rendered, "ab\t \nc \td\n");
}
