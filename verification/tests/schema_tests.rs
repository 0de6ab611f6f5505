use sqlite::schema::parse_column_names;

#[test]
fn test_parse_column_names() {
    let data = "
        CREATE TABLE Customer_Ownership(
            customer_id INTEGER NOT NULL,
            vin INTEGER NOT NULL,
            purchase_date DATE NOT NULL,
            purchase_price INTEGER NOT NULL,
            warantee_expire_date DATE,
            dealer_id INTEGER NOT NULL,
            FOREIGN KEY (customer_id) REFERENCES Customers(customer_id),
            FOREIGN KEY (vin) REFERENCES Car_Vins(vin),
            FOREIGN KEY (dealer_id) REFERENCES Dealers(dealer_id)
            PRIMARY KEY (customer_id, vin)
        )
    ";

    let result = parse_column_names(data);

    assert_eq!("customer_id", *result.first().unwrap());
}

#[test]
fn test_parse_column_names_full_list_in_order() {
    // Constraint lines are dropped whole and the declared columns keep
    // their order.  (A comma inside a constraint's parentheses would
    // split it, as the splitting is plain comma splitting.)
    let data = "
        CREATE TABLE Orders(
            order_id INTEGER NOT NULL,
            customer_id INTEGER,
            placed_on DATE,
            FOREIGN KEY (customer_id) REFERENCES Customers(customer_id),
            PRIMARY KEY (order_id)
        )
    ";

    let result = parse_column_names(data);

    assert_eq!(result, vec!["order_id", "customer_id", "placed_on"]);
}

#[test]
fn test_parse_column_names_constraint_keywords() {
    let data = "CREATE TABLE t(a INTEGER, UNIQUE (a), CHECK (a > 0), PRIMARY KEY (a), b TEXT)";
    assert_eq!(parse_column_names(data), vec!["a", "b"]);
}

#[test]
fn test_parse_column_names_no_parentheses() {
    assert_eq!(parse_column_names("CREATE TABLE t"), Vec::<String>::new());
    assert_eq!(parse_column_names(""), Vec::<String>::new());
    assert_eq!(parse_column_names(")("), Vec::<String>::new());
}

#[test]
fn test_parse_column_names_single_column() {
    assert_eq!(parse_column_names("CREATE TABLE t(id)"), vec!["id"]);
}
