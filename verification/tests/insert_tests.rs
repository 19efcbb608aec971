use book_catalog::insert::{postgres_result, Insert, InsertError, Table};
use book_catalog::schemas::DbRole;
use book_catalog::text::{decimal_string, join_strs};

#[test]
fn decimal_string_writes_numerals() {
    assert_eq!(decimal_string(0), "0");
    assert_eq!(decimal_string(7), "7");
    assert_eq!(decimal_string(10), "10");
    assert_eq!(decimal_string(12345), "12345");
    assert_eq!(decimal_string(usize::MAX), usize::MAX.to_string());
}

#[test]
fn join_strs_puts_separator_between_parts() {
    assert_eq!(join_strs(&[], ","), "");
    assert_eq!(join_strs(&["a"], ","), "a");
    assert_eq!(join_strs(&["fkbook", "fkcharacter"], ","), "fkbook,fkcharacter");
    assert_eq!(join_strs(&["x", "", "y"], ", "), "x, , y");
}

#[test]
fn sql_without_rows_inserts_defaults() {
    let columns = ["name"];
    let insert: Insert<i32> = Insert::new_raw("book", &columns);
    assert_eq!(insert.sql(), "INSERT INTO book DEFAULT VALUES;");
    assert_eq!(insert.returning_sql(), "INSERT INTO book DEFAULT VALUES RETURNING id;");
    assert!(insert.values().is_empty());
}

#[test]
fn sql_numbers_placeholders_across_rows() {
    let columns = ["fkbook", "fkcharacter"];
    let first = [1, 10];
    let second = [1, 11];
    let third = [1, 12];
    let insert = Insert::new_raw("bookcharacter", &columns).push(&first).push(&second).push(&third);
    assert_eq!(
        insert.sql(),
        "INSERT INTO bookcharacter(fkbook,fkcharacter) values ($1,$2),($3,$4),($5,$6)"
    );
    assert_eq!(insert.values(), vec![1, 10, 1, 11, 1, 12]);
    assert_eq!(
        insert.returning_sql(),
        "INSERT INTO bookcharacter(fkbook,fkcharacter) values ($1,$2),($3,$4),($5,$6) returning id;"
    );
}

#[test]
fn sql_placeholders_follow_row_lengths() {
    let columns = ["a", "b"];
    let short = [5];
    let empty: [i32; 0] = [];
    let long = [6, 7, 8];
    let insert = Insert::new_raw("t", &columns).push(&short).push(&empty).push(&long);
    assert_eq!(insert.sql(), "INSERT INTO t(a,b) values ($1),(),($2,$3,$4)");
    assert_eq!(insert.values(), vec![5, 6, 7, 8]);
}

#[test]
fn sql_reaches_two_digit_placeholders() {
    let columns = ["a"; 11];
    let row = [0; 11];
    let insert = Insert::new_raw("t", &columns).push(&row);
    assert!(insert.sql().ends_with("values ($1,$2,$3,$4,$5,$6,$7,$8,$9,$10,$11)"));
}

#[test]
fn new_takes_the_table_name_of_the_type() {
    let columns = ["id"];
    let row = [3];
    let insert = Insert::new::<DbRole>(&columns).push(&row);
    assert_eq!(DbRole::TABLE_NAME, "role");
    assert_eq!(insert.sql(), "INSERT INTO role(id) values ($1)");
}

#[test]
fn invalid_length_names_the_first_bad_row() {
    let columns = ["a", "b"];
    let good = [1, 2];
    let bad = [1, 2, 3];
    let worse = [1];
    let insert = Insert::new_raw("t", &columns).push(&good).push(&bad).push(&worse);
    match insert.invalid_length() {
        Err(InsertError::InvalidLength(3, 2)) => {}
        other => panic!("unexpected {:?}", other),
    }
    let ok = Insert::new_raw("t", &columns).push(&good).push(&good);
    assert!(ok.invalid_length().is_ok());
}

#[test]
fn execute_plan_checks_lengths_first() {
    let columns = ["a", "b"];
    let good = [1, 2];
    let bad = [4];
    let insert = Insert::new_raw("t", &columns).push(&good).push(&bad);
    assert!(matches!(insert.execute_plan(), Err(InsertError::InvalidLength(1, 2))));
    let insert = Insert::new_raw("t", &columns).push(&good).push(&good);
    let (sql, params) = insert.execute_plan().unwrap();
    assert_eq!(sql, "INSERT INTO t(a,b) values ($1,$2),($3,$4)");
    assert_eq!(params, vec![1, 2, 1, 2]);
}

#[test]
fn returning_plan_refuses_more_than_one_row() {
    let columns = ["a"];
    let row = [9];
    let bad: [i32; 2] = [1, 2];
    let two = Insert::new_raw("t", &columns).push(&row).push(&row);
    assert!(matches!(two.returning_plan(), Err(InsertError::ReturningMoreThanOne)));
    let wrong = Insert::new_raw("t", &columns).push(&bad);
    assert!(matches!(wrong.returning_plan(), Err(InsertError::InvalidLength(2, 1))));
    let one = Insert::new_raw("t", &columns).push(&row);
    let (sql, params) = one.returning_plan().unwrap();
    assert_eq!(sql, "INSERT INTO t(a) values ($1) returning id;");
    assert_eq!(params, vec![9]);
    let none: Insert<i32> = Insert::new_raw("t", &columns);
    let (sql, params) = none.returning_plan().unwrap();
    assert_eq!(sql, "INSERT INTO t DEFAULT VALUES RETURNING id;");
    assert!(params.is_empty());
}

#[test]
fn insert_error_messages() {
    assert_eq!(
        InsertError::ReturningMoreThanOne.message(),
        "Returning is not supported for more than 1 value at a time"
    );
    assert_eq!(
        InsertError::InvalidLength(3, 12).message(),
        "values length '3' does not match the length of the columns '12'"
    );
}

#[test]
fn postgres_result_keeps_success() {
    assert_eq!(postgres_result(Ok::<u64, tokio_postgres::Error>(4)).unwrap(), 4);
}

#[test]
fn push_appends_its_values_last() {
    let columns = ["a", "b"];
    let first = [1, 2];
    let second = [3, 4];
    let once = Insert::new_raw("t", &columns).push(&first);
    let before = once.values();
    let twice = once.push(&second);
    let mut expected = before.clone();
    expected.extend_from_slice(&second);
    assert_eq!(twice.values(), expected);
}

#[test]
fn values_sql_numbers_groups_on() {
    let a = [1, 2];
    let b = [3];
    let c = [4, 5, 6];
    let insert = Insert::new_raw("t", &["x", "y"]).push(&a).push(&b).push(&c);
    assert_eq!(insert.values_sql(), "($1,$2),($3),($4,$5,$6)");
    let empty: Insert<i32> = Insert::new_raw("t", &["x"]);
    assert_eq!(empty.values_sql(), "");
}

#[test]
fn database_error_message_is_its_own_text() {
    let error = tokio_postgres::Error::__private_api_timeout();
    let text = error.to_string();
    let wrapped = postgres_result::<u64>(Err(error)).unwrap_err();
    assert!(matches!(wrapped, InsertError::PostgresError(_)));
    assert_eq!(wrapped.message(), text);
    assert!(!text.is_empty());
}
