use book_catalog::query::{Expression, SqlValue};
use book_catalog::services::{
    add_statement, book_character_ids, map_server_error, remove_condition, service_result,
    statistics_step, ServiceError, StatisticsStep, filter_non_existent, statistics_check, BookServiceError, DefaultBookService,
    DefaultGenreService, DefaultMutBookCharacterRepository, DefaultMutImageService,
};

#[test]
fn non_existent_books_are_those_not_found() {
    assert_eq!(filter_non_existent(&[1, 2, 3, 4], &[2, 4]), vec![1, 3]);
    assert_eq!(filter_non_existent(&[5, 5, 6], &[6]), vec![5, 5]);
    assert!(filter_non_existent(&[], &[1]).is_empty());
}

#[test]
fn statistics_need_every_book() {
    assert!(statistics_check(&[1, 2], &[2, 1]).is_ok());
    match statistics_check(&[1, 2, 3], &[2]) {
        Err(BookServiceError::NonExistentBooks(missing)) => assert_eq!(missing, vec![1, 3]),
        other => panic!("{:?}", other),
    }
}

#[test]
fn image_record_uses_the_service_paths() {
    let repo = 1u8;
    let files = 2u8;
    let service = DefaultMutImageService::new(&repo, &files, "/images", "/srv/images");
    let record = service.image_record("/srv/images/a.png", "a.png");
    assert_eq!(record.file_path, "/srv/images");
    assert_eq!(record.display_path, "/images");
    assert_eq!(record.uri, "/srv/images/a.png");
    assert_eq!(record.file_name, "a.png");
    assert_eq!(*service.image_repository(), 1);
    assert_eq!(*service.file_service(), 2);
    assert_eq!(service.path(), "/srv/images");
}

#[test]
fn services_hold_their_repositories() {
    let books = DefaultBookService::new(vec![1]);
    assert_eq!(*books.repository(), vec![1]);
    let genres = 3u32;
    assert_eq!(*DefaultGenreService::new(&genres).repository(), 3);
    let transaction = "tx";
    assert_eq!(*DefaultMutBookCharacterRepository::new(&transaction).transaction(), "tx");
}

#[test]
fn book_character_ids_are_database_ids() {
    assert_eq!(book_character_ids(2, &[3, u32::MAX]), (2, vec![3, -1]));
}

#[test]
fn add_statement_inserts_one_row_per_character() {
    let (sql, params) = add_statement(7, &[3, u32::MAX]);
    assert_eq!(sql, "INSERT INTO bookcharacter(fkbook,fkcharacter) values ($1,$2),($3,$4)");
    assert_eq!(params, vec![7, 3, 7, -1]);
    let (sql, params) = add_statement(7, &[]);
    assert_eq!(sql, "INSERT INTO bookcharacter DEFAULT VALUES;");
    assert!(params.is_empty());
}

#[test]
fn remove_condition_names_book_and_characters() {
    match remove_condition(2, &[5, 6]) {
        Expression::And(a, b) => {
            match *a {
                Expression::ValueEqual(c, SqlValue::Int(v)) => {
                    assert_eq!((c.table.as_str(), c.column.as_str(), v), ("bookcharacter", "fkbook", 2));
                }
                other => panic!("{:?}", other),
            }
            match *b {
                Expression::ValueIn(c, v) => {
                    assert_eq!((c.table.as_str(), c.column.as_str()), ("bookcharacter", "fkcharacter"));
                    assert_eq!(v, vec![5, 6]);
                }
                other => panic!("{:?}", other),
            }
        }
        other => panic!("{:?}", other),
    }
}

#[test]
fn statistics_step_decides_what_follows() {
    assert!(matches!(statistics_step::<String>(&[1, 2], Ok(vec![2, 1])), StatisticsStep::AskStatistics));
    match statistics_step::<String>(&[1, 2, 3], Ok(vec![2])) {
        StatisticsStep::Fail(ServiceError::ClientError(BookServiceError::NonExistentBooks(missing))) => {
            assert_eq!(missing, vec![1, 3]);
        }
        other => panic!("{:?}", other),
    }
    match statistics_step(&[1], Err("down".to_string())) {
        StatisticsStep::Fail(ServiceError::ServerError(e)) => assert_eq!(e, "down"),
        other => panic!("{:?}", other),
    }
}

#[test]
fn service_result_marks_failures_as_the_servers() {
    let ok: Result<u8, ServiceError<(), &str>> = service_result(Ok(5));
    assert!(matches!(ok, Ok(5)));
    let failed: Result<u8, ServiceError<(), &str>> = service_result(Err("broken"));
    assert!(matches!(failed, Err(ServiceError::ServerError("broken"))));
    assert!(matches!(map_server_error::<(), u8>(9), ServiceError::ServerError(9)));
}

#[test]
fn create_record_records_only_a_written_file() {
    let repo = 1u8;
    let files = 2u8;
    let service = DefaultMutImageService::new(&repo, &files, "/images", "/srv/images");
    let record = service.create_record::<&str>(Ok(("/srv/images/b.png", "b.png"))).unwrap();
    assert_eq!(
        (record.file_path, record.uri, record.file_name, record.display_path),
        ("/srv/images", "/srv/images/b.png", "b.png", "/images")
    );
    assert!(matches!(service.create_record::<&str>(Err("disk full")), Err("disk full")));
}
