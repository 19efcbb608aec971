use book_catalog::book_repository::{
    attach_images, book_joins, books_with_images, image_id, book_select, book_select_columns, existing_ids, filter_existing_query,
    image_ids, image_request, take_images, DefaultBookRepository,
};
use book_catalog::query::{count_total, ColumnSet, Expression, Pagination, Schema, Select, SqlValue};
use book_catalog::role_repository::{
    role_select_columns, roles_from_rows, to_entity, DefaultRoleRepository,
};
use book_catalog::schemas::{
    fallback_unwrap, fallback_unwrap_ref, to_i32, to_i32_id, to_u32, DbLanguage, DbRole,
    DbRoleTranslation, Language,
};

fn translation(name: &str, language: DbLanguage) -> DbRoleTranslation {
    DbRoleTranslation { fktranslation: 1, language, name: name.to_string() }
}

#[test]
fn role_entity_prefers_the_translation() {
    let role = to_entity((
        DbRole { id: 4 },
        Some(translation("Autor", DbLanguage::DE)),
        Some(translation("Author", DbLanguage::EN)),
    ));
    assert_eq!(role.id, 4);
    assert_eq!(role.name, "Autor");
    assert_eq!(role.language, Language::DE);
    let role = to_entity((DbRole { id: 5 }, None, Some(translation("Author", DbLanguage::EN))));
    assert_eq!(role.name, "Author");
    assert_eq!(role.language, Language::EN);
}

#[test]
fn db_role_entity_reads_the_id_unsigned() {
    let role = DbRole { id: -1 }.to_entity(translation("x", DbLanguage::EN));
    assert_eq!(role.id, u32::MAX);
    assert_eq!(role.id, (-1i32) as u32);
}

#[test]
fn id_conversions_wrap_like_casts() {
    for v in [0i32, 1, -1, i32::MIN, i32::MAX, 12345] {
        assert_eq!(to_u32(v), v as u32);
        assert_eq!(to_i32_id(to_u32(v)), v);
    }
    for v in [0u32, 7, u32::MAX, 1 << 31] {
        assert_eq!(to_i32_id(v), v as i32);
    }
    assert_eq!(to_i32(&[1, u32::MAX, 3]), vec![1, -1, 3]);
}

#[test]
fn fallback_prefers_the_first() {
    assert_eq!(fallback_unwrap(Some(1), Some(2)), 1);
    assert_eq!(fallback_unwrap(None, Some(2)), 2);
    assert_eq!(*fallback_unwrap_ref(None, Some(&3)), 3);
}


fn alias(j: &book_catalog::query::Join) -> Option<String> {
    j.alias.clone()
}

#[test]
fn role_queries_join_both_translations() {
    let pool = ();
    let repo = DefaultRoleRepository::new(&pool, Language::EN);
    let (count, rows) = repo.get_queries(Language::DE, Pagination { page: 2, size: 10 });
    assert!(count.count);
    assert_eq!(count.page, None);
    assert_eq!(rows.page, Some(Pagination { page: 2, size: 10 }));
    assert!(!rows.count);
    assert_eq!(rows.columns.len(), 3);
    assert_eq!(rows.joins.len(), 2);
    assert_eq!(alias(&rows.joins[0]).as_deref(), Some("role_translation"));
    assert_eq!(alias(&rows.joins[1]).as_deref(), Some("role_translation_fallback"));
    match &rows.joins[0].on {
        Expression::And(a, _) => match a.as_ref() {
            Expression::ValueEqual(c, SqlValue::Language(l)) => {
                assert_eq!(c.table, "role_translation");
                assert_eq!(*l, DbLanguage::DE);
            }
            other => panic!("{:?}", other),
        },
        other => panic!("{:?}", other),
    }
    match &rows.joins[1].on {
        Expression::And(ab, c) => {
            assert!(matches!(c.as_ref(), Expression::ColumnNull(_)));
            match ab.as_ref() {
                Expression::And(a, _) => match a.as_ref() {
                    Expression::ValueEqual(_, SqlValue::Language(l)) => assert_eq!(*l, DbLanguage::EN),
                    other => panic!("{:?}", other),
                },
                other => panic!("{:?}", other),
            }
        }
        other => panic!("{:?}", other),
    }
}

#[test]
fn role_by_name_matches_both_names() {
    let pool = 0u8;
    let repo = DefaultRoleRepository::new(&pool, Language::EN);
    let (count, rows) = repo.get_by_name_queries("aut", Language::DE, Pagination { page: 0, size: 5 });
    assert_eq!(count.page, None);
    assert!(matches!(count.filter, Some(Expression::Or(_, _))));
    assert_eq!(rows.page, Some(Pagination { page: 0, size: 5 }));
    match rows.filter {
        Some(Expression::Or(a, b)) => {
            match (*a, *b) {
                (Expression::ValueILike(ca, pa), Expression::ValueILike(cb, pb)) => {
                    assert_eq!(ca.table, "role_translation");
                    assert_eq!(cb.table, "role_translation_fallback");
                    assert_eq!(pa, "%aut%");
                    assert_eq!(pb, "%aut%");
                }
                other => panic!("{:?}", other),
            }
        }
        other => panic!("{:?}", other),
    }
    let by_id = repo.get_by_id_query(u32::MAX, Language::EN);
    assert!(matches!(by_id.filter, Some(Expression::ValueEqual(_, SqlValue::Int(-1)))));
    let by_ids = repo.get_by_ids_query(&[3, 4], Language::EN);
    match by_ids.filter {
        Some(Expression::ValueIn(c, v)) => {
            assert_eq!(c.column, "id");
            assert_eq!(v, vec![3, 4]);
        }
        other => panic!("{:?}", other),
    }
    assert_eq!(role_select_columns().columns.len(), 3);
}

#[test]
fn book_query_reads_and_joins() {
    let s = book_select(&DbLanguage::EN, &DbLanguage::DE);
    assert_eq!(s.from, Schema::Book);
    assert_eq!(s.columns.len(), 6);
    let aliases: Vec<Option<String>> = s.joins.iter().map(alias).collect();
    assert_eq!(
        aliases,
        vec![
            Some("book_translation".to_string()),
            Some("book_translation_fallback".to_string()),
            Some("cover".to_string()),
            Some("cover_fallback".to_string()),
            None
        ]
    );
    assert_eq!(s.joins[4].schema, Schema::Franchise);
    let counted = book_joins(Select::new(Schema::Book).count(), &DbLanguage::EN, &DbLanguage::DE);
    assert!(counted.count && counted.columns.is_empty() && counted.joins.len() == 5);
    match &book_select_columns().columns[5] {
        ColumnSet::Record { schema, alias, optional } => {
            assert_eq!(*schema, Schema::Franchise);
            assert_eq!(alias, "franchise");
            assert!(*optional);
        }
        other => panic!("{:?}", other),
    }
}

#[test]
fn book_repository_queries() {
    let client = ();
    let repo = DefaultBookRepository::new(&client, Language::DE, "images");
    let (count, rows) = repo.get_by_title_queries("dune", Language::EN, Pagination { page: 1, size: 20 });
    assert!(count.count);
    assert_eq!(count.page, None);
    assert_eq!(rows.page, Some(Pagination { page: 1, size: 20 }));
    let (all_count, all_rows) = repo.get_queries(Language::EN, Pagination { page: 3, size: 7 });
    assert!(all_count.count && all_count.joins.len() == 5 && all_count.page.is_none());
    assert_eq!(all_rows.page, Some(Pagination { page: 3, size: 7 }));
    assert!(all_rows.filter.is_none());
    assert!(matches!(rows.filter, Some(Expression::Or(_, _))));
    let by_ids = repo.get_by_ids_query(&[1, u32::MAX], Language::EN);
    assert!(matches!(by_ids.filter, Some(Expression::ValueIn(_, ref v)) if *v == vec![1, -1]));
    assert_eq!(*repo.image_repository(), "images");
    let existing = filter_existing_query(&[7]);
    assert!(matches!(existing.columns[0], ColumnSet::Single(_)));
}

#[test]
fn image_ids_use_the_fallback_cover() {
    assert_eq!(image_ids(&[(Some(3), Some(4)), (None, Some(5)), (Some(-1), None)]), vec![3, 5, u32::MAX]);
    assert_eq!(existing_ids(&[1, -2]), vec![1, (-2i32) as u32]);
}

#[test]
fn take_images_gives_each_cover_its_image() {
    let images = vec![(1u32, "a"), (2, "b"), (3, "c"), (2, "d")];
    let taken = take_images(&vec![3, 2, 2, 1], images);
    assert_eq!(taken, vec![(3, "c"), (2, "b"), (2, "d"), (1, "a")]);
    let taken = take_images(&vec![], vec![(1u32, ())]);
    assert!(taken.is_empty());
}

#[test]
fn languages_convert_both_ways() {
    for l in [Language::EN, Language::DE] {
        assert_eq!(Language::from(DbLanguage::from(l)), l);
    }
    assert_eq!(DbLanguage::from(Language::DE), DbLanguage::DE);
}

#[test]
fn roles_from_rows_keep_order_and_fall_back() {
    let roles = roles_from_rows(vec![
        (DbRole { id: 1 }, Some(translation("Autor", DbLanguage::DE)), None),
        (DbRole { id: 2 }, None, Some(translation("Editor", DbLanguage::EN))),
    ]);
    assert_eq!(roles.len(), 2);
    assert_eq!((roles[0].id, roles[0].name.as_str(), roles[0].language), (1, "Autor", Language::DE));
    assert_eq!((roles[1].id, roles[1].name.as_str(), roles[1].language), (2, "Editor", Language::EN));
    assert!(roles_from_rows(vec![]).is_empty());
}

#[test]
fn book_joins_keep_earlier_joins() {
    let base = Select::new(Schema::Book).left_join(
        Schema::Image,
        Some("extra"),
        Expression::ColumnNull(book_catalog::query::column("extra", "id")),
    );
    let s = book_joins(base, &DbLanguage::EN, &DbLanguage::DE);
    assert_eq!(s.joins.len(), 6);
    assert_eq!(alias(&s.joins[0]).as_deref(), Some("extra"));
    assert_eq!(alias(&s.joins[1]).as_deref(), Some("book_translation"));
    assert_eq!(s.joins[5].schema, Schema::Franchise);
    let paged = book_select(&DbLanguage::EN, &DbLanguage::DE).pagination(Pagination { page: 4, size: 2 });
    let s = book_joins(paged, &DbLanguage::EN, &DbLanguage::DE);
    assert_eq!(s.page, Some(Pagination { page: 4, size: 2 }));
    assert_eq!(s.joins.len(), 10);
}

#[test]
fn count_total_reads_the_row() {
    assert_eq!(count_total(Some(0)), 0);
    assert_eq!(count_total(Some(42)), 42);
}

#[test]
fn no_rows_ask_for_no_images() {
    assert_eq!(image_request(&[]), None);
    assert_eq!(image_request(&[(None, Some(9)), (Some(2), Some(3))]), Some(vec![9, 2]));
}

#[test]
fn attach_images_pairs_rows_with_their_covers() {
    let rows = vec!["dune", "emma", "ulysses"];
    let covers = vec![2u32, 1, 2];
    let images = vec![(1u32, "one"), (2, "two"), (2, "deux")];
    let books = attach_images(rows, &covers, images);
    assert_eq!(books, vec![("dune", (2, "two")), ("emma", (1, "one")), ("ulysses", (2, "deux"))]);
    let none: Vec<(&str, (u32, ()))> = attach_images(vec![], &vec![], vec![(5u32, ())]);
    assert!(none.is_empty());
}

#[test]
fn books_take_the_image_their_translation_names() {
    let rows = vec!["dune", "emma"];
    let translation_covers = [(None, Some(4)), (Some(7), Some(4))];
    let images = vec![(4u32, "four"), (7, "seven")];
    let books = books_with_images(rows, &translation_covers, images);
    assert_eq!(books, vec![("dune", (4, "four")), ("emma", (7, "seven"))]);
}

#[test]
fn image_id_prefers_the_cover() {
    assert_eq!(image_id(Some(3), Some(4)), 3);
    assert_eq!(image_id(None, Some(-1)), u32::MAX);
}
