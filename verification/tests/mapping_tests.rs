use book_catalog::row_mapping::{
    column_names, db_column_idents, field_reads, from_row_mapping, is_optional, query_row_items,
    renamed_field, validation_query, AttributeShape, DataShape, FieldShape, MappingError, RenameError, TokenShape,
    TypeShape,
};

fn path(segments: &[&str]) -> TypeShape {
    TypeShape::Path(segments.iter().map(|s| s.to_string()).collect())
}

fn field(name: &str, attributes: Vec<AttributeShape>, ty: TypeShape) -> FieldShape {
    FieldShape { name: name.to_string(), attributes, ty }
}

#[test]
fn optional_means_first_segment_option() {
    assert!(is_optional(&path(&["Option"])));
    assert!(!is_optional(&path(&["std", "option", "Option"])));
    assert!(!is_optional(&path(&["i32"])));
    assert!(!is_optional(&TypeShape::Other));
}

#[test]
fn rename_reads_the_first_attribute() {
    assert_eq!(renamed_field(&vec![]).unwrap(), None);
    assert_eq!(
        renamed_field(&vec![AttributeShape::Str("role".to_string()), AttributeShape::NotString])
            .unwrap(),
        Some("role".to_string())
    );
    assert!(matches!(renamed_field(&vec![AttributeShape::NotString]), Err(RenameError::NotString)));
    assert!(matches!(renamed_field(&vec![AttributeShape::NotLiteral]), Err(RenameError::NotLiteral)));
    assert!(matches!(
        renamed_field(&vec![AttributeShape::NotNameValue]),
        Err(RenameError::NotNameValue)
    ));
    assert_eq!(RenameError::NotNameValue.message(), "Invalid symbol. Rename only allows \"=\"");
    assert_eq!(
        RenameError::NotLiteral.message(),
        "Invalid Expression. Rename only allows strings using \"=\""
    );
    assert_eq!(RenameError::NotString.message(), "Invalid value. Rename only allows strings");
}

#[test]
fn mapping_of_a_renamed_struct() {
    let fields = vec![
        field("id", vec![], path(&["i32"])),
        field("title", vec![AttributeShape::Str("name".to_string())], path(&["String"])),
        field("cover", vec![], path(&["Option"])),
    ];
    let m = from_row_mapping(
        &"DbBook".to_string(),
        &vec![AttributeShape::Str("book".to_string())],
        &DataShape::Named(fields),
    )
    .unwrap();
    assert_eq!(m.table_name, "book");
    assert_eq!(m.columns, vec!["id", "name", "cover"]);
    assert_eq!(m.column_count, 3);
    let reads: Vec<(String, usize, bool)> =
        m.reads.iter().map(|r| (r.field.clone(), r.index, r.fallible)).collect();
    assert_eq!(
        reads,
        vec![("id".to_string(), 0, false), ("title".to_string(), 1, false), ("cover".to_string(), 2, false)]
    );
    let optional: Vec<(String, usize, bool)> =
        m.optional_reads.iter().map(|r| (r.field.clone(), r.index, r.fallible)).collect();
    assert_eq!(
        optional,
        vec![("id".to_string(), 0, true), ("title".to_string(), 1, true), ("cover".to_string(), 2, false)]
    );
}

#[test]
fn mapping_without_rename_uses_the_struct_name() {
    let m = from_row_mapping(&"DbRole".to_string(), &vec![], &DataShape::Named(vec![])).unwrap();
    assert_eq!(m.table_name, "DbRole");
    assert!(m.columns.is_empty());
    assert_eq!(m.column_count, 0);
}

#[test]
fn mapping_errors() {
    let name = "X".to_string();
    assert!(matches!(from_row_mapping(&name, &vec![], &DataShape::NotStruct), Err(MappingError::NotStruct)));
    assert!(matches!(from_row_mapping(&name, &vec![], &DataShape::Unnamed), Err(MappingError::NotNamed)));
    let bad_field = DataShape::Named(vec![
        field("a", vec![], path(&["i32"])),
        field("b", vec![AttributeShape::NotLiteral], path(&["i32"])),
    ]);
    let err = from_row_mapping(&name, &vec![AttributeShape::NotString], &bad_field).err().unwrap();
    assert!(matches!(err, MappingError::Rename(RenameError::NotLiteral)));
    let bad_struct = DataShape::Named(vec![field("a", vec![], path(&["i32"]))]);
    let err = from_row_mapping(&name, &vec![AttributeShape::NotNameValue], &bad_struct).err().unwrap();
    assert!(matches!(err, MappingError::Rename(RenameError::NotNameValue)));
    assert_eq!(MappingError::NotStruct.message(), "FromRow is only supported for structs!");
    assert_eq!(MappingError::NotNamed.message(), "FromRow only supports named fields.");
}

#[test]
fn columns_and_reads_of_idents() {
    let fields = vec![
        field("a", vec![AttributeShape::Str("x".to_string())], path(&["Option"])),
        field("b", vec![], path(&["u8"])),
    ];
    let mapping = db_column_idents(&fields).ok().unwrap();
    assert_eq!(column_names(&mapping), vec!["x", "b"]);
    let (reads, optional) = field_reads(&mapping);
    assert_eq!(reads.len(), 2);
    assert!(!optional[0].fallible);
    assert!(optional[1].fallible);
}

fn tokens(items: &[&str]) -> Vec<TokenShape> {
    let mut v = Vec::new();
    for i in items {
        if *i == "," {
            v.push(TokenShape::Other);
        } else {
            v.push(TokenShape::Ident(i.to_string()));
        }
    }
    v
}

#[test]
fn query_row_items_mark_optional_types() {
    let items = query_row_items(&tokens(&["row", ",", "DbRole", ",", "Option", "DbRoleTranslation"]));
    assert_eq!(
        items,
        vec![
            ("row".to_string(), false),
            ("DbRole".to_string(), false),
            ("DbRoleTranslation".to_string(), true)
        ]
    );
}

#[test]
fn query_row_items_stop_at_a_trailing_option() {
    let items = query_row_items(&tokens(&["row", ",", "A", ",", "Option"]));
    assert_eq!(items, vec![("row".to_string(), false), ("A".to_string(), false)]);
    assert!(query_row_items(&tokens(&[","])).is_empty());
}

#[test]
fn validation_query_reads_no_row() {
    let columns = vec!["id".to_string(), "name".to_string()];
    assert_eq!(validation_query(&columns, &"role".to_string()), "SELECT id,name FROM role LIMIT 0");
    assert_eq!(validation_query(&vec![], &"t".to_string()), "SELECT  FROM t LIMIT 0");
}
