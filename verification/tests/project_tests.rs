use vortex_core::field::Field;
use vortex_core::project::{
    deserialize_and_project, field_info, read_field, resolve_field, SchemaError, StructSchema,
};

fn schema() -> StructSchema<u8> {
    StructSchema {
        names: Some(vec!["a".to_string(), "b".to_string(), "a".to_string()]),
        dtypes: Some(vec![Some(10), Some(20), Some(30)]),
        nullable: true,
    }
}

#[test]
fn field_info_by_name_and_index() {
    let s = schema();
    let info = field_info(&s, &Field::from("b")).unwrap();
    assert_eq!((info.index, info.name.as_str(), info.dtype), (1, "b", Some(20)));
    // the first field of a repeated name
    let info = field_info(&s, &Field::from("a")).unwrap();
    assert_eq!((info.index, info.dtype), (0, Some(10)));
    let info = field_info(&s, &Field::Index(2)).unwrap();
    assert_eq!((info.index, info.name.as_str(), info.dtype), (2, "a", Some(30)));
}

#[test]
fn field_info_errors() {
    let s = schema();
    assert_eq!(
        field_info(&s, &Field::from("z")).err(),
        Some(SchemaError::UnknownFieldName("z".to_string()))
    );
    assert_eq!(field_info(&s, &Field::Index(3)).err(), Some(SchemaError::IndexOutOfBounds(3)));
    let no_names: StructSchema<u8> = StructSchema { names: None, dtypes: Some(vec![Some(1)]), nullable: false };
    assert_eq!(field_info(&no_names, &Field::Index(0)).err(), Some(SchemaError::MissingFieldNames));
    let no_types: StructSchema<u8> = StructSchema { names: Some(vec!["a".to_string()]), dtypes: None, nullable: false };
    assert_eq!(field_info(&no_types, &Field::Index(0)).err(), Some(SchemaError::MissingDTypes));
    assert_eq!(
        field_info(&no_types, &Field::from("q")).err(),
        Some(SchemaError::UnknownFieldName("q".to_string()))
    );
}

#[test]
fn resolve_field_by_name_and_index() {
    let s = schema();
    assert_eq!(resolve_field(&s, &Field::from("b")), Ok(1));
    assert_eq!(resolve_field(&s, &Field::from("a")), Ok(0));
    assert_eq!(resolve_field(&s, &Field::Index(17)), Ok(17));
    assert_eq!(
        resolve_field(&s, &Field::from("c")),
        Err(SchemaError::UnknownFieldName("c".to_string()))
    );
    let no_names: StructSchema<u8> = StructSchema { names: None, dtypes: None, nullable: false };
    assert_eq!(resolve_field(&no_names, &Field::from("a")), Err(SchemaError::MissingFieldNames));
    assert_eq!(resolve_field(&no_names, &Field::Index(1)), Ok(1));
}

#[test]
fn read_field_reads_name_and_type() {
    let s = schema();
    assert_eq!(read_field(&s, 1), Ok(("b".to_string(), 20)));
    let no_types: StructSchema<u8> = StructSchema { names: Some(vec!["a".to_string()]), dtypes: None, nullable: false };
    assert_eq!(read_field(&no_types, 0), Err(SchemaError::MissingDTypes));
    let no_names: StructSchema<u8> = StructSchema { names: None, dtypes: Some(vec![Some(1)]), nullable: false };
    assert_eq!(read_field(&no_names, 0), Err(SchemaError::MissingFieldNames));
    let bad_type: StructSchema<u8> = StructSchema {
        names: Some(vec!["a".to_string(), "b".to_string()]),
        dtypes: Some(vec![Some(1), None]),
        nullable: false,
    };
    assert_eq!(read_field(&bad_type, 0), Ok(("a".to_string(), 1)));
    assert_eq!(read_field(&bad_type, 1), Err(SchemaError::InvalidDType(1)));
    let info = field_info(&bad_type, &Field::from("b")).unwrap();
    assert_eq!((info.index, info.dtype), (1, None));
}

#[test]
fn projection_selects_fields_in_order() {
    let s = schema();
    let p = deserialize_and_project(Some(&s), &[Field::from("b"), Field::Index(0), Field::from("a")]).ok().unwrap();
    assert_eq!(p.names, vec!["b".to_string(), "a".to_string(), "a".to_string()]);
    assert_eq!(p.dtypes, vec![20, 10, 10]);
    assert!(p.nullable);
    let empty = deserialize_and_project(Some(&s), &[]).ok().unwrap();
    assert!(empty.names.is_empty() && empty.dtypes.is_empty());
}

#[test]
fn projection_errors() {
    let s = schema();
    assert_eq!(deserialize_and_project::<u8>(None, &[]).err(), Some(SchemaError::NotAStruct));
    assert_eq!(
        deserialize_and_project(Some(&s), &[Field::Index(1), Field::from("x"), Field::from("y")]).err(),
        Some(SchemaError::UnknownFieldName("x".to_string()))
    );
    let no_names: StructSchema<u8> = StructSchema { names: None, dtypes: None, nullable: false };
    assert_eq!(
        deserialize_and_project(Some(&no_names), &[Field::Index(0)]).err(),
        Some(SchemaError::MissingFieldNames)
    );
    let no_types: StructSchema<u8> = StructSchema { names: Some(vec!["a".to_string()]), dtypes: None, nullable: false };
    assert_eq!(
        deserialize_and_project(Some(&no_types), &[Field::from("a")]).err(),
        Some(SchemaError::MissingDTypes)
    );
    assert_eq!(
        deserialize_and_project(Some(&no_types), &[Field::from("b")]).err(),
        Some(SchemaError::UnknownFieldName("b".to_string()))
    );
    // the first selector that fails decides the error
    let bad_type: StructSchema<u8> = StructSchema {
        names: Some(vec!["a".to_string(), "b".to_string()]),
        dtypes: Some(vec![Some(1), None]),
        nullable: false,
    };
    assert_eq!(
        deserialize_and_project(Some(&bad_type), &[Field::from("a"), Field::from("b"), Field::from("z")]).err(),
        Some(SchemaError::InvalidDType(1))
    );
    assert_eq!(
        deserialize_and_project(Some(&bad_type), &[Field::from("z"), Field::from("b")]).err(),
        Some(SchemaError::UnknownFieldName("z".to_string()))
    );
    // more types than names are accepted
    let extra: StructSchema<u8> = StructSchema {
        names: Some(vec!["a".to_string()]),
        dtypes: Some(vec![Some(5), Some(6)]),
        nullable: false,
    };
    assert_eq!(deserialize_and_project(Some(&extra), &[Field::from("a")]).ok().unwrap().dtypes, vec![5]);
}
