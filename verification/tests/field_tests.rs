use vortex_core::column::Column;
use vortex_core::field::{Field, FieldPath};

#[test]
fn test_field_path() {
    let mut path = FieldPath::from_name("A");
    path.push("B");
    path.push("C");
    assert_eq!(path.to_string(), "$A.$B.$C");

    let fields = vec!["A", "B", "C"]
        .into_iter()
        .map(Field::from)
        .collect::<Vec<_>>();
    assert_eq!(path.path(), &fields);

    let vec_path = FieldPath::from(fields);
    assert_eq!(vec_path.to_string(), "$A.$B.$C");
    assert_eq!(path, vec_path);
}

#[test]
fn field_text_by_name_and_index() {
    assert_eq!(Field::from("x").to_string(), "$x");
    assert_eq!(Field::from(String::from("name")).to_string(), "$name");
    assert_eq!(Field::from(0usize).to_string(), "[0]");
    assert_eq!(Field::from(1234usize).to_string(), "[1234]");
    assert_eq!(Field::Index(usize::MAX).to_string(), format!("[{}]", usize::MAX));
}

#[test]
fn mixed_path_text() {
    let mut path = FieldPath::from_name(3usize);
    path.push("b");
    path.push(10usize);
    assert_eq!(path.to_string(), "[3].$b.[10]");
    assert_eq!(path.len(), 3);
    assert!(!path.is_empty());
}

#[test]
fn root_and_empty_paths() {
    let root = FieldPath::root();
    let empty = FieldPath::empty();
    assert!(root.is_empty());
    assert_eq!(root.len(), 0);
    assert_eq!(root, empty);
    assert_eq!(root.to_string(), "");
    assert_eq!(FieldPath::from(Field::Index(2)).path(), &[Field::Index(2)]);
}

#[test]
fn column_selects_its_path() {
    let c = Column::new(Field::from("a"));
    assert_eq!(c.field_path(), &FieldPath::from_name("a"));
    assert_eq!(c.to_string(), "$a");
    let d = Column::from(String::from("a"));
    assert_eq!(c, d);
    let e = Column::from(4usize);
    assert_eq!(e.to_string(), "[4]");
    let mut p = FieldPath::from_name("s");
    p.push("t");
    let f = Column::new_path(p.clone());
    assert_eq!(f.field_path(), &p);
    assert_eq!(f.to_string(), "$s.$t");
}

#[test]
fn column_new_selects_the_path_of_its_field() {
    let f = Field::from("x");
    let c = Column::new(f.clone());
    assert_eq!(c.field_path(), &FieldPath::from(f.clone()));
    assert_eq!(c, Column::new_path(FieldPath::from_name(f)));
    let g = Field::from(7usize);
    assert_eq!(Column::new(g.clone()), Column::new_path(FieldPath::from_name(g)));
}
