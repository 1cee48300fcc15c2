//! An expression that selects a (possibly nested) column of a struct array by its path.

use vstd::prelude::*;

use crate::field::{path_text, Field, FieldPath};

verus! {

/// An expression selecting the column at a field path.
#[derive(Debug, PartialEq, Hash, Clone, Eq)]
pub struct Column {
    field_path: FieldPath,
}

impl Column {
    /// The path of the selected column.
    pub closed spec fn selected(&self) -> FieldPath {
        self.field_path
    }

    /// The column selected by a single field of the top-level struct.
    pub fn new(field: Field) -> (r: Self)
        ensures
            r.selected()@ == seq![field],
    {
        Column { field_path: FieldPath::from(field) }
    }

    /// The column selected by `field_path`.
    pub fn new_path(field_path: FieldPath) -> (r: Self)
        ensures
            r.selected() == field_path,
    {
        Column { field_path }
    }

    /// The path of the selected column.
    pub fn field_path(&self) -> (r: &FieldPath)
        ensures
            *r == self.selected(),
    {
        &self.field_path
    }

    /// This column as text: its field path.
    pub fn to_string(&self) -> (r: String)
        ensures
            r@ == path_text(self.selected()@),
    {
        self.field_path.to_string()
    }
}

/// A column made from a single field selects the path of that field alone, the same path as
/// the column made from `FieldPath::from_name` of the field, and as `FieldPath::from` the field:
/// for `c = Column::new(f)`, `p = FieldPath::from_name(f)`, `d = Column::new_path(p)` and
/// `q = FieldPath::from(f)`, the paths `c.field_path()`, `d.field_path()` and `q` are equal.
pub proof fn law_new_selects_path_of_name(
    f: Field,
    c: Column,
    p: FieldPath,
    d: Column,
    q: FieldPath,
)
    requires
        call_ensures(Column::new, (f,), c),
        call_ensures(FieldPath::from_name::<Field>, (f,), p),
        call_ensures(Column::new_path, (p,), d),
        call_ensures(<FieldPath as From<Field>>::from, (f,), q),
    ensures
        c.selected()@ == seq![f],
        d.selected()@ == c.selected()@,
        q@ == c.selected()@,
{
    assert(p@ =~= seq![f]);
}

impl From<String> for Column {
    /// The column selected by the field named `value`.
    fn from(value: String) -> (r: Self)
        ensures
            r.selected()@ == seq![Field::Name(value)],
    {
        Column::new(Field::Name(value))
    }
}

impl vstd::std_specs::convert::FromSpecImpl<String> for Column {
    open spec fn obeys_from_spec() -> bool {
        false
    }

    closed spec fn from_spec(v: String) -> Column {
        arbitrary()
    }
}

impl From<usize> for Column {
    /// The column selected by the field at position `value`.
    fn from(value: usize) -> (r: Self)
        ensures
            r.selected()@ == seq![Field::Index(value)],
    {
        Column::new(Field::Index(value))
    }
}

impl vstd::std_specs::convert::FromSpecImpl<usize> for Column {
    open spec fn obeys_from_spec() -> bool {
        false
    }

    closed spec fn from_spec(v: usize) -> Column {
        arbitrary()
    }
}

} // verus!
