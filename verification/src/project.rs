//! Looking up fields of a serialized struct schema by name or by position.
//!
//! A serialized struct schema lists the names of its fields and, in parallel, their types;
//! either list may be missing from a damaged schema.

use vstd::prelude::*;

use crate::field::Field;

verus! {

/// A struct schema as it is read from its serialized form: the field names and the field types,
/// each list of which may be missing; a field type that does not decode is `None`.
pub struct StructSchema<D> {
    pub names: Option<Vec<String>>,
    pub dtypes: Option<Vec<Option<D>>>,
    pub nullable: bool,
}

/// Information about a field in a struct schema.
pub struct FieldInfo<D> {
    /// The position of the field within the enclosing struct.
    pub index: usize,
    /// The name of the field.
    pub name: String,
    /// The type of the field.
    pub dtype: D,
}

/// Why a field could not be looked up.
#[derive(Clone, Debug, PartialEq, Eq)]
pub enum SchemaError {
    /// The schema lists no field names.
    MissingFieldNames,
    /// The schema lists no field types.
    MissingDTypes,
    /// No field has the given name.
    UnknownFieldName(String),
    /// The given position is past the last field.
    IndexOutOfBounds(usize),
    /// The top-level type is not a struct.
    NotAStruct,
    /// The type of the field at this position does not decode.
    InvalidDType(usize),
}

/// A struct type restricted to a projection: the selected fields' names and types, in the
/// order of the projection.
pub struct ProjectedStruct<D> {
    pub names: Vec<String>,
    pub dtypes: Vec<D>,
    pub nullable: bool,
}

/// The names as character sequences.
pub open spec fn name_texts(names: Seq<String>) -> Seq<Seq<char>> {
    names.map_values(|s: String| s@)
}

/// The position of the first of `names` equal to `name`, if any.
pub open spec fn position_of(names: Seq<Seq<char>>, name: Seq<char>) -> Option<int>
    decreases names.len(),
{
    if names.len() == 0 {
        None
    } else {
        match position_of(names.drop_last(), name) {
            Some(i) => Some(i),
            None => if names.last() == name {
                Some(names.len() - 1)
            } else {
                None
            },
        }
    }
}

/// `position_of` finds the first equal name, and finds none only when none is equal.
pub proof fn lemma_position_of(names: Seq<Seq<char>>, name: Seq<char>)
    ensures
        position_of(names, name) matches Some(i) ==> 0 <= i < names.len() && names[i] == name
            && forall|j: int| 0 <= j < i ==> names[j] != name,
        position_of(names, name) is None ==> forall|j: int|
            0 <= j < names.len() ==> names[j] != name,
    decreases names.len(),
{
    if names.len() > 0 {
        let front = names.drop_last();
        lemma_position_of(front, name);
        assert forall|j: int| 0 <= j < front.len() implies front[j] == names[j] by {}
    }
}

impl<D> StructSchema<D> {
    /// Where both lists are present, there is a type for every name.
    pub open spec fn wf(&self) -> bool {
        self.names matches Some(n) ==> self.dtypes matches Some(d) ==> d@.len() >= n@.len()
    }
}

/// The position of the first of `names` equal to `name`.
fn find_name(names: &Vec<String>, name: &String) -> (r: Result<usize, SchemaError>)
    ensures
        match r {
            Ok(i) => position_of(name_texts(names@), name@) == Some(i as int),
            Err(e) => position_of(name_texts(names@), name@) is None && (e matches SchemaError::UnknownFieldName(n) && n@ == name@),
        },
{
    let ghost texts = name_texts(names@);
    let mut i: usize = 0;
    while i < names.len()
        invariant
            texts == name_texts(names@),
            0 <= i <= names@.len(),
            position_of(texts.subrange(0, i as int), name@) is None,
        decreases names@.len() - i,
    {
        let ghost pre = texts.subrange(0, i + 1);
        assert(pre.drop_last() =~= texts.subrange(0, i as int));
        if names[i] == *name {
            proof {
                lemma_position_prefix(texts, name@, i as int);
            }
            return Ok(i);
        }
        i = i + 1;
    }
    assert(texts.subrange(0, names@.len() as int) =~= texts);
    Err(SchemaError::UnknownFieldName(name.clone()))
}

/// If the first `i` names hold no match and name `i` does, the first match is at `i`.
proof fn lemma_position_prefix(names: Seq<Seq<char>>, name: Seq<char>, i: int)
    requires
        0 <= i < names.len(),
        position_of(names.subrange(0, i), name) is None,
        names[i] == name,
    ensures
        position_of(names, name) == Some(i),
{
    lemma_position_extend(names, name, i + 1);
    assert(names.subrange(0, i + 1).drop_last() =~= names.subrange(0, i));
}

/// A match in a prefix is the match of the whole sequence.
proof fn lemma_position_extend(names: Seq<Seq<char>>, name: Seq<char>, k: int)
    requires
        0 <= k <= names.len(),
        position_of(names.subrange(0, k), name) is Some,
    ensures
        position_of(names, name) == position_of(names.subrange(0, k), name),
    decreases names.len() - k,
{
    if k < names.len() {
        assert(names.subrange(0, k + 1).drop_last() =~= names.subrange(0, k));
        lemma_position_extend(names, name, k + 1);
    } else {
        assert(names.subrange(0, k) =~= names);
    }
}

/// The position the field selector stands for, before checking it against the types: a name's
/// first position, or the given position if it is within the names.
pub open spec fn field_position(names: Seq<Seq<char>>, field: Field) -> Option<int> {
    match field {
        Field::Name(n) => position_of(names, n@),
        Field::Index(i) => if i < names.len() {
            Some(i as int)
        } else {
            None
        },
    }
}

/// Information about the field that `field` selects, by name or by position.
///
/// Fails when the schema lists no names, when no field has the name or the position is past
/// the last field, or when the schema lists no types.
pub fn field_info<D: Copy>(schema: &StructSchema<D>, field: &Field) -> (r: Result<
    FieldInfo<Option<D>>,
    SchemaError,
>)
    requires
        schema.wf(),
    ensures
        match schema.names {
            None => r == Err::<FieldInfo<Option<D>>, SchemaError>(SchemaError::MissingFieldNames),
            Some(names) => match field_position(name_texts(names@), *field) {
                None => match *field {
                    Field::Name(n) => r matches Err(SchemaError::UnknownFieldName(m)) && m@ == n@,
                    Field::Index(i) => r == Err::<FieldInfo<Option<D>>, SchemaError>(
                        SchemaError::IndexOutOfBounds(i),
                    ),
                },
                Some(i) => match schema.dtypes {
                    None => r == Err::<FieldInfo<Option<D>>, SchemaError>(SchemaError::MissingDTypes),
                    Some(dtypes) => r matches Ok(info) && info.index == i && info.name
                        == names@[i] && info.dtype == dtypes@[i],
                },
            },
        },
{
    let names = match &schema.names {
        Some(names) => names,
        None => return Err(SchemaError::MissingFieldNames),
    };
    let index = match field {
        Field::Name(name) => match find_name(names, name) {
            Ok(i) => i,
            Err(e) => return Err(e),
        },
        Field::Index(index) => {
            if *index >= names.len() {
                return Err(SchemaError::IndexOutOfBounds(*index));
            }
            *index
        },
    };
    proof {
        lemma_position_of(name_texts(names@), match field {
            Field::Name(n) => n@,
            Field::Index(_) => Seq::empty(),
        });
        assert(names@.len() == name_texts(names@).len());
        assert(index == field_position(name_texts(names@), *field).unwrap());
    }
    let name = names[index].clone();
    match &schema.dtypes {
        Some(dtypes) => Ok(FieldInfo { index, name, dtype: dtypes[index] }),
        None => Err(SchemaError::MissingDTypes),
    }
}

/// The position that `field` selects: a name's first position (failing when the schema lists
/// no names or no field has the name), or the given position, unchecked.
pub fn resolve_field<D>(schema: &StructSchema<D>, field: &Field) -> (r: Result<usize, SchemaError>)
    ensures
        match *field {
            Field::Index(i) => r == Ok::<usize, SchemaError>(i),
            Field::Name(n) => match schema.names {
                None => r == Err::<usize, SchemaError>(SchemaError::MissingFieldNames),
                Some(names) => match r {
                    Ok(i) => position_of(name_texts(names@), n@) == Some(i as int),
                    Err(e) => position_of(name_texts(names@), n@) is None && (e matches SchemaError::UnknownFieldName(m) && m@ == n@),
                },
            },
        },
{
    match field {
        Field::Name(n) => match &schema.names {
            Some(names) => find_name(names, n),
            None => Err(SchemaError::MissingFieldNames),
        },
        Field::Index(i) => Ok(*i),
    }
}

/// The name and the decoded type of the field at position `idx`.
///
/// Fails when the schema lists no names or no types, or when the field's type does not decode.
/// The position must be within the lists that are present.
pub fn read_field<D: Copy>(schema: &StructSchema<D>, idx: usize) -> (r: Result<
    (String, D),
    SchemaError,
>)
    requires
        schema.names matches Some(n) ==> idx < n@.len() && (schema.dtypes matches Some(d) ==> idx
            < d@.len()),
    ensures
        match (schema.names, schema.dtypes) {
            (None, _) => r == Err::<(String, D), SchemaError>(SchemaError::MissingFieldNames),
            (Some(_), None) => r == Err::<(String, D), SchemaError>(SchemaError::MissingDTypes),
            (Some(n), Some(d)) => match d@[idx as int] {
                Some(t) => r == Ok::<(String, D), SchemaError>((n@[idx as int], t)),
                None => r == Err::<(String, D), SchemaError>(SchemaError::InvalidDType(idx)),
            },
        },
{
    let name = match &schema.names {
        Some(names) => names[idx].clone(),
        None => return Err(SchemaError::MissingFieldNames),
    };
    let dtype = match &schema.dtypes {
        Some(dtypes) => match dtypes[idx] {
            Some(t) => t,
            None => return Err(SchemaError::InvalidDType(idx)),
        },
        None => return Err(SchemaError::MissingDTypes),
    };
    Ok((name, dtype))
}

/// The position a selector resolves to: a name's first position, or the given position.
pub open spec fn resolved_position(names: Seq<Seq<char>>, field: Field) -> Option<int> {
    match field {
        Field::Name(n) => position_of(names, n@),
        Field::Index(i) => Some(i as int),
    }
}

/// A selector resolves, and the type of the field it selects decodes.
pub open spec fn reads<D>(names: Seq<Seq<char>>, dtypes: Seq<Option<D>>, field: Field) -> bool {
    resolved_position(names, field) matches Some(p) && dtypes[p] is Some
}

/// Every selector of the projection resolves to a field whose type decodes.
pub open spec fn all_read<D>(names: Seq<Seq<char>>, dtypes: Seq<Option<D>>, projection: Seq<Field>) -> bool {
    forall|k: int| 0 <= k < projection.len() ==> #[trigger] reads(names, dtypes, projection[k])
}

/// The position in the projection of the first selector that does not resolve to a field
/// whose type decodes.
pub open spec fn first_failing<D>(names: Seq<Seq<char>>, dtypes: Seq<Option<D>>, projection: Seq<Field>) -> int
    decreases projection.len(),
{
    if projection.len() == 0 {
        0
    } else if !reads(names, dtypes, projection[0]) {
        0
    } else {
        1 + first_failing(names, dtypes, projection.drop_first())
    }
}

/// Deserialize a struct schema selecting only the fields of `projection`, in its order.
///
/// Fails when the top-level type is not a struct; when the projection is not empty and the
/// schema lists no names; when the schema lists no types (or, before that is found, the first
/// selector names no field); or, at the first selector that fails, when it names no field or
/// the type of its field does not decode. A position given in the projection must be within
/// the names.
pub fn deserialize_and_project<D: Copy>(top_level: Option<&StructSchema<D>>, projection: &[Field]) -> (r: Result<
    ProjectedStruct<D>,
    SchemaError,
>)
    requires
        top_level matches Some(schema) ==> schema.wf(),
        top_level matches Some(schema) ==> schema.names matches Some(n) ==> forall|k: int|
            0 <= k < projection@.len() ==> (#[trigger] projection@[k] matches Field::Index(i)
                ==> i < n@.len()),
    ensures
        match top_level {
            None => r matches Err(SchemaError::NotAStruct),
            Some(schema) => if projection@.len() == 0 {
                r matches Ok(p) && p.names@.len() == 0 && p.dtypes@.len() == 0 && p.nullable
                    == schema.nullable
            } else {
                match schema.names {
                    None => r matches Err(SchemaError::MissingFieldNames),
                    Some(names) => {
                        let texts = name_texts(names@);
                        match schema.dtypes {
                            None => if resolved_position(texts, projection@[0]) is None {
                                r matches Err(SchemaError::UnknownFieldName(m)) && projection@[0] matches Field::Name(n) && m@ == n@
                            } else {
                                r matches Err(SchemaError::MissingDTypes)
                            },
                            Some(dtypes) => if all_read(texts, dtypes@, projection@) {
                                r matches Ok(p) && p.nullable == schema.nullable && p.names@.len()
                                    == projection@.len() && p.dtypes@.len() == projection@.len()
                                    && forall|k: int|
                                    0 <= k < projection@.len() ==> {
                                        let pos = resolved_position(texts, #[trigger] projection@[k]).unwrap();
                                        p.names@[k] == names@[pos] && Some(p.dtypes@[k]) == dtypes@[pos]
                                    }
                            } else {
                                let k0 = first_failing(texts, dtypes@, projection@);
                                match resolved_position(texts, projection@[k0]) {
                                    None => r matches Err(SchemaError::UnknownFieldName(m)) && projection@[k0] matches Field::Name(n) && m@ == n@,
                                    Some(pos) => r == Err::<ProjectedStruct<D>, SchemaError>(SchemaError::InvalidDType(pos as usize)),
                                }
                            },
                        }
                    },
                }
            },
        },
{
    let schema = match top_level {
        Some(s) => s,
        None => return Err(SchemaError::NotAStruct),
    };
    let nullable = schema.nullable;
    let mut names: Vec<String> = Vec::new();
    let mut dtypes: Vec<D> = Vec::new();
    let n = projection.len();
    let mut k: usize = 0;
    while k < n
        invariant
            n == projection@.len(),
            0 <= k <= n,
            top_level == Some(schema),
            schema.wf(),
            schema.names matches Some(ns) ==> forall|j: int|
                0 <= j < projection@.len() ==> (#[trigger] projection@[j] matches Field::Index(i)
                    ==> i < ns@.len()),
            k > 0 ==> schema.names is Some && schema.dtypes is Some,
            names@.len() == k,
            dtypes@.len() == k,
            schema.names matches Some(ns) ==> schema.dtypes matches Some(ds) ==> forall|j: int|
                0 <= j < k ==> {
                    let pos = resolved_position(name_texts(ns@), #[trigger] projection@[j]);
                    reads(name_texts(ns@), ds@, projection@[j]) && names@[j] == ns@[pos.unwrap()]
                        && Some(dtypes@[j]) == ds@[pos.unwrap()]
                },
        decreases n - k,
    {
        let idx = match resolve_field(schema, &projection[k]) {
            Ok(i) => i,
            Err(e) => {
                proof {
                    if let Some(ns) = &schema.names {
                        if let Some(ds) = &schema.dtypes {
                            lemma_first_failing(name_texts(ns@), ds@, projection@, k as int);
                        }
                    }
                }
                return Err(e);
            },
        };
        proof {
            lemma_position_bound(schema, projection@[k as int], idx);
        }
        let (name, dtype) = match read_field(schema, idx) {
            Ok(field) => field,
            Err(e) => {
                proof {
                    if let Some(ns) = &schema.names {
                        assert(resolved_position(name_texts(ns@), projection@[k as int]) is Some);
                        if let Some(ds) = &schema.dtypes {
                            lemma_first_failing(name_texts(ns@), ds@, projection@, k as int);
                        } else {
                            assert(k == 0);
                        }
                    }
                }
                return Err(e);
            },
        };
        names.push(name);
        dtypes.push(dtype);
        k = k + 1;
    }
    Ok(ProjectedStruct { names, dtypes, nullable })
}

/// A resolved position of a well-formed schema lies within its names.
proof fn lemma_position_bound<D>(schema: &StructSchema<D>, field: Field, idx: usize)
    requires
        schema.names matches Some(ns) ==> (field matches Field::Index(i) ==> i < ns@.len()),
        schema.names matches Some(ns) ==> resolved_position(name_texts(ns@), field) == Some(idx as int),
    ensures
        schema.names matches Some(ns) ==> idx < ns@.len(),
{
    if let Some(ns) = schema.names {
        lemma_position_of(name_texts(ns@), match field {
            Field::Name(n) => n@,
            Field::Index(_) => Seq::empty(),
        });
    }
}

/// When the first `k` selectors read and selector `k` does not, `k` is the first that fails.
proof fn lemma_first_failing<D>(
    names: Seq<Seq<char>>,
    dtypes: Seq<Option<D>>,
    projection: Seq<Field>,
    k: int,
)
    requires
        0 <= k < projection.len(),
        forall|j: int| 0 <= j < k ==> #[trigger] reads(names, dtypes, projection[j]),
        !reads(names, dtypes, projection[k]),
    ensures
        first_failing(names, dtypes, projection) == k,
        !all_read(names, dtypes, projection),
    decreases k,
{
    if k > 0 {
        let rest = projection.drop_first();
        assert(reads(names, dtypes, projection[0]));
        assert forall|j: int| 0 <= j < k - 1 implies #[trigger] reads(names, dtypes, rest[j]) by {
            assert(rest[j] == projection[j + 1]);
        }
        assert(rest[k - 1] == projection[k]);
        lemma_first_failing(names, dtypes, rest, k - 1);
    }
}

} // verus!
