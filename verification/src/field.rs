//! Selectors for fields in (possibly nested) struct types.
//!
//! A `Field` selects a direct child field of a struct, by name or by position; a `FieldPath`
//! selects a nested field by a sequence of such selectors.

use vstd::prelude::*;

verus! {

/// A selector for a field in a struct.
#[derive(Clone, Debug, PartialEq, Eq, Hash)]
pub enum Field {
    /// A field selector by name.
    Name(String),
    /// A field selector by index (position).
    Index(usize),
}

/// A path through a (possibly nested) struct, made of a sequence of field selectors.
#[derive(Clone, Debug, PartialEq, Eq, Hash)]
pub struct FieldPath(Vec<Field>);

/// The character for a decimal digit.
pub open spec fn digit_char(d: nat) -> char {
    if d == 0 {
        '0'
    } else if d == 1 {
        '1'
    } else if d == 2 {
        '2'
    } else if d == 3 {
        '3'
    } else if d == 4 {
        '4'
    } else if d == 5 {
        '5'
    } else if d == 6 {
        '6'
    } else if d == 7 {
        '7'
    } else if d == 8 {
        '8'
    } else {
        '9'
    }
}

/// The decimal representation of `n`, without leading zeros.
pub open spec fn decimal(n: nat) -> Seq<char>
    decreases n,
{
    if n < 10 {
        seq![digit_char(n)]
    } else {
        decimal(n / 10).push(digit_char(n % 10))
    }
}

/// How a field selector is written: `$name` for a name, `[index]` for a position.
pub open spec fn field_text(f: Field) -> Seq<char> {
    match f {
        Field::Name(name) => seq!['$'] + name@,
        Field::Index(index) => seq!['['] + decimal(index as nat) + seq![']'],
    }
}

/// How a path is written: its selectors joined by `.`; the root path is written as nothing.
pub open spec fn path_text(fields: Seq<Field>) -> Seq<char>
    decreases fields.len(),
{
    if fields.len() == 0 {
        Seq::empty()
    } else if fields.len() == 1 {
        field_text(fields[0])
    } else {
        path_text(fields.drop_last()) + seq!['.'] + field_text(fields.last())
    }
}

/// Appends the decimal digit `d`.
fn push_digit(s: &mut String, d: usize)
    requires
        d < 10,
    ensures
        final(s)@ == old(s)@.push(digit_char(d as nat)),
{
    let text = if d == 0 {
        "0"
    } else if d == 1 {
        "1"
    } else if d == 2 {
        "2"
    } else if d == 3 {
        "3"
    } else if d == 4 {
        "4"
    } else if d == 5 {
        "5"
    } else if d == 6 {
        "6"
    } else if d == 7 {
        "7"
    } else if d == 8 {
        "8"
    } else {
        "9"
    };
    proof {
        reveal_strlit("0");
        reveal_strlit("1");
        reveal_strlit("2");
        reveal_strlit("3");
        reveal_strlit("4");
        reveal_strlit("5");
        reveal_strlit("6");
        reveal_strlit("7");
        reveal_strlit("8");
        reveal_strlit("9");
    }
    s.append(text);
    assert(s@ =~= old(s)@.push(digit_char(d as nat)));
}

/// Appends the decimal representation of `n`.
fn push_decimal(s: &mut String, n: usize)
    ensures
        final(s)@ == old(s)@ + decimal(n as nat),
    decreases n,
{
    if n >= 10 {
        push_decimal(s, n / 10);
    }
    push_digit(s, n % 10);
    assert(s@ =~= old(s)@ + decimal(n as nat));
}

impl Field {
    /// This selector as text: `$name` for a name, `[index]` for a position.
    pub fn to_string(&self) -> (r: String)
        ensures
            r@ == field_text(*self),
    {
        let mut s = String::new();
        match self {
            Field::Name(name) => {
                proof {
                    reveal_strlit("$");
                }
                s.append("$");
                s.append(name.as_str());
            },
            Field::Index(index) => {
                proof {
                    reveal_strlit("[");
                    reveal_strlit("]");
                }
                s.append("[");
                push_decimal(&mut s, *index);
                s.append("]");
            },
        }
        assert(s@ =~= field_text(*self));
        s
    }
}

impl From<&str> for Field {
    /// A selector by the given name.
    fn from(value: &str) -> (r: Self)
        ensures
            r matches Field::Name(name) && name@ == value@,
    {
        Field::Name(value.to_owned())
    }
}

impl vstd::std_specs::convert::FromSpecImpl<&str> for Field {
    open spec fn obeys_from_spec() -> bool {
        false
    }

    closed spec fn from_spec(v: &str) -> Field {
        arbitrary()
    }
}

impl From<String> for Field {
    /// A selector by the given name.
    fn from(value: String) -> (r: Self) {
        Field::Name(value)
    }
}

impl vstd::std_specs::convert::FromSpecImpl<String> for Field {
    open spec fn obeys_from_spec() -> bool {
        true
    }

    open spec fn from_spec(v: String) -> Field {
        Field::Name(v)
    }
}

impl From<usize> for Field {
    /// A selector by the given position.
    fn from(value: usize) -> (r: Self) {
        Field::Index(value)
    }
}

impl vstd::std_specs::convert::FromSpecImpl<usize> for Field {
    open spec fn obeys_from_spec() -> bool {
        true
    }

    open spec fn from_spec(v: usize) -> Field {
        Field::Index(v)
    }
}

impl View for FieldPath {
    type V = Seq<Field>;

    closed spec fn view(&self) -> Seq<Field> {
        self.0@
    }
}

/// std's `impl<T> From<T> for T`: converting a value into its own type hands back the value
/// unchanged, as std documents ("Returns the argument unchanged").
pub assume_specification<Same>[ <Same as core::convert::From<Same>>::from ](value: Same) -> (r: Same)
    ensures
        r == value,
;

impl FieldPath {
    /// A path of a single selector, selecting a direct child field of the top-level struct.
    pub fn from_name<F: Into<Field>>(name: F) -> (r: Self)
        ensures
            r@.len() == 1,
            call_ensures(F::into, (name,), r@[0]),
    {
        let field: Field = name.into();
        let mut fields: Vec<Field> = Vec::new();
        fields.push(field);
        FieldPath(fields)
    }

    /// The empty, or root, path.
    pub fn empty() -> (r: Self)
        ensures
            r@ == Seq::<Field>::empty(),
    {
        FieldPath(Vec::new())
    }

    /// The path that selects the top-level struct itself.
    pub fn root() -> (r: Self)
        ensures
            r@ == Seq::<Field>::empty(),
    {
        FieldPath(Vec::new())
    }

    /// The sequence of selectors that make up this path.
    pub fn path(&self) -> (r: &[Field])
        ensures
            r@ == self@,
    {
        self.0.as_slice()
    }

    /// Pushes a new selector to the end of this path.
    pub fn push<F: Into<Field>>(&mut self, field: F)
        ensures
            final(self)@.len() == old(self)@.len() + 1,
            final(self)@.subrange(0, old(self)@.len() as int) == old(self)@,
            call_ensures(F::into, (field,), final(self)@.last()),
    {
        let f: Field = field.into();
        self.0.push(f);
        assert(self@.subrange(0, old(self)@.len() as int) =~= old(self)@);
    }

    /// Whether this is the root, empty, path.
    pub fn is_empty(&self) -> (r: bool)
        ensures
            r == (self@.len() == 0),
    {
        self.0.len() == 0
    }

    /// The number of selectors in this path; the root path has length zero.
    pub fn len(&self) -> (r: usize)
        ensures
            r == self@.len(),
    {
        self.0.len()
    }

    /// This path as text: its selectors joined by `.`.
    pub fn to_string(&self) -> (r: String)
        ensures
            r@ == path_text(self@),
    {
        let mut s = String::new();
        let n = self.0.len();
        let mut i: usize = 0;
        proof {
            reveal_strlit(".");
        }
        while i < n
            invariant
                n == self@.len(),
                0 <= i <= n,
                s@ == path_text(self@.subrange(0, i as int)),
            decreases n - i,
        {
            let ghost before = s@;
            proof {
                reveal_strlit(".");
            }
            if i > 0 {
                s.append(".");
            }
            let t = self.0[i].to_string();
            s.append(t.as_str());
            proof {
                let pre = self@.subrange(0, i + 1);
                assert(pre.drop_last() =~= self@.subrange(0, i as int));
                assert(pre.last() == self@[i as int]);
                assert(t@ == field_text(self@[i as int]));
                if i == 0 {
                    assert(self@.subrange(0, 0) =~= Seq::<Field>::empty());
                    assert(before =~= Seq::<char>::empty());
                    assert(s@ =~= field_text(pre[0]));
                } else {
                    assert(s@ =~= before + seq!['.'] + field_text(pre.last()));
                }
            }
            i = i + 1;
        }
        assert(self@.subrange(0, n as int) =~= self@);
        s
    }
}

impl From<Field> for FieldPath {
    /// The path of the single selector `value`.
    fn from(value: Field) -> (r: Self)
        ensures
            r@ == seq![value],
    {
        let mut fields: Vec<Field> = Vec::new();
        fields.push(value);
        let r = FieldPath(fields);
        assert(r@ =~= seq![value]);
        r
    }
}

impl vstd::std_specs::convert::FromSpecImpl<Field> for FieldPath {
    open spec fn obeys_from_spec() -> bool {
        false
    }

    closed spec fn from_spec(v: Field) -> FieldPath {
        arbitrary()
    }
}

impl From<Vec<Field>> for FieldPath {
    /// The path of the selectors `value`, in order.
    fn from(value: Vec<Field>) -> (r: Self)
        ensures
            r@ == value@,
    {
        FieldPath(value)
    }
}

impl vstd::std_specs::convert::FromSpecImpl<Vec<Field>> for FieldPath {
    open spec fn obeys_from_spec() -> bool {
        true
    }

    closed spec fn from_spec(v: Vec<Field>) -> FieldPath {
        FieldPath(v)
    }
}

impl AsRef<[Field]> for FieldPath {
    /// The selectors of this path.
    fn as_ref(&self) -> (r: &[Field])
        ensures
            r@ == self@,
    {
        self.0.as_slice()
    }
}

} // verus!
