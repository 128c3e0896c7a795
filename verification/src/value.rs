//! The recursive value model a script file is read into.
use vstd::prelude::*;

verus! {

/// Specification-level mirror of [`ObjField`].
#[verifier::ext_equal]
pub struct FieldV {
    pub key: Seq<char>,
    pub val: ValueV,
}

/// Specification-level mirror of [`Value`].
#[verifier::ext_equal]
pub enum ValueV {
    /// The text of a single token, quotes stripped.
    Scalar(Seq<char>),
    /// A braced group of values without keys, in order.
    Array(Seq<ValueV>),
    /// A braced group of `key = value` fields, in order. Keys may repeat;
    /// repeats are preserved, never merged.
    Object(Seq<FieldV>),
    /// An empty brace pair, read as an explicitly absent value; distinct
    /// from an empty array.
    Absent,
}

/// One `key = value` field of an object.
pub struct ObjField {
    pub key: String,
    pub val: Value,
}

/// A value as read from a script file: a scalar token, a braced array, a
/// braced object of fields with duplicate keys preserved, or an empty
/// brace pair standing for an explicitly absent value.
pub enum Value {
    Scalar(String),
    Array(Vec<Value>),
    Object(Vec<ObjField>),
    Absent,
}

impl View for ObjField {
    type V = FieldV;

    open spec fn view(&self) -> FieldV
        decreases self,
    {
        FieldV { key: self.key@, val: self.val@ }
    }
}

impl View for Value {
    type V = ValueV;

    open spec fn view(&self) -> ValueV
        decreases self,
    {
        match self {
            Value::Scalar(s) => ValueV::Scalar(s@),
            Value::Array(items) => ValueV::Array(
                Seq::new(items@.len(), |i: int| if 0 <= i < items@.len() {
                    items@[i]@
                } else {
                    ValueV::Absent
                }),
            ),
            Value::Object(fields) => ValueV::Object(
                Seq::new(fields@.len(), |i: int| if 0 <= i < fields@.len() {
                    fields@[i]@
                } else {
                    FieldV { key: Seq::empty(), val: ValueV::Absent }
                }),
            ),
            Value::Absent => ValueV::Absent,
        }
    }
}

/// What the view of an array value holds, element by element.
pub proof fn lemma_array_view(v: &Value)
    requires
        v is Array,
    ensures
        v@ is Array,
        v@->Array_0.len() == v->Array_0@.len(),
        forall|i: int|
            0 <= i < v->Array_0@.len() ==> v@->Array_0[i] == #[trigger] v->Array_0@[i]@,
{
    match v {
        Value::Array(items) => {
            assert(v@ is Array);
            let s1 = v@->Array_0;
            assert(s1.len() == items@.len());
            assert(forall|i: int| 0 <= i < s1.len() ==> s1[i] == items@[i]@);
        },
        _ => {},
    }
}

/// What the view of an object value holds, field by field.
pub proof fn lemma_object_view(v: &Value)
    requires
        v is Object,
    ensures
        v@ is Object,
        v@->Object_0.len() == v->Object_0@.len(),
        forall|i: int|
            0 <= i < v->Object_0@.len() ==> v@->Object_0[i] == #[trigger] v->Object_0@[i]@,
{
    match v {
        Value::Object(fields) => {
            assert(v@ is Object);
            let s1 = v@->Object_0;
            assert(s1.len() == fields@.len());
            assert(forall|i: int| 0 <= i < s1.len() ==> s1[i] == fields@[i]@);
        },
        _ => {},
    }
}

} // verus!
