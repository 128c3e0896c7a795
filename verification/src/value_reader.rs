//! Typed coercions from the raw [`Value`] model into field values:
//! verbatim text, text lists, the duplicate-key list idiom, and the
//! multi-format color reader.
use vstd::prelude::*;
use crate::color::{Color, ColorV};
use crate::text::{is_float_text, parse_u64, spec_is_float_text, spec_parse_u64, ParsedUInt};
use crate::value::{FieldV, Value, ValueV};

verus! {

/// Reading a value as verbatim text: only a scalar qualifies.
pub open spec fn spec_read_string(v: ValueV) -> Option<Seq<char>> {
    match v {
        ValueV::Scalar(s) => Some(s),
        _ => None,
    }
}

/// Reading a value as a list of texts: an array of scalars, or an empty
/// brace pair which reads as the empty list.
pub open spec fn spec_read_string_array(v: ValueV) -> Option<Seq<Seq<char>>> {
    match v {
        ValueV::Absent => Some(Seq::empty()),
        ValueV::Array(items) => if forall|i: int| 0 <= i < items.len() ==> items[i] is Scalar {
            Some(items.map_values(|x: ValueV| x->Scalar_0))
        } else {
            None
        },
        _ => None,
    }
}

/// The scalar values of an object's fields, in encounter order, keys
/// discarded; non-scalar values are passed over.
pub open spec fn spec_scalar_values(fields: Seq<FieldV>) -> Seq<Seq<char>>
    decreases fields.len(),
{
    if fields.len() == 0 {
        Seq::empty()
    } else {
        let rest = spec_scalar_values(fields.drop_last());
        if fields.last().val is Scalar {
            rest.push(fields.last().val->Scalar_0)
        } else {
            rest
        }
    }
}

/// Reading a value as the duplicate-key list idiom: an object whose
/// repeated-key values are retained in encounter order, keys discarded.
pub open spec fn spec_read_ethnicities(v: ValueV) -> Option<Seq<Seq<char>>> {
    match v {
        ValueV::Absent => Some(Seq::empty()),
        ValueV::Object(fields) => Some(spec_scalar_values(fields)),
        _ => None,
    }
}

/// An unsigned byte read leniently: not a number, too big for sixty-four
/// bits, or over 255 all saturate to zero.
pub open spec fn spec_sat_byte(t: Seq<char>) -> u8 {
    match spec_parse_u64(t) {
        ParsedUInt::Val(n) => if n <= 255 {
            n as u8
        } else {
            0
        },
        _ => 0,
    }
}

/// An unsigned byte read strictly: a malformed number fails, but a value
/// out of range still saturates to zero.
pub open spec fn spec_strict_byte(t: Seq<char>) -> Option<u8> {
    match spec_parse_u64(t) {
        ParsedUInt::NotNumber => None,
        ParsedUInt::TooBig => Some(0),
        ParsedUInt::Val(n) => Some(
            if n <= 255 {
                n as u8
            } else {
                0
            },
        ),
    }
}

/// As [`spec_strict_byte`], for sixteen-bit values.
pub open spec fn spec_strict_u16(t: Seq<char>) -> Option<u16> {
    match spec_parse_u64(t) {
        ParsedUInt::NotNumber => None,
        ParsedUInt::TooBig => Some(0),
        ParsedUInt::Val(n) => Some(
            if n <= 65535 {
                n as u16
            } else {
                0
            },
        ),
    }
}

/// Reading a value as a color. A three-element array of scalars is a
/// byte triple, each entry saturated to zero on a parse failure or range
/// overflow. A two-element array is a format tag (`hsv`, `hsv360` or
/// `rgb`) and a nested three-element array of scalars parsed per tag;
/// there a malformed number is a coercion failure. Any other shape, and
/// any other tag, is a coercion failure.
pub open spec fn spec_read_color(v: ValueV) -> Option<ColorV> {
    match v {
        ValueV::Array(items) => if items.len() == 3 {
            if forall|i: int| 0 <= i < items.len() ==> items[i] is Scalar {
                Some(
                    ColorV::Rgb(
                        spec_sat_byte(items[0]->Scalar_0),
                        spec_sat_byte(items[1]->Scalar_0),
                        spec_sat_byte(items[2]->Scalar_0),
                    ),
                )
            } else {
                None
            }
        } else if items.len() == 2 {
            match (items[0], items[1]) {
                (ValueV::Scalar(tag), ValueV::Array(inner)) => if inner.len() == 3 && (forall|
                    i: int,
                |
                    0 <= i < inner.len() ==> inner[i] is Scalar) {
                    let a = inner[0]->Scalar_0;
                    let b = inner[1]->Scalar_0;
                    let c = inner[2]->Scalar_0;
                    if tag == "hsv"@ {
                        if spec_is_float_text(a) && spec_is_float_text(b) && spec_is_float_text(
                            c,
                        ) {
                            Some(ColorV::Hsv(a, b, c))
                        } else {
                            None
                        }
                    } else if tag == "rgb"@ {
                        match (spec_strict_byte(a), spec_strict_byte(b), spec_strict_byte(c)) {
                            (Some(x), Some(y), Some(z)) => Some(ColorV::Rgb(x, y, z)),
                            _ => None,
                        }
                    } else if tag == "hsv360"@ {
                        match (spec_strict_u16(a), spec_strict_u16(b), spec_strict_u16(c)) {
                            (Some(x), Some(y), Some(z)) => Some(ColorV::Hsv360(x, y, z)),
                            _ => None,
                        }
                    } else {
                        None
                    }
                } else {
                    None
                },
                _ => None,
            }
        } else {
            None
        },
        _ => None,
    }
}

fn sat_byte(t: &String) -> (r: u8)
    ensures
        r == spec_sat_byte(t@),
{
    match parse_u64(t.as_str()) {
        ParsedUInt::Val(n) => if n <= 255 {
            n as u8
        } else {
            0
        },
        _ => 0,
    }
}

fn strict_byte(t: &String) -> (r: Option<u8>)
    ensures
        r == spec_strict_byte(t@),
{
    match parse_u64(t.as_str()) {
        ParsedUInt::NotNumber => None,
        ParsedUInt::TooBig => Some(0),
        ParsedUInt::Val(n) => Some(
            if n <= 255 {
                n as u8
            } else {
                0
            },
        ),
    }
}

fn strict_u16(t: &String) -> (r: Option<u16>)
    ensures
        r == spec_strict_u16(t@),
{
    match parse_u64(t.as_str()) {
        ParsedUInt::NotNumber => None,
        ParsedUInt::TooBig => Some(0),
        ParsedUInt::Val(n) => Some(
            if n <= 65535 {
                n as u16
            } else {
                0
            },
        ),
    }
}

impl Value {
    /// Reads this value as verbatim text.
    pub fn read_string(&self) -> (r: Result<String, ()>)
        ensures
            match spec_read_string(self@) {
                None => r is Err,
                Some(s) => r is Ok && r->Ok_0@ == s,
            },
    {
        match self {
            Value::Scalar(s) => Ok(s.clone()),
            _ => Err(()),
        }
    }

    /// Reads this value as a list of texts.
    pub fn read_string_array(&self) -> (r: Result<Vec<String>, ()>)
        ensures
            match spec_read_string_array(self@) {
                None => r is Err,
                Some(ss) => r is Ok && r->Ok_0@.map_values(|x: String| x@) == ss,
            },
    {
        match self {
            Value::Absent => {
                let out: Vec<String> = Vec::new();
                proof {
                    assert(out@.map_values(|x: String| x@) =~= Seq::<Seq<char>>::empty());
                }
                Ok(out)
            },
            Value::Array(items) => {
                let ghost items_v = self@->Array_0;
                proof {
                    crate::value::lemma_array_view(self);
                    assert(items_v.len() == items@.len());
                    assert(forall|j: int| 0 <= j < items@.len() ==> items_v[j] == items@[j]@);
                }
                let mut out: Vec<String> = Vec::new();
                let mut i: usize = 0;
                while i < items.len()
                    invariant
                        self@ is Array,
                        items_v == self@->Array_0,
                        i <= items@.len(),
                        items_v.len() == items@.len(),
                        forall|j: int| 0 <= j < items@.len() ==> items_v[j] == items@[j]@,
                        forall|j: int| 0 <= j < i ==> items_v[j] is Scalar,
                        out@.len() == i,
                        forall|j: int| 0 <= j < i ==> #[trigger] out@[j]@ == items_v[j]->Scalar_0,
                    decreases items@.len() - i,
                {
                    match &items[i] {
                        Value::Scalar(s) => {
                            out.push(s.clone());
                        },
                        _ => {
                            proof {
                                assert(!(items_v[i as int] is Scalar));
                            }
                            return Err(());
                        },
                    }
                    i = i + 1;
                }
                proof {
                    let m = items_v.map_values(|x: ValueV| x->Scalar_0);
                    assert(out@.map_values(|x: String| x@) =~= m);
                }
                Ok(out)
            },
            _ => Err(()),
        }
    }

    /// Reads this value as the duplicate-key list idiom.
    pub fn read_ethnicities(&self) -> (r: Result<Vec<String>, ()>)
        ensures
            match spec_read_ethnicities(self@) {
                None => r is Err,
                Some(ss) => r is Ok && r->Ok_0@.map_values(|x: String| x@) == ss,
            },
    {
        match self {
            Value::Absent => {
                let out: Vec<String> = Vec::new();
                proof {
                    assert(out@.map_values(|x: String| x@) =~= Seq::<Seq<char>>::empty());
                }
                Ok(out)
            },
            Value::Object(fields) => {
                let ghost fields_v = self@->Object_0;
                proof {
                    crate::value::lemma_object_view(self);
                    assert(fields_v.len() == fields@.len());
                    assert(forall|j: int| 0 <= j < fields@.len() ==> fields_v[j] == fields@[j]@);
                }
                let mut out: Vec<String> = Vec::new();
                let mut i: usize = 0;
                while i < fields.len()
                    invariant
                        self@ is Object,
                        fields_v == self@->Object_0,
                        i <= fields@.len(),
                        fields_v.len() == fields@.len(),
                        forall|j: int|
                            0 <= j < fields@.len() ==> fields_v[j] == #[trigger] fields@[j]@,
                        out@.map_values(|x: String| x@) == spec_scalar_values(
                            fields_v.take(i as int),
                        ),
                    decreases fields@.len() - i,
                {
                    proof {
                        assert(fields_v.take(i + 1 as int).drop_last() =~= fields_v.take(i as int));
                        assert(fields_v.take(i + 1 as int).last() == fields_v[i as int]);
                    }
                    match &fields[i].val {
                        Value::Scalar(s) => {
                            out.push(s.clone());
                            proof {
                                assert(fields@[i as int]@ == (FieldV {
                                    key: fields@[i as int].key@,
                                    val: fields@[i as int].val@,
                                }));
                                assert(fields_v[i as int].val == ValueV::Scalar(s@));
                                assert(spec_scalar_values(fields_v.take(i + 1 as int))
                                    == spec_scalar_values(fields_v.take(i as int)).push(s@));
                                assert(out@.map_values(|x: String| x@) =~= spec_scalar_values(
                                    fields_v.take(i + 1 as int),
                                ));
                            }
                        },
                        _ => {
                            proof {
                                assert(fields@[i as int]@ == (FieldV {
                                    key: fields@[i as int].key@,
                                    val: fields@[i as int].val@,
                                }));
                                assert(!(fields_v[i as int].val is Scalar));
                                assert(out@.map_values(|x: String| x@) =~= spec_scalar_values(
                                    fields_v.take(i + 1 as int),
                                ));
                            }
                        },
                    }
                    i = i + 1;
                }
                proof {
                    assert(fields_v.take(fields_v.len() as int) =~= fields_v);
                }
                Ok(out)
            },
            _ => Err(()),
        }
    }

    /// Reads this value as a color, in any of the three formats.
    pub fn read_color(&self) -> (r: Result<Color, ()>)
        ensures
            match spec_read_color(self@) {
                None => r is Err,
                Some(c) => r is Ok && r->Ok_0@ == c,
            },
    {
        let items = match self {
            Value::Array(items) => items,
            _ => {
                return Err(());
            },
        };
        let ghost items_v = self@->Array_0;
        proof {
            crate::value::lemma_array_view(self);
            assert(items_v.len() == items@.len());
            assert(forall|j: int| 0 <= j < items@.len() ==> items_v[j] == items@[j]@);
        }
        if items.len() == 3 {
            let a = match &items[0] {
                Value::Scalar(s) => s,
                _ => {
                    proof {
                        assert(!(items_v[0] is Scalar));
                    }
                    return Err(());
                },
            };
            let b = match &items[1] {
                Value::Scalar(s) => s,
                _ => {
                    proof {
                        assert(!(items_v[1] is Scalar));
                    }
                    return Err(());
                },
            };
            let c = match &items[2] {
                Value::Scalar(s) => s,
                _ => {
                    proof {
                        assert(!(items_v[2] is Scalar));
                    }
                    return Err(());
                },
            };
            Ok(Color::Rgb(sat_byte(a), sat_byte(b), sat_byte(c)))
        } else if items.len() == 2 {
            let tag = match &items[0] {
                Value::Scalar(s) => s,
                _ => {
                    return Err(());
                },
            };
            let inner = match &items[1] {
                Value::Array(inner) => inner,
                _ => {
                    return Err(());
                },
            };
            let ghost inner_v = items_v[1]->Array_0;
            proof {
                crate::value::lemma_array_view(&items[1]);
                assert(inner_v.len() == inner@.len());
                assert(forall|j: int| 0 <= j < inner@.len() ==> inner_v[j] == inner@[j]@);
            }
            if inner.len() != 3 {
                return Err(());
            }
            let a = match &inner[0] {
                Value::Scalar(s) => s,
                _ => {
                    proof {
                        assert(!(inner_v[0] is Scalar));
                    }
                    return Err(());
                },
            };
            let b = match &inner[1] {
                Value::Scalar(s) => s,
                _ => {
                    proof {
                        assert(!(inner_v[1] is Scalar));
                    }
                    return Err(());
                },
            };
            let c = match &inner[2] {
                Value::Scalar(s) => s,
                _ => {
                    proof {
                        assert(!(inner_v[2] is Scalar));
                    }
                    return Err(());
                },
            };
            if crate::text::str_eq(tag.as_str(), "hsv") {
                if is_float_text(a.as_str()) && is_float_text(b.as_str()) && is_float_text(
                    c.as_str(),
                ) {
                    Ok(Color::Hsv(a.clone(), b.clone(), c.clone()))
                } else {
                    Err(())
                }
            } else if crate::text::str_eq(tag.as_str(), "rgb") {
                match (strict_byte(a), strict_byte(b), strict_byte(c)) {
                    (Some(x), Some(y), Some(z)) => Ok(Color::Rgb(x, y, z)),
                    _ => Err(()),
                }
            } else if crate::text::str_eq(tag.as_str(), "hsv360") {
                match (strict_u16(a), strict_u16(b), strict_u16(c)) {
                    (Some(x), Some(y), Some(z)) => Ok(Color::Hsv360(x, y, z)),
                    _ => Err(()),
                }
            } else {
                Err(())
            }
        } else {
            Err(())
        }
    }
}

} // verus!
