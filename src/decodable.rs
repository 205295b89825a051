//! Decoding single values: strings, numbers, booleans and bytes.
//!
//! A value reaches a decoder either inline, as an object's field, or as a
//! reference to a node of the table; each decoder says which encodings it
//! accepts.

use vstd::prelude::*;
use vstd::utf8::{decode_utf8, valid_utf8};
use crate::archive::{field_error, ArchiveValue, ArchiveValueVariant, Object, ObjectValue, UniqueId};
use crate::error::{DeError, DeErrorView, FieldKind, result_view};
use crate::plist::{eq_str, PlistInteger};
use crate::unarchiver::NSKeyedUnarchiver;

verus! {

/// Relies on `String::from_utf8`: it accepts exactly the byte strings that
/// are valid UTF-8, and the string it returns holds the characters that the
/// bytes encode.
#[verifier::external_body]
fn string_from_utf8(bytes: Vec<u8>) -> (r: Option<String>)
    ensures
        r is Some <==> valid_utf8(bytes@),
        r matches Some(s) ==> s@ == decode_utf8(bytes@),
{
    String::from_utf8(bytes).ok()
}

/// Copies a byte string.
pub fn copy_bytes(b: &Vec<u8>) -> (r: Vec<u8>)
    ensures
        r@ == b@,
{
    let mut r: Vec<u8> = Vec::new();
    let mut i: usize = 0;
    while i < b.len()
        invariant
            i <= b@.len(),
            r@ == b@.subrange(0, i as int),
        decreases b@.len() - i,
    {
        r.push(b[i]);
        assert(r@ =~= b@.subrange(0, i + 1));
        i = i + 1;
    }
    assert(b@.subrange(0, b@.len() as int) =~= b@);
    r
}

/// The node that `v` refers to, if it is a reference to a node of the table.
pub open spec fn referenced(a: NSKeyedUnarchiver, v: ObjectValue) -> Option<ArchiveValue> {
    match v {
        ObjectValue::Ref(id) => a.spec_node(id),
        _ => None,
    }
}

/// An object's class is one of the two string classes.
pub open spec fn is_string_class(o: Object) -> bool {
    o.spec_class()@ == "NSString"@ || o.spec_class()@ == "NSMutableString"@
}

/// The string that a string object holds: UTF-8 bytes under `NS.bytes`, or
/// a string under `NS.string`.
pub open spec fn string_of_object(o: Object) -> Result<Seq<char>, DeErrorView> {
    if !is_string_class(o) {
        Err(DeErrorView::UnexpectedClass(o.spec_class()@, "NSString"@))
    } else {
        match o.spec_field("NS.bytes"@) {
            Some(ObjectValue::Data(b)) => if valid_utf8(b@) {
                Ok(decode_utf8(b@))
            } else {
                Err(DeErrorView::Utf8Error)
            },
            _ => match o.spec_field("NS.string"@) {
                Some(ObjectValue::String(s)) => Ok(s@),
                _ => Err(DeErrorView::ExpectedString),
            },
        }
    }
}

/// A string, tried in order as an inline string, a reference to a string
/// node, and a reference to a string object.
pub open spec fn spec_string(a: NSKeyedUnarchiver, v: ObjectValue) -> Result<Seq<char>, DeErrorView> {
    match v {
        ObjectValue::String(s) => Ok(s@),
        _ => match referenced(a, v) {
            Some(node) => match node.spec_value() {
                ArchiveValueVariant::String(s) => Ok(s@),
                ArchiveValueVariant::Object(o) => string_of_object(*o),
                _ => Err(DeErrorView::ExpectedString),
            },
            None => Err(DeErrorView::ExpectedString),
        },
    }
}

/// Reads the string held by a string object.
fn decode_string_object(o: &Object) -> (r: Result<String, DeError>)
    requires
        o.wf(),
    ensures
        match r {
            Ok(s) => string_of_object(*o) == Ok::<Seq<char>, DeErrorView>(s@),
            Err(e) => string_of_object(*o) == Err::<Seq<char>, DeErrorView>(e@),
        },
{
    let class = o.class();
    if !eq_str(class, "NSString") && !eq_str(class, "NSMutableString") {
        return Err(DeError::UnexpectedClass(class.clone(), "NSString".to_owned()));
    }
    match o.get("NS.bytes") {
        Some(ObjectValue::Data(b)) => {
            match string_from_utf8(copy_bytes(b)) {
                Some(s) => Ok(s),
                None => Err(DeError::Utf8Error),
            }
        },
        _ => {
            match o.get("NS.string") {
                Some(ObjectValue::String(s)) => Ok(s.clone()),
                _ => Err(DeError::ExpectedString),
            }
        },
    }
}

/// Decodes a string in any of its three encodings.
pub fn decode_string(a: &NSKeyedUnarchiver, v: &ObjectValue) -> (r: Result<String, DeError>)
    requires
        a.wf(),
    ensures
        match r {
            Ok(s) => spec_string(*a, *v) == Ok::<Seq<char>, DeErrorView>(s@),
            Err(e) => spec_string(*a, *v) == Err::<Seq<char>, DeErrorView>(e@),
        },
{
    match v {
        ObjectValue::String(s) => Ok(s.clone()),
        ObjectValue::Ref(id) => {
            match a.node(*id) {
                Some(node) => {
                    if let Some(s) = node.as_string() {
                        Ok(s.clone())
                    } else if let Some(o) = node.as_object() {
                        proof {
                            a.lemma_object_wf(*id);
                        }
                        decode_string_object(o)
                    } else {
                        Err(DeError::ExpectedString)
                    }
                },
                None => Err(DeError::ExpectedString),
            }
        },
        _ => Err(DeError::ExpectedString),
    }
}

/// A boolean, inline or behind a reference.
pub open spec fn spec_bool(a: NSKeyedUnarchiver, v: ObjectValue) -> Result<bool, DeErrorView> {
    match v {
        ObjectValue::Boolean(b) => Ok(b),
        _ => match referenced(a, v) {
            Some(node) => match node.spec_value() {
                ArchiveValueVariant::Boolean(b) => Ok(*b),
                _ => Err(DeErrorView::ExpectedBoolean),
            },
            None => Err(DeErrorView::ExpectedBoolean),
        },
    }
}

pub fn decode_bool(a: &NSKeyedUnarchiver, v: &ObjectValue) -> (r: Result<bool, DeError>)
    ensures
        result_view(r) == spec_bool(*a, *v),
{
    match v {
        ObjectValue::Boolean(b) => Ok(*b),
        ObjectValue::Ref(id) => match a.node(*id) {
            Some(node) => match node.as_boolean() {
                Some(b) => Ok(b),
                None => Err(DeError::ExpectedBoolean),
            },
            None => Err(DeError::ExpectedBoolean),
        },
        _ => Err(DeError::ExpectedBoolean),
    }
}

/// An integer, inline or behind a reference.
pub open spec fn spec_integer(a: NSKeyedUnarchiver, v: ObjectValue) -> Result<PlistInteger, DeErrorView> {
    match v {
        ObjectValue::Integer(i) => Ok(i),
        _ => match referenced(a, v) {
            Some(node) => match node.spec_value() {
                ArchiveValueVariant::Integer(i) => Ok(*i),
                _ => Err(DeErrorView::ExpectedInteger),
            },
            None => Err(DeErrorView::ExpectedInteger),
        },
    }
}

/// Decodes an integer of either signedness, as the archive holds it.
pub fn decode_integer(a: &NSKeyedUnarchiver, v: &ObjectValue) -> (r: Result<PlistInteger, DeError>)
    ensures
        result_view(r) == spec_integer(*a, *v),
{
    match v {
        ObjectValue::Integer(i) => Ok(*i),
        ObjectValue::Ref(id) => match a.node(*id) {
            Some(node) => match node.as_integer() {
                Some(i) => Ok(*i),
                None => Err(DeError::ExpectedInteger),
            },
            None => Err(DeError::ExpectedInteger),
        },
        _ => Err(DeError::ExpectedInteger),
    }
}

/// An integer that must lie in `[lo, hi]`.
pub open spec fn spec_int_in(a: NSKeyedUnarchiver, v: ObjectValue, lo: int, hi: int) -> Result<int, DeErrorView> {
    match spec_integer(a, v) {
        Ok(i) => if lo <= i.spec_value() <= hi {
            Ok(i.spec_value())
        } else {
            Err(DeErrorView::RangeError)
        },
        Err(e) => Err(e),
    }
}

/// The integer as a `u64`; one that does not fit is a range error.
pub fn decode_u64(a: &NSKeyedUnarchiver, v: &ObjectValue) -> (r: Result<u64, DeError>)
    ensures
        match r {
            Ok(x) => spec_int_in(*a, *v, 0, u64::MAX as int) == Ok::<int, DeErrorView>(x as int),
            Err(e) => spec_int_in(*a, *v, 0, u64::MAX as int) == Err::<int, DeErrorView>(e@),
        },
{
    match decode_integer(a, v) {
        Ok(i) => match i.as_unsigned() {
            Some(x) => Ok(x),
            None => Err(DeError::RangeError),
        },
        Err(e) => Err(e),
    }
}

/// The integer as an `i64`; one that does not fit is a range error.
pub fn decode_i64(a: &NSKeyedUnarchiver, v: &ObjectValue) -> (r: Result<i64, DeError>)
    ensures
        match r {
            Ok(x) => spec_int_in(*a, *v, i64::MIN as int, i64::MAX as int) == Ok::<int, DeErrorView>(
                x as int,
            ),
            Err(e) => spec_int_in(*a, *v, i64::MIN as int, i64::MAX as int) == Err::<
                int,
                DeErrorView,
            >(e@),
        },
{
    match decode_integer(a, v) {
        Ok(i) => match i.as_signed() {
            Some(x) => Ok(x),
            None => Err(DeError::RangeError),
        },
        Err(e) => Err(e),
    }
}

/// The integer as a `u8`; one that does not fit is a range error.
pub fn decode_u8(a: &NSKeyedUnarchiver, v: &ObjectValue) -> (r: Result<u8, DeError>)
    ensures
        match r {
            Ok(x) => spec_int_in(*a, *v, 0, u8::MAX as int) == Ok::<int, DeErrorView>(x as int),
            Err(e) => spec_int_in(*a, *v, 0, u8::MAX as int) == Err::<int, DeErrorView>(e@),
        },
{
    match decode_u64(a, v) {
        Ok(x) => if x <= u8::MAX as u64 {
            Ok(x as u8)
        } else {
            Err(DeError::RangeError)
        },
        Err(e) => Err(e),
    }
}

/// The integer as a `u16`; one that does not fit is a range error.
pub fn decode_u16(a: &NSKeyedUnarchiver, v: &ObjectValue) -> (r: Result<u16, DeError>)
    ensures
        match r {
            Ok(x) => spec_int_in(*a, *v, 0, u16::MAX as int) == Ok::<int, DeErrorView>(x as int),
            Err(e) => spec_int_in(*a, *v, 0, u16::MAX as int) == Err::<int, DeErrorView>(e@),
        },
{
    match decode_u64(a, v) {
        Ok(x) => if x <= u16::MAX as u64 {
            Ok(x as u16)
        } else {
            Err(DeError::RangeError)
        },
        Err(e) => Err(e),
    }
}

/// The integer as a `u32`; one that does not fit is a range error.
pub fn decode_u32(a: &NSKeyedUnarchiver, v: &ObjectValue) -> (r: Result<u32, DeError>)
    ensures
        match r {
            Ok(x) => spec_int_in(*a, *v, 0, u32::MAX as int) == Ok::<int, DeErrorView>(x as int),
            Err(e) => spec_int_in(*a, *v, 0, u32::MAX as int) == Err::<int, DeErrorView>(e@),
        },
{
    match decode_u64(a, v) {
        Ok(x) => if x <= u32::MAX as u64 {
            Ok(x as u32)
        } else {
            Err(DeError::RangeError)
        },
        Err(e) => Err(e),
    }
}

/// The integer as an `i8`; one that does not fit is a range error.
pub fn decode_i8(a: &NSKeyedUnarchiver, v: &ObjectValue) -> (r: Result<i8, DeError>)
    ensures
        match r {
            Ok(x) => spec_int_in(*a, *v, i8::MIN as int, i8::MAX as int) == Ok::<int, DeErrorView>(
                x as int,
            ),
            Err(e) => spec_int_in(*a, *v, i8::MIN as int, i8::MAX as int) == Err::<
                int,
                DeErrorView,
            >(e@),
        },
{
    match decode_i64(a, v) {
        Ok(x) => if i8::MIN as i64 <= x && x <= i8::MAX as i64 {
            Ok(x as i8)
        } else {
            Err(DeError::RangeError)
        },
        Err(e) => Err(e),
    }
}

/// The integer as an `i16`; one that does not fit is a range error.
pub fn decode_i16(a: &NSKeyedUnarchiver, v: &ObjectValue) -> (r: Result<i16, DeError>)
    ensures
        match r {
            Ok(x) => spec_int_in(*a, *v, i16::MIN as int, i16::MAX as int) == Ok::<int, DeErrorView>(
                x as int,
            ),
            Err(e) => spec_int_in(*a, *v, i16::MIN as int, i16::MAX as int) == Err::<
                int,
                DeErrorView,
            >(e@),
        },
{
    match decode_i64(a, v) {
        Ok(x) => if i16::MIN as i64 <= x && x <= i16::MAX as i64 {
            Ok(x as i16)
        } else {
            Err(DeError::RangeError)
        },
        Err(e) => Err(e),
    }
}

/// The integer as an `i32`; one that does not fit is a range error.
pub fn decode_i32(a: &NSKeyedUnarchiver, v: &ObjectValue) -> (r: Result<i32, DeError>)
    ensures
        match r {
            Ok(x) => spec_int_in(*a, *v, i32::MIN as int, i32::MAX as int) == Ok::<int, DeErrorView>(
                x as int,
            ),
            Err(e) => spec_int_in(*a, *v, i32::MIN as int, i32::MAX as int) == Err::<
                int,
                DeErrorView,
            >(e@),
        },
{
    match decode_i64(a, v) {
        Ok(x) => if i32::MIN as i64 <= x && x <= i32::MAX as i64 {
            Ok(x as i32)
        } else {
            Err(DeError::RangeError)
        },
        Err(e) => Err(e),
    }
}

/// The bit pattern of a real number, inline or behind a reference.
pub open spec fn spec_real(a: NSKeyedUnarchiver, v: ObjectValue) -> Result<u64, DeErrorView> {
    match v {
        ObjectValue::Real(x) => Ok(x),
        _ => match referenced(a, v) {
            Some(node) => match node.spec_value() {
                ArchiveValueVariant::Real(x) => Ok(*x),
                _ => Err(DeErrorView::ExpectedFloat),
            },
            None => Err(DeErrorView::ExpectedFloat),
        },
    }
}

/// Decodes a real number, as its IEEE-754 bit pattern.
pub fn decode_real(a: &NSKeyedUnarchiver, v: &ObjectValue) -> (r: Result<u64, DeError>)
    ensures
        result_view(r) == spec_real(*a, *v),
{
    match v {
        ObjectValue::Real(x) => Ok(*x),
        ObjectValue::Ref(id) => match a.node(*id) {
            Some(node) => match node.as_real() {
                Some(x) => Ok(x),
                None => Err(DeError::ExpectedFloat),
            },
            None => Err(DeError::ExpectedFloat),
        },
        _ => Err(DeError::ExpectedFloat),
    }
}

/// The node that `v` refers to.
pub open spec fn spec_reference(v: ObjectValue) -> Result<UniqueId, DeErrorView> {
    match v {
        ObjectValue::Ref(id) => Ok(id),
        _ => Err(DeErrorView::ExpectedObject),
    }
}

/// Decodes a reference as the identity of the node it names.
pub fn decode_unique_id(v: &ObjectValue) -> (r: Result<UniqueId, DeError>)
    ensures
        result_view(r) == spec_reference(*v),
{
    match v {
        ObjectValue::Ref(id) => Ok(*id),
        _ => Err(DeError::ExpectedObject),
    }
}

impl Object {
    /// The string in field `key`, in any of its three encodings.
    pub fn decode_string(&self, a: &NSKeyedUnarchiver, key: &str) -> (r: Result<String, DeError>)
        requires
            a.wf(),
            self.wf(),
        ensures
            string_field_outcome(*a, *self, key@, r),
    {
        match self.get(key) {
            Some(v) => match v {
                ObjectValue::String(_) | ObjectValue::Ref(_) => decode_string(a, v),
                _ => Err(self.field_error(key, FieldKind::String)),
            },
            None => Err(self.field_error(key, FieldKind::String)),
        }
    }
}

/// `r` is the outcome of decoding the string in field `key` of `o`.
pub open spec fn string_field_outcome(a: NSKeyedUnarchiver, o: Object, key: Seq<char>, r: Result<String, DeError>) -> bool {
    match r {
        Ok(s) => spec_string_field(a, o, key) == Ok::<Seq<char>, DeErrorView>(s@),
        Err(e) => spec_string_field(a, o, key) == Err::<Seq<char>, DeErrorView>(e@),
    }
}

/// The string in field `key` of `o`: the field must hold a string or a
/// reference.
pub open spec fn spec_string_field(a: NSKeyedUnarchiver, o: Object, key: Seq<char>) -> Result<Seq<char>, DeErrorView> {
    match o.spec_field(key) {
        Some(ObjectValue::String(s)) => Ok(s@),
        Some(ObjectValue::Ref(id)) => spec_string(a, ObjectValue::Ref(id)),
        _ => Err(field_error(o, key, FieldKind::String)),
    }
}

/// A byte buffer decoded from inline data, a data node, or a data object.
#[derive(Clone, Debug, PartialEq, Eq, Hash)]
pub struct Data(Vec<u8>);

impl View for Data {
    type V = Seq<u8>;

    closed spec fn view(&self) -> Seq<u8> {
        self.0@
    }
}

/// The bytes in field `key` of `o`: inline, or behind a reference to a data
/// node.
pub open spec fn data_field(a: NSKeyedUnarchiver, o: Object, key: Seq<char>) -> Result<Seq<u8>, DeErrorView> {
    match o.spec_field(key) {
        Some(ObjectValue::Data(d)) => Ok(d@),
        Some(ObjectValue::Ref(id)) => match a.spec_node(id) {
            Some(node) => match node.spec_value() {
                ArchiveValueVariant::Data(d) => Ok(d@),
                _ => Err(field_error(o, key, FieldKind::Data)),
            },
            None => Err(field_error(o, key, FieldKind::Data)),
        },
        _ => Err(field_error(o, key, FieldKind::Data)),
    }
}

/// An object's class is one of the two data classes.
pub open spec fn is_data_class(o: Object) -> bool {
    o.spec_class()@ == "NSData"@ || o.spec_class()@ == "NSMutableData"@
}

/// Bytes, tried as inline data, a reference to a data node, and a reference
/// to a data object with an `NS.data` field.
pub open spec fn spec_data(a: NSKeyedUnarchiver, v: ObjectValue) -> Result<Seq<u8>, DeErrorView> {
    match v {
        ObjectValue::Data(d) => Ok(d@),
        _ => match referenced(a, v) {
            Some(node) => match node.spec_value() {
                ArchiveValueVariant::Data(d) => Ok(d@),
                ArchiveValueVariant::Object(o) => if is_data_class(*o) {
                    data_field(a, *o, "NS.data"@)
                } else {
                    Err(DeErrorView::ExpectedData)
                },
                _ => Err(DeErrorView::ExpectedData),
            },
            None => Err(DeErrorView::ExpectedData),
        },
    }
}

/// Reads the bytes in field `key` of `o`.
pub fn decode_data_field(a: &NSKeyedUnarchiver, o: &Object, key: &str) -> (r: Result<Vec<u8>, DeError>)
    requires
        o.wf(),
    ensures
        match r {
            Ok(d) => data_field(*a, *o, key@) == Ok::<Seq<u8>, DeErrorView>(d@),
            Err(e) => data_field(*a, *o, key@) == Err::<Seq<u8>, DeErrorView>(e@),
        },
{
    match o.get(key) {
        Some(ObjectValue::Data(d)) => Ok(copy_bytes(d)),
        Some(ObjectValue::Ref(id)) => match a.node(*id) {
            Some(node) => match node.as_data() {
                Some(d) => Ok(copy_bytes(d)),
                None => Err(o.field_error(key, FieldKind::Data)),
            },
            None => Err(o.field_error(key, FieldKind::Data)),
        },
        _ => Err(o.field_error(key, FieldKind::Data)),
    }
}

impl Data {
    pub fn new(bytes: Vec<u8>) -> (r: Self)
        ensures
            r@ == bytes@,
    {
        Data(bytes)
    }

    pub fn into_vec(self) -> (r: Vec<u8>)
        ensures
            r@ == self@,
    {
        self.0
    }

    pub fn as_bytes(&self) -> (r: &Vec<u8>)
        ensures
            r@ == self@,
    {
        &self.0
    }

    /// Decodes bytes in any of their three encodings.
    pub fn decode(a: &NSKeyedUnarchiver, v: &ObjectValue) -> (r: Result<Data, DeError>)
        requires
            a.wf(),
        ensures
            match r {
                Ok(d) => spec_data(*a, *v) == Ok::<Seq<u8>, DeErrorView>(d@),
                Err(e) => spec_data(*a, *v) == Err::<Seq<u8>, DeErrorView>(e@),
            },
    {
        match v {
            ObjectValue::Data(d) => Ok(Data(copy_bytes(d))),
            ObjectValue::Ref(id) => match a.node(*id) {
                Some(node) => {
                    if let Some(d) = node.as_data() {
                        Ok(Data(copy_bytes(d)))
                    } else if let Some(o) = node.as_object() {
                        proof {
                            a.lemma_object_wf(*id);
                        }
                        let class = o.class();
                        if !eq_str(class, "NSData") && !eq_str(class, "NSMutableData") {
                            return Err(DeError::ExpectedData);
                        }
                        match decode_data_field(a, o, "NS.data") {
                            Ok(d) => Ok(Data(d)),
                            Err(e) => Err(e),
                        }
                    } else {
                        Err(DeError::ExpectedData)
                    }
                },
                None => Err(DeError::ExpectedData),
            },
            _ => Err(DeError::ExpectedData),
        }
    }
}

} // verus!
