//! The node table of an archive and the objects in it.
//!
//! Nodes refer to each other by their position in the table, so a graph
//! with shared nodes and cycles is held without shared ownership: a
//! reference is a checked index, looked up when it is followed.

use vstd::prelude::*;
use crate::error::{DeError, DeErrorView, FieldKind, result_view};
use crate::plist::{has_key, keys_unique, lookup, lemma_lookup_at, find_key, PlistInteger};

verus! {

/// The identity of a node: its position in the archive's table.
#[derive(Clone, Copy, Debug, PartialEq, Eq, Structural)]
pub struct UniqueId(usize);

impl View for UniqueId {
    type V = nat;

    closed spec fn view(&self) -> nat {
        self.0 as nat
    }
}

impl UniqueId {
    pub fn new(id: usize) -> (r: Self)
        ensures
            r@ == id,
    {
        UniqueId(id)
    }

    pub fn get(&self) -> (r: usize)
        ensures
            r == self@,
    {
        self.0
    }
}

/// What a node of the table holds.
#[derive(Debug)]
pub enum ArchiveValueVariant {
    Boolean(bool),
    /// A class descriptor: class names, the most derived first.
    Classes(Vec<String>),
    Data(Vec<u8>),
    Integer(PlistInteger),
    /// The `$null` marker.
    NullRef,
    Object(Object),
    /// The IEEE-754 bit pattern of a real number.
    Real(u64),
    String(String),
}

/// One node of an archive: its content and its identity.
#[derive(Debug)]
pub struct ArchiveValue {
    value: ArchiveValueVariant,
    unique_id: UniqueId,
}

impl ArchiveValue {
    pub closed spec fn spec_value(&self) -> &ArchiveValueVariant {
        &self.value
    }

    pub closed spec fn spec_unique_id(&self) -> UniqueId {
        self.unique_id
    }

    pub(crate) fn new(value: ArchiveValueVariant, unique_id: UniqueId) -> (r: Self)
        ensures
            r.spec_value() == value,
            r.spec_unique_id() == unique_id,
    {
        ArchiveValue { value, unique_id }
    }

    /// Gives an object node its class names; leaves any other node as it is.
    pub(crate) fn with_classes(self, classes: Vec<String>) -> (r: Self)
        ensures
            r.spec_unique_id() == self.spec_unique_id(),
            !(self.spec_value() is Object) ==> r.spec_value() == self.spec_value(),
            self.spec_value() matches ArchiveValueVariant::Object(o) ==> r.spec_value() matches ArchiveValueVariant::Object(p)
                && p.spec_class_id() == o.spec_class_id() && p.spec_fields() == o.spec_fields()
                && p.spec_classes() == classes@,
    {
        let ArchiveValue { value, unique_id } = self;
        let value = match value {
            ArchiveValueVariant::Object(o) => {
                let Object { class_id, classes: _, fields } = o;
                ArchiveValueVariant::Object(Object { class_id, classes, fields })
            },
            other => other,
        };
        ArchiveValue { value, unique_id }
    }

    pub fn as_boolean(&self) -> (r: Option<bool>)
        ensures
            r == (match self.spec_value() {
                ArchiveValueVariant::Boolean(b) => Some(*b),
                _ => None,
            }),
    {
        match &self.value {
            ArchiveValueVariant::Boolean(b) => Some(*b),
            _ => None,
        }
    }

    pub fn is_boolean(&self) -> (r: bool)
        ensures
            r == self.spec_value() is Boolean,
    {
        matches!(self.value, ArchiveValueVariant::Boolean(_))
    }

    pub fn as_string(&self) -> (r: Option<&String>)
        ensures
            r is Some <==> self.spec_value() is String,
            r matches Some(s) ==> self.spec_value() == ArchiveValueVariant::String(*s),
    {
        match &self.value {
            ArchiveValueVariant::String(s) => Some(s),
            _ => None,
        }
    }

    pub fn is_string(&self) -> (r: bool)
        ensures
            r == self.spec_value() is String,
    {
        matches!(self.value, ArchiveValueVariant::String(_))
    }

    pub fn as_integer(&self) -> (r: Option<&PlistInteger>)
        ensures
            r is Some <==> self.spec_value() is Integer,
            r matches Some(i) ==> self.spec_value() == ArchiveValueVariant::Integer(*i),
    {
        match &self.value {
            ArchiveValueVariant::Integer(i) => Some(i),
            _ => None,
        }
    }

    pub fn is_integer(&self) -> (r: bool)
        ensures
            r == self.spec_value() is Integer,
    {
        matches!(self.value, ArchiveValueVariant::Integer(_))
    }

    /// The bit pattern of a real number.
    pub fn as_real(&self) -> (r: Option<u64>)
        ensures
            r == (match self.spec_value() {
                ArchiveValueVariant::Real(x) => Some(*x),
                _ => None,
            }),
    {
        match &self.value {
            ArchiveValueVariant::Real(x) => Some(*x),
            _ => None,
        }
    }

    /// Whether the node holds a real number.
    pub fn is_float(&self) -> (r: bool)
        ensures
            r == self.spec_value() is Real,
    {
        matches!(self.value, ArchiveValueVariant::Real(_))
    }

    pub fn as_data(&self) -> (r: Option<&Vec<u8>>)
        ensures
            r is Some <==> self.spec_value() is Data,
            r matches Some(d) ==> self.spec_value() == ArchiveValueVariant::Data(*d),
    {
        match &self.value {
            ArchiveValueVariant::Data(d) => Some(d),
            _ => None,
        }
    }

    pub fn is_data(&self) -> (r: bool)
        ensures
            r == self.spec_value() is Data,
    {
        matches!(self.value, ArchiveValueVariant::Data(_))
    }

    pub fn as_object(&self) -> (r: Option<&Object>)
        ensures
            r is Some <==> self.spec_value() is Object,
            r matches Some(o) ==> self.spec_value() == ArchiveValueVariant::Object(*o),
    {
        match &self.value {
            ArchiveValueVariant::Object(o) => Some(o),
            _ => None,
        }
    }

    pub fn is_object(&self) -> (r: bool)
        ensures
            r == self.spec_value() is Object,
    {
        matches!(self.value, ArchiveValueVariant::Object(_))
    }

    pub fn as_classes(&self) -> (r: Option<&Vec<String>>)
        ensures
            r is Some <==> self.spec_value() is Classes,
            r matches Some(c) ==> self.spec_value() == ArchiveValueVariant::Classes(*c),
    {
        match &self.value {
            ArchiveValueVariant::Classes(c) => Some(c),
            _ => None,
        }
    }

    pub fn is_classes(&self) -> (r: bool)
        ensures
            r == self.spec_value() is Classes,
    {
        matches!(self.value, ArchiveValueVariant::Classes(_))
    }

    pub fn is_null_ref(&self) -> (r: bool)
        ensures
            r == self.spec_value() is NullRef,
    {
        matches!(self.value, ArchiveValueVariant::NullRef)
    }

    pub fn unique_id(&self) -> (r: &UniqueId)
        ensures
            *r == self.spec_unique_id(),
    {
        &self.unique_id
    }
}

/// The value of an object's field.
#[derive(Debug)]
pub enum ObjectValue {
    String(String),
    Integer(PlistInteger),
    /// The IEEE-754 bit pattern of a real number.
    Real(u64),
    Boolean(bool),
    Data(Vec<u8>),
    /// References to nodes of the table, in order.
    RefArray(Vec<UniqueId>),
    /// A reference to a node of the table.
    Ref(UniqueId),
    /// The `$null` marker.
    NullRef,
}

pub open spec fn spec_kind(v: ObjectValue) -> FieldKind {
    match v {
        ObjectValue::String(_) => FieldKind::String,
        ObjectValue::Integer(_) => FieldKind::Integer,
        ObjectValue::Real(_) => FieldKind::Real,
        ObjectValue::Boolean(_) => FieldKind::Boolean,
        ObjectValue::Data(_) => FieldKind::Data,
        ObjectValue::RefArray(_) => FieldKind::RefArray,
        ObjectValue::Ref(_) => FieldKind::Ref,
        ObjectValue::NullRef => FieldKind::NullRef,
    }
}

impl ObjectValue {
    /// The type of the value.
    pub fn kind(&self) -> (r: FieldKind)
        ensures
            r == spec_kind(*self),
    {
        match self {
            ObjectValue::String(_) => FieldKind::String,
            ObjectValue::Integer(_) => FieldKind::Integer,
            ObjectValue::Real(_) => FieldKind::Real,
            ObjectValue::Boolean(_) => FieldKind::Boolean,
            ObjectValue::Data(_) => FieldKind::Data,
            ObjectValue::RefArray(_) => FieldKind::RefArray,
            ObjectValue::Ref(_) => FieldKind::Ref,
            ObjectValue::NullRef => FieldKind::NullRef,
        }
    }

    /// A short description of the value's type.
    pub fn as_plain_type(&self) -> (r: &'static str)
        ensures
            r@ == spec_kind(*self).spec_name(),
    {
        self.kind().name()
    }
}

/// The error for field `key` of `o` where a value of type `expected` is
/// wanted: the key is missing, or it holds a value of another type.
pub open spec fn field_error(o: Object, key: Seq<char>, expected: FieldKind) -> DeErrorView {
    match o.spec_field(key) {
        None => DeErrorView::MissingObjectKey(o.spec_class()@, key),
        Some(v) => DeErrorView::WrongFieldType {
            class: o.spec_class()@,
            key,
            expected,
            found: spec_kind(v),
        },
    }
}

/// One archived instance: its class chain and its fields.
#[derive(Debug)]
pub struct Object {
    class_id: UniqueId,
    classes: Vec<String>,
    fields: Vec<(String, ObjectValue)>,
}

impl Object {
    /// The node that holds the object's class descriptor.
    pub closed spec fn spec_class_id(&self) -> UniqueId {
        self.class_id
    }

    /// The class names, the most derived first.
    pub closed spec fn spec_classes(&self) -> Seq<String> {
        self.classes@
    }

    /// The fields, in the order of the archive.
    pub closed spec fn spec_fields(&self) -> Seq<(String, ObjectValue)> {
        self.fields@
    }

    /// Field names are unique and there is at least one class name.
    pub open spec fn wf(&self) -> bool {
        &&& keys_unique(self.spec_fields())
        &&& self.spec_classes().len() > 0
    }

    /// The most derived class name.
    pub open spec fn spec_class(&self) -> String {
        self.spec_classes()[0]
    }

    /// The value of field `key`, if the object has one.
    pub open spec fn spec_field(&self, key: Seq<char>) -> Option<ObjectValue> {
        lookup(self.spec_fields(), key)
    }

    pub(crate) fn new(
        class_id: UniqueId,
        classes: Vec<String>,
        fields: Vec<(String, ObjectValue)>,
    ) -> (r: Self)
        ensures
            r.spec_class_id() == class_id,
            r.spec_classes() == classes@,
            r.spec_fields() == fields@,
    {
        Object { class_id, classes, fields }
    }

    /// The node that holds the object's class descriptor.
    pub fn class_id(&self) -> (r: UniqueId)
        ensures
            r == self.spec_class_id(),
    {
        self.class_id
    }

    /// The class names, the most derived first; the others are its parents.
    pub fn classes(&self) -> (r: &Vec<String>)
        ensures
            r@ == self.spec_classes(),
    {
        &self.classes
    }

    /// The most derived class name.
    pub fn class(&self) -> (r: &String)
        requires
            self.wf(),
        ensures
            *r == self.spec_class(),
    {
        &self.classes[0]
    }

    /// The fields, in the order of the archive.
    pub fn as_map(&self) -> (r: &Vec<(String, ObjectValue)>)
        ensures
            r@ == self.spec_fields(),
    {
        &self.fields
    }

    /// The number of fields.
    pub fn len(&self) -> (r: usize)
        ensures
            r == self.spec_fields().len(),
    {
        self.fields.len()
    }

    pub fn is_empty(&self) -> (r: bool)
        ensures
            r == (self.spec_fields().len() == 0),
    {
        self.fields.len() == 0
    }

    /// The field names, in order.
    pub fn keys(&self) -> (r: Vec<&String>)
        ensures
            r@.len() == self.spec_fields().len(),
            forall|i: int| 0 <= i < r@.len() ==> *r@[i] == (#[trigger] self.spec_fields()[i]).0,
    {
        let mut r: Vec<&String> = Vec::new();
        let mut i: usize = 0;
        while i < self.fields.len()
            invariant
                i <= self.fields@.len(),
                r@.len() == i,
                forall|j: int| 0 <= j < i ==> *r@[j] == (#[trigger] self.fields@[j]).0,
            decreases self.fields@.len() - i,
        {
            r.push(&self.fields[i].0);
            i = i + 1;
        }
        r
    }

    pub fn contains_key(&self, key: &str) -> (r: bool)
        ensures
            r == has_key(self.spec_fields(), key@),
    {
        find_key(&self.fields, key).is_some()
    }

    /// The error for field `key` where a value of type `expected` is wanted.
    pub fn field_error(&self, key: &str, expected: FieldKind) -> (e: DeError)
        requires
            self.wf(),
        ensures
            e@ == field_error(*self, key@, expected),
    {
        let class = self.class().clone();
        match self.get(key) {
            None => DeError::MissingObjectKey(class, key.to_owned()),
            Some(v) => DeError::WrongFieldType {
                class,
                key: key.to_owned(),
                expected,
                found: v.kind(),
            },
        }
    }

    /// The boolean in field `key`.
    pub fn decode_bool(&self, key: &str) -> (r: Result<bool, DeError>)
        requires
            self.wf(),
        ensures
            result_view(r) == match self.spec_field(key@) {
                Some(ObjectValue::Boolean(b)) => Ok(b),
                _ => Err(field_error(*self, key@, FieldKind::Boolean)),
            },
    {
        match self.get(key) {
            Some(ObjectValue::Boolean(b)) => Ok(*b),
            _ => Err(self.field_error(key, FieldKind::Boolean)),
        }
    }

    /// The bytes in field `key`.
    pub fn decode_data(&self, key: &str) -> (r: Result<&Vec<u8>, DeError>)
        requires
            self.wf(),
        ensures
            match self.spec_field(key@) {
                Some(ObjectValue::Data(d)) => r == Ok::<&Vec<u8>, DeError>(&d),
                _ => r matches Err(e) && e@ == field_error(*self, key@, FieldKind::Data),
            },
    {
        match self.get(key) {
            Some(ObjectValue::Data(d)) => Ok(d),
            _ => Err(self.field_error(key, FieldKind::Data)),
        }
    }

    /// The bit pattern of the real number in field `key`.
    pub fn decode_real(&self, key: &str) -> (r: Result<u64, DeError>)
        requires
            self.wf(),
        ensures
            result_view(r) == match self.spec_field(key@) {
                Some(ObjectValue::Real(x)) => Ok(x),
                _ => Err(field_error(*self, key@, FieldKind::Real)),
            },
    {
        match self.get(key) {
            Some(ObjectValue::Real(x)) => Ok(*x),
            _ => Err(self.field_error(key, FieldKind::Real)),
        }
    }

    /// The integer in field `key`.
    pub fn decode_integer(&self, key: &str) -> (r: Result<PlistInteger, DeError>)
        requires
            self.wf(),
        ensures
            result_view(r) == match self.spec_field(key@) {
                Some(ObjectValue::Integer(i)) => Ok(i),
                _ => Err(field_error(*self, key@, FieldKind::Integer)),
            },
    {
        match self.get(key) {
            Some(ObjectValue::Integer(i)) => Ok(*i),
            _ => Err(self.field_error(key, FieldKind::Integer)),
        }
    }

    /// The node that field `key` refers to.
    pub fn decode_object(&self, key: &str) -> (r: Result<UniqueId, DeError>)
        requires
            self.wf(),
        ensures
            result_view(r) == match self.spec_field(key@) {
                Some(ObjectValue::Ref(id)) => Ok(id),
                _ => Err(field_error(*self, key@, FieldKind::Ref)),
            },
    {
        match self.get(key) {
            Some(ObjectValue::Ref(id)) => Ok(*id),
            _ => Err(self.field_error(key, FieldKind::Ref)),
        }
    }

    /// The nodes that field `key` refers to, in order.
    pub fn decode_array(&self, key: &str) -> (r: Result<&Vec<UniqueId>, DeError>)
        requires
            self.wf(),
        ensures
            match self.spec_field(key@) {
                Some(ObjectValue::RefArray(ids)) => r == Ok::<&Vec<UniqueId>, DeError>(&ids),
                _ => r matches Err(e) && e@ == field_error(*self, key@, FieldKind::RefArray),
            },
    {
        match self.get(key) {
            Some(ObjectValue::RefArray(ids)) => Ok(ids),
            _ => Err(self.field_error(key, FieldKind::RefArray)),
        }
    }

    /// Whether field `key` holds the `$null` marker.
    pub fn is_null_ref(&self, key: &str) -> (r: Result<bool, DeError>)
        requires
            self.wf(),
        ensures
            result_view(r) == match self.spec_field(key@) {
                Some(v) => Ok(v is NullRef),
                None => Err(DeErrorView::MissingObjectKey(self.spec_class()@, key@)),
            },
    {
        match self.get(key) {
            Some(v) => Ok(matches!(v, ObjectValue::NullRef)),
            None => Err(DeError::MissingObjectKey(self.class().clone(), key.to_owned())),
        }
    }

    /// The value of field `key`.
    pub fn get(&self, key: &str) -> (r: Option<&ObjectValue>)
        requires
            self.wf(),
        ensures
            r is None <==> self.spec_field(key@) is None,
            r matches Some(v) ==> self.spec_field(key@) == Some(*v),
    {
        match find_key(&self.fields, key) {
            Some(i) => {
                proof {
                    lemma_lookup_at(self.fields@, i as int);
                }
                Some(&self.fields[i].1)
            },
            None => None,
        }
    }
}

} // verus!
