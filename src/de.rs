//! The decode protocol: a registry of decoders, each claiming archived
//! objects by their class names, and the container decoders built on it.
//!
//! A decoded value is a [`Decoded`]: a tagged union of everything a
//! registry can produce. Types that a caller adds are described by a
//! [`TypeDescriptor`], a table of the fields to read and how, which one
//! generic routine turns into a [`DecodedObject`].
//!
//! Every decoder that follows references carries a budget: each step from
//! an object to a node it refers to spends one unit, and the public entry
//! points start with as many units as the archive has nodes. Decoding that
//! runs out has gone round a cycle of references.

use vstd::prelude::*;
use crate::archive::{field_error, ArchiveValueVariant, Object, ObjectValue, UniqueId};
use crate::decodable::{
    copy_bytes, data_field, decode_bool, decode_data_field, decode_integer, decode_real,
    decode_string, decode_unique_id, spec_bool, spec_data, spec_int_in, spec_integer, spec_real,
    spec_reference, spec_string, Data,
};
use crate::error::{DeError, DeErrorView, FieldKind};
use crate::plist::{eq_str, PlistInteger};
use crate::unarchiver::NSKeyedUnarchiver;

verus! {

/// How one field of a caller's type is read.
#[derive(Clone, Copy, Debug, PartialEq, Eq, Structural)]
pub enum FieldRule {
    /// A string in any of its three encodings.
    String,
    Boolean,
    /// An integer of either signedness.
    Integer,
    /// An integer that must fit in an `i64`.
    Signed,
    /// An integer that must fit in a `u64`.
    Unsigned,
    /// A real number, as its bit pattern.
    Real,
    /// Bytes in any of their three encodings.
    Data,
    /// A referenced object, decoded by the registry.
    Object,
    /// A reference, kept as the identity of the node it names.
    Reference,
}

/// One field of a caller's type: the archive key it is read from, how it is
/// read, and whether it may be absent.
///
/// An optional field that is missing, or that fails to decode, is absent;
/// a required one makes the whole object fail.
#[derive(Debug)]
pub struct FieldDescriptor {
    pub key: String,
    pub rule: FieldRule,
    pub optional: bool,
}

/// A caller's type: its name, the classes it claims (matched against an
/// object's most derived class) and its fields.
#[derive(Debug)]
pub struct TypeDescriptor {
    pub name: String,
    pub classes: Vec<String>,
    pub fields: Vec<FieldDescriptor>,
}

/// One entry of a registry: a decoder that claims objects by their class
/// names.
#[derive(Debug)]
pub enum ObjectType {
    /// Arrays and sets, as an ordered array.
    NSArray,
    NSSet,
    NSDictionary,
    NSData,
    /// A caller's type.
    Described(TypeDescriptor),
}

/// A decoded value.
#[derive(Debug)]
pub enum Decoded {
    String(String),
    Integer(PlistInteger),
    /// The bit pattern of a real number.
    Real(u64),
    Boolean(bool),
    Data(Vec<u8>),
    /// The `$null` marker.
    Null,
    Signed(i64),
    Unsigned(u64),
    Reference(UniqueId),
    NSArray(NSArray),
    NSSet(NSSet),
    NSDictionary(NSDictionary),
    NSData(NSData),
    Object(DecodedObject),
}

/// An array, or a set read as one.
#[derive(Debug)]
pub struct NSArray {
    data: Vec<Decoded>,
    is_mutable: bool,
}

/// A set: its elements in archive order.
#[derive(Debug)]
pub struct NSSet {
    data: Vec<Decoded>,
    is_mutable: bool,
}

/// A dictionary: its keys and values paired in archive order.
#[derive(Debug)]
pub struct NSDictionary {
    data: Vec<(String, Decoded)>,
    is_mutable: bool,
}

/// The bytes of a data object.
#[derive(Debug)]
pub struct NSData {
    data: Vec<u8>,
    is_mutable: bool,
}

/// An instance of a caller's type: the type's name and each field, in the
/// order of its descriptor, with `None` for an absent optional field.
#[derive(Debug)]
pub struct DecodedObject {
    name: String,
    fields: Vec<(String, Option<Decoded>)>,
}

/// What a decoded value is, with text as character sequences.
pub enum DecodedView {
    String(Seq<char>),
    Integer(PlistInteger),
    Real(u64),
    Boolean(bool),
    Data(Seq<u8>),
    Null,
    Signed(i64),
    Unsigned(u64),
    Reference(nat),
    NSArray(bool, Seq<DecodedView>),
    NSSet(bool, Seq<DecodedView>),
    NSDictionary(bool, Seq<(Seq<char>, DecodedView)>),
    NSData(bool, Seq<u8>),
    Object(Seq<char>, Seq<(Seq<char>, Option<DecodedView>)>),
}

impl NSArray {
    pub closed spec fn spec_data(&self) -> Seq<Decoded> {
        self.data@
    }

    pub closed spec fn spec_is_mutable(&self) -> bool {
        self.is_mutable
    }
}

impl NSSet {
    pub closed spec fn spec_data(&self) -> Seq<Decoded> {
        self.data@
    }

    pub closed spec fn spec_is_mutable(&self) -> bool {
        self.is_mutable
    }
}

impl NSDictionary {
    pub closed spec fn spec_data(&self) -> Seq<(String, Decoded)> {
        self.data@
    }

    pub closed spec fn spec_is_mutable(&self) -> bool {
        self.is_mutable
    }
}

impl NSData {
    pub closed spec fn spec_data(&self) -> Seq<u8> {
        self.data@
    }

    pub closed spec fn spec_is_mutable(&self) -> bool {
        self.is_mutable
    }
}

impl DecodedObject {
    pub closed spec fn spec_name(&self) -> Seq<char> {
        self.name@
    }

    pub closed spec fn spec_fields(&self) -> Seq<(String, Option<Decoded>)> {
        self.fields@
    }
}

/// `d` is the decoded value `v`; `fuel` bounds how deep containers nest.
pub open spec fn matches_view(d: Decoded, v: DecodedView, fuel: nat) -> bool
    decreases fuel,
{
    match d {
        Decoded::String(s) => v == DecodedView::String(s@),
        Decoded::Integer(i) => v == DecodedView::Integer(i),
        Decoded::Real(x) => v == DecodedView::Real(x),
        Decoded::Boolean(b) => v == DecodedView::Boolean(b),
        Decoded::Data(b) => v == DecodedView::Data(b@),
        Decoded::Null => v == DecodedView::Null,
        Decoded::Signed(x) => v == DecodedView::Signed(x),
        Decoded::Unsigned(x) => v == DecodedView::Unsigned(x),
        Decoded::Reference(id) => v == DecodedView::Reference(id@),
        Decoded::NSArray(a) => match v {
            DecodedView::NSArray(m, items) => fuel > 0 && a.spec_is_mutable() == m
                && a.spec_data().len() == items.len() && forall|k: int|
                0 <= k < items.len() ==> matches_view(a.spec_data()[k], items[k], (fuel - 1) as nat),
            _ => false,
        },
        Decoded::NSSet(a) => match v {
            DecodedView::NSSet(m, items) => fuel > 0 && a.spec_is_mutable() == m
                && a.spec_data().len() == items.len() && forall|k: int|
                0 <= k < items.len() ==> matches_view(a.spec_data()[k], items[k], (fuel - 1) as nat),
            _ => false,
        },
        Decoded::NSDictionary(a) => match v {
            DecodedView::NSDictionary(m, items) => fuel > 0 && a.spec_is_mutable() == m
                && a.spec_data().len() == items.len() && forall|k: int|
                0 <= k < items.len() ==> a.spec_data()[k].0@ == items[k].0 && matches_view(
                    a.spec_data()[k].1,
                    items[k].1,
                    (fuel - 1) as nat,
                ),
            _ => false,
        },
        Decoded::NSData(a) => v == DecodedView::NSData(a.spec_is_mutable(), a.spec_data()),
        Decoded::Object(o) => match v {
            DecodedView::Object(name, fields) => fuel > 0 && o.spec_name() == name
                && o.spec_fields().len() == fields.len() && forall|k: int|
                0 <= k < fields.len() ==> o.spec_fields()[k].0@ == fields[k].0 && match (
                    o.spec_fields()[k].1,
                    fields[k].1,
                ) {
                    (None, None) => true,
                    (Some(x), Some(y)) => matches_view(x, y, (fuel - 1) as nat),
                    _ => false,
                },
            _ => false,
        },
    }
}

/// `r` is the outcome `s`: the same error, or a value that is `s`'s.
pub open spec fn decoded_as(r: Result<Decoded, DeError>, s: Result<DecodedView, DeErrorView>, fuel: nat) -> bool {
    match r {
        Ok(d) => s matches Ok(v) && matches_view(d, v, fuel),
        Err(e) => s == Err::<DecodedView, DeErrorView>(e@),
    }
}

/// Whether a registry entry claims an object with these class names: it
/// looks at the most derived one.
pub open spec fn claims(t: ObjectType, classes: Seq<String>) -> bool {
    classes.len() > 0 && {
        let c = classes[0]@;
        match t {
            ObjectType::NSArray => c == "NSArray"@ || c == "NSMutableArray"@ || c == "NSSet"@ || c
                == "NSMutableSet"@,
            ObjectType::NSSet => c == "NSSet"@ || c == "NSMutableSet"@,
            ObjectType::NSDictionary => c == "NSDictionary"@ || c == "NSMutableDictionary"@,
            ObjectType::NSData => c == "NSData"@ || c == "NSMutableData"@,
            ObjectType::Described(d) => exists|k: int|
                0 <= k < d.classes@.len() && (#[trigger] d.classes@[k])@ == c,
        }
    }
}

/// The position of the last entry of `reg` that claims the classes.
pub open spec fn last_match(reg: Seq<ObjectType>, classes: Seq<String>) -> Option<int>
    decreases reg.len(),
{
    if reg.len() == 0 {
        None
    } else if claims(reg.last(), classes) {
        Some(reg.len() - 1)
    } else {
        last_match(reg.drop_last(), classes)
    }
}

/// Decoding the object node `id` by the registry: the last entry that
/// claims its classes decodes it.
pub open spec fn spec_poly(a: NSKeyedUnarchiver, reg: Seq<ObjectType>, id: UniqueId, depth: nat) -> Result<DecodedView, DeErrorView>
    decreases depth, 0nat, 0nat,
{
    if depth == 0 {
        Err(DeErrorView::CyclicReference)
    } else {
        match a.spec_node(id) {
            Some(node) => match node.spec_value() {
                ArchiveValueVariant::Object(o) => match last_match(reg, o.spec_classes()) {
                    Some(i) => spec_entry(a, reg, reg[i], *o, (depth - 1) as nat),
                    None => Err(DeErrorView::UndecodableClass(o.spec_class()@)),
                },
                _ => Err(DeErrorView::ExpectedObject),
            },
            None => Err(DeErrorView::ExpectedObject),
        }
    }
}

/// Decoding an element of a container: a literal node as it is, an object
/// by the registry.
pub open spec fn spec_element(a: NSKeyedUnarchiver, reg: Seq<ObjectType>, id: UniqueId, depth: nat) -> Result<DecodedView, DeErrorView>
    decreases depth, 1nat, 0nat,
{
    match a.spec_node(id) {
        Some(node) => match node.spec_value() {
            ArchiveValueVariant::String(s) => Ok(DecodedView::String(s@)),
            ArchiveValueVariant::Integer(i) => Ok(DecodedView::Integer(*i)),
            ArchiveValueVariant::Real(x) => Ok(DecodedView::Real(*x)),
            ArchiveValueVariant::Boolean(b) => Ok(DecodedView::Boolean(*b)),
            ArchiveValueVariant::Data(b) => Ok(DecodedView::Data(b@)),
            ArchiveValueVariant::NullRef => Ok(DecodedView::Null),
            ArchiveValueVariant::Object(_) => spec_poly(a, reg, id, depth),
            ArchiveValueVariant::Classes(_) => Err(DeErrorView::ExpectedObject),
        },
        None => Err(DeErrorView::ExpectedObject),
    }
}

/// Decoding the elements `ids` in order; the first failure is the outcome.
pub open spec fn spec_elements(a: NSKeyedUnarchiver, reg: Seq<ObjectType>, ids: Seq<UniqueId>, depth: nat) -> Result<Seq<DecodedView>, DeErrorView>
    decreases depth, 3nat, ids.len(),
{
    if ids.len() == 0 {
        Ok(Seq::empty())
    } else {
        match spec_elements(a, reg, ids.drop_last(), depth) {
            Err(e) => Err(e),
            Ok(vs) => match spec_element(a, reg, ids.last(), depth) {
                Ok(v) => Ok(vs.push(v)),
                Err(e) => Err(e),
            },
        }
    }
}

/// Decoding dictionary keys: each a string in any of its encodings.
pub open spec fn spec_keys(a: NSKeyedUnarchiver, ids: Seq<UniqueId>) -> Result<Seq<Seq<char>>, DeErrorView>
    decreases ids.len(),
{
    if ids.len() == 0 {
        Ok(Seq::empty())
    } else {
        match spec_keys(a, ids.drop_last()) {
            Err(e) => Err(e),
            Ok(ks) => match spec_string(a, ObjectValue::Ref(ids.last())) {
                Ok(k) => Ok(ks.push(k)),
                Err(e) => Err(e),
            },
        }
    }
}

/// Decoding one field value by its rule.
pub open spec fn spec_rule(a: NSKeyedUnarchiver, reg: Seq<ObjectType>, rule: FieldRule, v: ObjectValue, depth: nat) -> Result<DecodedView, DeErrorView>
    decreases depth, 1nat, 0nat,
{
    match rule {
        FieldRule::String => match spec_string(a, v) {
            Ok(s) => Ok(DecodedView::String(s)),
            Err(e) => Err(e),
        },
        FieldRule::Boolean => match spec_bool(a, v) {
            Ok(b) => Ok(DecodedView::Boolean(b)),
            Err(e) => Err(e),
        },
        FieldRule::Integer => match spec_integer(a, v) {
            Ok(i) => Ok(DecodedView::Integer(i)),
            Err(e) => Err(e),
        },
        FieldRule::Signed => match spec_int_in(a, v, i64::MIN as int, i64::MAX as int) {
            Ok(x) => Ok(DecodedView::Signed(x as i64)),
            Err(e) => Err(e),
        },
        FieldRule::Unsigned => match spec_int_in(a, v, 0, u64::MAX as int) {
            Ok(x) => Ok(DecodedView::Unsigned(x as u64)),
            Err(e) => Err(e),
        },
        FieldRule::Real => match spec_real(a, v) {
            Ok(x) => Ok(DecodedView::Real(x)),
            Err(e) => Err(e),
        },
        FieldRule::Data => match spec_data(a, v) {
            Ok(b) => Ok(DecodedView::Data(b)),
            Err(e) => Err(e),
        },
        FieldRule::Object => match v {
            ObjectValue::Ref(id) => spec_poly(a, reg, id, depth),
            _ => Err(DeErrorView::ExpectedObject),
        },
        FieldRule::Reference => match spec_reference(v) {
            Ok(id) => Ok(DecodedView::Reference(id@)),
            Err(e) => Err(e),
        },
    }
}

/// Decoding one described field of `o`: a missing optional field, or one
/// that fails to decode, is absent.
pub open spec fn spec_field(a: NSKeyedUnarchiver, reg: Seq<ObjectType>, o: Object, f: FieldDescriptor, depth: nat) -> Result<Option<DecodedView>, DeErrorView>
    decreases depth, 2nat, 0nat,
{
    match o.spec_field(f.key@) {
        None => if f.optional {
            Ok(None)
        } else {
            Err(DeErrorView::MissingObjectKey(o.spec_class()@, f.key@))
        },
        Some(v) => match spec_rule(a, reg, f.rule, v, depth) {
            Ok(x) => Ok(Some(x)),
            Err(e) => if f.optional {
                Ok(None)
            } else {
                Err(e)
            },
        },
    }
}

/// Decoding the described fields `fs` of `o` in order.
pub open spec fn spec_fields(a: NSKeyedUnarchiver, reg: Seq<ObjectType>, o: Object, fs: Seq<FieldDescriptor>, depth: nat) -> Result<Seq<(Seq<char>, Option<DecodedView>)>, DeErrorView>
    decreases depth, 3nat, fs.len(),
{
    if fs.len() == 0 {
        Ok(Seq::empty())
    } else {
        match spec_fields(a, reg, o, fs.drop_last(), depth) {
            Err(e) => Err(e),
            Ok(vs) => match spec_field(a, reg, o, fs.last(), depth) {
                Ok(v) => Ok(vs.push((fs.last().key@, v))),
                Err(e) => Err(e),
            },
        }
    }
}

/// The elements of an array-like object: its `NS.objects` references.
pub open spec fn spec_array_items(a: NSKeyedUnarchiver, reg: Seq<ObjectType>, o: Object, depth: nat) -> Result<Seq<DecodedView>, DeErrorView>
    decreases depth, 4nat, 0nat,
{
    match o.spec_field("NS.objects"@) {
        Some(ObjectValue::RefArray(ids)) => spec_elements(a, reg, ids@, depth),
        _ => Err(field_error(o, "NS.objects"@, FieldKind::RefArray)),
    }
}

/// Decoding object `o` with registry entry `t`.
pub open spec fn spec_entry(a: NSKeyedUnarchiver, reg: Seq<ObjectType>, t: ObjectType, o: Object, depth: nat) -> Result<DecodedView, DeErrorView>
    decreases depth, 5nat, 0nat,
{
    match t {
        ObjectType::NSArray => match spec_array_items(a, reg, o, depth) {
            Ok(items) => Ok(DecodedView::NSArray(o.spec_class()@ == "NSMutableArray"@, items)),
            Err(e) => Err(e),
        },
        ObjectType::NSSet => match spec_array_items(a, reg, o, depth) {
            Ok(items) => Ok(DecodedView::NSSet(o.spec_class()@ == "NSMutableSet"@, items)),
            Err(e) => Err(e),
        },
        ObjectType::NSDictionary => match o.spec_field("NS.keys"@) {
            Some(ObjectValue::RefArray(kids)) => match spec_keys(a, kids@) {
                Err(e) => Err(e),
                Ok(keys) => match spec_array_items(a, reg, o, depth) {
                    Err(e) => Err(e),
                    Ok(values) => if keys.len() != values.len() {
                        Err(DeErrorView::CountMismatch)
                    } else {
                        Ok(
                            DecodedView::NSDictionary(
                                o.spec_class()@ == "NSMutableDictionary"@,
                                Seq::new(keys.len(), |k: int| (keys[k], values[k])),
                            ),
                        )
                    },
                },
            },
            _ => Err(field_error(o, "NS.keys"@, FieldKind::RefArray)),
        },
        ObjectType::NSData => match data_field(a, o, "NS.data"@) {
            Ok(b) => Ok(DecodedView::NSData(o.spec_class()@ == "NSMutableData"@, b)),
            Err(e) => Err(e),
        },
        ObjectType::Described(d) => match spec_fields(a, reg, o, d.fields@, depth) {
            Ok(fields) => Ok(DecodedView::Object(d.name@, fields)),
            Err(e) => Err(e),
        },
    }
}

/// Once decoding a prefix of the elements fails, decoding them all fails
/// the same way.
proof fn lemma_elements_err(a: NSKeyedUnarchiver, reg: Seq<ObjectType>, ids: Seq<UniqueId>, i: int, depth: nat)
    requires
        0 <= i <= ids.len(),
        spec_elements(a, reg, ids.subrange(0, i), depth) is Err,
    ensures
        spec_elements(a, reg, ids, depth) == spec_elements(a, reg, ids.subrange(0, i), depth),
    decreases ids.len() - i,
{
    if i < ids.len() {
        let p = ids.subrange(0, i + 1);
        assert(p.drop_last() =~= ids.subrange(0, i));
        lemma_elements_err(a, reg, ids, i + 1, depth);
    } else {
        assert(ids.subrange(0, i) =~= ids);
    }
}

/// Once decoding a prefix of the keys fails, decoding them all fails the
/// same way.
proof fn lemma_keys_err(a: NSKeyedUnarchiver, ids: Seq<UniqueId>, i: int)
    requires
        0 <= i <= ids.len(),
        spec_keys(a, ids.subrange(0, i)) is Err,
    ensures
        spec_keys(a, ids) == spec_keys(a, ids.subrange(0, i)),
    decreases ids.len() - i,
{
    if i < ids.len() {
        let p = ids.subrange(0, i + 1);
        assert(p.drop_last() =~= ids.subrange(0, i));
        lemma_keys_err(a, ids, i + 1);
    } else {
        assert(ids.subrange(0, i) =~= ids);
    }
}

/// Once decoding a prefix of the described fields fails, decoding them all
/// fails the same way.
proof fn lemma_fields_err(a: NSKeyedUnarchiver, reg: Seq<ObjectType>, o: Object, fs: Seq<FieldDescriptor>, i: int, depth: nat)
    requires
        0 <= i <= fs.len(),
        spec_fields(a, reg, o, fs.subrange(0, i), depth) is Err,
    ensures
        spec_fields(a, reg, o, fs, depth) == spec_fields(a, reg, o, fs.subrange(0, i), depth),
    decreases fs.len() - i,
{
    if i < fs.len() {
        let p = fs.subrange(0, i + 1);
        assert(p.drop_last() =~= fs.subrange(0, i));
        lemma_fields_err(a, reg, o, fs, i + 1, depth);
    } else {
        assert(fs.subrange(0, i) =~= fs);
    }
}

/// Whether `s` is one of `list`.
fn contains_name(list: &Vec<String>, s: &String) -> (r: bool)
    ensures
        r == exists|k: int| 0 <= k < list@.len() && (#[trigger] list@[k])@ == s@,
{
    let mut i: usize = 0;
    while i < list.len()
        invariant
            i <= list@.len(),
            forall|k: int| 0 <= k < i ==> (#[trigger] list@[k])@ != s@,
        decreases list@.len() - i,
    {
        if list[i] == *s {
            return true;
        }
        i = i + 1;
    }
    false
}

impl ObjectType {
    /// Whether this entry claims an object with these class names, the most
    /// derived first.
    pub fn is_type_of(&self, classes: &Vec<String>) -> (r: bool)
        ensures
            r == claims(*self, classes@),
    {
        if classes.len() == 0 {
            return false;
        }
        let c = &classes[0];
        match self {
            ObjectType::NSArray => eq_str(c, "NSArray") || eq_str(c, "NSMutableArray") || eq_str(
                c,
                "NSSet",
            ) || eq_str(c, "NSMutableSet"),
            ObjectType::NSSet => eq_str(c, "NSSet") || eq_str(c, "NSMutableSet"),
            ObjectType::NSDictionary => eq_str(c, "NSDictionary") || eq_str(c, "NSMutableDictionary"),
            ObjectType::NSData => eq_str(c, "NSData") || eq_str(c, "NSMutableData"),
            ObjectType::Described(d) => contains_name(&d.classes, c),
        }
    }
}

/// Finds the last entry of the registry that claims the classes.
fn find_decoder(reg: &Vec<ObjectType>, classes: &Vec<String>) -> (r: Option<usize>)
    ensures
        match last_match(reg@, classes@) {
            Some(i) => r matches Some(j) && j as int == i,
            None => r is None,
        },
        r matches Some(i) ==> i < reg@.len(),
{
    let mut i: usize = reg.len();
    assert(reg@.subrange(0, i as int) =~= reg@);
    while i > 0
        invariant
            i <= reg@.len(),
            last_match(reg@, classes@) == last_match(reg@.subrange(0, i as int), classes@),
        decreases i,
    {
        let ghost p = reg@.subrange(0, i as int);
        assert(p.drop_last() =~= reg@.subrange(0, i - 1));
        assert(p.last() == reg@[i - 1]);
        if reg[i - 1].is_type_of(classes) {
            return Some(i - 1);
        }
        i = i - 1;
    }
    None
}

/// Decoded field values match their views, entry by entry.
pub open spec fn fields_match(ds: Seq<(String, Option<Decoded>)>, vs: Seq<(Seq<char>, Option<DecodedView>)>, fuel: nat) -> bool {
    &&& ds.len() == vs.len()
    &&& forall|k: int|
        0 <= k < vs.len() ==> (#[trigger] ds[k]).0@ == vs[k].0 && match (ds[k].1, vs[k].1) {
            (None, None) => true,
            (Some(x), Some(y)) => matches_view(x, y, fuel),
            _ => false,
        }
}

/// Decoded values match their views, one by one.
pub open spec fn items_match(ds: Seq<Decoded>, vs: Seq<DecodedView>, fuel: nat) -> bool {
    &&& ds.len() == vs.len()
    &&& forall|k: int| 0 <= k < vs.len() ==> matches_view(#[trigger] ds[k], vs[k], fuel)
}

/// Decodes the object node `id` with the last registry entry that claims
/// its classes.
fn decode_poly(a: &NSKeyedUnarchiver, reg: &Vec<ObjectType>, id: UniqueId, depth: usize) -> (r: Result<Decoded, DeError>)
    requires
        a.wf(),
    ensures
        decoded_as(r, spec_poly(*a, reg@, id, depth as nat), depth as nat),
    decreases depth, 0nat, 0nat,
{
    if depth == 0 {
        return Err(DeError::CyclicReference);
    }
    match a.node(id) {
        Some(node) => match node.as_object() {
            Some(o) => {
                proof {
                    a.lemma_object_wf(id);
                }
                match find_decoder(reg, o.classes()) {
                    Some(i) => decode_entry(a, reg, &reg[i], o, depth - 1),
                    None => Err(DeError::UndecodableClass(o.class().clone())),
                }
            },
            None => Err(DeError::ExpectedObject),
        },
        None => Err(DeError::ExpectedObject),
    }
}

/// Decodes one element of a container.
fn decode_element(a: &NSKeyedUnarchiver, reg: &Vec<ObjectType>, id: UniqueId, depth: usize) -> (r: Result<Decoded, DeError>)
    requires
        a.wf(),
    ensures
        decoded_as(r, spec_element(*a, reg@, id, depth as nat), depth as nat),
    decreases depth, 1nat, 0nat,
{
    match a.node(id) {
        Some(node) => {
            if let Some(s) = node.as_string() {
                Ok(Decoded::String(s.clone()))
            } else if let Some(i) = node.as_integer() {
                Ok(Decoded::Integer(*i))
            } else if let Some(x) = node.as_real() {
                Ok(Decoded::Real(x))
            } else if let Some(b) = node.as_boolean() {
                Ok(Decoded::Boolean(b))
            } else if let Some(d) = node.as_data() {
                Ok(Decoded::Data(copy_bytes(d)))
            } else if node.is_null_ref() {
                Ok(Decoded::Null)
            } else if node.is_object() {
                decode_poly(a, reg, id, depth)
            } else {
                Err(DeError::ExpectedObject)
            }
        },
        None => Err(DeError::ExpectedObject),
    }
}

/// Decodes the elements `ids`, in order.
fn decode_elements(a: &NSKeyedUnarchiver, reg: &Vec<ObjectType>, ids: &Vec<UniqueId>, depth: usize) -> (r: Result<Vec<Decoded>, DeError>)
    requires
        a.wf(),
    ensures
        match r {
            Ok(ds) => spec_elements(*a, reg@, ids@, depth as nat) matches Ok(vs) && items_match(
                ds@,
                vs,
                depth as nat,
            ),
            Err(e) => spec_elements(*a, reg@, ids@, depth as nat) == Err::<Seq<DecodedView>, DeErrorView>(e@),
        },
    decreases depth, 3nat, 0nat,
{
    let mut ds: Vec<Decoded> = Vec::new();
    let ghost mut vs: Seq<DecodedView> = Seq::empty();
    let mut i: usize = 0;
    while i < ids.len()
        invariant
            a.wf(),
            i <= ids@.len(),
            spec_elements(*a, reg@, ids@.subrange(0, i as int), depth as nat) == Ok::<Seq<DecodedView>, DeErrorView>(vs),
            items_match(ds@, vs, depth as nat),
            ds@.len() == i,
        decreases ids@.len() - i,
    {
        let ghost p = ids@.subrange(0, i + 1);
        assert(p.drop_last() =~= ids@.subrange(0, i as int));
        assert(p.last() == ids@[i as int]);
        match decode_element(a, reg, ids[i], depth) {
            Ok(d) => {
                let ghost v = spec_element(*a, reg@, ids@[i as int], depth as nat)->Ok_0;
                let ghost before = ds@;
                proof {
                    vs = vs.push(v);
                }
                ds.push(d);
                assert forall|k: int| 0 <= k < vs.len() implies matches_view(
                    #[trigger] ds@[k],
                    vs[k],
                    depth as nat,
                ) by {
                    if k < i {
                        assert(ds@[k] == before[k]);
                    }
                }
            },
            Err(e) => {
                proof {
                    lemma_elements_err(*a, reg@, ids@, i + 1, depth as nat);
                }
                return Err(e);
            },
        }
        i = i + 1;
    }
    assert(ids@.subrange(0, ids@.len() as int) =~= ids@);
    Ok(ds)
}

/// Decodes dictionary keys, each a string in any of its encodings.
fn decode_keys(a: &NSKeyedUnarchiver, ids: &Vec<UniqueId>) -> (r: Result<Vec<String>, DeError>)
    requires
        a.wf(),
    ensures
        match r {
            Ok(ks) => spec_keys(*a, ids@) == Ok::<Seq<Seq<char>>, DeErrorView>(
                ks@.map_values(|s: String| s@),
            ),
            Err(e) => spec_keys(*a, ids@) == Err::<Seq<Seq<char>>, DeErrorView>(e@),
        },
{
    let mut ks: Vec<String> = Vec::new();
    let mut i: usize = 0;
    assert(ids@.subrange(0, 0) =~= Seq::<UniqueId>::empty());
    assert(ks@.map_values(|s: String| s@) =~= Seq::<Seq<char>>::empty());
    while i < ids.len()
        invariant
            a.wf(),
            i <= ids@.len(),
            ks@.len() == i,
            spec_keys(*a, ids@.subrange(0, i as int)) == Ok::<Seq<Seq<char>>, DeErrorView>(
                ks@.map_values(|s: String| s@),
            ),
        decreases ids@.len() - i,
    {
        let ghost p = ids@.subrange(0, i + 1);
        assert(p.drop_last() =~= ids@.subrange(0, i as int));
        assert(p.last() == ids@[i as int]);
        match decode_string(a, &ObjectValue::Ref(ids[i])) {
            Ok(k) => {
                let ghost before = ks@;
                ks.push(k);
                assert(ks@.map_values(|s: String| s@) =~= before.map_values(|s: String| s@).push(k@));
            },
            Err(e) => {
                proof {
                    lemma_keys_err(*a, ids@, i + 1);
                }
                return Err(e);
            },
        }
        i = i + 1;
    }
    assert(ids@.subrange(0, ids@.len() as int) =~= ids@);
    Ok(ks)
}

/// Decodes one field value by its rule.
fn decode_rule(a: &NSKeyedUnarchiver, reg: &Vec<ObjectType>, rule: FieldRule, v: &ObjectValue, depth: usize) -> (r: Result<Decoded, DeError>)
    requires
        a.wf(),
    ensures
        decoded_as(r, spec_rule(*a, reg@, rule, *v, depth as nat), depth as nat),
    decreases depth, 1nat, 0nat,
{
    match rule {
        FieldRule::String => match decode_string(a, v) {
            Ok(s) => Ok(Decoded::String(s)),
            Err(e) => Err(e),
        },
        FieldRule::Boolean => match decode_bool(a, v) {
            Ok(b) => Ok(Decoded::Boolean(b)),
            Err(e) => Err(e),
        },
        FieldRule::Integer => match decode_integer(a, v) {
            Ok(i) => Ok(Decoded::Integer(i)),
            Err(e) => Err(e),
        },
        FieldRule::Signed => match crate::decodable::decode_i64(a, v) {
            Ok(x) => Ok(Decoded::Signed(x)),
            Err(e) => Err(e),
        },
        FieldRule::Unsigned => match crate::decodable::decode_u64(a, v) {
            Ok(x) => Ok(Decoded::Unsigned(x)),
            Err(e) => Err(e),
        },
        FieldRule::Real => match decode_real(a, v) {
            Ok(x) => Ok(Decoded::Real(x)),
            Err(e) => Err(e),
        },
        FieldRule::Data => match Data::decode(a, v) {
            Ok(d) => Ok(Decoded::Data(d.into_vec())),
            Err(e) => Err(e),
        },
        FieldRule::Object => match v {
            ObjectValue::Ref(id) => decode_poly(a, reg, *id, depth),
            _ => Err(DeError::ExpectedObject),
        },
        FieldRule::Reference => match decode_unique_id(v) {
            Ok(id) => Ok(Decoded::Reference(id)),
            Err(e) => Err(e),
        },
    }
}

/// Decodes one described field of `o`.
fn decode_field(a: &NSKeyedUnarchiver, reg: &Vec<ObjectType>, o: &Object, f: &FieldDescriptor, depth: usize) -> (r: Result<Option<Decoded>, DeError>)
    requires
        a.wf(),
        o.wf(),
    ensures
        match r {
            Ok(None) => spec_field(*a, reg@, *o, *f, depth as nat) == Ok::<Option<DecodedView>, DeErrorView>(None),
            Ok(Some(d)) => spec_field(*a, reg@, *o, *f, depth as nat) matches Ok(Some(v))
                && matches_view(d, v, depth as nat),
            Err(e) => spec_field(*a, reg@, *o, *f, depth as nat) == Err::<Option<DecodedView>, DeErrorView>(e@),
        },
    decreases depth, 2nat, 0nat,
{
    match o.get(f.key.as_str()) {
        None => {
            if f.optional {
                Ok(None)
            } else {
                Err(DeError::MissingObjectKey(o.class().clone(), f.key.clone()))
            }
        },
        Some(v) => match decode_rule(a, reg, f.rule, v, depth) {
            Ok(d) => Ok(Some(d)),
            Err(e) => {
                if f.optional {
                    Ok(None)
                } else {
                    Err(e)
                }
            },
        },
    }
}

/// Decodes the described fields `fs` of `o`, in order.
fn decode_fields(a: &NSKeyedUnarchiver, reg: &Vec<ObjectType>, o: &Object, fs: &Vec<FieldDescriptor>, depth: usize) -> (r: Result<Vec<(String, Option<Decoded>)>, DeError>)
    requires
        a.wf(),
        o.wf(),
    ensures
        match r {
            Ok(ds) => spec_fields(*a, reg@, *o, fs@, depth as nat) matches Ok(vs) && fields_match(
                ds@,
                vs,
                depth as nat,
            ),
            Err(e) => spec_fields(*a, reg@, *o, fs@, depth as nat) == Err::<
                Seq<(Seq<char>, Option<DecodedView>)>,
                DeErrorView,
            >(e@),
        },
    decreases depth, 3nat, 0nat,
{
    let mut ds: Vec<(String, Option<Decoded>)> = Vec::new();
    let ghost mut vs: Seq<(Seq<char>, Option<DecodedView>)> = Seq::empty();
    let mut i: usize = 0;
    while i < fs.len()
        invariant
            a.wf(),
            o.wf(),
            i <= fs@.len(),
            spec_fields(*a, reg@, *o, fs@.subrange(0, i as int), depth as nat) == Ok::<
                Seq<(Seq<char>, Option<DecodedView>)>,
                DeErrorView,
            >(vs),
            fields_match(ds@, vs, depth as nat),
            ds@.len() == i,
        decreases fs@.len() - i,
    {
        let ghost p = fs@.subrange(0, i + 1);
        assert(p.drop_last() =~= fs@.subrange(0, i as int));
        assert(p.last() == fs@[i as int]);
        match decode_field(a, reg, o, &fs[i], depth) {
            Ok(d) => {
                let ghost v = spec_field(*a, reg@, *o, fs@[i as int], depth as nat)->Ok_0;
                let ghost before = ds@;
                proof {
                    vs = vs.push((fs@[i as int].key@, v));
                }
                ds.push((fs[i].key.clone(), d));
                assert forall|k: int| 0 <= k < vs.len() implies (#[trigger] ds@[k]).0@ == vs[k].0
                    && match (ds@[k].1, vs[k].1) {
                    (None, None) => true,
                    (Some(x), Some(y)) => matches_view(x, y, depth as nat),
                    _ => false,
                } by {
                    if k < i {
                        assert(ds@[k] == before[k]);
                    }
                }
            },
            Err(e) => {
                proof {
                    lemma_fields_err(*a, reg@, *o, fs@, i + 1, depth as nat);
                }
                return Err(e);
            },
        }
        i = i + 1;
    }
    assert(fs@.subrange(0, fs@.len() as int) =~= fs@);
    Ok(ds)
}

/// Decodes the `NS.objects` elements of an array-like object.
fn array_items(a: &NSKeyedUnarchiver, reg: &Vec<ObjectType>, o: &Object, depth: usize) -> (r: Result<Vec<Decoded>, DeError>)
    requires
        a.wf(),
        o.wf(),
    ensures
        match r {
            Ok(ds) => spec_array_items(*a, reg@, *o, depth as nat) matches Ok(vs) && items_match(
                ds@,
                vs,
                depth as nat,
            ),
            Err(e) => spec_array_items(*a, reg@, *o, depth as nat) == Err::<Seq<DecodedView>, DeErrorView>(e@),
        },
    decreases depth, 4nat, 0nat,
{
    match o.decode_array("NS.objects") {
        Ok(ids) => decode_elements(a, reg, ids, depth),
        Err(e) => Err(e),
    }
}

/// Decodes object `o` with registry entry `t`.
fn decode_entry(a: &NSKeyedUnarchiver, reg: &Vec<ObjectType>, t: &ObjectType, o: &Object, depth: usize) -> (r: Result<Decoded, DeError>)
    requires
        a.wf(),
        o.wf(),
    ensures
        decoded_as(r, spec_entry(*a, reg@, *t, *o, depth as nat), (depth + 1) as nat),
    decreases depth, 5nat, 0nat,
{
    match t {
        ObjectType::NSArray => match array_items(a, reg, o, depth) {
            Ok(items) => Ok(
                Decoded::NSArray(NSArray { data: items, is_mutable: eq_str(o.class(), "NSMutableArray") }),
            ),
            Err(e) => Err(e),
        },
        ObjectType::NSSet => match array_items(a, reg, o, depth) {
            Ok(items) => Ok(
                Decoded::NSSet(NSSet { data: items, is_mutable: eq_str(o.class(), "NSMutableSet") }),
            ),
            Err(e) => Err(e),
        },
        ObjectType::NSDictionary => {
            let kids = match o.decode_array("NS.keys") {
                Ok(k) => k,
                Err(e) => {
                    return Err(e);
                },
            };
            let keys = match decode_keys(a, kids) {
                Ok(k) => k,
                Err(e) => {
                    return Err(e);
                },
            };
            let values = match array_items(a, reg, o, depth) {
                Ok(v) => v,
                Err(e) => {
                    return Err(e);
                },
            };
            if keys.len() != values.len() {
                return Err(DeError::CountMismatch);
            }
            let ghost vs = spec_array_items(*a, reg@, *o, depth as nat)->Ok_0;
            let ghost ks = keys@.map_values(|s: String| s@);
            let mut data: Vec<(String, Decoded)> = Vec::new();
            let mut i: usize = 0;
            for v in it: values
                invariant
                    it.seq() == values@,
                    i == it.index(),
                    i <= values@.len(),
                    keys@.len() == values@.len(),
                    items_match(values@, vs, depth as nat),
                    ks == keys@.map_values(|s: String| s@),
                    data@.len() == i,
                    forall|k: int|
                        0 <= k < i ==> (#[trigger] data@[k]).0@ == ks[k] && data@[k].1 == values@[k],
            {
                assert(values@[i as int] == v);
                data.push((keys[i].clone(), v));
                i = data.len();
            }
            let is_mutable = eq_str(o.class(), "NSMutableDictionary");
            let r = Decoded::NSDictionary(NSDictionary { data, is_mutable });
            assert(matches_view(
                r,
                DecodedView::NSDictionary(is_mutable, Seq::new(ks.len(), |k: int| (ks[k], vs[k]))),
                (depth + 1) as nat,
            ));
            Ok(r)
        },
        ObjectType::NSData => match decode_data_field(a, o, "NS.data") {
            Ok(b) => Ok(
                Decoded::NSData(NSData { data: b, is_mutable: eq_str(o.class(), "NSMutableData") }),
            ),
            Err(e) => Err(e),
        },
        ObjectType::Described(d) => match decode_fields(a, reg, o, &d.fields, depth) {
            Ok(fields) => Ok(Decoded::Object(DecodedObject { name: d.name.clone(), fields })),
            Err(e) => Err(e),
        },
    }
}

/// The registry that always holds the container decoders (arrays, sets,
/// dictionaries and data, in that order), followed by the caller's entries.
pub fn object_types(extra: Vec<ObjectType>) -> (r: Vec<ObjectType>)
    ensures
        r@ == seq![ObjectType::NSArray, ObjectType::NSSet, ObjectType::NSDictionary, ObjectType::NSData]
            + extra@,
{
    let mut r: Vec<ObjectType> = Vec::new();
    r.push(ObjectType::NSArray);
    r.push(ObjectType::NSSet);
    r.push(ObjectType::NSDictionary);
    r.push(ObjectType::NSData);
    let mut extra = extra;
    r.append(&mut extra);
    r
}

/// Decoding what `v` refers to with entry `t`: it must be an object node.
pub open spec fn spec_decode_with(a: NSKeyedUnarchiver, reg: Seq<ObjectType>, t: ObjectType, v: ObjectValue) -> Result<DecodedView, DeErrorView> {
    match v {
        ObjectValue::Ref(id) => match a.spec_node(id) {
            Some(node) => match node.spec_value() {
                ArchiveValueVariant::Object(o) => spec_entry(a, reg, t, *o, a.spec_objects().len()),
                _ => Err(DeErrorView::ExpectedObject),
            },
            None => Err(DeErrorView::ExpectedObject),
        },
        _ => Err(DeErrorView::ExpectedObject),
    }
}

/// Decodes the object that `v` refers to with entry `t`, whatever its class.
fn decode_with(a: &NSKeyedUnarchiver, reg: &Vec<ObjectType>, t: &ObjectType, v: &ObjectValue) -> (r: Result<Decoded, DeError>)
    requires
        a.wf(),
    ensures
        decoded_as(r, spec_decode_with(*a, reg@, *t, *v), (a.spec_objects().len() + 1) as nat),
{
    match v {
        ObjectValue::Ref(id) => match a.node(*id) {
            Some(node) => match node.as_object() {
                Some(o) => {
                    proof {
                        a.lemma_object_wf(*id);
                    }
                    decode_entry(a, reg, t, o, a.len())
                },
                None => Err(DeError::ExpectedObject),
            },
            None => Err(DeError::ExpectedObject),
        },
        _ => Err(DeError::ExpectedObject),
    }
}

/// Decodes the object node `value_ref` with the registry `types`: the last
/// entry that claims the object's classes decodes it.
pub fn value_ref_to_any(a: &NSKeyedUnarchiver, value_ref: UniqueId, types: &Vec<ObjectType>) -> (r: Result<Decoded, DeError>)
    requires
        a.wf(),
    ensures
        decoded_as(r, spec_poly(*a, types@, value_ref, a.spec_objects().len()), a.spec_objects().len()),
{
    decode_poly(a, types, value_ref, a.len())
}

impl ObjectType {
    /// The registry entry for a caller's type.
    pub fn new(descriptor: TypeDescriptor) -> (r: ObjectType)
        ensures
            r == ObjectType::Described(descriptor),
    {
        ObjectType::Described(descriptor)
    }

    /// Decodes the object that `value` refers to with this entry.
    pub fn decode(&self, a: &NSKeyedUnarchiver, value: &ObjectValue, types: &Vec<ObjectType>) -> (r: Result<Decoded, DeError>)
        requires
            a.wf(),
        ensures
            decoded_as(r, spec_decode_with(*a, types@, *self, *value), (a.spec_objects().len() + 1) as nat),
    {
        decode_with(a, types, self, value)
    }
}

/// Decoding the object in field `key` of `o` by the registry.
pub open spec fn spec_object_field(a: NSKeyedUnarchiver, reg: Seq<ObjectType>, o: Object, key: Seq<char>) -> Result<DecodedView, DeErrorView> {
    match o.spec_field(key) {
        Some(ObjectValue::Ref(id)) => spec_poly(a, reg, id, a.spec_objects().len()),
        _ => Err(field_error(o, key, FieldKind::Ref)),
    }
}

impl Object {
    /// Decodes the object that field `key` refers to with the registry
    /// `types`.
    pub fn decode_object_as(&self, a: &NSKeyedUnarchiver, key: &str, types: &Vec<ObjectType>) -> (r: Result<Decoded, DeError>)
        requires
            a.wf(),
            self.wf(),
        ensures
            decoded_as(r, spec_object_field(*a, types@, *self, key@), a.spec_objects().len()),
    {
        match self.decode_object(key) {
            Ok(id) => value_ref_to_any(a, id, types),
            Err(e) => Err(e),
        }
    }
}

/// The kind of a decoded value, for typed extraction.
#[derive(Clone, Copy, Debug, PartialEq, Eq, Structural)]
pub enum DecodedKind {
    String,
    Integer,
    Real,
    Boolean,
    Data,
    Null,
    Signed,
    Unsigned,
    Reference,
    NSArray,
    NSSet,
    NSDictionary,
    NSData,
    Object,
}

pub open spec fn kind_of(d: Decoded) -> DecodedKind {
    match d {
        Decoded::String(_) => DecodedKind::String,
        Decoded::Integer(_) => DecodedKind::Integer,
        Decoded::Real(_) => DecodedKind::Real,
        Decoded::Boolean(_) => DecodedKind::Boolean,
        Decoded::Data(_) => DecodedKind::Data,
        Decoded::Null => DecodedKind::Null,
        Decoded::Signed(_) => DecodedKind::Signed,
        Decoded::Unsigned(_) => DecodedKind::Unsigned,
        Decoded::Reference(_) => DecodedKind::Reference,
        Decoded::NSArray(_) => DecodedKind::NSArray,
        Decoded::NSSet(_) => DecodedKind::NSSet,
        Decoded::NSDictionary(_) => DecodedKind::NSDictionary,
        Decoded::NSData(_) => DecodedKind::NSData,
        Decoded::Object(_) => DecodedKind::Object,
    }
}

impl Decoded {
    pub fn kind(&self) -> (r: DecodedKind)
        ensures
            r == kind_of(*self),
    {
        match self {
            Decoded::String(_) => DecodedKind::String,
            Decoded::Integer(_) => DecodedKind::Integer,
            Decoded::Real(_) => DecodedKind::Real,
            Decoded::Boolean(_) => DecodedKind::Boolean,
            Decoded::Data(_) => DecodedKind::Data,
            Decoded::Null => DecodedKind::Null,
            Decoded::Signed(_) => DecodedKind::Signed,
            Decoded::Unsigned(_) => DecodedKind::Unsigned,
            Decoded::Reference(_) => DecodedKind::Reference,
            Decoded::NSArray(_) => DecodedKind::NSArray,
            Decoded::NSSet(_) => DecodedKind::NSSet,
            Decoded::NSDictionary(_) => DecodedKind::NSDictionary,
            Decoded::NSData(_) => DecodedKind::NSData,
            Decoded::Object(_) => DecodedKind::Object,
        }
    }

    pub fn as_string(&self) -> (r: Option<&String>)
        ensures
            r is Some <==> *self is String,
            r matches Some(s) ==> *self == Decoded::String(*s),
    {
        match self {
            Decoded::String(s) => Some(s),
            _ => None,
        }
    }

    pub fn as_integer(&self) -> (r: Option<PlistInteger>)
        ensures
            r is Some <==> *self is Integer,
            r matches Some(i) ==> *self == Decoded::Integer(i),
    {
        match self {
            Decoded::Integer(i) => Some(*i),
            _ => None,
        }
    }

    pub fn as_boolean(&self) -> (r: Option<bool>)
        ensures
            r is Some <==> *self is Boolean,
            r matches Some(b) ==> *self == Decoded::Boolean(b),
    {
        match self {
            Decoded::Boolean(b) => Some(*b),
            _ => None,
        }
    }

    pub fn as_array(&self) -> (r: Option<&NSArray>)
        ensures
            r is Some <==> *self is NSArray,
            r matches Some(x) ==> *self == Decoded::NSArray(*x),
    {
        match self {
            Decoded::NSArray(x) => Some(x),
            _ => None,
        }
    }

    pub fn as_dictionary(&self) -> (r: Option<&NSDictionary>)
        ensures
            r is Some <==> *self is NSDictionary,
            r matches Some(x) ==> *self == Decoded::NSDictionary(*x),
    {
        match self {
            Decoded::NSDictionary(x) => Some(x),
            _ => None,
        }
    }

    pub fn as_object(&self) -> (r: Option<&DecodedObject>)
        ensures
            r is Some <==> *self is Object,
            r matches Some(x) ==> *self == Decoded::Object(*x),
    {
        match self {
            Decoded::Object(x) => Some(x),
            _ => None,
        }
    }

    pub fn into_string(self) -> (r: Option<String>)
        ensures
            r is Some <==> self is String,
            r matches Some(s) ==> self == Decoded::String(s),
    {
        match self {
            Decoded::String(s) => Some(s),
            _ => None,
        }
    }

    pub fn into_array(self) -> (r: Option<NSArray>)
        ensures
            r is Some <==> self is NSArray,
            r matches Some(x) ==> self == Decoded::NSArray(x),
    {
        match self {
            Decoded::NSArray(x) => Some(x),
            _ => None,
        }
    }
}

/// Whether every element of `ds` is of kind `kind`.
pub open spec fn all_of_kind(ds: Seq<Decoded>, kind: DecodedKind) -> bool {
    forall|k: int| 0 <= k < ds.len() ==> kind_of(#[trigger] ds[k]) == kind
}

/// Checks that every element of `ds` is of kind `kind`.
fn check_kinds(ds: &Vec<Decoded>, kind: DecodedKind) -> (r: bool)
    ensures
        r == all_of_kind(ds@, kind),
{
    let mut i: usize = 0;
    while i < ds.len()
        invariant
            i <= ds@.len(),
            forall|k: int| 0 <= k < i ==> kind_of(#[trigger] ds@[k]) == kind,
        decreases ds@.len() - i,
    {
        if ds[i].kind() != kind {
            return false;
        }
        i = i + 1;
    }
    true
}

impl NSArray {
    /// The class it was archived as: mutable or not.
    pub fn class(&self) -> (r: &'static str)
        ensures
            r@ == if self.spec_is_mutable() {
                "NSMutableArray"@
            } else {
                "NSArray"@
            },
    {
        if self.is_mutable {
            "NSMutableArray"
        } else {
            "NSArray"
        }
    }

    pub fn new(data: Vec<Decoded>) -> (r: Self)
        ensures
            r.spec_data() == data@,
            !r.spec_is_mutable(),
    {
        NSArray { data, is_mutable: false }
    }

    pub fn new_mut(data: Vec<Decoded>) -> (r: Self)
        ensures
            r.spec_data() == data@,
            r.spec_is_mutable(),
    {
        NSArray { data, is_mutable: true }
    }

    pub fn is_mutable(&self) -> (r: bool)
        ensures
            r == self.spec_is_mutable(),
    {
        self.is_mutable
    }

    pub fn set_is_mutable(&mut self, v: bool)
        ensures
            final(self).spec_is_mutable() == v,
            final(self).spec_data() == old(self).spec_data(),
    {
        self.is_mutable = v;
    }

    pub fn into_inner(self) -> (r: Vec<Decoded>)
        ensures
            r@ == self.spec_data(),
    {
        self.data
    }

    pub fn len(&self) -> (r: usize)
        ensures
            r == self.spec_data().len(),
    {
        self.data.len()
    }

    /// Decodes the array that `value` refers to; a set reads as an array.
    pub fn decode(a: &NSKeyedUnarchiver, value: &ObjectValue, types: &Vec<ObjectType>) -> (r: Result<NSArray, DeError>)
        requires
            a.wf(),
        ensures
            match r {
                Ok(x) => decoded_as(
                    Ok(Decoded::NSArray(x)),
                    spec_decode_with(*a, types@, ObjectType::NSArray, *value),
                    (a.spec_objects().len() + 1) as nat,
                ),
                Err(e) => spec_decode_with(*a, types@, ObjectType::NSArray, *value) == Err::<
                    DecodedView,
                    DeErrorView,
                >(e@),
            },
    {
        match decode_with(a, types, &ObjectType::NSArray, value) {
            Ok(Decoded::NSArray(x)) => Ok(x),
            Ok(_) => {
                proof {
                    assert(false);
                }
                Err(DeError::DowncastMismatch)
            },
            Err(e) => Err(e),
        }
    }

    /// All elements, where each is of kind `kind`.
    pub fn try_into_objects(self, kind: DecodedKind) -> (r: Result<Vec<Decoded>, DeError>)
        ensures
            all_of_kind(self.spec_data(), kind) ==> (r matches Ok(v) && v@ == self.spec_data()),
            !all_of_kind(self.spec_data(), kind) ==> r == Err::<Vec<Decoded>, DeError>(
                DeError::DowncastMismatch,
            ),
    {
        if check_kinds(&self.data, kind) {
            Ok(self.data)
        } else {
            Err(DeError::DowncastMismatch)
        }
    }

    /// The element at `index`, where it is of kind `kind`.
    pub fn get_as_object(&self, index: usize, kind: DecodedKind) -> (r: Result<&Decoded, DeError>)
        ensures
            index >= self.spec_data().len() ==> r == Err::<&Decoded, DeError>(DeError::MissingElement),
            index < self.spec_data().len() && kind_of(self.spec_data()[index as int]) != kind ==> r
                == Err::<&Decoded, DeError>(DeError::DowncastMismatch),
            index < self.spec_data().len() && kind_of(self.spec_data()[index as int]) == kind ==> r
                == Ok::<&Decoded, DeError>(&self.spec_data()[index as int]),
    {
        if index >= self.data.len() {
            return Err(DeError::MissingElement);
        }
        if self.data[index].kind() != kind {
            return Err(DeError::DowncastMismatch);
        }
        Ok(&self.data[index])
    }

    /// Takes out the element at `index`, where it is of kind `kind`; the
    /// array is left as it was otherwise.
    pub fn remove_as_object(&mut self, index: usize, kind: DecodedKind) -> (r: Result<Decoded, DeError>)
        ensures
            index >= old(self).spec_data().len() ==> r == Err::<Decoded, DeError>(DeError::MissingElement)
                && final(self).spec_data() == old(self).spec_data(),
            index < old(self).spec_data().len() && kind_of(old(self).spec_data()[index as int]) != kind
                ==> r == Err::<Decoded, DeError>(DeError::DowncastMismatch) && final(self).spec_data()
                == old(self).spec_data(),
            index < old(self).spec_data().len() && kind_of(old(self).spec_data()[index as int]) == kind
                ==> r == Ok::<Decoded, DeError>(old(self).spec_data()[index as int])
                && final(self).spec_data() == old(self).spec_data().remove(index as int),
            final(self).spec_is_mutable() == old(self).spec_is_mutable(),
    {
        if index >= self.data.len() {
            return Err(DeError::MissingElement);
        }
        if self.data[index].kind() != kind {
            return Err(DeError::DowncastMismatch);
        }
        Ok(self.data.remove(index))
    }
}

impl NSSet {
    /// The class it was archived as: mutable or not.
    pub fn class(&self) -> (r: &'static str)
        ensures
            r@ == if self.spec_is_mutable() {
                "NSMutableSet"@
            } else {
                "NSSet"@
            },
    {
        if self.is_mutable {
            "NSMutableSet"
        } else {
            "NSSet"
        }
    }

    pub fn new(data: Vec<Decoded>) -> (r: Self)
        ensures
            r.spec_data() == data@,
            !r.spec_is_mutable(),
    {
        NSSet { data, is_mutable: false }
    }

    pub fn new_mut(data: Vec<Decoded>) -> (r: Self)
        ensures
            r.spec_data() == data@,
            r.spec_is_mutable(),
    {
        NSSet { data, is_mutable: true }
    }

    pub fn is_mutable(&self) -> (r: bool)
        ensures
            r == self.spec_is_mutable(),
    {
        self.is_mutable
    }

    pub fn set_is_mutable(&mut self, v: bool)
        ensures
            final(self).spec_is_mutable() == v,
            final(self).spec_data() == old(self).spec_data(),
    {
        self.is_mutable = v;
    }

    pub fn into_inner(self) -> (r: Vec<Decoded>)
        ensures
            r@ == self.spec_data(),
    {
        self.data
    }

    /// The same elements as an array.
    pub fn into_array(self) -> (r: NSArray)
        ensures
            r.spec_data() == self.spec_data(),
            r.spec_is_mutable() == self.spec_is_mutable(),
    {
        NSArray { data: self.data, is_mutable: self.is_mutable }
    }

    /// Decodes the set that `value` refers to.
    pub fn decode(a: &NSKeyedUnarchiver, value: &ObjectValue, types: &Vec<ObjectType>) -> (r: Result<NSSet, DeError>)
        requires
            a.wf(),
        ensures
            match r {
                Ok(x) => decoded_as(
                    Ok(Decoded::NSSet(x)),
                    spec_decode_with(*a, types@, ObjectType::NSSet, *value),
                    (a.spec_objects().len() + 1) as nat,
                ),
                Err(e) => spec_decode_with(*a, types@, ObjectType::NSSet, *value) == Err::<
                    DecodedView,
                    DeErrorView,
                >(e@),
            },
    {
        match decode_with(a, types, &ObjectType::NSSet, value) {
            Ok(Decoded::NSSet(x)) => Ok(x),
            Ok(_) => {
                proof {
                    assert(false);
                }
                Err(DeError::DowncastMismatch)
            },
            Err(e) => Err(e),
        }
    }
}

impl NSArray {
    /// The same elements as a set.
    pub fn into_set(self) -> (r: NSSet)
        ensures
            r.spec_data() == self.spec_data(),
            r.spec_is_mutable() == self.spec_is_mutable(),
    {
        NSSet { data: self.data, is_mutable: self.is_mutable }
    }
}

/// The position of the first entry of `data` under `key`.
pub open spec fn first_key<V>(data: Seq<(String, V)>, key: Seq<char>) -> Option<int>
    decreases data.len(),
{
    if data.len() == 0 {
        None
    } else {
        match first_key(data.drop_last(), key) {
            Some(i) => Some(i),
            None => if data.last().0@ == key {
                Some(data.len() - 1)
            } else {
                None
            },
        }
    }
}

impl NSDictionary {
    /// The class it was archived as: mutable or not.
    pub fn class(&self) -> (r: &'static str)
        ensures
            r@ == if self.spec_is_mutable() {
                "NSMutableDictionary"@
            } else {
                "NSDictionary"@
            },
    {
        if self.is_mutable {
            "NSMutableDictionary"
        } else {
            "NSDictionary"
        }
    }

    pub fn new(data: Vec<(String, Decoded)>) -> (r: Self)
        ensures
            r.spec_data() == data@,
            !r.spec_is_mutable(),
    {
        NSDictionary { data, is_mutable: false }
    }

    pub fn new_mut(data: Vec<(String, Decoded)>) -> (r: Self)
        ensures
            r.spec_data() == data@,
            r.spec_is_mutable(),
    {
        NSDictionary { data, is_mutable: true }
    }

    pub fn is_mutable(&self) -> (r: bool)
        ensures
            r == self.spec_is_mutable(),
    {
        self.is_mutable
    }

    pub fn set_is_mutable(&mut self, v: bool)
        ensures
            final(self).spec_is_mutable() == v,
            final(self).spec_data() == old(self).spec_data(),
    {
        self.is_mutable = v;
    }

    pub fn into_inner(self) -> (r: Vec<(String, Decoded)>)
        ensures
            r@ == self.spec_data(),
    {
        self.data
    }

    pub fn len(&self) -> (r: usize)
        ensures
            r == self.spec_data().len(),
    {
        self.data.len()
    }

    /// Finds the first entry under `key`.
    fn find(&self, key: &str) -> (r: Option<usize>)
        ensures
            match first_key(self.spec_data(), key@) {
                Some(i) => r matches Some(j) && j as int == i,
                None => r is None,
            },
            r matches Some(j) ==> j < self.spec_data().len(),
    {
        let wanted = key.to_owned();
        let mut i: usize = 0;
        while i < self.data.len()
            invariant
                i <= self.data@.len(),
                wanted@ == key@,
                first_key(self.data@.subrange(0, i as int), key@) is None,
            decreases self.data@.len() - i,
        {
            let ghost p = self.data@.subrange(0, i + 1);
            assert(p.drop_last() =~= self.data@.subrange(0, i as int));
            if self.data[i].0 == wanted {
                proof {
                    lemma_first_key_prefix(self.data@, i + 1, key@);
                }
                return Some(i);
            }
            i = i + 1;
        }
        assert(self.data@.subrange(0, self.data@.len() as int) =~= self.data@);
        None
    }

    /// Decodes the dictionary that `value` refers to: keys and values are
    /// paired in order, and lists of unequal length are an error.
    pub fn decode(a: &NSKeyedUnarchiver, value: &ObjectValue, types: &Vec<ObjectType>) -> (r: Result<NSDictionary, DeError>)
        requires
            a.wf(),
        ensures
            match r {
                Ok(x) => decoded_as(
                    Ok(Decoded::NSDictionary(x)),
                    spec_decode_with(*a, types@, ObjectType::NSDictionary, *value),
                    (a.spec_objects().len() + 1) as nat,
                ),
                Err(e) => spec_decode_with(*a, types@, ObjectType::NSDictionary, *value) == Err::<
                    DecodedView,
                    DeErrorView,
                >(e@),
            },
    {
        match decode_with(a, types, &ObjectType::NSDictionary, value) {
            Ok(Decoded::NSDictionary(x)) => Ok(x),
            Ok(_) => {
                proof {
                    assert(false);
                }
                Err(DeError::DowncastMismatch)
            },
            Err(e) => Err(e),
        }
    }

    /// The value of the first entry under `key`, where it is of kind `kind`.
    pub fn get_as_object(&self, key: &str, kind: DecodedKind) -> (r: Result<&Decoded, DeError>)
        ensures
            match first_key(self.spec_data(), key@) {
                None => r == Err::<&Decoded, DeError>(DeError::MissingElement),
                Some(i) => if kind_of(self.spec_data()[i].1) == kind {
                    r == Ok::<&Decoded, DeError>(&self.spec_data()[i].1)
                } else {
                    r == Err::<&Decoded, DeError>(DeError::DowncastMismatch)
                },
            },
    {
        match self.find(key) {
            None => Err(DeError::MissingElement),
            Some(i) => {
                if self.data[i].1.kind() != kind {
                    Err(DeError::DowncastMismatch)
                } else {
                    Ok(&self.data[i].1)
                }
            },
        }
    }

    /// Takes out the first entry under `key`, where its value is of kind
    /// `kind`; the dictionary is left as it was otherwise.
    pub fn remove_as_object(&mut self, key: &str, kind: DecodedKind) -> (r: Result<Decoded, DeError>)
        ensures
            match first_key(old(self).spec_data(), key@) {
                None => r == Err::<Decoded, DeError>(DeError::MissingElement) && final(self).spec_data()
                    == old(self).spec_data(),
                Some(i) => if kind_of(old(self).spec_data()[i].1) == kind {
                    r == Ok::<Decoded, DeError>(old(self).spec_data()[i].1) && final(self).spec_data()
                        == old(self).spec_data().remove(i)
                } else {
                    r == Err::<Decoded, DeError>(DeError::DowncastMismatch) && final(self).spec_data()
                        == old(self).spec_data()
                },
            },
            final(self).spec_is_mutable() == old(self).spec_is_mutable(),
    {
        match self.find(key) {
            None => Err(DeError::MissingElement),
            Some(i) => {
                if self.data[i].1.kind() != kind {
                    Err(DeError::DowncastMismatch)
                } else {
                    Ok(self.data.remove(i).1)
                }
            },
        }
    }

    /// All entries, where each value is of kind `kind`.
    pub fn try_into_objects(self, kind: DecodedKind) -> (r: Result<Vec<(String, Decoded)>, DeError>)
        ensures
            (forall|k: int| 0 <= k < self.spec_data().len() ==> kind_of(#[trigger] self.spec_data()[k].1) == kind)
                ==> (r matches Ok(v) && v@ == self.spec_data()),
            !(forall|k: int| 0 <= k < self.spec_data().len() ==> kind_of(#[trigger] self.spec_data()[k].1) == kind)
                ==> r == Err::<Vec<(String, Decoded)>, DeError>(DeError::DowncastMismatch),
    {
        let mut i: usize = 0;
        while i < self.data.len()
            invariant
                i <= self.data@.len(),
                forall|k: int| 0 <= k < i ==> kind_of(#[trigger] self.data@[k].1) == kind,
            decreases self.data@.len() - i,
        {
            if self.data[i].1.kind() != kind {
                return Err(DeError::DowncastMismatch);
            }
            i = i + 1;
        }
        Ok(self.data)
    }
}

/// Once a prefix holds the key, its first position is the first position in
/// the whole sequence.
proof fn lemma_first_key_prefix<V>(data: Seq<(String, V)>, i: int, key: Seq<char>)
    requires
        0 <= i <= data.len(),
        first_key(data.subrange(0, i), key) is Some,
    ensures
        first_key(data, key) == first_key(data.subrange(0, i), key),
    decreases data.len() - i,
{
    if i < data.len() {
        let p = data.subrange(0, i + 1);
        assert(p.drop_last() =~= data.subrange(0, i));
        lemma_first_key_prefix(data, i + 1, key);
    } else {
        assert(data.subrange(0, i) =~= data);
    }
}

impl NSData {
    /// The class it was archived as: mutable or not.
    pub fn class(&self) -> (r: &'static str)
        ensures
            r@ == if self.spec_is_mutable() {
                "NSMutableData"@
            } else {
                "NSData"@
            },
    {
        if self.is_mutable {
            "NSMutableData"
        } else {
            "NSData"
        }
    }

    pub fn new(data: Vec<u8>) -> (r: Self)
        ensures
            r.spec_data() == data@,
            !r.spec_is_mutable(),
    {
        NSData { data, is_mutable: false }
    }

    pub fn new_mut(data: Vec<u8>) -> (r: Self)
        ensures
            r.spec_data() == data@,
            r.spec_is_mutable(),
    {
        NSData { data, is_mutable: true }
    }

    pub fn is_mutable(&self) -> (r: bool)
        ensures
            r == self.spec_is_mutable(),
    {
        self.is_mutable
    }

    pub fn set_is_mutable(&mut self, v: bool)
        ensures
            final(self).spec_is_mutable() == v,
            final(self).spec_data() == old(self).spec_data(),
    {
        self.is_mutable = v;
    }

    pub fn into_inner(self) -> (r: Vec<u8>)
        ensures
            r@ == self.spec_data(),
    {
        self.data
    }

    /// Decodes the data object that `value` refers to: its `NS.data` bytes.
    pub fn decode(a: &NSKeyedUnarchiver, value: &ObjectValue, types: &Vec<ObjectType>) -> (r: Result<NSData, DeError>)
        requires
            a.wf(),
        ensures
            match r {
                Ok(x) => spec_decode_with(*a, types@, ObjectType::NSData, *value) == Ok::<
                    DecodedView,
                    DeErrorView,
                >(DecodedView::NSData(x.spec_is_mutable(), x.spec_data())),
                Err(e) => spec_decode_with(*a, types@, ObjectType::NSData, *value) == Err::<
                    DecodedView,
                    DeErrorView,
                >(e@),
            },
    {
        match decode_with(a, types, &ObjectType::NSData, value) {
            Ok(Decoded::NSData(x)) => Ok(x),
            Ok(_) => {
                proof {
                    assert(false);
                }
                Err(DeError::DowncastMismatch)
            },
            Err(e) => Err(e),
        }
    }
}

impl DecodedObject {
    /// The name of the type it was decoded as.
    pub fn name(&self) -> (r: &String)
        ensures
            r@ == self.spec_name(),
    {
        &self.name
    }

    /// The fields in the order of the type's descriptor.
    pub fn fields(&self) -> (r: &Vec<(String, Option<Decoded>)>)
        ensures
            r@ == self.spec_fields(),
    {
        &self.fields
    }

    /// The value of the first field named `key`, where it is present.
    pub fn get(&self, key: &str) -> (r: Option<&Decoded>)
        ensures
            match first_key(self.spec_fields(), key@) {
                None => r is None,
                Some(i) => match self.spec_fields()[i].1 {
                    None => r is None,
                    Some(d) => r == Some(&d),
                },
            },
    {
        let wanted = key.to_owned();
        let mut i: usize = 0;
        while i < self.fields.len()
            invariant
                i <= self.fields@.len(),
                wanted@ == key@,
                first_key(self.fields@.subrange(0, i as int), key@) is None,
            decreases self.fields@.len() - i,
        {
            let ghost p = self.fields@.subrange(0, i + 1);
            assert(p.drop_last() =~= self.fields@.subrange(0, i as int));
            if self.fields[i].0 == wanted {
                proof {
                    lemma_first_key_prefix(self.fields@, i + 1, key@);
                }
                return match &self.fields[i].1 {
                    Some(d) => Some(d),
                    None => None,
                };
            }
            i = i + 1;
        }
        assert(self.fields@.subrange(0, self.fields@.len() as int) =~= self.fields@);
        None
    }
}

} // verus!
