//! Loading an archive: the header, then the object table in two passes.
//!
//! The first pass classifies each node of `$objects` by its shape and checks
//! every reference against the size of the table. The second pass, once
//! every node exists, points each object at its class descriptor. A
//! reference stays an index for good and is looked up when followed.

use vstd::prelude::*;
use crate::archive::{ArchiveValue, ArchiveValueVariant, Object, ObjectValue, UniqueId};
use crate::error::{Error, FormatError, HeaderKey};
use crate::plist::{
    eq_str, find_key, has_key, keys_unique, lemma_filter_keys_unique, lemma_lookup_at, lookup,
    Dictionary, PlistValue,
};

verus! {

/// The name of the only archiver that is read.
pub const ARCHIVER: &'static str = "NSKeyedArchiver";

/// The only archive version that is read.
pub const ARCHIVER_VERSION: u64 = 100000;

/// A dictionary that holds a `$class` reference is an archived object.
pub open spec fn is_object_dict(d: Dictionary) -> bool {
    d.spec_get("$class"@) matches Some(PlistValue::Uid(_))
}

/// The reference to an object's class descriptor.
pub open spec fn class_uid(d: Dictionary) -> u64 {
    match d.spec_get("$class"@) {
        Some(PlistValue::Uid(u)) => u,
        _ => 0,
    }
}

pub open spec fn is_field_entry(e: (String, PlistValue)) -> bool {
    e.0@ != "$class"@
}

/// The entries of an object's dictionary that become its fields.
pub open spec fn field_entries(d: Dictionary) -> Seq<(String, PlistValue)> {
    d.spec_entries().filter(field_pred())
}

pub open spec fn field_pred() -> spec_fn((String, PlistValue)) -> bool {
    |e: (String, PlistValue)| is_field_entry(e)
}

/// A field's raw value is accepted in a table of `n` nodes.
pub open spec fn field_ok(v: PlistValue, n: nat) -> bool {
    match v {
        PlistValue::Uid(u) => u < n,
        PlistValue::Array(a) => forall|k: int|
            0 <= k < a@.len() ==> (#[trigger] a@[k] matches PlistValue::Uid(u) && u < n),
        PlistValue::Dictionary(_) => false,
        _ => true,
    }
}

/// `f` is what the raw field value `v` becomes.
pub open spec fn field_converts(v: PlistValue, f: ObjectValue) -> bool {
    match v {
        PlistValue::Boolean(b) => f == ObjectValue::Boolean(b),
        PlistValue::Data(d) => f == ObjectValue::Data(d),
        PlistValue::Real(x) => f == ObjectValue::Real(x),
        PlistValue::Integer(i) => f == ObjectValue::Integer(i),
        PlistValue::String(s) => if s@ == "$null"@ {
            f == ObjectValue::NullRef
        } else {
            f == ObjectValue::String(s)
        },
        PlistValue::Uid(u) => f matches ObjectValue::Ref(id) && id@ == u,
        PlistValue::Array(a) => f matches ObjectValue::RefArray(ids) && ids@.len() == a@.len()
            && forall|k: int|
            0 <= k < a@.len() ==> (#[trigger] a@[k] matches PlistValue::Uid(u) && ids@[k]@ == u),
        PlistValue::Dictionary(_) => false,
    }
}

/// Field lists correspond entry by entry.
pub open spec fn fields_convert(es: Seq<(String, PlistValue)>, fs: Seq<(String, ObjectValue)>) -> bool {
    &&& fs.len() == es.len()
    &&& forall|k: int|
        0 <= k < es.len() ==> (#[trigger] fs[k]).0 == es[k].0 && field_converts(es[k].1, fs[k].1)
}

/// The `$classes` list of a class descriptor.
pub open spec fn descriptor_list(d: Dictionary) -> Seq<PlistValue> {
    match d.spec_get("$classes"@) {
        Some(PlistValue::Array(a)) => a@,
        _ => Seq::empty(),
    }
}

/// A dictionary that is a well-formed class descriptor: a non-empty
/// `$classes` list of strings.
pub open spec fn is_descriptor(d: Dictionary) -> bool {
    &&& !is_object_dict(d)
    &&& d.spec_get("$classes"@) matches Some(PlistValue::Array(_))
    &&& descriptor_list(d).len() > 0
    &&& forall|k: int| 0 <= k < descriptor_list(d).len() ==> (#[trigger] descriptor_list(d)[k]) is String
}

/// `names` is the list of strings `list`.
pub open spec fn names_convert(list: Seq<PlistValue>, names: Seq<String>) -> bool {
    &&& names.len() == list.len()
    &&& forall|k: int| 0 <= k < list.len() ==> #[trigger] list[k] == PlistValue::String(names[k])
}

/// A node of `$objects` is accepted, on its own, in a table of `n` nodes.
pub open spec fn node_ok(v: PlistValue, n: nat) -> bool {
    match v {
        PlistValue::Dictionary(d) => if is_object_dict(d) {
            &&& class_uid(d) < n
            &&& forall|k: int|
                0 <= k < field_entries(d).len() ==> field_ok(#[trigger] field_entries(d)[k].1, n)
        } else {
            is_descriptor(d)
        },
        PlistValue::Array(_) => false,
        PlistValue::Uid(_) => false,
        _ => true,
    }
}

/// The node is a well-formed class descriptor.
pub open spec fn raw_is_descriptor(v: PlistValue) -> bool {
    v matches PlistValue::Dictionary(d) && is_descriptor(d)
}

/// The class names that a descriptor node lists.
pub open spec fn raw_descriptor_list(v: PlistValue) -> Seq<PlistValue> {
    match v {
        PlistValue::Dictionary(d) => descriptor_list(d),
        _ => Seq::empty(),
    }
}

/// The whole table is accepted: each node on its own, and each object's
/// class reference names a class descriptor.
pub open spec fn graph_ok(objs: Seq<PlistValue>) -> bool {
    forall|i: int|
        0 <= i < objs.len() ==> {
            &&& node_ok(#[trigger] objs[i], objs.len())
            &&& match objs[i] {
                PlistValue::Dictionary(d) => is_object_dict(d) ==> raw_is_descriptor(
                    objs[class_uid(d) as int],
                ),
                _ => true,
            }
        }
}

/// `node` is what the first pass makes of the raw node `v` at position `i`:
/// everything but an object's class names.
pub open spec fn node_shaped(v: PlistValue, node: ArchiveValue, i: int) -> bool {
    &&& node.spec_unique_id()@ == i
    &&& match v {
        PlistValue::Boolean(b) => *node.spec_value() == ArchiveValueVariant::Boolean(b),
        PlistValue::Data(d) => *node.spec_value() == ArchiveValueVariant::Data(d),
        PlistValue::Real(x) => *node.spec_value() == ArchiveValueVariant::Real(x),
        PlistValue::Integer(x) => *node.spec_value() == ArchiveValueVariant::Integer(x),
        PlistValue::String(s) => if s@ == "$null"@ {
            *node.spec_value() == ArchiveValueVariant::NullRef
        } else {
            *node.spec_value() == ArchiveValueVariant::String(s)
        },
        PlistValue::Dictionary(d) => if is_object_dict(d) {
            node.spec_value() matches ArchiveValueVariant::Object(o) && o.spec_class_id()@
                == class_uid(d) && fields_convert(field_entries(d), o.spec_fields())
        } else {
            node.spec_value() matches ArchiveValueVariant::Classes(c) && names_convert(
                descriptor_list(d),
                c@,
            )
        },
        _ => false,
    }
}

/// `node` is what loading makes of the raw node at position `i` of `objs`.
pub open spec fn node_converts(objs: Seq<PlistValue>, node: ArchiveValue, i: int) -> bool {
    &&& node_shaped(objs[i], node, i)
    &&& (node.spec_value() matches ArchiveValueVariant::Object(o) ==> names_convert(
        raw_descriptor_list(objs[o.spec_class_id()@ as int]),
        o.spec_classes(),
    ))
}

/// Converts one field value; references are checked against a table of
/// `n` nodes.
fn convert_field(v: PlistValue, n: usize) -> (r: Result<ObjectValue, Error>)
    ensures
        r is Ok <==> field_ok(v, n as nat),
        r matches Ok(f) ==> field_converts(v, f),
        r matches Err(e) ==> e is IncorrectFormat,
        r matches Err(Error::IncorrectFormat(FormatError::BadIndex(u))) ==> u >= n,
{
    match v {
        PlistValue::Boolean(b) => Ok(ObjectValue::Boolean(b)),
        PlistValue::Data(d) => Ok(ObjectValue::Data(d)),
        PlistValue::Real(x) => Ok(ObjectValue::Real(x)),
        PlistValue::Integer(i) => Ok(ObjectValue::Integer(i)),
        PlistValue::String(s) => {
            if eq_str(&s, "$null") {
                Ok(ObjectValue::NullRef)
            } else {
                Ok(ObjectValue::String(s))
            }
        },
        PlistValue::Uid(u) => {
            if u < n as u64 {
                Ok(ObjectValue::Ref(UniqueId::new(u as usize)))
            } else {
                Err(Error::IncorrectFormat(FormatError::BadIndex(u)))
            }
        },
        PlistValue::Array(items) => {
            let ghost raw = items@;
            assert(v matches PlistValue::Array(a) && a@ == raw);
            let mut ids: Vec<UniqueId> = Vec::new();
            for item in it: items
                invariant
                    it.seq() == raw,
                    v matches PlistValue::Array(a) && a@ == raw,
                    ids@.len() == it.index(),
                    forall|k: int|
                        0 <= k < it.index() ==> (#[trigger] raw[k] matches PlistValue::Uid(u) && u
                            < n && ids@[k]@ == u),
            {
                let ghost k = it.index();
                assert(raw[k] == item);
                match item {
                    PlistValue::Uid(u) => {
                        if u < n as u64 {
                            ids.push(UniqueId::new(u as usize));
                        } else {
                            assert(!(raw[k] matches PlistValue::Uid(w) && w < n));
                            return Err(Error::IncorrectFormat(FormatError::BadIndex(u)));
                        }
                    },
                    _ => {
                        assert(!(raw[k] matches PlistValue::Uid(w) && w < n));
                        return Err(Error::IncorrectFormat(FormatError::UnexpectedValueType));
                    },
                }
            }
            Ok(ObjectValue::RefArray(ids))
        },
        PlistValue::Dictionary(_) => Err(Error::IncorrectFormat(FormatError::UnexpectedValueType)),
    }
}

/// Filtering a prefix one entry longer adds that entry, where it passes.
proof fn lemma_filter_prefix_step<A>(s: Seq<A>, pred: spec_fn(A) -> bool, i: int)
    requires
        0 <= i < s.len(),
    ensures
        s.subrange(0, i + 1).filter(pred) == if pred(s[i]) {
            s.subrange(0, i).filter(pred).push(s[i])
        } else {
            s.subrange(0, i).filter(pred)
        },
{
    reveal(Seq::filter);
    let p = s.subrange(0, i + 1);
    assert(p.drop_last() =~= s.subrange(0, i));
    assert(p.last() == s[i]);
}

/// Where the entry at `i` passes, it stands in the whole filtered sequence
/// right after the filtered prefix.
proof fn lemma_filter_position<A>(s: Seq<A>, pred: spec_fn(A) -> bool, i: int)
    requires
        0 <= i < s.len(),
        pred(s[i]),
    ensures
        s.subrange(0, i).filter(pred).len() < s.filter(pred).len(),
        s.filter(pred)[s.subrange(0, i).filter(pred).len() as int] == s[i],
{
    lemma_filter_prefix_step(s, pred, i);
    let head = s.subrange(0, i + 1);
    let tail = s.subrange(i + 1, s.len() as int);
    assert(s =~= head + tail);
    Seq::filter_distributes_over_add(head, tail, pred);
}

/// Builds an object from its dictionary: every entry but `$class` becomes a
/// field, in order; references are checked against a table of `n` nodes.
fn from_dict(d: Dictionary, n: usize) -> (r: Result<Object, Error>)
    requires
        is_object_dict(d),
    ensures
        r is Ok <==> class_uid(d) < n && forall|k: int|
            0 <= k < field_entries(d).len() ==> field_ok(#[trigger] field_entries(d)[k].1, n as nat),
        r matches Ok(o) ==> {
            &&& o.spec_class_id()@ == class_uid(d)
            &&& o.spec_classes().len() == 0
            &&& fields_convert(field_entries(d), o.spec_fields())
            &&& keys_unique(o.spec_fields())
        },
        r matches Err(e) ==> e is IncorrectFormat,
        r matches Err(Error::IncorrectFormat(FormatError::BadIndex(u))) ==> u >= n,
{
    let uid = match d.get("$class") {
        Some(PlistValue::Uid(u)) => *u,
        _ => 0,
    };
    if uid >= n as u64 {
        return Err(Error::IncorrectFormat(FormatError::BadIndex(uid)));
    }
    let ghost pred = field_pred();
    let ghost all = field_entries(d);
    let entries = d.into_entries();
    let ghost es = entries@;
    proof {
        lemma_filter_keys_unique(es, pred);
    }
    let mut fields: Vec<(String, ObjectValue)> = Vec::new();
    for e in it: entries
        invariant
            it.seq() == es,
            es == d.spec_entries(),
            all == es.filter(pred),
            pred == field_pred(),
            all == field_entries(d),
            fields_convert(es.subrange(0, it.index() as int).filter(pred), fields@),
            forall|k: int|
                0 <= k < es.subrange(0, it.index() as int).filter(pred).len() ==> field_ok(
                    #[trigger] es.subrange(0, it.index() as int).filter(pred)[k].1,
                    n as nat,
                ),
    {
        let ghost i = it.index() as int;
        assert(es[i] == e);
        proof {
            lemma_filter_prefix_step(es, pred, i);
        }
        let (key, value) = e;
        if !eq_str(&key, "$class") {
            proof {
                lemma_filter_position(es, pred, i);
            }
            match convert_field(value, n) {
                Ok(f) => {
                    fields.push((key, f));
                },
                Err(err) => {
                    assert(!field_ok(all[es.subrange(0, i).filter(pred).len() as int].1, n as nat));
                    return Err(err);
                },
            }
        }
    }
    assert(es.subrange(0, es.len() as int) =~= es);
    assert(keys_unique(fields@)) by {
        assert forall|a: int, b: int|
            0 <= a < fields@.len() && 0 <= b < fields@.len() && (#[trigger] fields@[a]).0@ == (
            #[trigger] fields@[b]).0@ implies a == b by {
            assert(fields@[a].0 == all[a].0);
            assert(fields@[b].0 == all[b].0);
        }
    }
    Ok(Object::new(UniqueId::new(uid as usize), Vec::new(), fields))
}

/// Whether a dictionary is an archived object: it holds a `$class`
/// reference.
fn is_container(d: &Dictionary) -> (r: bool)
    ensures
        r == is_object_dict(*d),
{
    match d.get("$class") {
        Some(PlistValue::Uid(_)) => true,
        _ => false,
    }
}

/// Reads a class descriptor: its `$classes` list of names.
fn classes_from_dict(dict: Dictionary) -> (r: Result<Vec<String>, Error>)
    requires
        !is_object_dict(dict),
    ensures
        r is Ok <==> is_descriptor(dict),
        r matches Ok(c) ==> names_convert(descriptor_list(dict), c@),
        r matches Err(e) ==> e is IncorrectFormat && !(e matches Error::IncorrectFormat(FormatError::BadIndex(_))),
{
    let ghost list = descriptor_list(dict);
    let mut d = dict;
    match d.remove("$classes") {
        Some(PlistValue::Array(items)) => {
            if items.len() == 0 {
                return Err(Error::IncorrectFormat(FormatError::MalformedClasses));
            }
            let mut names: Vec<String> = Vec::new();
            for item in it: items
                invariant
                    it.seq() == list,
                    list == descriptor_list(dict),
                    !is_object_dict(dict),
                    dict.spec_get("$classes"@) matches Some(PlistValue::Array(_)),
                    list.len() > 0,
                    names@.len() == it.index(),
                    forall|k: int| 0 <= k < it.index() ==> #[trigger] list[k] == PlistValue::String(names@[k]),
            {
                let ghost k = it.index();
                assert(list[k] == item);
                match item {
                    PlistValue::String(s) => {
                        names.push(s);
                    },
                    _ => {
                        assert(!(list[k] is String));
                        return Err(Error::IncorrectFormat(FormatError::MalformedClasses));
                    },
                }
            }
            Ok(names)
        },
        Some(_) => Err(Error::IncorrectFormat(FormatError::MalformedClasses)),
        None => Err(Error::IncorrectFormat(FormatError::UnexpectedValueType)),
    }
}

/// The first pass on one node: what it holds, by its shape.
fn decode_node(v: PlistValue, index: usize, n: usize) -> (r: Result<ArchiveValue, Error>)
    ensures
        r is Ok <==> node_ok(v, n as nat),
        r matches Ok(node) ==> {
            &&& node_shaped(v, node, index as int)
            &&& (node.spec_value() matches ArchiveValueVariant::Object(o) ==> o.spec_classes().len() == 0
                && keys_unique(o.spec_fields()))
        },
        r matches Err(e) ==> e is IncorrectFormat,
        r matches Err(Error::IncorrectFormat(FormatError::BadIndex(u))) ==> u >= n,
{
    let id = UniqueId::new(index);
    let value = match v {
        PlistValue::Dictionary(d) => {
            if is_container(&d) {
                match from_dict(d, n) {
                    Ok(o) => ArchiveValueVariant::Object(o),
                    Err(e) => {
                        return Err(e);
                    },
                }
            } else {
                match classes_from_dict(d) {
                    Ok(c) => ArchiveValueVariant::Classes(c),
                    Err(e) => {
                        return Err(e);
                    },
                }
            }
        },
        PlistValue::Boolean(b) => ArchiveValueVariant::Boolean(b),
        PlistValue::Data(d) => ArchiveValueVariant::Data(d),
        PlistValue::Real(x) => ArchiveValueVariant::Real(x),
        PlistValue::Integer(i) => ArchiveValueVariant::Integer(i),
        PlistValue::String(s) => {
            if eq_str(&s, "$null") {
                ArchiveValueVariant::NullRef
            } else {
                ArchiveValueVariant::String(s)
            }
        },
        PlistValue::Array(_) => {
            return Err(Error::IncorrectFormat(FormatError::UnexpectedValueType));
        },
        PlistValue::Uid(_) => {
            return Err(Error::IncorrectFormat(FormatError::UnexpectedValueType));
        },
    };
    Ok(ArchiveValue::new(value, id))
}

/// The references of a field value name nodes of a table of `n` nodes.
pub open spec fn refs_in(v: ObjectValue, n: nat) -> bool {
    match v {
        ObjectValue::Ref(id) => id@ < n,
        ObjectValue::RefArray(ids) => forall|k: int| 0 <= k < ids@.len() ==> (#[trigger] ids@[k])@ < n,
        _ => true,
    }
}

/// An object of the table `t` is well formed: unique field names, a class
/// reference to a descriptor whose names it holds, and references that name
/// nodes of `t`.
pub open spec fn object_in(o: Object, t: Seq<ArchiveValue>) -> bool {
    &&& o.wf()
    &&& o.spec_class_id()@ < t.len()
    &&& t[o.spec_class_id()@ as int].spec_value() matches ArchiveValueVariant::Classes(c) && c@
        == o.spec_classes()
    &&& forall|k: int| 0 <= k < o.spec_fields().len() ==> refs_in(#[trigger] o.spec_fields()[k].1, t.len())
}

/// The invariant of a loaded table: each node's identity is its position,
/// descriptors are non-empty and objects are well formed.
pub open spec fn table_wf(t: Seq<ArchiveValue>) -> bool {
    forall|i: int|
        0 <= i < t.len() ==> {
            &&& (#[trigger] t[i]).spec_unique_id()@ == i
            &&& match t[i].spec_value() {
                ArchiveValueVariant::Object(o) => object_in(*o, t),
                ArchiveValueVariant::Classes(c) => c@.len() > 0,
                _ => true,
            }
        }
}

/// Two name lists read from one list of strings are equal.
proof fn lemma_names_equal(list: Seq<PlistValue>, a: Seq<String>, b: Seq<String>)
    requires
        names_convert(list, a),
        names_convert(list, b),
    ensures
        a == b,
{
    assert forall|k: int| 0 <= k < a.len() implies a[k] == b[k] by {
        assert(list[k] == PlistValue::String(a[k]));
        assert(list[k] == PlistValue::String(b[k]));
    }
    assert(a =~= b);
}

/// A converted field value refers only to nodes of the table.
proof fn lemma_field_refs(v: PlistValue, f: ObjectValue, n: nat)
    requires
        field_ok(v, n),
        field_converts(v, f),
    ensures
        refs_in(f, n),
{
    match v {
        PlistValue::Array(a) => {
            if let ObjectValue::RefArray(ids) = f {
                assert forall|k: int| 0 <= k < ids@.len() implies (#[trigger] ids@[k])@ < n by {
                    assert(a@[k] matches PlistValue::Uid(u) && u < n);
                }
            }
        },
        _ => {},
    }
}

/// A table converted from an accepted raw table is well formed.
proof fn lemma_table_wf(objs: Seq<PlistValue>, t: Seq<ArchiveValue>)
    requires
        graph_ok(objs),
        t.len() == objs.len(),
        forall|j: int| 0 <= j < t.len() ==> node_converts(objs, #[trigger] t[j], j),
        forall|j: int|
            0 <= j < t.len() ==> (#[trigger] t[j].spec_value() matches ArchiveValueVariant::Object(o)
                ==> keys_unique(o.spec_fields())),
    ensures
        table_wf(t),
{
    assert forall|i: int| 0 <= i < t.len() implies {
        &&& (#[trigger] t[i]).spec_unique_id()@ == i
        &&& match t[i].spec_value() {
            ArchiveValueVariant::Object(o) => object_in(*o, t),
            ArchiveValueVariant::Classes(c) => c@.len() > 0,
            _ => true,
        }
    } by {
        assert(node_converts(objs, t[i], i));
        assert(node_ok(objs[i], objs.len()));
        match t[i].spec_value() {
            ArchiveValueVariant::Object(o) => {
                if let PlistValue::Dictionary(d) = objs[i] {
                    let c = class_uid(d) as int;
                    assert(raw_is_descriptor(objs[c]));
                    assert(node_converts(objs, t[c], c));
                    if let PlistValue::Dictionary(cd) = objs[c] {
                        assert(descriptor_list(cd).len() > 0);
                        if let ArchiveValueVariant::Classes(names) = t[c].spec_value() {
                            lemma_names_equal(descriptor_list(cd), names@, o.spec_classes());
                        }
                    }
                    let es = field_entries(d);
                    assert forall|k: int| 0 <= k < o.spec_fields().len() implies refs_in(
                        #[trigger] o.spec_fields()[k].1,
                        t.len(),
                    ) by {
                        assert(field_ok(es[k].1, objs.len()));
                        lemma_field_refs(es[k].1, o.spec_fields()[k].1, objs.len());
                    }
                }
            },
            ArchiveValueVariant::Classes(c) => {},
            _ => {},
        }
    }
}

/// Copies a list of class names.
fn clone_names(v: &Vec<String>) -> (r: Vec<String>)
    ensures
        r@ == v@,
{
    let mut r: Vec<String> = Vec::new();
    let mut i: usize = 0;
    while i < v.len()
        invariant
            i <= v@.len(),
            r@ == v@.subrange(0, i as int),
        decreases v@.len() - i,
    {
        r.push(v[i].clone());
        assert(r@ =~= v@.subrange(0, i + 1));
        i = i + 1;
    }
    assert(v@.subrange(0, v@.len() as int) =~= v@);
    r
}

/// The second pass: each object, in table order, is pointed at the class
/// descriptor that its class reference names, whose class names it takes.
fn apply_value_refs(table: &mut Vec<ArchiveValue>, Ghost(objs): Ghost<Seq<PlistValue>>) -> (r: Result<(), Error>)
    requires
        old(table)@.len() == objs.len(),
        forall|j: int| 0 <= j < objs.len() ==> node_ok(#[trigger] objs[j], objs.len()),
        forall|j: int|
            0 <= j < objs.len() ==> {
                &&& node_shaped(objs[j], #[trigger] old(table)@[j], j)
                &&& (old(table)@[j].spec_value() matches ArchiveValueVariant::Object(o) ==> o.spec_classes().len() == 0
                    && keys_unique(o.spec_fields()))
            },
    ensures
        r is Ok <==> graph_ok(objs),
        r matches Err(e) ==> e == Error::IncorrectFormat(FormatError::MalformedClasses),
        r is Ok ==> {
            &&& final(table)@.len() == objs.len()
            &&& forall|j: int| 0 <= j < objs.len() ==> node_converts(objs, #[trigger] final(table)@[j], j)
            &&& forall|j: int|
                0 <= j < objs.len() ==> (#[trigger] final(table)@[j].spec_value() matches ArchiveValueVariant::Object(o)
                    ==> keys_unique(o.spec_fields()))
        },
{
    let n = table.len();
    let mut i: usize = 0;
    while i < n
        invariant
            n == objs.len(),
            table@.len() == n,
            forall|j: int| 0 <= j < n ==> node_ok(#[trigger] objs[j], n as nat),
            i <= n,
            forall|j: int|
                0 <= j < n ==> {
                    &&& node_shaped(objs[j], #[trigger] table@[j], j)
                    &&& (table@[j].spec_value() matches ArchiveValueVariant::Object(o) ==> keys_unique(
                        o.spec_fields(),
                    ))
                    &&& (j >= i ==> (table@[j].spec_value() matches ArchiveValueVariant::Object(o)
                        ==> o.spec_classes().len() == 0))
                },
            forall|j: int|
                0 <= j < i ==> {
                    &&& node_converts(objs, #[trigger] table@[j], j)
                    &&& match objs[j] {
                        PlistValue::Dictionary(d) => is_object_dict(d) ==> raw_is_descriptor(
                            objs[class_uid(d) as int],
                        ),
                        _ => true,
                    }
                },
        decreases n - i,
    {
        assert(node_ok(objs[i as int], n as nat));
        assert(node_shaped(objs[i as int], table@[i as int], i as int));
        let class_ref = match table[i].as_object() {
            Some(o) => Some(o.class_id()),
            None => None,
        };
        match class_ref {
            Some(cid) => {
                let c = cid.get();
                let ghost cd = objs[i as int]->Dictionary_0;
                assert(c == class_uid(cd));
                assert(node_shaped(objs[c as int], table@[c as int], c as int));
                assert(node_ok(objs[c as int], n as nat));
                let names = match table[c].as_classes() {
                    Some(v) => clone_names(v),
                    None => {
                        assert(!raw_is_descriptor(objs[c as int]));
                        assert(!graph_ok(objs));
                        return Err(Error::IncorrectFormat(FormatError::MalformedClasses));
                    },
                };
                assert(raw_is_descriptor(objs[c as int]));
                let mut node = ArchiveValue::new(ArchiveValueVariant::NullRef, UniqueId::new(i));
                std::mem::swap(&mut table[i], &mut node);
                let node = node.with_classes(names);
                table.set(i, node);
                assert forall|j: int| 0 <= j < i + 1 implies node_converts(objs, #[trigger] table@[j], j) by {
                    if j < i {
                        assert(node_converts(objs, table@[j], j));
                    }
                }
            },
            None => {},
        }
        i = i + 1;
    }
    assert(graph_ok(objs)) by {
        assert forall|j: int| 0 <= j < objs.len() implies {
            &&& node_ok(#[trigger] objs[j], objs.len())
            &&& match objs[j] {
                PlistValue::Dictionary(d) => is_object_dict(d) ==> raw_is_descriptor(
                    objs[class_uid(d) as int],
                ),
                _ => true,
            }
        } by {
            assert(node_converts(objs, table@[j], j));
        }
    }
    assert forall|j: int|
        0 <= j < objs.len() implies (#[trigger] table@[j].spec_value() matches ArchiveValueVariant::Object(o)
            ==> keys_unique(o.spec_fields())) by {
        assert(node_shaped(objs[j], table@[j], j));
    }
    Ok(())
}

/// Builds the node table from the raw `$objects` array: every node is
/// classified first, then each object, in table order, is pointed at its
/// class descriptor.
fn decode_objects(objects: Vec<PlistValue>) -> (r: Result<Vec<ArchiveValue>, Error>)
    ensures
        r is Ok <==> graph_ok(objects@),
        r matches Ok(t) ==> {
            &&& t@.len() == objects@.len()
            &&& table_wf(t@)
            &&& forall|j: int| 0 <= j < t@.len() ==> node_converts(objects@, #[trigger] t@[j], j)
        },
        r matches Err(e) ==> e is IncorrectFormat,
        r matches Err(Error::IncorrectFormat(FormatError::BadIndex(u))) ==> u >= objects@.len(),
{
    let n = objects.len();
    let ghost objs = objects@;
    let mut table: Vec<ArchiveValue> = Vec::new();
    let mut index: usize = 0;
    for obj in it: objects
        invariant
            it.seq() == objs,
            objs == objects@,
            n == objs.len(),
            index == it.index(),
            table@.len() == index,
            forall|j: int|
                0 <= j < index ==> {
                    &&& node_ok(#[trigger] objs[j], n as nat)
                    &&& node_shaped(objs[j], table@[j], j)
                    &&& (table@[j].spec_value() matches ArchiveValueVariant::Object(o)
                        ==> o.spec_classes().len() == 0 && keys_unique(o.spec_fields()))
                },
    {
        assert(objs[index as int] == obj);
        match decode_node(obj, index, n) {
            Ok(node) => {
                table.push(node);
            },
            Err(e) => {
                assert(!node_ok(objs[index as int], n as nat));
                return Err(e);
            },
        }
        index = index + 1;
    }
    assert forall|j: int| 0 <= j < n implies node_ok(#[trigger] objs[j], n as nat) && node_shaped(
        objs[j],
        table@[j],
        j,
    ) && (table@[j].spec_value() matches ArchiveValueVariant::Object(o) ==> o.spec_classes().len()
        == 0 && keys_unique(o.spec_fields())) by {
        assert(node_ok(objs[j], n as nat));
    }
    match apply_value_refs(&mut table, Ghost(objs)) {
        Ok(()) => {},
        Err(e) => {
            return Err(e);
        },
    }
    proof {
        lemma_table_wf(objs, table@);
    }
    Ok(table)
}

/// What an archive's header lacks or holds wrongly, checked key by key in
/// the order `$archiver`, `$version`, `$top`, `$objects`; `None` for a
/// valid header.
pub open spec fn header_fault(d: Dictionary) -> Option<Error> {
    if d.spec_get("$archiver"@) is None {
        Some(Error::MissingHeaderKey(HeaderKey::Archiver))
    } else if !(d.spec_get("$archiver"@) matches Some(PlistValue::String(s)) && s@ == ARCHIVER@) {
        Some(Error::WrongHeaderValue(HeaderKey::Archiver))
    } else if d.spec_get("$version"@) is None {
        Some(Error::MissingHeaderKey(HeaderKey::Version))
    } else if !(d.spec_get("$version"@) matches Some(PlistValue::Integer(i)) && i.spec_value()
        == ARCHIVER_VERSION) {
        Some(Error::WrongHeaderValue(HeaderKey::Version))
    } else if d.spec_get("$top"@) is None {
        Some(Error::MissingHeaderKey(HeaderKey::Top))
    } else if !(d.spec_get("$top"@) matches Some(PlistValue::Dictionary(_))) {
        Some(Error::WrongHeaderValue(HeaderKey::Top))
    } else if d.spec_get("$objects"@) is None {
        Some(Error::MissingHeaderKey(HeaderKey::Objects))
    } else if !(d.spec_get("$objects"@) matches Some(PlistValue::Array(_))) {
        Some(Error::WrongHeaderValue(HeaderKey::Objects))
    } else {
        None
    }
}

/// The raw `$objects` array of a header.
pub open spec fn header_objects(d: Dictionary) -> Seq<PlistValue> {
    match d.spec_get("$objects"@) {
        Some(PlistValue::Array(a)) => a@,
        _ => Seq::empty(),
    }
}

/// The entries of the `$top` dictionary of a header.
pub open spec fn header_top(d: Dictionary) -> Seq<(String, PlistValue)> {
    match d.spec_get("$top"@) {
        Some(PlistValue::Dictionary(t)) => t.spec_entries(),
        _ => Seq::empty(),
    }
}

pub open spec fn top_pred() -> spec_fn((String, PlistValue)) -> bool {
    |e: (String, PlistValue)| e.1 is Uid
}

/// Every reference of `$top` names a node of a table of `n` nodes.
pub open spec fn top_ok(es: Seq<(String, PlistValue)>, n: nat) -> bool {
    forall|k: int| 0 <= k < es.len() ==> (#[trigger] es[k].1 matches PlistValue::Uid(u) ==> u < n)
}

/// `top` holds the labels of `es` whose value is a reference, in order,
/// each with the node it names.
pub open spec fn top_converts(es: Seq<(String, PlistValue)>, top: Seq<(String, UniqueId)>) -> bool {
    let refs = es.filter(top_pred());
    &&& top.len() == refs.len()
    &&& forall|k: int|
        0 <= k < refs.len() ==> (#[trigger] top[k]).0 == refs[k].0 && refs[k].1 == PlistValue::Uid(
            top[k].1@ as u64,
        )
}

/// Looks up a header key.
fn get_header_key(d: &Dictionary, key: HeaderKey) -> (r: Result<&PlistValue, Error>)
    ensures
        r is Err <==> d.spec_get(key.spec_name()) is None,
        r matches Ok(v) ==> d.spec_get(key.spec_name()) == Some(*v),
        r matches Err(e) ==> e == Error::MissingHeaderKey(key),
{
    match d.get(key.name()) {
        Some(v) => Ok(v),
        None => Err(Error::MissingHeaderKey(key)),
    }
}

/// The labels of `$top` whose value is a reference, with the node each
/// names in a table of `n` nodes; other entries are passed over.
fn resolve_top(t: &Dictionary, n: usize) -> (r: Result<Vec<(String, UniqueId)>, Error>)
    ensures
        r is Ok <==> top_ok(t.spec_entries(), n as nat),
        r matches Ok(top) ==> {
            &&& top_converts(t.spec_entries(), top@)
            &&& keys_unique(top@)
            &&& forall|k: int| 0 <= k < top@.len() ==> (#[trigger] top@[k]).1@ < n
        },
        r matches Err(e) ==> e is IncorrectFormat,
        r matches Err(Error::IncorrectFormat(FormatError::BadIndex(u))) ==> u >= n,
{
    let entries = t.entries();
    let ghost es = entries@;
    let ghost pred = top_pred();
    proof {
        lemma_filter_keys_unique(es, pred);
    }
    let mut top: Vec<(String, UniqueId)> = Vec::new();
    let mut i: usize = 0;
    while i < entries.len()
        invariant
            es == entries@,
            es == t.spec_entries(),
            pred == top_pred(),
            keys_unique(es.filter(pred)),
            i <= es.len(),
            top_converts(es.subrange(0, i as int), top@),
            top_ok(es.subrange(0, i as int), n as nat),
            forall|k: int| 0 <= k < top@.len() ==> (#[trigger] top@[k]).1@ < n,
        decreases es.len() - i,
    {
        proof {
            lemma_filter_prefix_step(es, pred, i as int);
            assert(es.subrange(0, i + 1).subrange(0, i as int) =~= es.subrange(0, i as int));
        }
        match &entries[i].1 {
            PlistValue::Uid(u) => {
                if *u < n as u64 {
                    top.push((entries[i].0.clone(), UniqueId::new(*u as usize)));
                } else {
                    assert(!top_ok(es, n as nat)) by {
                        assert(es[i as int].1 matches PlistValue::Uid(w) && w >= n);
                    }
                    return Err(Error::IncorrectFormat(FormatError::BadIndex(*u)));
                }
            },
            _ => {},
        }
        assert(top_ok(es.subrange(0, i + 1), n as nat)) by {
            assert forall|k: int| 0 <= k < i + 1 implies (#[trigger] es.subrange(0, i + 1)[k].1 matches PlistValue::Uid(u) ==> u < n) by {
                if k < i {
                    assert(es.subrange(0, i + 1)[k] == es.subrange(0, i as int)[k]);
                }
            }
        }
        i = i + 1;
    }
    assert(es.subrange(0, es.len() as int) =~= es);
    assert(keys_unique(top@)) by {
        let refs = es.filter(pred);
        assert forall|a: int, b: int|
            0 <= a < top@.len() && 0 <= b < top@.len() && (#[trigger] top@[a]).0@ == (
            #[trigger] top@[b]).0@ implies a == b by {
            assert(top@[a].0 == refs[a].0);
            assert(top@[b].0 == refs[b].0);
        }
    }
    Ok(top)
}

/// A loaded archive: its node table and its root labels.
pub struct NSKeyedUnarchiver {
    objects: Vec<ArchiveValue>,
    top: Vec<(String, UniqueId)>,
}

impl NSKeyedUnarchiver {
    /// The node table.
    pub closed spec fn spec_objects(&self) -> Seq<ArchiveValue> {
        self.objects@
    }

    /// The root labels, each with the node it names.
    pub closed spec fn spec_top(&self) -> Seq<(String, UniqueId)> {
        self.top@
    }

    /// The table is well formed and every root label names one of its nodes.
    pub open spec fn wf(&self) -> bool {
        &&& table_wf(self.spec_objects())
        &&& keys_unique(self.spec_top())
        &&& forall|k: int|
            0 <= k < self.spec_top().len() ==> (#[trigger] self.spec_top()[k]).1@
                < self.spec_objects().len()
    }

    /// Loads an archive from the root of its property list: the header is
    /// checked, then the object table is built.
    pub fn new(plist: PlistValue) -> (r: Result<Self, Error>)
        ensures
            !(plist is Dictionary) ==> r == Err::<Self, Error>(Error::NotADictionary),
            plist matches PlistValue::Dictionary(d) ==> match header_fault(d) {
                Some(e) => r == Err::<Self, Error>(e),
                None => {
                    &&& (r is Ok <==> graph_ok(header_objects(d)) && top_ok(
                        header_top(d),
                        header_objects(d).len(),
                    ))
                    &&& (r matches Err(e) ==> e is IncorrectFormat)
                    &&& (r matches Err(Error::IncorrectFormat(FormatError::BadIndex(u))) ==> u
                        >= header_objects(d).len())
                    &&& (r matches Ok(a) ==> {
                        &&& a.wf()
                        &&& a.spec_objects().len() == header_objects(d).len()
                        &&& forall|j: int|
                            0 <= j < a.spec_objects().len() ==> node_converts(
                                header_objects(d),
                                #[trigger] a.spec_objects()[j],
                                j,
                            )
                        &&& top_converts(header_top(d), a.spec_top())
                    })
                },
            },
    {
        let ghost raw = plist;
        let mut d = match plist {
            PlistValue::Dictionary(d) => d,
            _ => {
                return Err(Error::NotADictionary);
            },
        };
        let ghost d0 = d;
        match get_header_key(&d, HeaderKey::Archiver)? {
            PlistValue::String(s) => {
                if !eq_str(s, ARCHIVER) {
                    return Err(Error::WrongHeaderValue(HeaderKey::Archiver));
                }
            },
            _ => {
                return Err(Error::WrongHeaderValue(HeaderKey::Archiver));
            },
        }
        match get_header_key(&d, HeaderKey::Version)? {
            PlistValue::Integer(i) => {
                match i.as_unsigned() {
                    Some(v) => {
                        if v != ARCHIVER_VERSION {
                            return Err(Error::WrongHeaderValue(HeaderKey::Version));
                        }
                    },
                    None => {
                        return Err(Error::WrongHeaderValue(HeaderKey::Version));
                    },
                }
            },
            _ => {
                return Err(Error::WrongHeaderValue(HeaderKey::Version));
            },
        }
        match get_header_key(&d, HeaderKey::Top)? {
            PlistValue::Dictionary(_) => {},
            _ => {
                return Err(Error::WrongHeaderValue(HeaderKey::Top));
            },
        }
        let n = match get_header_key(&d, HeaderKey::Objects)? {
            PlistValue::Array(a) => a.len(),
            _ => {
                return Err(Error::WrongHeaderValue(HeaderKey::Objects));
            },
        };
        let top = match d.get("$top") {
            Some(PlistValue::Dictionary(t)) => resolve_top(t, n)?,
            _ => {
                return Err(Error::WrongHeaderValue(HeaderKey::Top));
            },
        };
        let objects = match d.remove("$objects") {
            Some(PlistValue::Array(a)) => a,
            _ => {
                return Err(Error::WrongHeaderValue(HeaderKey::Objects));
            },
        };
        let objects = decode_objects(objects)?;
        Ok(NSKeyedUnarchiver { objects, top })
    }

    /// The root labels, each with the node it names, in the header's order.
    pub fn top(&self) -> (r: &Vec<(String, UniqueId)>)
        ensures
            r@ == self.spec_top(),
    {
        &self.top
    }

    /// The node that a root label names.
    pub fn top_value(&self, label: &str) -> (r: Option<UniqueId>)
        requires
            self.wf(),
        ensures
            r is None <==> !has_key(self.spec_top(), label@),
            r matches Some(id) ==> lookup(self.spec_top(), label@) == Some(id),
    {
        match find_key(&self.top, label) {
            Some(i) => {
                proof {
                    lemma_lookup_at(self.top@, i as int);
                }
                Some(self.top[i].1)
            },
            None => None,
        }
    }

    /// The node labelled `root`.
    pub fn root(&self) -> (r: Option<UniqueId>)
        requires
            self.wf(),
        ensures
            r is None <==> !has_key(self.spec_top(), "root"@),
            r matches Some(id) ==> lookup(self.spec_top(), "root"@) == Some(id),
    {
        self.top_value("root")
    }

    /// The whole node table.
    pub fn values(&self) -> (r: &Vec<ArchiveValue>)
        ensures
            r@ == self.spec_objects(),
    {
        &self.objects
    }

    /// The number of nodes.
    pub fn len(&self) -> (r: usize)
        ensures
            r == self.spec_objects().len(),
    {
        self.objects.len()
    }

    /// In a well-formed archive, an object node is well formed.
    pub proof fn lemma_object_wf(&self, id: UniqueId)
        requires
            self.wf(),
            self.spec_node(id) matches Some(n) && n.spec_value() is Object,
        ensures
            self.spec_node(id) matches Some(n) && n.spec_value() matches ArchiveValueVariant::Object(o)
                && object_in(*o, self.spec_objects()),
    {
        assert(table_wf(self.spec_objects()));
        let t = self.spec_objects();
        assert(t[id@ as int].spec_unique_id()@ == id@);
    }

    /// The node with identity `id`, if the table has one.
    pub open spec fn spec_node(&self, id: UniqueId) -> Option<ArchiveValue> {
        if id@ < self.spec_objects().len() {
            Some(self.spec_objects()[id@ as int])
        } else {
            None
        }
    }

    /// The node with identity `id`, if the table has one.
    pub fn node(&self, id: UniqueId) -> (r: Option<&ArchiveValue>)
        ensures
            r is None <==> self.spec_node(id) is None,
            r matches Some(v) ==> self.spec_node(id) == Some(*v),
    {
        if id.get() < self.objects.len() {
            Some(&self.objects[id.get()])
        } else {
            None
        }
    }

    /// The node with identity `id`.
    pub fn get(&self, id: UniqueId) -> (r: &ArchiveValue)
        requires
            id@ < self.spec_objects().len(),
        ensures
            *r == self.spec_objects()[id@ as int],
    {
        &self.objects[id.get()]
    }
}

} // verus!
