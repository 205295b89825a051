//! Properties that hold of every archive and every decoding.

use vstd::prelude::*;
use crate::archive::{ArchiveValueVariant, Object, ObjectValue, UniqueId};
use crate::de::{
    decoded_as, matches_view, spec_elements, spec_entry, spec_keys, spec_poly, Decoded,
    DecodedView, ObjectType,
};
use crate::decodable::string_field_outcome;
use crate::error::DeError;
use crate::plist::PlistValue;
use crate::unarchiver::{
    field_entries, is_object_dict, node_converts, refs_in, table_wf, NSKeyedUnarchiver,
};

verus! {

/// Decoding the same string field twice gives equal results: the same
/// string, or the same error.
pub proof fn law_string_field_deterministic(
    a: NSKeyedUnarchiver,
    o: Object,
    key: Seq<char>,
    r1: Result<String, DeError>,
    r2: Result<String, DeError>,
)
    requires
        string_field_outcome(a, o, key, r1),
        string_field_outcome(a, o, key, r2),
    ensures
        r1 is Ok <==> r2 is Ok,
        r1 matches Ok(s1) ==> (r2 matches Ok(s2) && s1@ == s2@),
        r1 matches Err(e1) ==> (r2 matches Err(e2) && e1@ == e2@),
{
}

/// Decoding the same node twice with the same registry gives equal
/// results: the same error, or values that are both the one decoded value.
pub proof fn law_decode_deterministic(
    a: NSKeyedUnarchiver,
    reg: Seq<ObjectType>,
    id: UniqueId,
    r1: Result<Decoded, DeError>,
    r2: Result<Decoded, DeError>,
)
    requires
        decoded_as(r1, spec_poly(a, reg, id, a.spec_objects().len()), a.spec_objects().len()),
        decoded_as(r2, spec_poly(a, reg, id, a.spec_objects().len()), a.spec_objects().len()),
    ensures
        r1 is Ok <==> r2 is Ok,
        r1 matches Err(e1) ==> (r2 matches Err(e2) && e1@ == e2@),
        r1 matches Ok(d1) ==> (r2 matches Ok(d2) && exists|v: DecodedView|
            matches_view(d1, v, a.spec_objects().len()) && matches_view(
                d2,
                v,
                a.spec_objects().len(),
            )),
{
    if let Ok(d1) = r1 {
        if let Ok(d2) = r2 {
            let v = spec_poly(a, reg, id, a.spec_objects().len())->Ok_0;
            assert(matches_view(d1, v, a.spec_objects().len()));
            assert(matches_view(d2, v, a.spec_objects().len()));
        }
    }
}

/// Every node of a loaded table carries its own position as identity, so
/// following a reference reaches exactly the node that a direct lookup of
/// that position gives: each node exists once.
pub proof fn law_node_identity(a: NSKeyedUnarchiver, i: int)
    requires
        a.wf(),
        0 <= i < a.spec_objects().len(),
    ensures
        a.spec_objects()[i].spec_unique_id()@ == i,
{
    assert(table_wf(a.spec_objects()));
    assert(a.spec_objects()[i].spec_unique_id()@ == i);
}

/// A reference held by an object of a loaded archive, alone or in an array
/// of references, names a node of the table, and that node's identity is
/// the reference.
pub proof fn law_reference_identity(a: NSKeyedUnarchiver, holder: int, key: Seq<char>)
    requires
        a.wf(),
        0 <= holder < a.spec_objects().len(),
    ensures
        a.spec_objects()[holder].spec_value() matches ArchiveValueVariant::Object(o) ==> match o.spec_field(key) {
            Some(ObjectValue::Ref(id)) => {
                &&& a.spec_node(id) is Some
                &&& a.spec_objects()[id@ as int].spec_unique_id()@ == id@
            },
            Some(ObjectValue::RefArray(ids)) => forall|k: int|
                0 <= k < ids@.len() ==> {
                    &&& a.spec_node(#[trigger] ids@[k]) is Some
                    &&& a.spec_objects()[ids@[k]@ as int].spec_unique_id()@ == ids@[k]@
                },
            _ => true,
        },
{
    assert(table_wf(a.spec_objects()));
    let t = a.spec_objects();
    assert(t[holder].spec_unique_id()@ == holder);
    if let ArchiveValueVariant::Object(o) = t[holder].spec_value() {
        if o.spec_field(key) is Some {
            let fields = o.spec_fields();
            let j = choose|j: int| 0 <= j < fields.len() && (#[trigger] fields[j]).0@ == key;
            assert(crate::unarchiver::refs_in(fields[j].1, t.len()));
            match o.spec_field(key) {
                Some(ObjectValue::Ref(id)) => {
                    assert(t[id@ as int].spec_unique_id()@ == id@);
                },
                Some(ObjectValue::RefArray(ids)) => {
                    assert forall|k: int| 0 <= k < ids@.len() implies {
                        &&& a.spec_node(#[trigger] ids@[k]) is Some
                        &&& t[ids@[k]@ as int].spec_unique_id()@ == ids@[k]@
                    } by {
                        assert(ids@[k]@ < t.len());
                        assert(t[ids@[k]@ as int].spec_unique_id()@ == ids@[k]@);
                    }
                },
                _ => {},
            }
        }
    }
}

/// A UID held by an object of the raw `$objects` table becomes, once the
/// table is loaded, a reference to the node at that position, whose
/// identity is that UID.
pub proof fn law_uid_identity(objs: Seq<PlistValue>, a: NSKeyedUnarchiver, i: int, k: int)
    requires
        a.wf(),
        a.spec_objects().len() == objs.len(),
        forall|j: int| 0 <= j < objs.len() ==> node_converts(objs, #[trigger] a.spec_objects()[j], j),
        0 <= i < objs.len(),
    ensures
        match objs[i] {
            PlistValue::Dictionary(d) => (is_object_dict(d) && 0 <= k < field_entries(d).len()) ==> match field_entries(d)[k].1 {
                PlistValue::Uid(u) => {
                    &&& a.spec_objects()[i].spec_value() matches ArchiveValueVariant::Object(o)
                        && o.spec_fields()[k].1 matches ObjectValue::Ref(id) && id@ == u
                    &&& u < objs.len()
                    &&& a.spec_objects()[u as int].spec_unique_id()@ == u
                },
                _ => true,
            },
            _ => true,
        },
{
    assert(node_converts(objs, a.spec_objects()[i], i));
    assert(table_wf(a.spec_objects()));
    let t = a.spec_objects();
    if let PlistValue::Dictionary(d) = objs[i] {
        if is_object_dict(d) && 0 <= k < field_entries(d).len() {
            if let PlistValue::Uid(u) = field_entries(d)[k].1 {
                assert(t[i].spec_unique_id()@ == i);
                if let ArchiveValueVariant::Object(o) = t[i].spec_value() {
                    assert(refs_in(o.spec_fields()[k].1, t.len()));
                    if let ObjectValue::Ref(id) = o.spec_fields()[k].1 {
                        assert(t[id@ as int].spec_unique_id()@ == id@);
                    }
                }
            }
        }
    }
}

/// Decoding elements that succeeds gives one value per reference.
proof fn lemma_elements_len(a: NSKeyedUnarchiver, reg: Seq<ObjectType>, ids: Seq<UniqueId>, depth: nat)
    ensures
        spec_elements(a, reg, ids, depth) matches Ok(vs) ==> vs.len() == ids.len(),
    decreases ids.len(),
{
    if ids.len() > 0 {
        lemma_elements_len(a, reg, ids.drop_last(), depth);
    }
}

/// Decoding keys that succeeds gives one key per reference.
proof fn lemma_keys_len(a: NSKeyedUnarchiver, ids: Seq<UniqueId>)
    ensures
        spec_keys(a, ids) matches Ok(ks) ==> ks.len() == ids.len(),
    decreases ids.len(),
{
    if ids.len() > 0 {
        lemma_keys_len(a, ids.drop_last());
    }
}

/// A decoded array holds one element per reference of its `NS.objects`
/// list, and a decoded dictionary one entry per key and per value: nothing
/// is dropped, and lists of unequal length never decode.
pub proof fn law_containers_keep_every_element(
    a: NSKeyedUnarchiver,
    reg: Seq<ObjectType>,
    o: Object,
    depth: nat,
)
    ensures
        spec_entry(a, reg, ObjectType::NSArray, o, depth) matches Ok(DecodedView::NSArray(_, items))
            ==> (o.spec_field("NS.objects"@) matches Some(ObjectValue::RefArray(ids)) && items.len()
            == ids@.len()),
        spec_entry(a, reg, ObjectType::NSDictionary, o, depth) matches Ok(
            DecodedView::NSDictionary(_, entries),
        ) ==> (o.spec_field("NS.keys"@) matches Some(ObjectValue::RefArray(ks)) && o.spec_field(
            "NS.objects"@,
        ) matches Some(ObjectValue::RefArray(vs)) && entries.len() == ks@.len() && entries.len()
            == vs@.len()),
{
    if let Some(ObjectValue::RefArray(ids)) = o.spec_field("NS.objects"@) {
        lemma_elements_len(a, reg, ids@, depth);
    }
    if let Some(ObjectValue::RefArray(ks)) = o.spec_field("NS.keys"@) {
        lemma_keys_len(a, ks@);
    }
}

} // verus!
