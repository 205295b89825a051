use nskeyedunarchiver::decodable::{decode_i64, decode_real, decode_string, decode_u8};
use nskeyedunarchiver::{
    object_types, value_ref_to_any, Data, DeError, Decoded, DecodedKind, Dictionary, Error,
    FieldDescriptor, FieldKind, FieldRule, FormatError, HeaderKey, NSArray, NSDictionary,
    NSKeyedUnarchiver, NSSet, ObjectType, ObjectValue, PlistInteger, PlistValue, TypeDescriptor,
    UniqueId,
};

fn uid(n: u64) -> PlistValue {
    PlistValue::Uid(n)
}

fn text(s: &str) -> PlistValue {
    PlistValue::String(s.to_string())
}

fn integer(n: u64) -> PlistValue {
    PlistValue::Integer(PlistInteger::from_unsigned(n))
}

fn uids(ns: &[u64]) -> PlistValue {
    PlistValue::Array(ns.iter().map(|n| PlistValue::Uid(*n)).collect())
}

fn dict(entries: Vec<(&str, PlistValue)>) -> PlistValue {
    let mut d = Dictionary::new();
    for (k, v) in entries {
        d.insert(k.to_string(), v);
    }
    PlistValue::Dictionary(d)
}

fn classes(names: &[&str]) -> PlistValue {
    dict(vec![
        ("$classname", text(names[0])),
        ("$classes", PlistValue::Array(names.iter().map(|n| text(n)).collect())),
    ])
}

fn header(objects: Vec<PlistValue>) -> Vec<(&'static str, PlistValue)> {
    vec![
        ("$archiver", text("NSKeyedArchiver")),
        ("$version", integer(100000)),
        ("$top", dict(vec![("root", uid(1))])),
        ("$objects", PlistValue::Array(objects)),
    ]
}

fn archive(objects: Vec<PlistValue>) -> PlistValue {
    dict(vec![
        ("$archiver", text("NSKeyedArchiver")),
        ("$version", integer(100000)),
        ("$top", dict(vec![("root", uid(1))])),
        ("$objects", PlistValue::Array(objects)),
    ])
}

fn open(objects: Vec<PlistValue>) -> (NSKeyedUnarchiver, ObjectValue) {
    let a = NSKeyedUnarchiver::new(archive(objects)).unwrap();
    let root = a.root().unwrap();
    (a, ObjectValue::Ref(root))
}

fn root_id(root: &ObjectValue) -> UniqueId {
    match root {
        ObjectValue::Ref(id) => *id,
        _ => panic!("root is a reference"),
    }
}

fn described(name: &str, class: &str, fields: Vec<FieldDescriptor>) -> ObjectType {
    ObjectType::Described(TypeDescriptor {
        name: name.to_string(),
        classes: vec![class.to_string()],
        fields,
    })
}

fn field(key: &str, rule: FieldRule, optional: bool) -> FieldDescriptor {
    FieldDescriptor { key: key.to_string(), rule, optional }
}

fn load_err(entries: Vec<(&str, PlistValue)>) -> Error {
    match NSKeyedUnarchiver::new(dict(entries)) {
        Err(e) => e,
        Ok(_) => panic!("expected a load error"),
    }
}

fn without(key: &str) -> Vec<(&'static str, PlistValue)> {
    header(vec![text("$null")]).into_iter().filter(|(k, _)| *k != key).collect()
}

fn replaced(key: &str, v: PlistValue) -> Vec<(&'static str, PlistValue)> {
    let mut h = without(key);
    let k: &'static str = match key {
        "$archiver" => "$archiver",
        "$version" => "$version",
        "$top" => "$top",
        _ => "$objects",
    };
    h.push((k, v));
    h
}

#[test]
fn dispatch_keeps_order_of_mixed_container() {
    let (a, root) = open(vec![
        text("$null"),
        dict(vec![("NS.objects", uids(&[2, 3])), ("$class", uid(6))]),
        dict(vec![("title", uid(4)), ("$class", uid(5))]),
        text("plain string"),
        text("Remember"),
        classes(&["Note", "NSObject"]),
        classes(&["NSArray", "NSObject"]),
    ]);
    let types = object_types(vec![described(
        "Note",
        "Note",
        vec![field("title", FieldRule::String, false)],
    )]);
    let array = NSArray::decode(&a, &root, &types).unwrap();
    assert_eq!(array.len(), 2);
    let note = array.get_as_object(0, DecodedKind::Object).unwrap().as_object().unwrap();
    assert_eq!(note.name().as_str(), "Note");
    assert_eq!(note.get("title").unwrap().as_string().unwrap().as_str(), "Remember");
    let s = array.get_as_object(1, DecodedKind::String).unwrap();
    assert_eq!(s.as_string().unwrap().as_str(), "plain string");
    assert_eq!(array.get_as_object(0, DecodedKind::String).err(), Some(DeError::DowncastMismatch));
}

#[test]
fn dictionary_with_more_values_than_keys_fails() {
    let (a, root) = open(vec![
        text("$null"),
        dict(vec![("NS.keys", uids(&[2, 3])), ("NS.objects", uids(&[4, 5, 6])), ("$class", uid(7))]),
        text("k1"),
        text("k2"),
        text("v1"),
        text("v2"),
        text("v3"),
        classes(&["NSDictionary", "NSObject"]),
    ]);
    let r = NSDictionary::decode(&a, &root, &object_types(vec![]));
    assert_eq!(r.err(), Some(DeError::CountMismatch));
}

fn string_object(fields: Vec<(&str, PlistValue)>, class: &str) -> (NSKeyedUnarchiver, ObjectValue) {
    let mut f = fields;
    f.push(("$class", uid(2)));
    open(vec![text("$null"), dict(f), classes(&[class, "NSObject"])])
}

#[test]
fn string_in_three_encodings() {
    let a = NSKeyedUnarchiver::new(archive(vec![text("$null"), text("x")])).unwrap();
    let inline = ObjectValue::String("Some string!".to_string());
    assert_eq!(decode_string(&a, &inline).unwrap(), "Some string!");

    let (a, root) = string_object(vec![("NS.bytes", PlistValue::Data(b"hi".to_vec()))], "NSString");
    assert_eq!(decode_string(&a, &root).unwrap(), "hi");

    let (a, root) = string_object(vec![("NS.string", text("hi"))], "NSMutableString");
    assert_eq!(decode_string(&a, &root).unwrap(), "hi");
}

#[test]
fn string_object_errors() {
    let (a, root) =
        string_object(vec![("NS.bytes", PlistValue::Data(vec![0xff, 0xfe]))], "NSString");
    assert_eq!(decode_string(&a, &root).err(), Some(DeError::Utf8Error));

    let (a, root) = string_object(vec![("NS.string", text("hi"))], "NSNumber");
    assert_eq!(
        decode_string(&a, &root).err(),
        Some(DeError::UnexpectedClass("NSNumber".to_string(), "NSString".to_string()))
    );

    let (a, root) = string_object(vec![("other", text("hi"))], "NSString");
    assert_eq!(decode_string(&a, &root).err(), Some(DeError::ExpectedString));

    let a = NSKeyedUnarchiver::new(archive(vec![text("$null"), integer(3)])).unwrap();
    let root = ObjectValue::Ref(a.root().unwrap());
    assert_eq!(decode_string(&a, &root).err(), Some(DeError::ExpectedString));
}

#[test]
fn dictionary_decodes_to_exact_entries() {
    let (a, root) = open(vec![
        text("$null"),
        dict(vec![("NS.keys", uids(&[2, 3, 4])), ("NS.objects", uids(&[5, 6, 7])), ("$class", uid(11))]),
        text("First key"),
        text("Second key"),
        text("Array key"),
        text("First value"),
        text("Second value"),
        dict(vec![("NS.objects", uids(&[8, 9, 10])), ("$class", uid(12))]),
        integer(1),
        integer(2),
        integer(3),
        classes(&["NSMutableDictionary", "NSDictionary", "NSObject"]),
        classes(&["NSArray", "NSObject"]),
    ]);
    let d = NSDictionary::decode(&a, &root, &object_types(vec![])).unwrap();
    assert!(d.is_mutable());
    let entries = d.into_inner();
    let keys: Vec<&str> = entries.iter().map(|(k, _)| k.as_str()).collect();
    assert_eq!(keys, vec!["First key", "Second key", "Array key"]);
    assert_eq!(entries[0].1.as_string().unwrap().as_str(), "First value");
    assert_eq!(entries[1].1.as_string().unwrap().as_str(), "Second value");
    let array = entries[2].1.as_array().unwrap();
    assert!(!array.is_mutable());
    let values: Vec<u64> = (0..array.len())
        .map(|i| array.get_as_object(i, DecodedKind::Integer).unwrap().as_integer().unwrap().as_unsigned().unwrap())
        .collect();
    assert_eq!(values, vec![1, 2, 3]);
}

#[test]
fn self_referencing_array_loads_and_decoding_reports_the_cycle() {
    let (a, root) = open(vec![
        text("$null"),
        dict(vec![("NS.objects", uids(&[1])), ("$class", uid(2))]),
        classes(&["NSMutableArray", "NSArray", "NSObject"]),
    ]);
    let id = root_id(&root);
    let array = a.get(id).as_object().unwrap();
    let elements = array.decode_array("NS.objects").unwrap();
    assert_eq!(elements, &vec![id]);
    assert_eq!(a.get(elements[0]).unique_id().get(), 1);
    let r = value_ref_to_any(&a, id, &object_types(vec![]));
    assert_eq!(r.err(), Some(DeError::CyclicReference));
}

#[test]
fn missing_required_and_optional_fields() {
    let (a, root) = open(vec![
        text("$null"),
        dict(vec![("bar", uid(3)), ("$class", uid(2))]),
        classes(&["Thing", "NSObject"]),
        text("present"),
    ]);
    let id = root_id(&root);
    let obj = a.get(id).as_object().unwrap();
    assert_eq!(
        obj.decode_string(&a, "foo").err(),
        Some(DeError::MissingObjectKey("Thing".to_string(), "foo".to_string()))
    );
    assert_eq!(
        obj.decode_bool("foo").err(),
        Some(DeError::MissingObjectKey("Thing".to_string(), "foo".to_string()))
    );

    let required = object_types(vec![described("Thing", "Thing", vec![field("foo", FieldRule::String, false)])]);
    assert_eq!(
        value_ref_to_any(&a, id, &required).err(),
        Some(DeError::MissingObjectKey("Thing".to_string(), "foo".to_string()))
    );
    let optional = object_types(vec![described(
        "Thing",
        "Thing",
        vec![field("foo", FieldRule::String, true), field("bar", FieldRule::Integer, true)],
    )]);
    let decoded = value_ref_to_any(&a, id, &optional).unwrap();
    let thing = decoded.as_object().unwrap();
    assert!(thing.get("foo").is_none());
    assert!(thing.get("bar").is_none());
    assert_eq!(thing.fields().len(), 2);
}

#[test]
fn decoding_a_field_twice_gives_equal_values() {
    let (a, root) = string_object(vec![("NS.string", text("same"))], "NSString");
    let first = decode_string(&a, &root).unwrap();
    let second = decode_string(&a, &root).unwrap();
    assert_eq!(first, second);
    assert_eq!(first, "same");
}

#[test]
fn references_reach_the_node_of_that_position() {
    let (a, root) = open(vec![
        text("$null"),
        dict(vec![("left", uid(3)), ("right", uid(3)), ("list", uids(&[3, 1])), ("$class", uid(2))]),
        classes(&["Pair", "NSObject"]),
        text("shared"),
    ]);
    let id = root_id(&root);
    let obj = a.get(id).as_object().unwrap();
    let left = obj.decode_object("left").unwrap();
    let right = obj.decode_object("right").unwrap();
    assert_eq!(left, right);
    assert_eq!(*a.get(left).unique_id(), left);
    assert_eq!(left.get(), 3);
    let list = obj.decode_array("list").unwrap();
    assert_eq!(list[0], left);
    assert_eq!(list[1], id);
    assert_eq!(a.values().len(), 4);
}

#[test]
fn header_errors_name_the_key() {
    assert!(matches!(NSKeyedUnarchiver::new(text("x")), Err(Error::NotADictionary)));
    assert_eq!(load_err(without("$archiver")), Error::MissingHeaderKey(HeaderKey::Archiver));
    assert_eq!(load_err(without("$version")), Error::MissingHeaderKey(HeaderKey::Version));
    assert_eq!(load_err(without("$top")), Error::MissingHeaderKey(HeaderKey::Top));
    assert_eq!(load_err(without("$objects")), Error::MissingHeaderKey(HeaderKey::Objects));
    assert_eq!(
        load_err(replaced("$archiver", text("NSArchiver"))),
        Error::WrongHeaderValue(HeaderKey::Archiver)
    );
    assert_eq!(
        load_err(replaced("$version", integer(100001))),
        Error::WrongHeaderValue(HeaderKey::Version)
    );
    assert_eq!(
        load_err(replaced("$version", text("100000"))),
        Error::WrongHeaderValue(HeaderKey::Version)
    );
    assert_eq!(load_err(replaced("$top", integer(1))), Error::WrongHeaderValue(HeaderKey::Top));
    assert_eq!(
        load_err(replaced("$objects", text("none"))),
        Error::WrongHeaderValue(HeaderKey::Objects)
    );
    assert_eq!(HeaderKey::Objects.name(), "$objects");
}

#[test]
fn graph_errors() {
    let bad_ref = archive(vec![text("$null"), dict(vec![("x", uid(9)), ("$class", uid(2))]), classes(&["A"])]);
    assert_eq!(
        NSKeyedUnarchiver::new(bad_ref).err(),
        Some(Error::IncorrectFormat(FormatError::BadIndex(9)))
    );
    let bad_class = archive(vec![text("$null"), dict(vec![("$class", uid(7))])]);
    assert_eq!(
        NSKeyedUnarchiver::new(bad_class).err(),
        Some(Error::IncorrectFormat(FormatError::BadIndex(7)))
    );
    let not_descriptor = archive(vec![text("$null"), dict(vec![("$class", uid(0))])]);
    assert_eq!(
        NSKeyedUnarchiver::new(not_descriptor).err(),
        Some(Error::IncorrectFormat(FormatError::MalformedClasses))
    );
    let empty_classes = archive(vec![text("$null"), dict(vec![("$classes", PlistValue::Array(vec![]))])]);
    assert_eq!(
        NSKeyedUnarchiver::new(empty_classes).err(),
        Some(Error::IncorrectFormat(FormatError::MalformedClasses))
    );
    let shapeless = archive(vec![text("$null"), dict(vec![("key", text("v"))])]);
    assert_eq!(
        NSKeyedUnarchiver::new(shapeless).err(),
        Some(Error::IncorrectFormat(FormatError::UnexpectedValueType))
    );
    let nested_array = archive(vec![text("$null"), PlistValue::Array(vec![])]);
    assert_eq!(
        NSKeyedUnarchiver::new(nested_array).err(),
        Some(Error::IncorrectFormat(FormatError::UnexpectedValueType))
    );
    let mut top_bad = header(vec![text("$null")]);
    top_bad[2] = ("$top", dict(vec![("root", uid(5))]));
    assert_eq!(
        NSKeyedUnarchiver::new(dict(top_bad)).err(),
        Some(Error::IncorrectFormat(FormatError::BadIndex(5)))
    );
}

#[test]
fn decode_error_variants() {
    let (a, root) = open(vec![
        text("$null"),
        dict(vec![
            ("flag", integer(1)),
            ("big", integer(300)),
            ("huge", PlistValue::Integer(PlistInteger::from_unsigned(u64::MAX))),
            ("ratio", PlistValue::Real(1.5f64.to_bits())),
            ("$class", uid(2)),
        ]),
        classes(&["Thing", "NSObject"]),
    ]);
    let id = root_id(&root);
    let obj = a.get(id).as_object().unwrap();
    assert_eq!(
        obj.decode_bool("flag").err(),
        Some(DeError::WrongFieldType {
            class: "Thing".to_string(),
            key: "flag".to_string(),
            expected: FieldKind::Boolean,
            found: FieldKind::Integer,
        })
    );
    assert_eq!(
        obj.decode_string(&a, "flag").err(),
        Some(DeError::WrongFieldType {
            class: "Thing".to_string(),
            key: "flag".to_string(),
            expected: FieldKind::String,
            found: FieldKind::Integer,
        })
    );
    assert_eq!(decode_u8(&a, obj.get("big").unwrap()).err(), Some(DeError::RangeError));
    assert_eq!(decode_u8(&a, obj.get("flag").unwrap()), Ok(1));
    assert_eq!(decode_i64(&a, obj.get("huge").unwrap()).err(), Some(DeError::RangeError));
    assert_eq!(decode_real(&a, obj.get("ratio").unwrap()).map(f64::from_bits), Ok(1.5));
    assert_eq!(decode_real(&a, obj.get("flag").unwrap()).err(), Some(DeError::ExpectedFloat));
    assert_eq!(
        Data::decode(&a, obj.get("flag").unwrap()).err(),
        Some(DeError::ExpectedData)
    );
    assert_eq!(
        value_ref_to_any(&a, id, &object_types(vec![])).err(),
        Some(DeError::UndecodableClass("Thing".to_string()))
    );
    assert_eq!(
        NSArray::decode(&a, &ObjectValue::Boolean(true), &object_types(vec![])).err(),
        Some(DeError::ExpectedObject)
    );
    let mut empty = NSArray::new(vec![]);
    assert_eq!(empty.remove_as_object(0, DecodedKind::String).err(), Some(DeError::MissingElement));
    let d = NSDictionary::new(vec![]);
    assert_eq!(d.get_as_object("k", DecodedKind::String).err(), Some(DeError::MissingElement));
}

#[test]
fn last_matching_decoder_wins() {
    let (a, root) = open(vec![
        text("$null"),
        dict(vec![("NS.objects", uids(&[3])), ("$class", uid(2))]),
        classes(&["NSMutableSet", "NSSet", "NSObject"]),
        text("member"),
    ]);
    let id = root_id(&root);
    let decoded = value_ref_to_any(&a, id, &object_types(vec![])).unwrap();
    assert_eq!(decoded.kind(), DecodedKind::NSSet);
    let set = NSSet::decode(&a, &root, &object_types(vec![])).unwrap();
    assert!(set.is_mutable());
    assert_eq!(set.class(), "NSMutableSet");
    let mut array = set.into_array();
    assert_eq!(array.len(), 1);
    assert_eq!(array.class(), "NSMutableArray");
    array.set_is_mutable(false);
    assert_eq!(array.class(), "NSArray");

    let own = object_types(vec![described("Bag", "NSMutableSet", vec![])]);
    let decoded = value_ref_to_any(&a, id, &own).unwrap();
    assert_eq!(decoded.as_object().unwrap().name().as_str(), "Bag");
}

#[test]
fn plist_integer_ranges() {
    assert_eq!(PlistInteger::from_unsigned(u64::MAX).as_signed(), None);
    assert_eq!(PlistInteger::from_unsigned(u64::MAX).as_unsigned(), Some(u64::MAX));
    assert_eq!(PlistInteger::from_signed(-1).as_unsigned(), None);
    assert_eq!(PlistInteger::from_signed(i64::MIN).as_signed(), Some(i64::MIN));
}

#[test]
fn dictionary_insert_replaces_in_place() {
    let mut d = Dictionary::new();
    d.insert("a".to_string(), integer(1));
    d.insert("b".to_string(), integer(2));
    d.insert("a".to_string(), integer(3));
    assert_eq!(d.len(), 2);
    assert!(matches!(d.get("a"), Some(PlistValue::Integer(i)) if i.as_unsigned() == Some(3)));
    assert!(d.contains_key("b"));
    assert!(matches!(d.remove("b"), Some(PlistValue::Integer(_))));
    assert!(!d.contains_key("b"));
    let keys: Vec<String> = d.into_entries().into_iter().map(|(k, _)| k).collect();
    assert_eq!(keys, vec!["a".to_string()]);
}

#[test]
fn data_in_three_encodings() {
    let (a, root) = open(vec![
        text("$null"),
        dict(vec![
            ("inline", PlistValue::Data(vec![1, 2])),
            ("node", uid(3)),
            ("object", uid(4)),
            ("$class", uid(2)),
        ]),
        classes(&["Thing", "NSObject"]),
        PlistValue::Data(vec![3, 4]),
        dict(vec![("NS.data", uid(3)), ("$class", uid(5))]),
        classes(&["NSData", "NSObject"]),
    ]);
    let obj = a.get(root_id(&root)).as_object().unwrap();
    assert_eq!(Data::decode(&a, obj.get("inline").unwrap()).unwrap().into_vec(), vec![1, 2]);
    assert_eq!(Data::decode(&a, obj.get("node").unwrap()).unwrap().into_vec(), vec![3, 4]);
    assert_eq!(Data::decode(&a, obj.get("object").unwrap()).unwrap().into_vec(), vec![3, 4]);
    let e = Decoded::Null;
    assert_eq!(e.kind(), DecodedKind::Null);
}
