use nskeyedunarchiver::{
    object_types, value_ref_to_any, Data, DecodedKind, Dictionary, FieldDescriptor, FieldRule,
    NSArray, NSData, NSDictionary, NSKeyedUnarchiver, ObjectType, ObjectValue, PlistInteger,
    PlistValue, TypeDescriptor, UniqueId,
};

fn uid(n: u64) -> PlistValue {
    PlistValue::Uid(n)
}

fn text(s: &str) -> PlistValue {
    PlistValue::String(s.to_string())
}

fn integer(n: u64) -> PlistValue {
    PlistValue::Integer(PlistInteger::from_unsigned(n))
}

fn uids(ns: &[u64]) -> PlistValue {
    PlistValue::Array(ns.iter().map(|n| PlistValue::Uid(*n)).collect())
}

fn dict(entries: Vec<(&str, PlistValue)>) -> PlistValue {
    let mut d = Dictionary::new();
    for (k, v) in entries {
        d.insert(k.to_string(), v);
    }
    PlistValue::Dictionary(d)
}

fn classes(names: &[&str]) -> PlistValue {
    dict(vec![
        ("$classname", text(names[0])),
        ("$classes", PlistValue::Array(names.iter().map(|n| text(n)).collect())),
    ])
}

fn archive(objects: Vec<PlistValue>) -> PlistValue {
    dict(vec![
        ("$archiver", text("NSKeyedArchiver")),
        ("$version", integer(100000)),
        ("$top", dict(vec![("root", uid(1))])),
        ("$objects", PlistValue::Array(objects)),
    ])
}

fn open(objects: Vec<PlistValue>) -> (NSKeyedUnarchiver, ObjectValue) {
    let a = NSKeyedUnarchiver::new(archive(objects)).unwrap();
    let root = a.root().unwrap();
    (a, ObjectValue::Ref(root))
}

#[test]
fn simple_tests_plain_string() {
    // -- String: "Some string!"
    let (a, root) = open(vec![text("$null"), text("Some string!")]);
    let decoded_string = nskeyedunarchiver::decodable::decode_string(&a, &root).unwrap();
    assert_eq!(decoded_string, "Some string!");
}

#[test]
fn simple_tests_ns_data() {
    let (a, root) = open(vec![
        text("$null"),
        dict(vec![
            ("NS.data", PlistValue::Data(b"Some data!".to_vec())),
            ("$class", uid(2)),
        ]),
        classes(&["NSMutableData", "NSData", "NSObject"]),
    ]);
    let decoded_data = Data::decode(&a, &root).unwrap();
    let ns_data = Data::new(b"Some data!".to_vec());
    assert_eq!(decoded_data, ns_data);

    let decoded = NSData::decode(&a, &root, &object_types(vec![])).unwrap();
    let s = String::from_utf8(decoded.into_inner()).unwrap();
    assert_eq!(s, "Some data!");
}

fn simple_array_objects() -> Vec<PlistValue> {
    vec![
        text("$null"),
        dict(vec![("NS.objects", uids(&[2, 3, 4])), ("$class", uid(7))]),
        text("value1"),
        text("value2"),
        dict(vec![("NS.objects", uids(&[5, 6])), ("$class", uid(7))]),
        text("innerValue3"),
        text("innerValue4"),
        classes(&["NSArray", "NSObject"]),
    ]
}

#[test]
fn simple_tests_simple_array() {
    // -- NSArray
    //    -- String: "value1"
    //    -- String: "value2"
    //    -- NSArray
    //       -- String: "innerValue3"
    //       -- String: "innerValue4"
    let (a, root) = open(simple_array_objects());
    let mut decoded_data = NSArray::decode(&a, &root, &object_types(vec![])).unwrap();
    let parent0 = decoded_data.remove_as_object(0, DecodedKind::String).unwrap();
    assert_eq!(parent0.as_string().unwrap().as_str(), "value1");
    let parent1 = decoded_data.remove_as_object(0, DecodedKind::String).unwrap();
    assert_eq!(parent1.as_string().unwrap().as_str(), "value2");

    let parent2: Vec<String> = decoded_data
        .remove_as_object(0, DecodedKind::NSArray)
        .unwrap()
        .into_array()
        .unwrap()
        .try_into_objects(DecodedKind::String)
        .unwrap()
        .into_iter()
        .map(|d| d.into_string().unwrap())
        .collect();
    assert_eq!(parent2[0].as_str(), "innerValue3");
    assert_eq!(parent2[1].as_str(), "innerValue4");
}

fn simple_dict_objects() -> Vec<PlistValue> {
    vec![
        text("$null"),
        dict(vec![
            ("NS.keys", uids(&[2, 3, 4])),
            ("NS.objects", uids(&[5, 6, 7])),
            ("$class", uid(11)),
        ]),
        text("First key"),
        text("Second key"),
        text("Array key"),
        text("First value"),
        text("Second value"),
        dict(vec![("NS.objects", uids(&[8, 9, 10])), ("$class", uid(12))]),
        integer(1),
        integer(2),
        integer(3),
        classes(&["NSDictionary", "NSObject"]),
        classes(&["NSArray", "NSObject"]),
    ]
}

#[test]
fn simple_tests_simple_dict() {
    // -- NSDictionary
    //    -- First key  -> String: "First value"
    //    -- Second key -> String: "Second value"
    //    -- Array key  -> NSArray:
    //                      -- Integer: 1
    //                      -- Integer: 2
    //                      -- Integer: 3
    let (a, root) = open(simple_dict_objects());
    let mut decoded_data = NSDictionary::decode(&a, &root, &object_types(vec![])).unwrap();

    let value1 = decoded_data.remove_as_object("First key", DecodedKind::String).unwrap();
    assert_eq!(value1.as_string().unwrap().as_str(), "First value");

    let value2 = decoded_data.remove_as_object("Second key", DecodedKind::String).unwrap();
    assert_eq!(value2.as_string().unwrap().as_str(), "Second value");

    let value3 = decoded_data
        .remove_as_object("Array key", DecodedKind::NSArray)
        .unwrap()
        .into_array()
        .unwrap()
        .try_into_objects(DecodedKind::Integer)
        .unwrap();
    assert_eq!(value3[0].as_integer().unwrap().as_unsigned().unwrap(), 1);
    assert_eq!(value3[1].as_integer().unwrap().as_unsigned().unwrap(), 2);
    assert_eq!(value3[2].as_integer().unwrap().as_unsigned().unwrap(), 3);
}

#[test]
fn simple_tests_circular_reference() {
    // -- NSMutableArray   <-|
    //    -- NSMutableArray -^
    let (a, root) = open(vec![
        text("$null"),
        dict(vec![("NS.objects", uids(&[1])), ("$class", uid(2))]),
        classes(&["NSMutableArray", "NSArray", "NSObject"]),
    ]);
    let ObjectValue::Ref(root_id) = root else { panic!("root is a reference") };
    let array = a.get(root_id).as_object().unwrap();
    assert_eq!(array.class().as_str(), "NSMutableArray");
    let elements = array.decode_array("NS.objects").unwrap();
    assert_eq!(elements.len(), 1);
    assert_eq!(elements[0], root_id);
    assert_eq!(*a.get(elements[0]).unique_id(), root_id);
    drop(a);
}

fn note_objects() -> Vec<PlistValue> {
    vec![
        text("$null"),
        dict(vec![
            ("author", uid(2)),
            ("title", uid(3)),
            ("published", PlistValue::Boolean(true)),
            ("array", uid(4)),
            ("$class", uid(9)),
        ]),
        text("Michael Wright"),
        text("Some cool title"),
        dict(vec![("NS.objects", uids(&[5, 6, 7])), ("$class", uid(8))]),
        text("Hello, World!"),
        integer(42),
        PlistValue::Boolean(true),
        classes(&["NSArray", "NSObject"]),
        classes(&["Note", "NSObject"]),
    ]
}

fn field(key: &str, rule: FieldRule, optional: bool) -> FieldDescriptor {
    FieldDescriptor { key: key.to_string(), rule, optional }
}

fn note_type() -> ObjectType {
    ObjectType::Described(TypeDescriptor {
        name: "Note".to_string(),
        classes: vec!["Note".to_string()],
        fields: vec![
            field("author", FieldRule::String, false),
            field("title", FieldRule::String, false),
            field("published", FieldRule::Boolean, true),
            field("array", FieldRule::Object, false),
        ],
    })
}

#[test]
fn simple_tests_note() {
    // -- Note
    //    -- author      -> String: "Michael Wright"
    //    -- title       -> String: "Some cool title"
    //    -- published   -> Boolean: true
    //    -- array       -> NSArray:
    //                      -- String: "Hello, World!"
    //                      -- Integer: 42
    //                      -- Boolean: true
    let (a, root) = open(note_objects());
    let ObjectValue::Ref(root_id) = root else { panic!("root is a reference") };
    let decoded = value_ref_to_any(&a, root_id, &object_types(vec![note_type()])).unwrap();
    let note = decoded.as_object().unwrap();
    assert_eq!(note.name().as_str(), "Note");
    assert_eq!(note.get("author").unwrap().as_string().unwrap().as_str(), "Michael Wright");
    assert_eq!(note.get("title").unwrap().as_string().unwrap().as_str(), "Some cool title");
    assert_eq!(note.get("published").unwrap().as_boolean(), Some(true));
    let array = note.get("array").unwrap().as_array().unwrap();
    let items = array.get_as_object(0, DecodedKind::String).unwrap();
    assert_eq!(items.as_string().unwrap().as_str(), "Hello, World!");
    let n = array.get_as_object(1, DecodedKind::Integer).unwrap();
    assert_eq!(n.as_integer().unwrap().as_signed(), Some(42));
    let b = array.get_as_object(2, DecodedKind::Boolean).unwrap();
    assert_eq!(b.as_boolean(), Some(true));
    assert_eq!(array.len(), 3);
}

#[test]
fn loads_with_unique_ids_in_table_order() {
    let (a, _) = open(simple_array_objects());
    for (i, node) in a.values().iter().enumerate() {
        assert_eq!(*node.unique_id(), UniqueId::new(i));
    }
}
