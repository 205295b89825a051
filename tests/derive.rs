use nskeyedunarchiver::{
    object_types, value_ref_to_any, Decoded, DecodedKind, DecodedObject, Dictionary,
    FieldDescriptor, FieldRule, NSDictionary, NSKeyedUnarchiver, ObjectType, ObjectValue,
    PlistInteger, PlistValue, TypeDescriptor,
};

fn uid(n: u64) -> PlistValue {
    PlistValue::Uid(n)
}

fn text(s: &str) -> PlistValue {
    PlistValue::String(s.to_string())
}

fn integer(n: u64) -> PlistValue {
    PlistValue::Integer(PlistInteger::from_unsigned(n))
}

fn uids(ns: &[u64]) -> PlistValue {
    PlistValue::Array(ns.iter().map(|n| PlistValue::Uid(*n)).collect())
}

fn dict(entries: Vec<(&str, PlistValue)>) -> PlistValue {
    let mut d = Dictionary::new();
    for (k, v) in entries {
        d.insert(k.to_string(), v);
    }
    PlistValue::Dictionary(d)
}

fn classes(names: &[&str]) -> PlistValue {
    dict(vec![
        ("$classname", text(names[0])),
        ("$classes", PlistValue::Array(names.iter().map(|n| text(n)).collect())),
    ])
}

fn archive(objects: Vec<PlistValue>) -> PlistValue {
    dict(vec![
        ("$archiver", text("NSKeyedArchiver")),
        ("$version", integer(100000)),
        ("$top", dict(vec![("root", uid(1))])),
        ("$objects", PlistValue::Array(objects)),
    ])
}

fn open(objects: Vec<PlistValue>) -> (NSKeyedUnarchiver, ObjectValue) {
    let a = NSKeyedUnarchiver::new(archive(objects)).unwrap();
    let root = a.root().unwrap();
    (a, ObjectValue::Ref(root))
}

fn field(key: &str, rule: FieldRule, optional: bool) -> FieldDescriptor {
    FieldDescriptor { key: key.to_string(), rule, optional }
}

fn described(name: &str, class: &str, fields: Vec<FieldDescriptor>) -> ObjectType {
    ObjectType::Described(TypeDescriptor {
        name: name.to_string(),
        classes: vec![class.to_string()],
        fields,
    })
}

fn root_id(root: &ObjectValue) -> nskeyedunarchiver::UniqueId {
    match root {
        ObjectValue::Ref(id) => *id,
        _ => panic!("root is a reference"),
    }
}

fn present<'a>(o: &'a DecodedObject, key: &str) -> &'a Decoded {
    o.get(key).unwrap()
}

fn bytes(d: &Decoded) -> Vec<u8> {
    match d {
        Decoded::Data(b) => b.clone(),
        _ => panic!("expected bytes"),
    }
}

#[test]
fn derive_note() {
    let (a, root) = open(vec![
        text("$null"),
        dict(vec![
            ("author", uid(2)),
            ("title", uid(3)),
            ("published", PlistValue::Boolean(true)),
            ("array", uid(4)),
            ("$class", uid(9)),
        ]),
        text("Michael Wright"),
        text("Some cool title"),
        dict(vec![("NS.objects", uids(&[5, 6, 7])), ("$class", uid(8))]),
        text("Hello, World!"),
        integer(42),
        PlistValue::Boolean(true),
        classes(&["NSArray", "NSObject"]),
        classes(&["Note", "NSObject"]),
    ]);
    let note_type = described(
        "Note",
        "Note",
        vec![
            field("author", FieldRule::String, false),
            field("title", FieldRule::String, false),
            field("published", FieldRule::Boolean, true),
            field("array", FieldRule::Object, false),
            field("not_present", FieldRule::String, true),
        ],
    );
    let decoded = value_ref_to_any(&a, root_id(&root), &object_types(vec![note_type])).unwrap();
    let note = decoded.as_object().unwrap();
    assert_eq!(present(note, "author").as_string().unwrap().as_str(), "Michael Wright");
    assert_eq!(present(note, "title").as_string().unwrap().as_str(), "Some cool title");
    assert_eq!(present(note, "published").as_boolean(), Some(true));
    let array = present(note, "array").as_array().unwrap();
    assert_eq!(
        array.get_as_object(0, DecodedKind::String).unwrap().as_string().unwrap().as_str(),
        "Hello, World!"
    );
    assert_eq!(
        array.get_as_object(1, DecodedKind::Integer).unwrap().as_integer().unwrap().as_signed(),
        Some(42)
    );
    assert_eq!(array.get_as_object(2, DecodedKind::Boolean).unwrap().as_boolean(), Some(true));
    assert!(note.get("not_present").is_none());
    assert_eq!(note.fields().len(), 5);
}

#[test]
fn nsaffine_transform() {
    let transform = vec![
        63, 118, 176, 124, 62, 136, 211, 120, 190, 136, 211, 120, 63, 118, 176, 124, 0, 0, 0, 0, 0,
        0, 0, 0,
    ];
    let (a, root) = open(vec![
        text("$null"),
        dict(vec![
            ("NSTransformStruct", PlistValue::Data(transform.clone())),
            ("$class", uid(2)),
        ]),
        classes(&["NSAffineTransform", "NSObject"]),
    ]);
    let t = described(
        "NSAffineTransform",
        "NSAffineTransform",
        vec![field("NSTransformStruct", FieldRule::Data, true)],
    );
    let decoded = value_ref_to_any(&a, root_id(&root), &object_types(vec![t])).unwrap();
    let o = decoded.as_object().unwrap();
    assert_eq!(bytes(present(o, "NSTransformStruct")), transform);
}

#[test]
fn nsmutable_attributed_string() {
    let rgb = vec![
        48, 46, 57, 56, 53, 57, 53, 52, 49, 54, 53, 53, 32, 48, 32, 48, 46, 48, 50, 54, 57, 52,
        48, 48, 48, 56, 54, 51, 0,
    ];
    let (a, root) = open(vec![
        text("$null"),
        dict(vec![
            ("NSString", uid(2)),
            ("NSAttributeInfo", uid(3)),
            ("NSAttributes", uid(4)),
            ("$class", uid(15)),
        ]),
        text("firstsecondthird"),
        dict(vec![("NS.data", PlistValue::Data(vec![5, 0, 11, 1])), ("$class", uid(14))]),
        dict(vec![("NS.objects", uids(&[5, 10])), ("$class", uid(13))]),
        dict(vec![("NS.keys", uids(&[6])), ("NS.objects", uids(&[7])), ("$class", uid(12))]),
        text("NSColor"),
        dict(vec![
            ("NSColorSpace", integer(1)),
            ("NSComponents", PlistValue::Data(vec![49, 32, 48, 32, 48, 32, 49])),
            ("NSRGB", PlistValue::Data(rgb.clone())),
            ("NSCustomColorSpace", uid(8)),
            ("$class", uid(11)),
        ]),
        dict(vec![("NSID", integer(7)), ("$class", uid(9))]),
        classes(&["NSColorSpace", "NSObject"]),
        dict(vec![("NS.keys", uids(&[])), ("NS.objects", uids(&[])), ("$class", uid(12))]),
        classes(&["NSColor", "NSObject"]),
        classes(&["NSDictionary", "NSObject"]),
        classes(&["NSArray", "NSObject"]),
        classes(&["NSMutableData", "NSData", "NSObject"]),
        classes(&["NSMutableAttributedString", "NSAttributedString", "NSObject"]),
    ]);
    let types = object_types(vec![
        described(
            "NSMutableAttributedString",
            "NSMutableAttributedString",
            vec![
                field("NSAttributeInfo", FieldRule::Data, false),
                field("NSAttributes", FieldRule::Object, false),
                field("NSString", FieldRule::String, false),
            ],
        ),
        described(
            "NSColor",
            "NSColor",
            vec![
                field("NSColorSpace", FieldRule::Signed, false),
                field("NSComponents", FieldRule::Data, false),
                field("NSRGB", FieldRule::Data, false),
                field("NSCustomColorSpace", FieldRule::Object, false),
            ],
        ),
        described("Foo", "NSColorSpace", vec![field("NSID", FieldRule::Signed, false)]),
    ]);
    let decoded = value_ref_to_any(&a, root_id(&root), &types).unwrap();
    let s = decoded.as_object().unwrap();
    assert_eq!(bytes(present(s, "NSAttributeInfo")), vec![5, 0, 11, 1]);
    assert_eq!(present(s, "NSString").as_string().unwrap().as_str(), "firstsecondthird");
    let attributes = present(s, "NSAttributes").as_array().unwrap();
    assert_eq!(attributes.len(), 2);
    let first = attributes.get_as_object(0, DecodedKind::NSDictionary).unwrap();
    let first = first.as_dictionary().unwrap();
    assert_eq!(first.len(), 1);
    let color = first.get_as_object("NSColor", DecodedKind::Object).unwrap();
    let color = color.as_object().unwrap();
    assert_eq!(color.name().as_str(), "NSColor");
    assert!(matches!(present(color, "NSColorSpace"), Decoded::Signed(1)));
    assert_eq!(bytes(present(color, "NSComponents")), vec![49, 32, 48, 32, 48, 32, 49]);
    assert_eq!(bytes(present(color, "NSRGB")), rgb);
    let space = present(color, "NSCustomColorSpace").as_object().unwrap();
    assert_eq!(space.name().as_str(), "Foo");
    assert!(matches!(present(space, "NSID"), Decoded::Signed(7)));
    let second = attributes.get_as_object(1, DecodedKind::NSDictionary).unwrap();
    assert_eq!(second.as_dictionary().unwrap().len(), 0);
}

#[test]
fn simple_dict_derive() {
    let (a, root) = open(vec![
        text("$null"),
        dict(vec![
            ("NS.keys", uids(&[2, 3, 4])),
            ("NS.objects", uids(&[5, 6, 7])),
            ("$class", uid(11)),
        ]),
        text("First key"),
        text("Second key"),
        text("Array key"),
        text("First value"),
        text("Second value"),
        dict(vec![("NS.objects", uids(&[8, 9, 10])), ("$class", uid(12))]),
        integer(1),
        integer(2),
        integer(3),
        classes(&["NSDictionary", "NSObject"]),
        classes(&["NSArray", "NSObject"]),
    ]);
    let decoded = NSDictionary::decode(&a, &root, &object_types(vec![])).unwrap();
    let entries = decoded.into_inner();
    assert_eq!(entries.len(), 3);
    assert_eq!(entries[0].0, "First key");
    assert_eq!(entries[0].1.as_string().unwrap().as_str(), "First value");
    assert_eq!(entries[1].0, "Second key");
    assert_eq!(entries[1].1.as_string().unwrap().as_str(), "Second value");
    assert_eq!(entries[2].0, "Array key");
    let ints: Vec<i64> = entries[2]
        .1
        .as_array()
        .unwrap()
        .get_as_object(0, DecodedKind::Integer)
        .into_iter()
        .map(|d| d.as_integer().unwrap().as_signed().unwrap())
        .collect();
    assert_eq!(ints, vec![1]);
    let all: Vec<i64> = (0..3)
        .map(|i| {
            entries[2]
                .1
                .as_array()
                .unwrap()
                .get_as_object(i, DecodedKind::Integer)
                .unwrap()
                .as_integer()
                .unwrap()
                .as_signed()
                .unwrap()
        })
        .collect();
    assert_eq!(all, vec![1, 2, 3]);
}
