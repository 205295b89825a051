//! What can go wrong while loading an archive or decoding its objects.

use vstd::prelude::*;

verus! {

/// One of the four keys that an archive's header must hold.
#[derive(Clone, Copy, Debug, PartialEq, Eq, Structural)]
pub enum HeaderKey {
    Archiver,
    Version,
    Top,
    Objects,
}

impl HeaderKey {
    /// The key as it is written in the header.
    pub fn name(&self) -> (r: &'static str)
        ensures
            r@ == self.spec_name(),
    {
        match self {
            HeaderKey::Archiver => "$archiver",
            HeaderKey::Version => "$version",
            HeaderKey::Top => "$top",
            HeaderKey::Objects => "$objects",
        }
    }

    pub open spec fn spec_name(&self) -> Seq<char> {
        match self {
            HeaderKey::Archiver => "$archiver"@,
            HeaderKey::Version => "$version"@,
            HeaderKey::Top => "$top"@,
            HeaderKey::Objects => "$objects"@,
        }
    }
}

/// How the object table fails to form a graph.
#[derive(Clone, Copy, Debug, PartialEq, Eq, Structural)]
pub enum FormatError {
    /// A reference names no entry of the table.
    BadIndex(u64),
    /// A class descriptor has no list of class names, an empty one, or one
    /// with an entry that is not a string; or an object's class reference
    /// names a node that is not a class descriptor.
    MalformedClasses,
    /// A node or a field has a shape that an archive does not use.
    UnexpectedValueType,
}

/// An error while loading an archive.
#[derive(Clone, Copy, Debug, PartialEq, Eq, Structural)]
pub enum Error {
    /// The property list's root is not a dictionary.
    NotADictionary,
    /// A header key is absent.
    MissingHeaderKey(HeaderKey),
    /// A header key holds a value of the wrong type, or one that is not
    /// supported.
    WrongHeaderValue(HeaderKey),
    /// The object table is malformed.
    IncorrectFormat(FormatError),
}

/// The type of a field's value, as reported in errors.
#[derive(Clone, Copy, Debug, PartialEq, Eq, Structural)]
pub enum FieldKind {
    String,
    Integer,
    Real,
    Boolean,
    Data,
    RefArray,
    Ref,
    NullRef,
}

impl FieldKind {
    pub open spec fn spec_name(&self) -> Seq<char> {
        match self {
            FieldKind::String => "string"@,
            FieldKind::Integer => "integer"@,
            FieldKind::Real => "real"@,
            FieldKind::Boolean => "boolean"@,
            FieldKind::Data => "data"@,
            FieldKind::RefArray => "array of object references"@,
            FieldKind::Ref => "object reference"@,
            FieldKind::NullRef => "null reference"@,
        }
    }

    /// A short description of the type.
    pub fn name(&self) -> (r: &'static str)
        ensures
            r@ == self.spec_name(),
    {
        match self {
            FieldKind::String => "string",
            FieldKind::Integer => "integer",
            FieldKind::Real => "real",
            FieldKind::Boolean => "boolean",
            FieldKind::Data => "data",
            FieldKind::RefArray => "array of object references",
            FieldKind::Ref => "object reference",
            FieldKind::NullRef => "null reference",
        }
    }
}

/// An error while decoding an object or a value.
#[derive(Debug, PartialEq, Eq)]
pub enum DeError {
    /// A caller's own message.
    Custom(String),
    ExpectedString,
    ExpectedInteger,
    ExpectedFloat,
    ExpectedBoolean,
    ExpectedData,
    ExpectedObject,
    ExpectedNullRef,
    /// The object (its class is given first) has no field of that name.
    MissingObjectKey(String, String),
    /// An object of the first class was found where the second was expected.
    UnexpectedClass(String, String),
    /// The field exists but holds a value of another type.
    WrongFieldType { class: String, key: String, expected: FieldKind, found: FieldKind },
    /// No decoder of the registry claims an object of this class.
    UndecodableClass(String),
    /// A decoded element is not of the requested type.
    DowncastMismatch,
    /// A dictionary's key and value lists differ in length.
    CountMismatch,
    /// An integer does not fit the requested type.
    RangeError,
    /// String bytes are not valid UTF-8.
    Utf8Error,
    /// An element asked for is not there.
    MissingElement,
    /// Decoding followed more references than the archive has nodes: the
    /// references form a cycle.
    CyclicReference,
}

/// A decoding error with its text as character sequences.
pub enum DeErrorView {
    Custom(Seq<char>),
    ExpectedString,
    ExpectedInteger,
    ExpectedFloat,
    ExpectedBoolean,
    ExpectedData,
    ExpectedObject,
    ExpectedNullRef,
    MissingObjectKey(Seq<char>, Seq<char>),
    UnexpectedClass(Seq<char>, Seq<char>),
    WrongFieldType { class: Seq<char>, key: Seq<char>, expected: FieldKind, found: FieldKind },
    UndecodableClass(Seq<char>),
    DowncastMismatch,
    CountMismatch,
    RangeError,
    Utf8Error,
    MissingElement,
    CyclicReference,
}

impl View for DeError {
    type V = DeErrorView;

    open spec fn view(&self) -> DeErrorView {
        match self {
            DeError::Custom(s) => DeErrorView::Custom(s@),
            DeError::ExpectedString => DeErrorView::ExpectedString,
            DeError::ExpectedInteger => DeErrorView::ExpectedInteger,
            DeError::ExpectedFloat => DeErrorView::ExpectedFloat,
            DeError::ExpectedBoolean => DeErrorView::ExpectedBoolean,
            DeError::ExpectedData => DeErrorView::ExpectedData,
            DeError::ExpectedObject => DeErrorView::ExpectedObject,
            DeError::ExpectedNullRef => DeErrorView::ExpectedNullRef,
            DeError::MissingObjectKey(c, k) => DeErrorView::MissingObjectKey(c@, k@),
            DeError::UnexpectedClass(f, e) => DeErrorView::UnexpectedClass(f@, e@),
            DeError::WrongFieldType { class, key, expected, found } => DeErrorView::WrongFieldType {
                class: class@,
                key: key@,
                expected: *expected,
                found: *found,
            },
            DeError::UndecodableClass(c) => DeErrorView::UndecodableClass(c@),
            DeError::DowncastMismatch => DeErrorView::DowncastMismatch,
            DeError::CountMismatch => DeErrorView::CountMismatch,
            DeError::RangeError => DeErrorView::RangeError,
            DeError::Utf8Error => DeErrorView::Utf8Error,
            DeError::MissingElement => DeErrorView::MissingElement,
            DeError::CyclicReference => DeErrorView::CyclicReference,
        }
    }
}

/// The view of a decoding result whose value is compared as it is.
pub open spec fn result_view<T>(r: Result<T, DeError>) -> Result<T, DeErrorView> {
    match r {
        Ok(v) => Ok(v),
        Err(e) => Err(e@),
    }
}

} // verus!
