//! Reading keyed archives: a property-list tree whose `$objects` table holds
//! a flat, index-linked object graph, turned into a checked node table and
//! decoded into typed values.

pub mod archive;
pub mod de;
pub mod decodable;
pub mod error;
pub mod laws;
pub mod plist;
pub mod unarchiver;

pub use archive::{ArchiveValue, ArchiveValueVariant, Object, ObjectValue, UniqueId};
pub use de::{
    object_types, value_ref_to_any, Decoded, DecodedKind, DecodedObject, FieldDescriptor,
    FieldRule, NSArray, NSData, NSDictionary, NSSet, ObjectType, TypeDescriptor,
};
pub use decodable::Data;
pub use error::{DeError, Error, FieldKind, FormatError, HeaderKey};
pub use plist::{Dictionary, PlistInteger, PlistValue};
pub use unarchiver::NSKeyedUnarchiver;
