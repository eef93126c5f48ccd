//! A schema-directed MessagePack codec: an extended-range integer, a value model,
//! a token reader and writer for the MessagePack marker table, and the helpers that
//! map tagged and untagged structs and enums onto the wire.
use vstd::prelude::*;

pub mod bridge;
pub mod codec;
pub mod de;
pub mod integer;
pub mod schema;
pub mod ser;
pub mod value;
pub mod wire;

pub use codec::{deserialize, serialize, Any, Deserialize, Empty, Nil, Serialize};
pub use de::{DeserializeError, Deserializer, InvalidInputError, Token, ValidationError};
pub use integer::{Int, TryFromIntError};
pub use schema::{
    check_field_tags, check_variant_tags, tagged_enum_value, tagged_enum_variant, tagged_struct_fields, tagged_struct_value,
    tuple_struct_fields, FieldDecl, VariantDecl,
};
pub use ser::Serializer;
pub use value::{Bin, Ext, Str, TryFromValueError, Value};

verus! {

} // verus!
