//! The typed layer: what each Rust type is written as, how it is read back, and
//! the entry points that write to and read from a byte buffer.
use vstd::prelude::*;
use vstd::string::StringSliceAdditionalSpecFns;
use vstd::utf8::{encode_utf8, valid_utf8};

use crate::de::{DeserializeError, Deserializer, InvalidInputError, Token, ValidationError};
use crate::integer::Int;
use crate::ser::Serializer;
use crate::value::{enc_value, parse_value, value_wf, Str, Value};
use crate::wire::{array_header, enc_token, parse_token, TokenModel};

verus! {

/// A type that writes itself as exactly one MessagePack object.
pub trait Serialize {
    /// The bytes `self` is written as. An implementation that does not state
    /// them promises nothing about its bytes.
    open spec fn encoded(&self) -> Seq<u8> {
        arbitrary()
    }

    /// Whether `self` can be written: its lengths fit the 32-bit wire fields.
    open spec fn encodable(&self) -> bool {
        true
    }

    fn serialize(&self, serializer: &mut Serializer)
        requires
            self.encodable(),
        ensures
            final(serializer)@ == old(serializer)@ + self.encoded(),
    ;
}

/// A type that reads itself from exactly one MessagePack object.
pub trait Deserialize: Sized {
    /// Whether reading a `Self` from the start of `s` may give `r`, taking `k`
    /// bytes when it succeeds. An implementation that does not state it
    /// promises nothing about its result.
    open spec fn reads(s: Seq<u8>, r: Result<Self, DeserializeError>, k: int) -> bool {
        true
    }

    fn deserialize(deserializer: &mut Deserializer) -> (r: Result<Self, DeserializeError>)
        requires
            old(deserializer).wf(),
        ensures
            final(deserializer).wf(),
            final(deserializer).input == old(deserializer).input,
            final(deserializer).pos >= old(deserializer).pos,
            Self::reads(old(deserializer).rest(), r, final(deserializer).pos - old(deserializer).pos),
    ;
}

/// The error for input that does not start with a complete token or value.
pub open spec fn invalid_input<T>() -> Result<T, DeserializeError> {
    Err(DeserializeError::InvalidInput(InvalidInputError))
}

/// The error for input of another shape than the one asked for.
pub open spec fn invalid<T>(e: ValidationError) -> Result<T, DeserializeError> {
    Err(DeserializeError::Validation(e))
}

/// Relies on std::str::from_utf8: it accepts exactly the byte strings that are
/// valid UTF-8, and the `str` it returns holds those bytes.
#[verifier::external_body]
fn utf8_str(b: &[u8]) -> (r: Option<&str>)
    ensures
        r is Some <==> valid_utf8(b@),
        r is Some ==> r->0.spec_bytes() == b@,
{
    std::str::from_utf8(b).ok()
}

/// The writing of `s`'s elements one after another.
pub open spec fn enc_all<T: Serialize>(s: Seq<T>) -> Seq<u8>
    decreases s.len(),
{
    if s.len() == 0 {
        Seq::empty()
    } else {
        enc_all(s.drop_last()) + s.last().encoded()
    }
}

/// The special type for the nil object (`()` takes no bytes; nil takes one).
#[derive(Clone, Copy, Debug, PartialEq, Eq)]
pub struct Nil;

/// A type that reads any one object and discards it.
#[derive(Clone, Copy, Debug, PartialEq, Eq)]
pub struct Any;

/// The special type for the empty map.
#[derive(Clone, Copy, Debug, PartialEq, Eq)]
pub struct Empty {}

impl Serializer {
    /// Writes `s`.
    pub fn serialize<S: Serialize>(&mut self, s: S)
        requires
            s.encodable(),
        ensures
            final(self)@ == old(self)@ + s.encoded(),
    {
        s.serialize(self)
    }
}

impl<'a> Deserializer<'a> {
    /// Reads a `D`.
    pub fn deserialize<D: Deserialize>(&mut self) -> (r: Result<D, DeserializeError>)
        requires
            old(self).wf(),
        ensures
            final(self).wf(),
            final(self).input == old(self).input,
            final(self).pos >= old(self).pos,
            D::reads(old(self).rest(), r, final(self).pos - old(self).pos),
    {
        D::deserialize(self)
    }

    /// Tries to read a `D`. On success the cursor moves past it; when the input
    /// has another shape (a validation error) the cursor is left where it was and
    /// `None` comes back; a malformed input is passed on as the error.
    pub fn try_deserialize<D: Deserialize>(&mut self) -> (r: Result<Option<D>, InvalidInputError>)
        requires
            old(self).wf(),
        ensures
            final(self).wf(),
            final(self).input == old(self).input,
            final(self).pos >= old(self).pos,
            r matches Ok(Some(v)) ==> D::reads(
                old(self).rest(),
                Ok(v),
                final(self).pos - old(self).pos,
            ),
            r matches Ok(None) ==> *final(self) == *old(self) && exists|e: ValidationError, k: int|
                D::reads(old(self).rest(), Err(DeserializeError::Validation(e)), k),
            r matches Err(e) ==> *final(self) == *old(self) && exists|k: int|
                D::reads(old(self).rest(), Err(DeserializeError::InvalidInput(e)), k),
    {
        let mut branch = *self;
        let res = D::deserialize(&mut branch);
        let ghost k = branch.pos - self.pos;
        match res {
            Ok(v) => {
                *self = branch;
                Ok(Some(v))
            },
            Err(DeserializeError::Validation(e)) => {
                assert(D::reads(self.rest(), Err(DeserializeError::Validation(e)), k));
                Ok(None)
            },
            Err(DeserializeError::InvalidInput(e)) => {
                assert(D::reads(self.rest(), Err(DeserializeError::InvalidInput(e)), k));
                Err(e)
            },
        }
    }

    /// Reads a boolean.
    pub fn deserialize_bool(&mut self) -> (r: Result<bool, DeserializeError>)
        requires
            old(self).wf(),
        ensures
            final(self).wf(),
            final(self).input == old(self).input,
            final(self).pos >= old(self).pos,
            match parse_token(old(self).rest()) {
                None => r == Err::<bool, DeserializeError>(
                    DeserializeError::InvalidInput(InvalidInputError),
                ),
                Some((TokenModel::Bool(b), k)) => r == Ok::<bool, DeserializeError>(b)
                    && final(self).pos == old(self).pos + k,
                Some(_) => r == Err::<bool, DeserializeError>(
                    DeserializeError::Validation(ValidationError::InvalidType),
                ),
            },
    {
        match self.deserialize_token() {
            Ok(Token::Bool(b)) => Ok(b),
            Ok(_) => Err(DeserializeError::Validation(ValidationError::InvalidType)),
            Err(e) => Err(DeserializeError::InvalidInput(e)),
        }
    }

    /// Reads an integer of any width.
    pub fn deserialize_int(&mut self) -> (r: Result<Int, DeserializeError>)
        requires
            old(self).wf(),
        ensures
            final(self).wf(),
            final(self).input == old(self).input,
            final(self).pos >= old(self).pos,
            match parse_token(old(self).rest()) {
                None => r == Err::<Int, DeserializeError>(
                    DeserializeError::InvalidInput(InvalidInputError),
                ),
                Some((TokenModel::Int(i), k)) => r is Ok && r->Ok_0@ == i && final(self).pos
                    == old(self).pos + k,
                Some(_) => r == Err::<Int, DeserializeError>(
                    DeserializeError::Validation(ValidationError::InvalidType),
                ),
            },
    {
        match self.deserialize_token() {
            Ok(Token::Int(i)) => Ok(i),
            Ok(_) => Err(DeserializeError::Validation(ValidationError::InvalidType)),
            Err(e) => Err(DeserializeError::InvalidInput(e)),
        }
    }

    /// Reads an integer that must fit a `u32`.
    pub fn deserialize_u32(&mut self) -> (r: Result<u32, DeserializeError>)
        requires
            old(self).wf(),
        ensures
            final(self).wf(),
            final(self).input == old(self).input,
            final(self).pos >= old(self).pos,
            match parse_token(old(self).rest()) {
                None => r == Err::<u32, DeserializeError>(
                    DeserializeError::InvalidInput(InvalidInputError),
                ),
                Some((TokenModel::Int(i), k)) => if 0 <= i <= u32::MAX {
                    r is Ok && r->Ok_0 as int == i && final(self).pos == old(self).pos + k
                } else {
                    r == Err::<u32, DeserializeError>(
                        DeserializeError::Validation(ValidationError::IntegerOutOfRange),
                    )
                },
                Some(_) => r == Err::<u32, DeserializeError>(
                    DeserializeError::Validation(ValidationError::InvalidType),
                ),
            },
    {
        let i = self.deserialize_int()?;
        match i.try_into_u32() {
            Ok(v) => Ok(v),
            Err(_) => Err(DeserializeError::Validation(ValidationError::IntegerOutOfRange)),
        }
    }

    /// Reads the bytes of a string object, UTF-8 or not.
    pub fn deserialize_str(&mut self) -> (r: Result<Str, DeserializeError>)
        requires
            old(self).wf(),
        ensures
            final(self).wf(),
            final(self).input == old(self).input,
            final(self).pos >= old(self).pos,
            match parse_token(old(self).rest()) {
                None => r == Err::<Str, DeserializeError>(
                    DeserializeError::InvalidInput(InvalidInputError),
                ),
                Some((TokenModel::Str(d), k)) => r is Ok && r->Ok_0.0@ == d && final(self).pos
                    == old(self).pos + k,
                Some(_) => r == Err::<Str, DeserializeError>(
                    DeserializeError::Validation(ValidationError::InvalidType),
                ),
            },
    {
        match self.deserialize_token() {
            Ok(Token::Str(d)) => Ok(Str(d)),
            Ok(_) => Err(DeserializeError::Validation(ValidationError::InvalidType)),
            Err(e) => Err(DeserializeError::InvalidInput(e)),
        }
    }

    /// Reads a string object as text: its bytes must be UTF-8.
    pub fn deserialize_string(&mut self) -> (r: Result<String, DeserializeError>)
        requires
            old(self).wf(),
        ensures
            final(self).wf(),
            final(self).input == old(self).input,
            final(self).pos >= old(self).pos,
            match parse_token(old(self).rest()) {
                None => r == Err::<String, DeserializeError>(
                    DeserializeError::InvalidInput(InvalidInputError),
                ),
                Some((TokenModel::Str(d), k)) => if valid_utf8(d) {
                    r is Ok && encode_utf8(r->Ok_0@) == d && final(self).pos == old(self).pos + k
                } else {
                    r == Err::<String, DeserializeError>(
                        DeserializeError::Validation(ValidationError::InvalidUtf8),
                    )
                },
                Some(_) => r == Err::<String, DeserializeError>(
                    DeserializeError::Validation(ValidationError::InvalidType),
                ),
            },
    {
        let s = self.deserialize_str()?;
        match utf8_str(s.0.as_slice()) {
            Some(text) => Ok(text.to_owned()),
            None => Err(DeserializeError::Validation(ValidationError::InvalidUtf8)),
        }
    }

    /// Reads the nil object.
    pub fn deserialize_nil(&mut self) -> (r: Result<Nil, DeserializeError>)
        requires
            old(self).wf(),
        ensures
            final(self).wf(),
            final(self).input == old(self).input,
            final(self).pos >= old(self).pos,
            match parse_token(old(self).rest()) {
                None => r == Err::<Nil, DeserializeError>(
                    DeserializeError::InvalidInput(InvalidInputError),
                ),
                Some((TokenModel::Nil, k)) => r is Ok && final(self).pos == old(self).pos + k,
                Some(_) => r == Err::<Nil, DeserializeError>(
                    DeserializeError::Validation(ValidationError::InvalidType),
                ),
            },
    {
        match self.deserialize_token() {
            Ok(Token::Nil) => Ok(Nil),
            Ok(_) => Err(DeserializeError::Validation(ValidationError::InvalidType)),
            Err(e) => Err(DeserializeError::InvalidInput(e)),
        }
    }

    /// Reads the empty map.
    pub fn deserialize_empty(&mut self) -> (r: Result<Empty, DeserializeError>)
        requires
            old(self).wf(),
        ensures
            final(self).wf(),
            final(self).input == old(self).input,
            final(self).pos >= old(self).pos,
            match parse_token(old(self).rest()) {
                None => r == Err::<Empty, DeserializeError>(
                    DeserializeError::InvalidInput(InvalidInputError),
                ),
                Some((TokenModel::Pairs(n), k)) => if n == 0 {
                    r is Ok && final(self).pos == old(self).pos + k
                } else {
                    r == Err::<Empty, DeserializeError>(
                        DeserializeError::Validation(ValidationError::InvalidType),
                    )
                },
                Some(_) => r == Err::<Empty, DeserializeError>(
                    DeserializeError::Validation(ValidationError::InvalidType),
                ),
            },
    {
        match self.deserialize_token() {
            Ok(Token::Pairs(0)) => Ok(Empty {}),
            Ok(_) => Err(DeserializeError::Validation(ValidationError::InvalidType)),
            Err(e) => Err(DeserializeError::InvalidInput(e)),
        }
    }
}

impl Serialize for bool {
    open spec fn encoded(&self) -> Seq<u8> {
        enc_token(TokenModel::Bool(*self))
    }

    open spec fn encodable(&self) -> bool {
        true
    }

    fn serialize(&self, serializer: &mut Serializer) {
        serializer.serialize_bool(*self)
    }
}

impl Serialize for Int {
    open spec fn encoded(&self) -> Seq<u8> {
        enc_token(TokenModel::Int(self@))
    }

    open spec fn encodable(&self) -> bool {
        true
    }

    fn serialize(&self, serializer: &mut Serializer) {
        serializer.serialize_int(*self)
    }
}

impl Serialize for u8 {
    open spec fn encoded(&self) -> Seq<u8> {
        enc_token(TokenModel::Int(*self as int))
    }

    open spec fn encodable(&self) -> bool {
        true
    }

    fn serialize(&self, serializer: &mut Serializer) {
        serializer.serialize_int(Int::from_u64(*self as u64))
    }
}

impl Serialize for u16 {
    open spec fn encoded(&self) -> Seq<u8> {
        enc_token(TokenModel::Int(*self as int))
    }

    open spec fn encodable(&self) -> bool {
        true
    }

    fn serialize(&self, serializer: &mut Serializer) {
        serializer.serialize_int(Int::from_u64(*self as u64))
    }
}

impl Serialize for u32 {
    open spec fn encoded(&self) -> Seq<u8> {
        enc_token(TokenModel::Int(*self as int))
    }

    open spec fn encodable(&self) -> bool {
        true
    }

    fn serialize(&self, serializer: &mut Serializer) {
        serializer.serialize_int(Int::from_u64(*self as u64))
    }
}

impl Serialize for u64 {
    open spec fn encoded(&self) -> Seq<u8> {
        enc_token(TokenModel::Int(*self as int))
    }

    open spec fn encodable(&self) -> bool {
        true
    }

    fn serialize(&self, serializer: &mut Serializer) {
        serializer.serialize_int(Int::from_u64(*self as u64))
    }
}

impl Serialize for i8 {
    open spec fn encoded(&self) -> Seq<u8> {
        enc_token(TokenModel::Int(*self as int))
    }

    open spec fn encodable(&self) -> bool {
        true
    }

    fn serialize(&self, serializer: &mut Serializer) {
        serializer.serialize_int(Int::from_i64(*self as i64))
    }
}

impl Serialize for i16 {
    open spec fn encoded(&self) -> Seq<u8> {
        enc_token(TokenModel::Int(*self as int))
    }

    open spec fn encodable(&self) -> bool {
        true
    }

    fn serialize(&self, serializer: &mut Serializer) {
        serializer.serialize_int(Int::from_i64(*self as i64))
    }
}

impl Serialize for i32 {
    open spec fn encoded(&self) -> Seq<u8> {
        enc_token(TokenModel::Int(*self as int))
    }

    open spec fn encodable(&self) -> bool {
        true
    }

    fn serialize(&self, serializer: &mut Serializer) {
        serializer.serialize_int(Int::from_i64(*self as i64))
    }
}

impl Serialize for i64 {
    open spec fn encoded(&self) -> Seq<u8> {
        enc_token(TokenModel::Int(*self as int))
    }

    open spec fn encodable(&self) -> bool {
        true
    }

    fn serialize(&self, serializer: &mut Serializer) {
        serializer.serialize_int(Int::from_i64(*self as i64))
    }
}

impl Serialize for Str {
    open spec fn encoded(&self) -> Seq<u8> {
        enc_token(TokenModel::Str(self.0@))
    }

    open spec fn encodable(&self) -> bool {
        self.0@.len() <= u32::MAX
    }

    fn serialize(&self, serializer: &mut Serializer) {
        serializer.serialize_str(self.0.as_slice())
    }
}

impl Serialize for String {
    open spec fn encoded(&self) -> Seq<u8> {
        enc_token(TokenModel::Str(encode_utf8(self@)))
    }

    open spec fn encodable(&self) -> bool {
        encode_utf8(self@).len() <= u32::MAX
    }

    fn serialize(&self, serializer: &mut Serializer) {
        serializer.serialize_str(self.as_str().as_bytes())
    }
}

impl<T: Serialize> Serialize for Vec<T> {
    open spec fn encoded(&self) -> Seq<u8> {
        array_header(self@.len()) + enc_all(self@)
    }

    open spec fn encodable(&self) -> bool {
        &&& self@.len() <= u32::MAX
        &&& forall|i: int| 0 <= i < self@.len() ==> #[trigger] self@[i].encodable()
    }

    fn serialize(&self, serializer: &mut Serializer) {
        serializer.serialize_array(self.len() as u32);
        let ghost start = serializer@;
        let mut i: usize = 0;
        while i < self.len()
            invariant
                self.encodable(),
                i <= self@.len(),
                serializer@ == start + enc_all(self@.take(i as int)),
            decreases self@.len() - i,
        {
            assert(self@.take(i + 1).drop_last() =~= self@.take(i as int));
            self[i].serialize(serializer);
            i = i + 1;
        }
        assert(self@.take(i as int) =~= self@);
    }
}

impl<T: Serialize> Serialize for Box<T> {
    open spec fn encoded(&self) -> Seq<u8> {
        (**self).encoded()
    }

    open spec fn encodable(&self) -> bool {
        (**self).encodable()
    }

    fn serialize(&self, serializer: &mut Serializer) {
        (**self).serialize(serializer)
    }
}

impl<T: Serialize> Serialize for std::rc::Rc<T> {
    open spec fn encoded(&self) -> Seq<u8> {
        (**self).encoded()
    }

    open spec fn encodable(&self) -> bool {
        (**self).encodable()
    }

    fn serialize(&self, serializer: &mut Serializer) {
        (**self).serialize(serializer)
    }
}

impl<T: Serialize> Serialize for std::sync::Arc<T> {
    open spec fn encoded(&self) -> Seq<u8> {
        (**self).encoded()
    }

    open spec fn encodable(&self) -> bool {
        (**self).encodable()
    }

    fn serialize(&self, serializer: &mut Serializer) {
        (**self).serialize(serializer)
    }
}

impl<'b, T: Serialize> Serialize for &'b T {
    open spec fn encoded(&self) -> Seq<u8> {
        (**self).encoded()
    }

    open spec fn encodable(&self) -> bool {
        (**self).encodable()
    }

    fn serialize(&self, serializer: &mut Serializer) {
        (**self).serialize(serializer)
    }
}

impl Serialize for Value {
    open spec fn encoded(&self) -> Seq<u8> {
        enc_value(self@)
    }

    open spec fn encodable(&self) -> bool {
        value_wf(self@)
    }

    fn serialize(&self, serializer: &mut Serializer) {
        serializer.serialize_value(self)
    }
}

impl Serialize for Nil {
    open spec fn encoded(&self) -> Seq<u8> {
        enc_token(TokenModel::Nil)
    }

    open spec fn encodable(&self) -> bool {
        true
    }

    fn serialize(&self, serializer: &mut Serializer) {
        serializer.serialize_nil()
    }
}

impl Serialize for Empty {
    open spec fn encoded(&self) -> Seq<u8> {
        enc_token(TokenModel::Pairs(0))
    }

    open spec fn encodable(&self) -> bool {
        true
    }

    fn serialize(&self, serializer: &mut Serializer) {
        serializer.serialize_map(0)
    }
}

impl Deserialize for bool {
    open spec fn reads(s: Seq<u8>, r: Result<bool, DeserializeError>, k: int) -> bool {
        match parse_token(s) {
            None => r == invalid_input::<bool>(),
            Some((TokenModel::Bool(b), n)) => r == Ok::<bool, DeserializeError>(b) && k == n,
            Some(_) => r == invalid::<bool>(ValidationError::InvalidType),
        }
    }

    fn deserialize(deserializer: &mut Deserializer) -> (r: Result<bool, DeserializeError>) {
        deserializer.deserialize_bool()
    }
}

impl Deserialize for Int {
    open spec fn reads(s: Seq<u8>, r: Result<Int, DeserializeError>, k: int) -> bool {
        match parse_token(s) {
            None => r == invalid_input::<Int>(),
            Some((TokenModel::Int(i), n)) => r is Ok && r->Ok_0@ == i && k == n,
            Some(_) => r == invalid::<Int>(ValidationError::InvalidType),
        }
    }

    fn deserialize(deserializer: &mut Deserializer) -> (r: Result<Int, DeserializeError>) {
        deserializer.deserialize_int()
    }
}

impl Deserialize for u8 {
    open spec fn reads(s: Seq<u8>, r: Result<u8, DeserializeError>, k: int) -> bool {
        match parse_token(s) {
            None => r == invalid_input::<u8>(),
            Some((TokenModel::Int(i), n)) => if u8::MIN <= i <= u8::MAX {
                r is Ok && r->Ok_0 as int == i && k == n
            } else {
                r == invalid::<u8>(ValidationError::IntegerOutOfRange)
            },
            Some(_) => r == invalid::<u8>(ValidationError::InvalidType),
        }
    }

    fn deserialize(deserializer: &mut Deserializer) -> (r: Result<u8, DeserializeError>) {
        let i = deserializer.deserialize_int()?;
        match i.try_into_u8() {
            Ok(v) => Ok(v),
            Err(_) => Err(DeserializeError::Validation(ValidationError::IntegerOutOfRange)),
        }
    }
}

impl Deserialize for u16 {
    open spec fn reads(s: Seq<u8>, r: Result<u16, DeserializeError>, k: int) -> bool {
        match parse_token(s) {
            None => r == invalid_input::<u16>(),
            Some((TokenModel::Int(i), n)) => if u16::MIN <= i <= u16::MAX {
                r is Ok && r->Ok_0 as int == i && k == n
            } else {
                r == invalid::<u16>(ValidationError::IntegerOutOfRange)
            },
            Some(_) => r == invalid::<u16>(ValidationError::InvalidType),
        }
    }

    fn deserialize(deserializer: &mut Deserializer) -> (r: Result<u16, DeserializeError>) {
        let i = deserializer.deserialize_int()?;
        match i.try_into_u16() {
            Ok(v) => Ok(v),
            Err(_) => Err(DeserializeError::Validation(ValidationError::IntegerOutOfRange)),
        }
    }
}

impl Deserialize for u32 {
    open spec fn reads(s: Seq<u8>, r: Result<u32, DeserializeError>, k: int) -> bool {
        match parse_token(s) {
            None => r == invalid_input::<u32>(),
            Some((TokenModel::Int(i), n)) => if u32::MIN <= i <= u32::MAX {
                r is Ok && r->Ok_0 as int == i && k == n
            } else {
                r == invalid::<u32>(ValidationError::IntegerOutOfRange)
            },
            Some(_) => r == invalid::<u32>(ValidationError::InvalidType),
        }
    }

    fn deserialize(deserializer: &mut Deserializer) -> (r: Result<u32, DeserializeError>) {
        let i = deserializer.deserialize_int()?;
        match i.try_into_u32() {
            Ok(v) => Ok(v),
            Err(_) => Err(DeserializeError::Validation(ValidationError::IntegerOutOfRange)),
        }
    }
}

impl Deserialize for u64 {
    open spec fn reads(s: Seq<u8>, r: Result<u64, DeserializeError>, k: int) -> bool {
        match parse_token(s) {
            None => r == invalid_input::<u64>(),
            Some((TokenModel::Int(i), n)) => if u64::MIN <= i <= u64::MAX {
                r is Ok && r->Ok_0 as int == i && k == n
            } else {
                r == invalid::<u64>(ValidationError::IntegerOutOfRange)
            },
            Some(_) => r == invalid::<u64>(ValidationError::InvalidType),
        }
    }

    fn deserialize(deserializer: &mut Deserializer) -> (r: Result<u64, DeserializeError>) {
        let i = deserializer.deserialize_int()?;
        match i.try_into_u64() {
            Ok(v) => Ok(v),
            Err(_) => Err(DeserializeError::Validation(ValidationError::IntegerOutOfRange)),
        }
    }
}

impl Deserialize for i8 {
    open spec fn reads(s: Seq<u8>, r: Result<i8, DeserializeError>, k: int) -> bool {
        match parse_token(s) {
            None => r == invalid_input::<i8>(),
            Some((TokenModel::Int(i), n)) => if i8::MIN <= i <= i8::MAX {
                r is Ok && r->Ok_0 as int == i && k == n
            } else {
                r == invalid::<i8>(ValidationError::IntegerOutOfRange)
            },
            Some(_) => r == invalid::<i8>(ValidationError::InvalidType),
        }
    }

    fn deserialize(deserializer: &mut Deserializer) -> (r: Result<i8, DeserializeError>) {
        let i = deserializer.deserialize_int()?;
        match i.try_into_i8() {
            Ok(v) => Ok(v),
            Err(_) => Err(DeserializeError::Validation(ValidationError::IntegerOutOfRange)),
        }
    }
}

impl Deserialize for i16 {
    open spec fn reads(s: Seq<u8>, r: Result<i16, DeserializeError>, k: int) -> bool {
        match parse_token(s) {
            None => r == invalid_input::<i16>(),
            Some((TokenModel::Int(i), n)) => if i16::MIN <= i <= i16::MAX {
                r is Ok && r->Ok_0 as int == i && k == n
            } else {
                r == invalid::<i16>(ValidationError::IntegerOutOfRange)
            },
            Some(_) => r == invalid::<i16>(ValidationError::InvalidType),
        }
    }

    fn deserialize(deserializer: &mut Deserializer) -> (r: Result<i16, DeserializeError>) {
        let i = deserializer.deserialize_int()?;
        match i.try_into_i16() {
            Ok(v) => Ok(v),
            Err(_) => Err(DeserializeError::Validation(ValidationError::IntegerOutOfRange)),
        }
    }
}

impl Deserialize for i32 {
    open spec fn reads(s: Seq<u8>, r: Result<i32, DeserializeError>, k: int) -> bool {
        match parse_token(s) {
            None => r == invalid_input::<i32>(),
            Some((TokenModel::Int(i), n)) => if i32::MIN <= i <= i32::MAX {
                r is Ok && r->Ok_0 as int == i && k == n
            } else {
                r == invalid::<i32>(ValidationError::IntegerOutOfRange)
            },
            Some(_) => r == invalid::<i32>(ValidationError::InvalidType),
        }
    }

    fn deserialize(deserializer: &mut Deserializer) -> (r: Result<i32, DeserializeError>) {
        let i = deserializer.deserialize_int()?;
        match i.try_into_i32() {
            Ok(v) => Ok(v),
            Err(_) => Err(DeserializeError::Validation(ValidationError::IntegerOutOfRange)),
        }
    }
}

impl Deserialize for i64 {
    open spec fn reads(s: Seq<u8>, r: Result<i64, DeserializeError>, k: int) -> bool {
        match parse_token(s) {
            None => r == invalid_input::<i64>(),
            Some((TokenModel::Int(i), n)) => if i64::MIN <= i <= i64::MAX {
                r is Ok && r->Ok_0 as int == i && k == n
            } else {
                r == invalid::<i64>(ValidationError::IntegerOutOfRange)
            },
            Some(_) => r == invalid::<i64>(ValidationError::InvalidType),
        }
    }

    fn deserialize(deserializer: &mut Deserializer) -> (r: Result<i64, DeserializeError>) {
        let i = deserializer.deserialize_int()?;
        match i.try_into_i64() {
            Ok(v) => Ok(v),
            Err(_) => Err(DeserializeError::Validation(ValidationError::IntegerOutOfRange)),
        }
    }
}

impl Deserialize for Str {
    open spec fn reads(s: Seq<u8>, r: Result<Str, DeserializeError>, k: int) -> bool {
        match parse_token(s) {
            None => r == invalid_input::<Str>(),
            Some((TokenModel::Str(d), n)) => r is Ok && r->Ok_0.0@ == d && k == n,
            Some(_) => r == invalid::<Str>(ValidationError::InvalidType),
        }
    }

    fn deserialize(deserializer: &mut Deserializer) -> (r: Result<Str, DeserializeError>) {
        deserializer.deserialize_str()
    }
}

impl Deserialize for String {
    open spec fn reads(s: Seq<u8>, r: Result<String, DeserializeError>, k: int) -> bool {
        match parse_token(s) {
            None => r == invalid_input::<String>(),
            Some((TokenModel::Str(d), n)) => if valid_utf8(d) {
                r is Ok && encode_utf8(r->Ok_0@) == d && k == n
            } else {
                r == invalid::<String>(ValidationError::InvalidUtf8)
            },
            Some(_) => r == invalid::<String>(ValidationError::InvalidType),
        }
    }

    fn deserialize(deserializer: &mut Deserializer) -> (r: Result<String, DeserializeError>) {
        deserializer.deserialize_string()
    }
}

/// `vs` in front of the elements that `r` read, or the error that `r` failed with.
pub open spec fn prepend<T>(vs: Seq<T>, r: Result<Seq<T>, DeserializeError>) -> Result<
    Seq<T>,
    DeserializeError,
> {
    match r {
        Ok(xs) => Ok(vs + xs),
        Err(e) => Err(e),
    }
}

/// The elements of a vector that was read, or the error it failed with.
pub open spec fn elems_of<T>(r: Result<Vec<T>, DeserializeError>) -> Result<
    Seq<T>,
    DeserializeError,
> {
    match r {
        Ok(v) => Ok(v@),
        Err(e) => Err(e),
    }
}

/// The inner value of a pointer that was read, or the error it failed with.
pub open spec fn unboxed<T>(r: Result<Box<T>, DeserializeError>) -> Result<T, DeserializeError> {
    match r {
        Ok(b) => Ok(*b),
        Err(e) => Err(e),
    }
}

/// The inner value of a pointer that was read, or the error it failed with.
pub open spec fn unrc<T>(r: Result<std::rc::Rc<T>, DeserializeError>) -> Result<T, DeserializeError> {
    match r {
        Ok(b) => Ok(*b),
        Err(e) => Err(e),
    }
}

/// The inner value of a pointer that was read, or the error it failed with.
pub open spec fn unarc<T>(r: Result<std::sync::Arc<T>, DeserializeError>) -> Result<
    T,
    DeserializeError,
> {
    match r {
        Ok(b) => Ok(*b),
        Err(e) => Err(e),
    }
}

/// What is left to read after the first element: the other elements, or the
/// same error.
pub open spec fn tail_of<T>(r: Result<Seq<T>, DeserializeError>) -> Result<
    Seq<T>,
    DeserializeError,
> {
    match r {
        Ok(xs) => Ok(xs.drop_first()),
        Err(e) => Err(e),
    }
}

/// Whether `n` elements read one after another from the start of `s`, the
/// `i`-th reading giving `rs[i]` and taking `ks[i]` bytes as `T` reads it, give
/// `r`, taking `k` bytes when they all succeed. The first element that fails
/// ends the reading with its error.
pub open spec fn reads_chain<T: Deserialize>(
    s: Seq<u8>,
    n: nat,
    rs: Seq<Result<T, DeserializeError>>,
    ks: Seq<int>,
    r: Result<Seq<T>, DeserializeError>,
    k: int,
) -> bool
    decreases n,
{
    if n == 0 {
        r == Ok::<Seq<T>, DeserializeError>(Seq::empty()) && k == 0
    } else {
        &&& rs.len() > 0
        &&& ks.len() > 0
        &&& T::reads(s, rs[0], ks[0])
        &&& 0 <= ks[0] <= s.len()
        &&& match rs[0] {
            Err(e) => r == Err::<Seq<T>, DeserializeError>(e),
            Ok(v) => {
                &&& (r matches Ok(xs) ==> xs.len() > 0 && xs[0] == v)
                &&& reads_chain::<T>(
                    s.subrange(ks[0], s.len() as int),
                    (n - 1) as nat,
                    rs.drop_first(),
                    ks.drop_first(),
                    tail_of(r),
                    k - ks[0],
                )
            },
        }
    }
}

/// Whether reading `n` elements one after another from the start of `s` may
/// give `r`, taking `k` bytes when it succeeds: each element is read as `T`
/// reads it, from where the one before it ended, and the first element that
/// fails ends the reading with its error.
pub open spec fn reads_elems<T: Deserialize>(
    s: Seq<u8>,
    n: nat,
    r: Result<Seq<T>, DeserializeError>,
    k: int,
) -> bool {
    exists|rs: Seq<Result<T, DeserializeError>>, ks: Seq<int>|
        #[trigger] reads_chain::<T>(s, n, rs, ks, r, k)
}

/// Reading no elements gives none.
proof fn lemma_reads_elems_none<T: Deserialize>(s: Seq<u8>)
    ensures
        reads_elems::<T>(s, 0, Ok(Seq::empty()), 0),
{
    assert(reads_chain::<T>(s, 0, Seq::empty(), Seq::empty(), Ok(Seq::empty()), 0));
}

/// A first element that fails ends the reading with its error.
proof fn lemma_reads_elems_fail<T: Deserialize>(
    s: Seq<u8>,
    n: nat,
    e: DeserializeError,
    k1: int,
    k: int,
)
    requires
        n > 0,
        T::reads(s, Err(e), k1),
        0 <= k1 <= s.len(),
    ensures
        reads_elems::<T>(s, n, Err(e), k),
{
    let rs = seq![Err::<T, DeserializeError>(e)];
    let ks = seq![k1];
    assert(reads_chain::<T>(s, n, rs, ks, Err(e), k));
}

/// One element read, then the rest: the reading of all of them.
proof fn lemma_reads_elems_step<T: Deserialize>(
    s: Seq<u8>,
    n: nat,
    v: T,
    k1: int,
    r: Result<Seq<T>, DeserializeError>,
    k: int,
)
    requires
        n > 0,
        T::reads(s, Ok(v), k1),
        0 <= k1 <= s.len(),
        reads_elems::<T>(s.subrange(k1, s.len() as int), (n - 1) as nat, r, k),
    ensures
        reads_elems::<T>(s, n, prepend(seq![v], r), k1 + k),
{
    let rest = s.subrange(k1, s.len() as int);
    let (rs, ks) = choose|rs: Seq<Result<T, DeserializeError>>, ks: Seq<int>|
        #[trigger] reads_chain::<T>(rest, (n - 1) as nat, rs, ks, r, k);
    let rs2 = seq![Ok::<T, DeserializeError>(v)] + rs;
    let ks2 = seq![k1] + ks;
    let whole = prepend(seq![v], r);
    assert(rs2.drop_first() =~= rs);
    assert(ks2.drop_first() =~= ks);
    match r {
        Ok(xs) => {
            assert((seq![v] + xs).drop_first() =~= xs);
        },
        Err(e) => {},
    }
    assert(reads_chain::<T>(s, n, rs2, ks2, whole, k1 + k));
}

impl<T: Deserialize> Deserialize for Vec<T> {
    /// An array header, then its elements read one after another as `T` reads
    /// them.
    open spec fn reads(s: Seq<u8>, r: Result<Vec<T>, DeserializeError>, k: int) -> bool {
        match parse_token(s) {
            None => r == invalid_input::<Vec<T>>(),
            Some((TokenModel::Array(n), h)) => reads_elems::<T>(
                s.subrange(h as int, s.len() as int),
                n,
                elems_of(r),
                k - h,
            ),
            Some(_) => r == invalid::<Vec<T>>(ValidationError::InvalidType),
        }
    }

    fn deserialize(deserializer: &mut Deserializer) -> (r: Result<Vec<T>, DeserializeError>) {
        let ghost s0 = deserializer.rest();
        let ghost p0 = deserializer.pos;
        match deserializer.deserialize_token() {
            Ok(Token::Array(len)) => {
                let ghost after = deserializer.rest();
                let ghost pa = deserializer.pos;
                assert(after =~= s0.subrange(pa - p0, s0.len() as int));
                let mut items: Vec<T> = Vec::new();
                let mut i: u32 = 0;
                assert forall|r: Result<Seq<T>, DeserializeError>, k: int|
                    #[trigger] reads_elems::<T>(after, len as nat, r, k) implies reads_elems::<T>(
                    after,
                    len as nat,
                    prepend(items@, r),
                    k,
                ) by {
                    match r {
                        Ok(xs) => {
                            assert(items@ + xs =~= xs);
                        },
                        Err(e) => {},
                    }
                }
                while i < len
                    invariant
                        deserializer.wf(),
                        deserializer.input == old(deserializer).input,
                        p0 == old(deserializer).pos,
                        s0 == old(deserializer).rest(),
                        pa >= p0,
                        after == s0.subrange(pa - p0, s0.len() as int),
                        parse_token(s0) == Some((TokenModel::Array(len as nat), (pa - p0) as nat)),
                        deserializer.pos >= pa,
                        deserializer.rest() == after.subrange(
                            deserializer.pos - pa,
                            after.len() as int,
                        ),
                        i <= len,
                        forall|r: Result<Seq<T>, DeserializeError>, k: int|
                            #[trigger] reads_elems::<T>(deserializer.rest(), (len - i) as nat, r, k)
                                ==> reads_elems::<T>(
                                after,
                                len as nat,
                                prepend(items@, r),
                                deserializer.pos - pa + k,
                            ),
                    decreases len - i,
                {
                    let ghost cur = deserializer.rest();
                    let ghost pc = deserializer.pos;
                    let ghost before = items@;
                    let x = T::deserialize(deserializer);
                    let ghost k1 = deserializer.pos - pc;
                    assert(deserializer.rest() =~= cur.subrange(k1, cur.len() as int));
                    match x {
                        Err(e) => {
                            proof {
                                lemma_reads_elems_fail::<T>(cur, (len - i) as nat, e, k1, k1);
                                assert(prepend(before, Err(e)) == Err::<Seq<T>, DeserializeError>(
                                    e,
                                ));
                            }
                            return Err(e);
                        },
                        Ok(v) => {
                            proof {
                                assert forall|r: Result<Seq<T>, DeserializeError>, k: int|
                                    #[trigger] reads_elems::<T>(
                                        deserializer.rest(),
                                        (len - i - 1) as nat,
                                        r,
                                        k,
                                    ) implies reads_elems::<T>(
                                    after,
                                    len as nat,
                                    prepend(before.push(v), r),
                                    deserializer.pos - pa + k,
                                ) by {
                                    lemma_reads_elems_step::<T>(cur, (len - i) as nat, v, k1, r, k);
                                    match r {
                                        Ok(xs) => {
                                            assert(before + (seq![v] + xs) =~= before.push(v) + xs);
                                        },
                                        Err(e) => {},
                                    }
                                }
                            }
                            items.push(v);
                            i = i + 1;
                        },
                    }
                }
                proof {
                    lemma_reads_elems_none::<T>(deserializer.rest());
                    assert(reads_elems::<T>(deserializer.rest(), (len - i) as nat, Ok(Seq::<T>::empty()), 0));
                    assert(items@ + Seq::<T>::empty() =~= items@);
                    assert(reads_elems::<T>(after, len as nat, Ok(items@), deserializer.pos - pa));
                }
                Ok(items)
            },
            Ok(_) => Err(DeserializeError::Validation(ValidationError::InvalidType)),
            Err(e) => Err(DeserializeError::InvalidInput(e)),
        }
    }
}

impl<T: Deserialize> Deserialize for Box<T> {
    /// Read as `T` reads it.
    open spec fn reads(s: Seq<u8>, r: Result<Box<T>, DeserializeError>, k: int) -> bool {
        T::reads(s, unboxed(r), k)
    }

    fn deserialize(deserializer: &mut Deserializer) -> (r: Result<Box<T>, DeserializeError>) {
        let v = T::deserialize(deserializer)?;
        Ok(Box::new(v))
    }
}

impl<T: Deserialize> Deserialize for std::rc::Rc<T> {
    /// Read as `T` reads it.
    open spec fn reads(s: Seq<u8>, r: Result<std::rc::Rc<T>, DeserializeError>, k: int) -> bool {
        T::reads(s, unrc(r), k)
    }

    fn deserialize(deserializer: &mut Deserializer) -> (r: Result<std::rc::Rc<T>, DeserializeError>) {
        let v = T::deserialize(deserializer)?;
        Ok(std::rc::Rc::new(v))
    }
}

impl<T: Deserialize> Deserialize for std::sync::Arc<T> {
    /// Read as `T` reads it.
    open spec fn reads(s: Seq<u8>, r: Result<std::sync::Arc<T>, DeserializeError>, k: int) -> bool {
        T::reads(s, unarc(r), k)
    }

    fn deserialize(deserializer: &mut Deserializer) -> (r: Result<std::sync::Arc<T>, DeserializeError>) {
        let v = T::deserialize(deserializer)?;
        Ok(std::sync::Arc::new(v))
    }
}

impl Deserialize for Value {
    open spec fn reads(s: Seq<u8>, r: Result<Value, DeserializeError>, k: int) -> bool {
        match parse_value(s) {
            None => r == invalid_input::<Value>(),
            Some((m, n)) => r is Ok && r->Ok_0@ == m && k == n,
        }
    }

    fn deserialize(deserializer: &mut Deserializer) -> (r: Result<Value, DeserializeError>) {
        deserializer.deserialize_value()
    }
}

impl Deserialize for Nil {
    open spec fn reads(s: Seq<u8>, r: Result<Nil, DeserializeError>, k: int) -> bool {
        match parse_token(s) {
            None => r == invalid_input::<Nil>(),
            Some((TokenModel::Nil, n)) => r is Ok && k == n,
            Some(_) => r == invalid::<Nil>(ValidationError::InvalidType),
        }
    }

    fn deserialize(deserializer: &mut Deserializer) -> (r: Result<Nil, DeserializeError>) {
        deserializer.deserialize_nil()
    }
}

impl Deserialize for Any {
    open spec fn reads(s: Seq<u8>, r: Result<Any, DeserializeError>, k: int) -> bool {
        match parse_value(s) {
            None => r == invalid_input::<Any>(),
            Some((m, n)) => r is Ok && k == n,
        }
    }

    fn deserialize(deserializer: &mut Deserializer) -> (r: Result<Any, DeserializeError>) {
        deserializer.deserialize_any()?;
        Ok(Any)
    }
}

impl Deserialize for Empty {
    open spec fn reads(s: Seq<u8>, r: Result<Empty, DeserializeError>, k: int) -> bool {
        match parse_token(s) {
            None => r == invalid_input::<Empty>(),
            Some((TokenModel::Pairs(m), n)) => if m == 0 {
                r is Ok && k == n
            } else {
                r == invalid::<Empty>(ValidationError::InvalidType)
            },
            Some(_) => r == invalid::<Empty>(ValidationError::InvalidType),
        }
    }

    fn deserialize(deserializer: &mut Deserializer) -> (r: Result<Empty, DeserializeError>) {
        deserializer.deserialize_empty()
    }
}

/// Writes `s` into a new buffer.
pub fn serialize<S: Serialize>(s: S) -> (r: Vec<u8>)
    requires
        s.encodable(),
    ensures
        r@ == s.encoded(),
{
    let mut serializer = Serializer::new();
    serializer.serialize(s);
    serializer.into_inner()
}

/// Reads a `D` from the start of `r`; bytes after it are ignored.
pub fn deserialize<D: Deserialize>(r: &[u8]) -> (res: Result<D, DeserializeError>)
    ensures
        exists|k: int| D::reads(r@, res, k),
{
    let mut deserializer = Deserializer::new(r);
    let res = deserializer.deserialize();
    assert(D::reads(r@, res, deserializer.pos as int));
    res
}

} // verus!
