//! The value model: a recursive tagged union of MessagePack objects, and the
//! mathematical values it stands for.
use vstd::prelude::*;
use vstd::slice::slice_to_vec;
use vstd::string::StringSliceAdditionalSpecFns;
use vstd::utf8::encode_utf8;

pub use crate::codec::{Any, Empty, Nil};
use crate::codec::{Deserialize, Serialize};
use crate::de::{DeserializeError, Deserializer};
pub use crate::integer::Int;
use crate::wire::{enc_token, lemma_token_round_trip, parse_token, token_wf, TokenModel};

verus! {

/// A string object: any bytes, not necessarily UTF-8.
#[derive(Clone, Debug, PartialEq, Eq)]
pub struct Str(pub Vec<u8>);

/// A binary object.
#[derive(Clone, Debug, PartialEq, Eq)]
pub struct Bin(pub Vec<u8>);

/// A user-extension object: a type tag and its data.
#[derive(Clone, Debug, PartialEq, Eq)]
pub struct Ext {
    pub tag: i8,
    pub data: Vec<u8>,
}

/// A MessagePack object. Floats are held by their bit patterns. A map is a list
/// of pairs in wire order, duplicate keys included.
#[derive(Debug, PartialEq, Eq)]
pub enum Value {
    Nil,
    Bool(bool),
    Int(Int),
    F32(u32),
    F64(u64),
    Str(Str),
    Bin(Bin),
    Array(Vec<Value>),
    Pairs(Vec<(Value, Value)>),
    Ext(Ext),
}

/// What a `Value` stands for.
pub enum ValueModel {
    Nil,
    Bool(bool),
    Int(int),
    F32(u32),
    F64(u64),
    Str(Seq<u8>),
    Bin(Seq<u8>),
    Array(Seq<ValueModel>),
    Pairs(Seq<(ValueModel, ValueModel)>),
    Ext(i8, Seq<u8>),
}

impl Str {
    /// The bytes.
    pub fn into_bytes(self) -> (r: Vec<u8>)
        ensures
            r@ == self.0@,
    {
        self.0
    }

    /// The bytes.
    pub fn as_bytes(&self) -> (r: &[u8])
        ensures
            r@ == self.0@,
    {
        self.0.as_slice()
    }
}

impl Bin {
    /// The bytes.
    pub fn into_bytes(self) -> (r: Vec<u8>)
        ensures
            r@ == self.0@,
    {
        self.0
    }

    /// The bytes.
    pub fn as_bytes(&self) -> (r: &[u8])
        ensures
            r@ == self.0@,
    {
        self.0.as_slice()
    }
}

impl Value {
    /// Whether the value is nil.
    pub fn is_nil(&self) -> (r: bool)
        ensures
            r == (*self is Nil),
    {
        match self {
            Value::Nil => true,
            _ => false,
        }
    }

    /// Whether the value is of kind `Bool`.
    pub fn is_bool(&self) -> (r: bool)
        ensures
            r == (*self is Bool),
    {
        match self {
            Value::Bool(_) => true,
            _ => false,
        }
    }

    /// Whether the value is of kind `Int`.
    pub fn is_int(&self) -> (r: bool)
        ensures
            r == (*self is Int),
    {
        match self {
            Value::Int(_) => true,
            _ => false,
        }
    }

    /// Whether the value is of kind `F32`.
    pub fn is_f32(&self) -> (r: bool)
        ensures
            r == (*self is F32),
    {
        match self {
            Value::F32(_) => true,
            _ => false,
        }
    }

    /// Whether the value is of kind `F64`.
    pub fn is_f64(&self) -> (r: bool)
        ensures
            r == (*self is F64),
    {
        match self {
            Value::F64(_) => true,
            _ => false,
        }
    }

    /// Whether the value is of kind `Str`.
    pub fn is_str(&self) -> (r: bool)
        ensures
            r == (*self is Str),
    {
        match self {
            Value::Str(_) => true,
            _ => false,
        }
    }

    /// Whether the value is of kind `Bin`.
    pub fn is_bin(&self) -> (r: bool)
        ensures
            r == (*self is Bin),
    {
        match self {
            Value::Bin(_) => true,
            _ => false,
        }
    }

    /// Whether the value is of kind `Array`.
    pub fn is_array(&self) -> (r: bool)
        ensures
            r == (*self is Array),
    {
        match self {
            Value::Array(_) => true,
            _ => false,
        }
    }

    /// Whether the value is a map.
    pub fn is_map(&self) -> (r: bool)
        ensures
            r == (*self is Pairs),
    {
        match self {
            Value::Pairs(_) => true,
            _ => false,
        }
    }

    /// Whether the value is of kind `Ext`.
    pub fn is_ext(&self) -> (r: bool)
        ensures
            r == (*self is Ext),
    {
        match self {
            Value::Ext(_) => true,
            _ => false,
        }
    }

    /// The boolean, if the value is one.
    pub fn as_bool(&self) -> (r: Option<bool>)
        ensures
            match self {
                Value::Bool(b) => r == Some(*b),
                _ => r is None,
            },
    {
        match self {
            Value::Bool(b) => Some(*b),
            _ => None,
        }
    }

    /// The integer, if the value is one.
    pub fn as_int(&self) -> (r: Option<Int>)
        ensures
            match self {
                Value::Int(b) => r == Some(*b),
                _ => r is None,
            },
    {
        match self {
            Value::Int(b) => Some(*b),
            _ => None,
        }
    }

    /// The bit pattern of the 32-bit float, if the value is one.
    pub fn as_f32(&self) -> (r: Option<u32>)
        ensures
            match self {
                Value::F32(b) => r == Some(*b),
                _ => r is None,
            },
    {
        match self {
            Value::F32(b) => Some(*b),
            _ => None,
        }
    }

    /// The bit pattern of the 64-bit float, if the value is one.
    pub fn as_f64(&self) -> (r: Option<u64>)
        ensures
            match self {
                Value::F64(b) => r == Some(*b),
                _ => r is None,
            },
    {
        match self {
            Value::F64(b) => Some(*b),
            _ => None,
        }
    }

    /// The string object, if the value is one.
    pub fn as_str(&self) -> (r: Option<&Str>)
        ensures
            match self {
                Value::Str(b) => r == Some(b),
                _ => r is None,
            },
    {
        match self {
            Value::Str(b) => Some(b),
            _ => None,
        }
    }

    /// The binary object, if the value is one.
    pub fn as_bin(&self) -> (r: Option<&Bin>)
        ensures
            match self {
                Value::Bin(b) => r == Some(b),
                _ => r is None,
            },
    {
        match self {
            Value::Bin(b) => Some(b),
            _ => None,
        }
    }

    /// The elements of the array, if the value is one.
    pub fn as_array(&self) -> (r: Option<&[Value]>)
        ensures
            match self {
                Value::Array(b) => r is Some && r->0@ == b@,
                _ => r is None,
            },
    {
        match self {
            Value::Array(b) => Some(b.as_slice()),
            _ => None,
        }
    }

    /// The entries of the map, if the value is one.
    pub fn as_map(&self) -> (r: Option<&[(Value, Value)]>)
        ensures
            match self {
                Value::Pairs(b) => r is Some && r->0@ == b@,
                _ => r is None,
            },
    {
        match self {
            Value::Pairs(b) => Some(b.as_slice()),
            _ => None,
        }
    }

    /// The extension object, if the value is one.
    pub fn as_ext(&self) -> (r: Option<&Ext>)
        ensures
            match self {
                Value::Ext(b) => r == Some(b),
                _ => r is None,
            },
    {
        match self {
            Value::Ext(b) => Some(b),
            _ => None,
        }
    }

    /// The string object, mutably, if the value is one.
    pub fn as_str_mut(&mut self) -> (r: Option<&mut Str>)
        ensures
            match *old(self) {
                Value::Str(b) => r is Some && *r->0 == b && *final(self) == Value::Str(*final(r->0)),
                _ => r is None && *final(self) == *old(self),
            },
    {
        match self {
            Value::Str(b) => Some(b),
            _ => None,
        }
    }

    /// The binary object, mutably, if the value is one.
    pub fn as_bin_mut(&mut self) -> (r: Option<&mut Bin>)
        ensures
            match *old(self) {
                Value::Bin(b) => r is Some && *r->0 == b && *final(self) == Value::Bin(*final(r->0)),
                _ => r is None && *final(self) == *old(self),
            },
    {
        match self {
            Value::Bin(b) => Some(b),
            _ => None,
        }
    }

    /// The elements of the array, mutably, if the value is one.
    pub fn as_array_mut(&mut self) -> (r: Option<&mut Vec<Value>>)
        ensures
            match *old(self) {
                Value::Array(b) => r is Some && *r->0 == b && *final(self) == Value::Array(*final(r->0)),
                _ => r is None && *final(self) == *old(self),
            },
    {
        match self {
            Value::Array(b) => Some(b),
            _ => None,
        }
    }

    /// The entries of the map, mutably, if the value is one.
    pub fn as_map_mut(&mut self) -> (r: Option<&mut Vec<(Value, Value)>>)
        ensures
            match *old(self) {
                Value::Pairs(b) => r is Some && *r->0 == b && *final(self) == Value::Pairs(*final(r->0)),
                _ => r is None && *final(self) == *old(self),
            },
    {
        match self {
            Value::Pairs(b) => Some(b),
            _ => None,
        }
    }

    /// The extension object, mutably, if the value is one.
    pub fn as_ext_mut(&mut self) -> (r: Option<&mut Ext>)
        ensures
            match *old(self) {
                Value::Ext(b) => r is Some && *r->0 == b && *final(self) == Value::Ext(*final(r->0)),
                _ => r is None && *final(self) == *old(self),
            },
    {
        match self {
            Value::Ext(b) => Some(b),
            _ => None,
        }
    }

    /// Whether the value can be written: every length fits its 32-bit wire field.
    pub fn is_encodable(&self) -> (r: bool)
        ensures
            r == value_wf(self@),
    {
        crate::bridge::encodable(self)
    }

    /// The value under the last string key equal to `key`, if the value is a map
    /// that has one: of duplicate keys the later entry wins.
    pub fn index_str(&self, key: &[u8]) -> (r: Option<&Value>)
        ensures
            match self@ {
                ValueModel::Pairs(entries) => match lookup_str(entries, key@) {
                    Some(v) => r is Some && r->0@ == v,
                    None => r is None,
                },
                _ => r is None,
            },
    {
        match self {
            Value::Pairs(entries) => {
                proof {
                    lemma_pair_views_index(entries@);
                }
                let mut i: usize = entries.len();
                assert(pair_views(entries@).take(i as int) =~= pair_views(entries@));
                while i > 0
                    invariant
                        *self == Value::Pairs(*entries),
                        i <= entries@.len(),
                        pair_views(entries@).len() == entries@.len(),
                        forall|j: int|
                            0 <= j < entries@.len() ==> #[trigger] pair_views(entries@)[j] == (
                                entries@[j].0@,
                                entries@[j].1@,
                            ),
                        lookup_str(pair_views(entries@), key@) == lookup_str(
                            pair_views(entries@).take(i as int),
                            key@,
                        ),
                    decreases i,
                {
                    let ghost pv = pair_views(entries@).take(i as int);
                    assert(pv.drop_last() =~= pair_views(entries@).take(i - 1));
                    let entry = &entries[i - 1];
                    assert(pv.last() == (entry.0@, entry.1@));
                    if let Value::Str(k) = &entry.0 {
                        if bytes_equal(k.0.as_slice(), key) {
                            return Some(&entry.1);
                        }
                    }
                    i = i - 1;
                }
                assert(pair_views(entries@).take(0) =~= Seq::<(ValueModel, ValueModel)>::empty());
                None
            },
            _ => None,
        }
    }

    /// The element at `index`, if the value is an array that long.
    pub fn index_at(&self, index: usize) -> (r: Option<&Value>)
        ensures
            match self {
                Value::Array(items) => if index < items@.len() {
                    r == Some(&items@[index as int])
                } else {
                    r is None
                },
                _ => r is None,
            },
    {
        match self {
            Value::Array(items) => {
                if index < items.len() {
                    Some(&items[index])
                } else {
                    None
                }
            },
            _ => None,
        }
    }
}

impl From<String> for Str {
    fn from(x: String) -> (r: Str)
        ensures
            r.0@ == encode_utf8(x@),
    {
        Str(slice_to_vec(x.as_str().as_bytes()))
    }
}

impl vstd::std_specs::convert::FromSpecImpl<String> for Str {
    open spec fn obeys_from_spec() -> bool {
        false
    }

    open spec fn from_spec(v: String) -> Str {
        arbitrary()
    }
}

impl From<bool> for Value {
    fn from(v: bool) -> (r: Value)
        ensures
            r@ == ValueModel::Bool(v),
    {
        Value::Bool(v)
    }
}

impl vstd::std_specs::convert::FromSpecImpl<bool> for Value {
    open spec fn obeys_from_spec() -> bool {
        false
    }

    open spec fn from_spec(v: bool) -> Value {
        arbitrary()
    }
}

impl From<Int> for Value {
    fn from(v: Int) -> (r: Value)
        ensures
            r@ == ValueModel::Int(v@),
    {
        Value::Int(v)
    }
}

impl vstd::std_specs::convert::FromSpecImpl<Int> for Value {
    open spec fn obeys_from_spec() -> bool {
        false
    }

    open spec fn from_spec(v: Int) -> Value {
        arbitrary()
    }
}

impl From<u8> for Value {
    fn from(v: u8) -> (r: Value)
        ensures
            r@ == ValueModel::Int(v as int),
    {
        Value::Int(Int::from_u64(v as u64))
    }
}

impl vstd::std_specs::convert::FromSpecImpl<u8> for Value {
    open spec fn obeys_from_spec() -> bool {
        false
    }

    open spec fn from_spec(v: u8) -> Value {
        arbitrary()
    }
}

impl From<u16> for Value {
    fn from(v: u16) -> (r: Value)
        ensures
            r@ == ValueModel::Int(v as int),
    {
        Value::Int(Int::from_u64(v as u64))
    }
}

impl vstd::std_specs::convert::FromSpecImpl<u16> for Value {
    open spec fn obeys_from_spec() -> bool {
        false
    }

    open spec fn from_spec(v: u16) -> Value {
        arbitrary()
    }
}

impl From<u32> for Value {
    fn from(v: u32) -> (r: Value)
        ensures
            r@ == ValueModel::Int(v as int),
    {
        Value::Int(Int::from_u64(v as u64))
    }
}

impl vstd::std_specs::convert::FromSpecImpl<u32> for Value {
    open spec fn obeys_from_spec() -> bool {
        false
    }

    open spec fn from_spec(v: u32) -> Value {
        arbitrary()
    }
}

impl From<u64> for Value {
    fn from(v: u64) -> (r: Value)
        ensures
            r@ == ValueModel::Int(v as int),
    {
        Value::Int(Int::from_u64(v))
    }
}

impl vstd::std_specs::convert::FromSpecImpl<u64> for Value {
    open spec fn obeys_from_spec() -> bool {
        false
    }

    open spec fn from_spec(v: u64) -> Value {
        arbitrary()
    }
}

impl From<i8> for Value {
    fn from(v: i8) -> (r: Value)
        ensures
            r@ == ValueModel::Int(v as int),
    {
        Value::Int(Int::from_i64(v as i64))
    }
}

impl vstd::std_specs::convert::FromSpecImpl<i8> for Value {
    open spec fn obeys_from_spec() -> bool {
        false
    }

    open spec fn from_spec(v: i8) -> Value {
        arbitrary()
    }
}

impl From<i16> for Value {
    fn from(v: i16) -> (r: Value)
        ensures
            r@ == ValueModel::Int(v as int),
    {
        Value::Int(Int::from_i64(v as i64))
    }
}

impl vstd::std_specs::convert::FromSpecImpl<i16> for Value {
    open spec fn obeys_from_spec() -> bool {
        false
    }

    open spec fn from_spec(v: i16) -> Value {
        arbitrary()
    }
}

impl From<i32> for Value {
    fn from(v: i32) -> (r: Value)
        ensures
            r@ == ValueModel::Int(v as int),
    {
        Value::Int(Int::from_i64(v as i64))
    }
}

impl vstd::std_specs::convert::FromSpecImpl<i32> for Value {
    open spec fn obeys_from_spec() -> bool {
        false
    }

    open spec fn from_spec(v: i32) -> Value {
        arbitrary()
    }
}

impl From<i64> for Value {
    fn from(v: i64) -> (r: Value)
        ensures
            r@ == ValueModel::Int(v as int),
    {
        Value::Int(Int::from_i64(v))
    }
}

impl vstd::std_specs::convert::FromSpecImpl<i64> for Value {
    open spec fn obeys_from_spec() -> bool {
        false
    }

    open spec fn from_spec(v: i64) -> Value {
        arbitrary()
    }
}

impl From<Str> for Value {
    fn from(v: Str) -> (r: Value)
        ensures
            r@ == ValueModel::Str(v.0@),
    {
        Value::Str(v)
    }
}

impl vstd::std_specs::convert::FromSpecImpl<Str> for Value {
    open spec fn obeys_from_spec() -> bool {
        false
    }

    open spec fn from_spec(v: Str) -> Value {
        arbitrary()
    }
}

impl From<String> for Value {
    fn from(v: String) -> (r: Value)
        ensures
            r@ == ValueModel::Str(encode_utf8(v@)),
    {
        Value::Str(Str::from(v))
    }
}

impl vstd::std_specs::convert::FromSpecImpl<String> for Value {
    open spec fn obeys_from_spec() -> bool {
        false
    }

    open spec fn from_spec(v: String) -> Value {
        arbitrary()
    }
}

impl From<Bin> for Value {
    fn from(v: Bin) -> (r: Value)
        ensures
            r@ == ValueModel::Bin(v.0@),
    {
        Value::Bin(v)
    }
}

impl vstd::std_specs::convert::FromSpecImpl<Bin> for Value {
    open spec fn obeys_from_spec() -> bool {
        false
    }

    open spec fn from_spec(v: Bin) -> Value {
        arbitrary()
    }
}

impl From<Ext> for Value {
    fn from(v: Ext) -> (r: Value)
        ensures
            r@ == ValueModel::Ext(v.tag, v.data@),
    {
        Value::Ext(v)
    }
}

impl vstd::std_specs::convert::FromSpecImpl<Ext> for Value {
    open spec fn obeys_from_spec() -> bool {
        false
    }

    open spec fn from_spec(v: Ext) -> Value {
        arbitrary()
    }
}

impl From<Vec<Value>> for Value {
    fn from(v: Vec<Value>) -> (r: Value)
        ensures
            r@ == ValueModel::Array(views(v@)),
    {
        Value::Array(v)
    }
}

impl vstd::std_specs::convert::FromSpecImpl<Vec<Value>> for Value {
    open spec fn obeys_from_spec() -> bool {
        false
    }

    open spec fn from_spec(v: Vec<Value>) -> Value {
        arbitrary()
    }
}

impl From<Vec<(Value, Value)>> for Value {
    fn from(v: Vec<(Value, Value)>) -> (r: Value)
        ensures
            r@ == ValueModel::Pairs(pair_views(v@)),
    {
        Value::Pairs(v)
    }
}

impl vstd::std_specs::convert::FromSpecImpl<Vec<(Value, Value)>> for Value {
    open spec fn obeys_from_spec() -> bool {
        false
    }

    open spec fn from_spec(v: Vec<(Value, Value)>) -> Value {
        arbitrary()
    }
}

/// Error returned when a value is not of the kind asked for.
#[derive(Clone, Copy, Debug, PartialEq, Eq, Structural)]
pub struct TryFromValueError;

impl TryFrom<Value> for bool {
    type Error = TryFromValueError;

    fn try_from(value: Value) -> (r: Result<bool, TryFromValueError>)
        ensures
            match value {
                Value::Bool(b) => r == Ok::<bool, TryFromValueError>(b),
                _ => r == Err::<bool, TryFromValueError>(TryFromValueError),
            },
    {
        match value {
            Value::Bool(b) => Ok(b),
            _ => Err(TryFromValueError),
        }
    }
}

impl vstd::std_specs::convert::TryFromSpecImpl<Value> for bool {
    open spec fn obeys_try_from_spec() -> bool {
        false
    }

    open spec fn try_from_spec(v: Value) -> Result<bool, TryFromValueError> {
        arbitrary()
    }
}

impl TryFrom<Value> for Int {
    type Error = TryFromValueError;

    fn try_from(value: Value) -> (r: Result<Int, TryFromValueError>)
        ensures
            match value {
                Value::Int(b) => r == Ok::<Int, TryFromValueError>(b),
                _ => r == Err::<Int, TryFromValueError>(TryFromValueError),
            },
    {
        match value {
            Value::Int(b) => Ok(b),
            _ => Err(TryFromValueError),
        }
    }
}

impl vstd::std_specs::convert::TryFromSpecImpl<Value> for Int {
    open spec fn obeys_try_from_spec() -> bool {
        false
    }

    open spec fn try_from_spec(v: Value) -> Result<Int, TryFromValueError> {
        arbitrary()
    }
}

impl TryFrom<Value> for Vec<Value> {
    type Error = TryFromValueError;

    fn try_from(value: Value) -> (r: Result<Vec<Value>, TryFromValueError>)
        ensures
            match value {
                Value::Array(b) => r is Ok && r->Ok_0@ == b@,
                _ => r == Err::<Vec<Value>, TryFromValueError>(TryFromValueError),
            },
    {
        match value {
            Value::Array(b) => Ok(b),
            _ => Err(TryFromValueError),
        }
    }
}

impl vstd::std_specs::convert::TryFromSpecImpl<Value> for Vec<Value> {
    open spec fn obeys_try_from_spec() -> bool {
        false
    }

    open spec fn try_from_spec(v: Value) -> Result<Vec<Value>, TryFromValueError> {
        arbitrary()
    }
}

impl TryFrom<Value> for Vec<(Value, Value)> {
    type Error = TryFromValueError;

    fn try_from(value: Value) -> (r: Result<Vec<(Value, Value)>, TryFromValueError>)
        ensures
            match value {
                Value::Pairs(b) => r is Ok && r->Ok_0@ == b@,
                _ => r == Err::<Vec<(Value, Value)>, TryFromValueError>(TryFromValueError),
            },
    {
        match value {
            Value::Pairs(b) => Ok(b),
            _ => Err(TryFromValueError),
        }
    }
}

impl vstd::std_specs::convert::TryFromSpecImpl<Value> for Vec<(Value, Value)> {
    open spec fn obeys_try_from_spec() -> bool {
        false
    }

    open spec fn try_from_spec(v: Value) -> Result<Vec<(Value, Value)>, TryFromValueError> {
        arbitrary()
    }
}

impl Clone for Value {
    /// A deep copy.
    fn clone(&self) -> (r: Value)
        ensures
            r@ == self@,
        decreases self,
    {
        match self {
            Value::Nil => Value::Nil,
            Value::Bool(b) => Value::Bool(*b),
            Value::Int(i) => Value::Int(*i),
            Value::F32(b) => Value::F32(*b),
            Value::F64(b) => Value::F64(*b),
            Value::Str(d) => Value::Str(Str(slice_to_vec(d.0.as_slice()))),
            Value::Bin(d) => Value::Bin(Bin(slice_to_vec(d.0.as_slice()))),
            Value::Ext(e) => Value::Ext(Ext { tag: e.tag, data: slice_to_vec(e.data.as_slice()) }),
            Value::Array(items) => {
                let mut out: Vec<Value> = Vec::new();
                let mut i: usize = 0;
                proof {
                    lemma_views_index(items@);
                }
                while i < items.len()
                    invariant
                        *self == Value::Array(*items),
                        self@ == ValueModel::Array(views(items@)),
                        i <= items@.len(),
                        views(items@).len() == items@.len(),
                        forall|j: int| 0 <= j < items@.len() ==> #[trigger] views(items@)[j] == items@[j]@,
                        views(out@) == views(items@).take(i as int),
                    decreases items@.len() - i,
                {
                    assert(decreases_to!(*items => items[i as int]));
                    assert(decreases_to!(*self => *items));
                    let c = items[i].clone();
                    proof {
                        lemma_views_push(out@, c);
                        assert(views(items@).take(i + 1) =~= views(items@).take(i as int).push(c@));
                    }
                    out.push(c);
                    i = i + 1;
                }
                assert(views(items@).take(i as int) =~= views(items@));
                Value::Array(out)
            },
            Value::Pairs(entries) => {
                let mut out: Vec<(Value, Value)> = Vec::new();
                let mut i: usize = 0;
                proof {
                    lemma_pair_views_index(entries@);
                }
                while i < entries.len()
                    invariant
                        *self == Value::Pairs(*entries),
                        self@ == ValueModel::Pairs(pair_views(entries@)),
                        i <= entries@.len(),
                        pair_views(entries@).len() == entries@.len(),
                        forall|j: int|
                            0 <= j < entries@.len() ==> #[trigger] pair_views(entries@)[j] == (
                                entries@[j].0@,
                                entries@[j].1@,
                            ),
                        pair_views(out@) == pair_views(entries@).take(i as int),
                    decreases entries@.len() - i,
                {
                    assert(decreases_to!(*entries => entries[i as int]));
                    assert(decreases_to!(*self => *entries));
                    let k = entries[i].0.clone();
                    let v = entries[i].1.clone();
                    proof {
                        lemma_pair_views_push(out@, (k, v));
                        assert(pair_views(entries@).take(i + 1) =~= pair_views(entries@).take(
                            i as int,
                        ).push((k@, v@)));
                    }
                    out.push((k, v));
                    i = i + 1;
                }
                assert(pair_views(entries@).take(i as int) =~= pair_views(entries@));
                Value::Pairs(out)
            },
        }
    }
}

/// Whether two byte strings are equal.
fn bytes_equal(a: &[u8], b: &[u8]) -> (r: bool)
    ensures
        r == (a@ == b@),
{
    if a.len() != b.len() {
        return false;
    }
    let mut i: usize = 0;
    while i < a.len()
        invariant
            a@.len() == b@.len(),
            i <= a@.len(),
            forall|j: int| 0 <= j < i ==> a@[j] == b@[j],
        decreases a@.len() - i,
    {
        if a[i] != b[i] {
            return false;
        }
        i = i + 1;
    }
    assert(a@ =~= b@);
    true
}

/// The value under the last entry whose key is the string object `key`.
pub open spec fn lookup_str(entries: Seq<(ValueModel, ValueModel)>, key: Seq<u8>) -> Option<
    ValueModel,
>
    decreases entries.len(),
{
    if entries.len() == 0 {
        None
    } else if entries.last().0 == ValueModel::Str(key) {
        Some(entries.last().1)
    } else {
        lookup_str(entries.drop_last(), key)
    }
}

/// The models of a sequence of values.
pub open spec fn views(s: Seq<Value>) -> Seq<ValueModel>
    decreases s,
{
    if s.len() == 0 {
        Seq::empty()
    } else {
        seq![value_view(s[0])] + views(s.drop_first())
    }
}

/// The models of a sequence of pairs of values.
pub open spec fn pair_views(s: Seq<(Value, Value)>) -> Seq<(ValueModel, ValueModel)>
    decreases s,
{
    if s.len() == 0 {
        Seq::empty()
    } else {
        seq![(value_view(s[0].0), value_view(s[0].1))] + pair_views(s.drop_first())
    }
}

/// The model of a value.
pub open spec fn value_view(v: Value) -> ValueModel
    decreases v,
{
    match v {
        Value::Nil => ValueModel::Nil,
        Value::Bool(b) => ValueModel::Bool(b),
        Value::Int(i) => ValueModel::Int(i@),
        Value::F32(b) => ValueModel::F32(b),
        Value::F64(b) => ValueModel::F64(b),
        Value::Str(s) => ValueModel::Str(s.0@),
        Value::Bin(b) => ValueModel::Bin(b.0@),
        Value::Array(items) => ValueModel::Array(views(items@)),
        Value::Pairs(entries) => ValueModel::Pairs(pair_views(entries@)),
        Value::Ext(e) => ValueModel::Ext(e.tag, e.data@),
    }
}

impl View for Value {
    type V = ValueModel;

    open spec fn view(&self) -> ValueModel {
        value_view(*self)
    }
}

/// The token a value starts with: the value itself for a scalar, the header for
/// an array or a map.
pub open spec fn head(m: ValueModel) -> TokenModel {
    match m {
        ValueModel::Nil => TokenModel::Nil,
        ValueModel::Bool(b) => TokenModel::Bool(b),
        ValueModel::Int(i) => TokenModel::Int(i),
        ValueModel::F32(b) => TokenModel::F32(b),
        ValueModel::F64(b) => TokenModel::F64(b),
        ValueModel::Str(d) => TokenModel::Str(d),
        ValueModel::Bin(d) => TokenModel::Bin(d),
        ValueModel::Array(items) => TokenModel::Array(items.len()),
        ValueModel::Pairs(entries) => TokenModel::Pairs(entries.len()),
        ValueModel::Ext(tag, d) => TokenModel::Ext(tag, d),
    }
}

/// The value a scalar token stands for.
pub open spec fn scalar(t: TokenModel) -> ValueModel {
    match t {
        TokenModel::Bool(b) => ValueModel::Bool(b),
        TokenModel::Int(i) => ValueModel::Int(i),
        TokenModel::F32(b) => ValueModel::F32(b),
        TokenModel::F64(b) => ValueModel::F64(b),
        TokenModel::Str(d) => ValueModel::Str(d),
        TokenModel::Bin(d) => ValueModel::Bin(d),
        TokenModel::Ext(tag, d) => ValueModel::Ext(tag, d),
        _ => ValueModel::Nil,
    }
}

/// Every length fits its 32-bit wire field and every integer fits an `Int`.
pub open spec fn value_wf(m: ValueModel) -> bool
    decreases m,
{
    match m {
        ValueModel::Array(items) => items.len() <= u32::MAX && values_wf(items),
        ValueModel::Pairs(entries) => entries.len() <= u32::MAX && pairs_wf(entries),
        _ => token_wf(head(m)),
    }
}

/// Each value of `s` is well formed.
pub open spec fn values_wf(s: Seq<ValueModel>) -> bool
    decreases s,
{
    s.len() > 0 ==> value_wf(s[0]) && values_wf(s.drop_first())
}

/// Each key and value of `s` is well formed.
pub open spec fn pairs_wf(s: Seq<(ValueModel, ValueModel)>) -> bool
    decreases s,
{
    s.len() > 0 ==> value_wf(s[0].0) && value_wf(s[0].1) && pairs_wf(s.drop_first())
}

/// The bytes a value is written as: its head token, then its elements, or its
/// keys and values alternating, each written the same way.
pub open spec fn enc_value(m: ValueModel) -> Seq<u8>
    decreases m,
{
    enc_token(head(m)) + match m {
        ValueModel::Array(items) => enc_values(items),
        ValueModel::Pairs(entries) => enc_pairs(entries),
        _ => Seq::empty(),
    }
}

/// The values of `s` written one after another.
pub open spec fn enc_values(s: Seq<ValueModel>) -> Seq<u8>
    decreases s,
{
    if s.len() == 0 {
        Seq::empty()
    } else {
        enc_value(s[0]) + enc_values(s.drop_first())
    }
}

/// The keys and values of `s` written alternating.
pub open spec fn enc_pairs(s: Seq<(ValueModel, ValueModel)>) -> Seq<u8>
    decreases s,
{
    if s.len() == 0 {
        Seq::empty()
    } else {
        enc_value(s[0].0) + enc_value(s[0].1) + enc_pairs(s.drop_first())
    }
}

/// The value at the start of `s` and the number of bytes it takes, or `None` when
/// `s` does not start with a complete value.
pub open spec fn parse_value(s: Seq<u8>) -> Option<(ValueModel, nat)>
    decreases s.len(), 0nat, 0nat,
{
    match parse_token(s) {
        None => None,
        Some((t, k)) => if k < 1 || k > s.len() {
            None
        } else {
            let after = s.subrange(k as int, s.len() as int);
            match t {
                TokenModel::Array(n) => match parse_values(after, n) {
                    Some((items, j)) => Some((ValueModel::Array(items), k + j)),
                    None => None,
                },
                TokenModel::Pairs(n) => match parse_pairs(after, n) {
                    Some((entries, j)) => Some((ValueModel::Pairs(entries), k + j)),
                    None => None,
                },
                _ => Some((scalar(t), k)),
            }
        },
    }
}

/// `count` values read one after another from the start of `s`, and the number
/// of bytes they take.
pub open spec fn parse_values(s: Seq<u8>, count: nat) -> Option<(Seq<ValueModel>, nat)>
    decreases s.len(), 1nat, count,
{
    if count == 0 {
        Some((Seq::empty(), 0))
    } else {
        match parse_value(s) {
            None => None,
            Some((v, k)) => if k > s.len() {
                None
            } else {
                match parse_values(s.subrange(k as int, s.len() as int), (count - 1) as nat) {
                    Some((vs, j)) => Some((seq![v] + vs, k + j)),
                    None => None,
                }
            },
        }
    }
}

/// `count` key-value pairs read from the start of `s`, and the number of bytes
/// they take.
pub open spec fn parse_pairs(s: Seq<u8>, count: nat) -> Option<(Seq<(ValueModel, ValueModel)>, nat)>
    decreases s.len(), 1nat, count,
{
    if count == 0 {
        Some((Seq::empty(), 0))
    } else {
        match parse_value(s) {
            None => None,
            Some((key, k)) => if k > s.len() {
                None
            } else {
                let s1 = s.subrange(k as int, s.len() as int);
                match parse_value(s1) {
                    None => None,
                    Some((val, j)) => if j > s1.len() {
                        None
                    } else {
                        match parse_pairs(s1.subrange(j as int, s1.len() as int), (count - 1) as nat) {
                            Some((ps, l)) => Some((seq![(key, val)] + ps, k + j + l)),
                            None => None,
                        }
                    },
                }
            },
        }
    }
}

/// Reading a well-formed value back from its encoding, followed by anything,
/// gives the value and consumes exactly its encoding.
pub proof fn lemma_value_round_trip(m: ValueModel, rest: Seq<u8>)
    requires
        value_wf(m),
    ensures
        parse_value(enc_value(m) + rest) == Some((m, enc_value(m).len())),
    decreases m,
{
    let t = head(m);
    let children = match m {
        ValueModel::Array(items) => enc_values(items),
        ValueModel::Pairs(entries) => enc_pairs(entries),
        _ => Seq::empty(),
    };
    let s = enc_value(m) + rest;
    assert(token_wf(t));
    lemma_token_round_trip(t, children + rest);
    assert(s =~= enc_token(t) + (children + rest));
    let k = enc_token(t).len();
    lemma_enc_token_nonempty(t);
    assert(s.subrange(k as int, s.len() as int) =~= children + rest);
    match m {
        ValueModel::Array(items) => {
            lemma_values_round_trip(items, rest);
        },
        ValueModel::Pairs(entries) => {
            lemma_pairs_round_trip(entries, rest);
        },
        _ => {
            assert(children =~= Seq::<u8>::empty());
        },
    }
}

/// Reading back values written one after another.
pub proof fn lemma_values_round_trip(s: Seq<ValueModel>, rest: Seq<u8>)
    requires
        values_wf(s),
    ensures
        parse_values(enc_values(s) + rest, s.len()) == Some((s, enc_values(s).len())),
    decreases s,
{
    if s.len() > 0 {
        let tail = s.drop_first();
        let b = enc_values(s) + rest;
        lemma_value_round_trip(s[0], enc_values(tail) + rest);
        assert(b =~= enc_value(s[0]) + (enc_values(tail) + rest));
        let k = enc_value(s[0]).len();
        assert(b.subrange(k as int, b.len() as int) =~= enc_values(tail) + rest);
        lemma_values_round_trip(tail, rest);
        assert(seq![s[0]] + tail =~= s);
    }
}

/// Reading back keys and values written alternating.
pub proof fn lemma_pairs_round_trip(s: Seq<(ValueModel, ValueModel)>, rest: Seq<u8>)
    requires
        pairs_wf(s),
    ensures
        parse_pairs(enc_pairs(s) + rest, s.len()) == Some((s, enc_pairs(s).len())),
    decreases s,
{
    if s.len() > 0 {
        let tail = s.drop_first();
        let b = enc_pairs(s) + rest;
        let kv = enc_value(s[0].0);
        let vv = enc_value(s[0].1);
        lemma_value_round_trip(s[0].0, vv + enc_pairs(tail) + rest);
        assert(b =~= kv + (vv + enc_pairs(tail) + rest));
        let b1 = b.subrange(kv.len() as int, b.len() as int);
        assert(b1 =~= vv + enc_pairs(tail) + rest);
        lemma_value_round_trip(s[0].1, enc_pairs(tail) + rest);
        assert(b1 =~= vv + (enc_pairs(tail) + rest));
        assert(b1.subrange(vv.len() as int, b1.len() as int) =~= enc_pairs(tail) + rest);
        lemma_pairs_round_trip(tail, rest);
        assert(seq![(s[0].0, s[0].1)] + tail =~= s);
    }
}

/// Every token is written as at least one byte.
pub proof fn lemma_enc_token_nonempty(t: TokenModel)
    ensures
        enc_token(t).len() >= 1,
{
}

/// `views` and `pair_views` keep lengths and go element by element.
pub proof fn lemma_views_index(s: Seq<Value>)
    ensures
        views(s).len() == s.len(),
        forall|i: int| 0 <= i < s.len() ==> #[trigger] views(s)[i] == s[i]@,
    decreases s.len(),
{
    if s.len() > 0 {
        lemma_views_index(s.drop_first());
        assert forall|i: int| 0 <= i < s.len() implies #[trigger] views(s)[i] == s[i]@ by {
            if i > 0 {
                assert(s.drop_first()[i - 1] == s[i]);
            }
        }
    }
}

/// See `lemma_views_index`.
pub proof fn lemma_pair_views_index(s: Seq<(Value, Value)>)
    ensures
        pair_views(s).len() == s.len(),
        forall|i: int|
            0 <= i < s.len() ==> #[trigger] pair_views(s)[i] == (s[i].0@, s[i].1@),
    decreases s.len(),
{
    if s.len() > 0 {
        lemma_pair_views_index(s.drop_first());
        assert forall|i: int| 0 <= i < s.len() implies #[trigger] pair_views(s)[i] == (
            s[i].0@,
            s[i].1@,
        ) by {
            if i > 0 {
                assert(s.drop_first()[i - 1] == s[i]);
            }
        }
    }
}

/// Appending a value appends its model.
pub proof fn lemma_views_push(s: Seq<Value>, x: Value)
    ensures
        views(s.push(x)) == views(s).push(x@),
{
    lemma_views_index(s.push(x));
    lemma_views_index(s);
    assert(views(s.push(x)) =~= views(s).push(x@));
}

/// Appending a pair appends its model.
pub proof fn lemma_pair_views_push(s: Seq<(Value, Value)>, x: (Value, Value))
    ensures
        pair_views(s.push(x)) == pair_views(s).push((x.0@, x.1@)),
{
    lemma_pair_views_index(s.push(x));
    lemma_pair_views_index(s);
    assert(pair_views(s.push(x)) =~= pair_views(s).push((x.0@, x.1@)));
}

/// Each element of a well-formed sequence is well formed.
pub proof fn lemma_values_wf_index(s: Seq<ValueModel>, i: int)
    requires
        values_wf(s),
        0 <= i < s.len(),
    ensures
        value_wf(s[i]),
    decreases s.len(),
{
    if i > 0 {
        lemma_values_wf_index(s.drop_first(), i - 1);
    }
}

/// Each key and value of a well-formed sequence of pairs is well formed.
pub proof fn lemma_pairs_wf_index(s: Seq<(ValueModel, ValueModel)>, i: int)
    requires
        pairs_wf(s),
        0 <= i < s.len(),
    ensures
        value_wf(s[i].0),
        value_wf(s[i].1),
    decreases s.len(),
{
    if i > 0 {
        lemma_pairs_wf_index(s.drop_first(), i - 1);
    }
}

/// A sequence whose values are each well formed is well formed.
pub proof fn lemma_values_wf_all(s: Seq<ValueModel>)
    requires
        forall|i: int| 0 <= i < s.len() ==> #[trigger] value_wf(s[i]),
    ensures
        values_wf(s),
    decreases s.len(),
{
    if s.len() > 0 {
        assert(value_wf(s[0]));
        assert forall|i: int| 0 <= i < s.drop_first().len() implies #[trigger] value_wf(
            s.drop_first()[i],
        ) by {
            assert(s.drop_first()[i] == s[i + 1]);
        }
        lemma_values_wf_all(s.drop_first());
    }
}

/// A sequence of pairs whose keys and values are each well formed is well formed.
pub proof fn lemma_pairs_wf_all(s: Seq<(ValueModel, ValueModel)>)
    requires
        forall|i: int| #![trigger s[i]] 0 <= i < s.len() ==> value_wf(s[i].0) && value_wf(s[i].1),
    ensures
        pairs_wf(s),
    decreases s.len(),
{
    if s.len() > 0 {
        assert(value_wf(s[0].0) && value_wf(s[0].1));
        assert forall|i: int| #![trigger s.drop_first()[i]] 0 <= i < s.drop_first().len() implies value_wf(
            s.drop_first()[i].0,
        ) && value_wf(s.drop_first()[i].1) by {
            assert(s.drop_first()[i] == s[i + 1]);
        }
        lemma_pairs_wf_all(s.drop_first());
    }
}

/// Writing one more value appends its encoding.
pub proof fn lemma_enc_values_push(s: Seq<ValueModel>, m: ValueModel)
    ensures
        enc_values(s.push(m)) == enc_values(s) + enc_value(m),
    decreases s.len(),
{
    if s.len() == 0 {
        assert(s.push(m).drop_first() =~= Seq::<ValueModel>::empty());
        assert(enc_values(s.push(m).drop_first()) == Seq::<u8>::empty());
        assert(enc_values(s.push(m)) =~= enc_values(s) + enc_value(m));
    } else {
        lemma_enc_values_push(s.drop_first(), m);
        assert(s.push(m).drop_first() =~= s.drop_first().push(m));
        assert(s.push(m)[0] == s[0]);
        assert(enc_values(s.push(m)) == enc_value(s[0]) + enc_values(s.drop_first().push(m)));
        assert(enc_values(s.push(m)) =~= enc_values(s) + enc_value(m));
    }
}

/// Writing one more pair appends its key's and value's encodings.
pub proof fn lemma_enc_pairs_push(s: Seq<(ValueModel, ValueModel)>, p: (ValueModel, ValueModel))
    ensures
        enc_pairs(s.push(p)) == enc_pairs(s) + enc_value(p.0) + enc_value(p.1),
    decreases s.len(),
{
    if s.len() == 0 {
        assert(s.push(p).drop_first() =~= Seq::<(ValueModel, ValueModel)>::empty());
        assert(enc_pairs(s.push(p).drop_first()) == Seq::<u8>::empty());
        assert(enc_pairs(s.push(p)) =~= enc_pairs(s) + enc_value(p.0) + enc_value(p.1));
    } else {
        lemma_enc_pairs_push(s.drop_first(), p);
        assert(s.push(p).drop_first() =~= s.drop_first().push(p));
        assert(s.push(p)[0] == s[0]);
        assert(enc_pairs(s.push(p)) == enc_value(s[0].0) + enc_value(s[0].1) + enc_pairs(
            s.drop_first().push(p),
        ));
        assert(enc_pairs(s.push(p)) =~= enc_pairs(s) + enc_value(p.0) + enc_value(p.1));
    }
}

/// Decoding a map keeps every entry in wire order, duplicate keys included;
/// only the lookup by key resolves duplicates, to the later entry.
pub proof fn law_duplicate_keys_kept(
    entries: Seq<(ValueModel, ValueModel)>,
    key: Seq<u8>,
    v: ValueModel,
    rest: Seq<u8>,
)
    requires
        value_wf(ValueModel::Pairs(entries.push((ValueModel::Str(key), v)))),
    ensures
        parse_value(enc_value(ValueModel::Pairs(entries.push((ValueModel::Str(key), v)))) + rest)
            == Some(
            (
                ValueModel::Pairs(entries.push((ValueModel::Str(key), v))),
                enc_value(ValueModel::Pairs(entries.push((ValueModel::Str(key), v)))).len(),
            ),
        ),
        lookup_str(entries.push((ValueModel::Str(key), v)), key) == Some(v),
{
    lemma_value_round_trip(ValueModel::Pairs(entries.push((ValueModel::Str(key), v))), rest);
    assert(entries.push((ValueModel::Str(key), v)).drop_last() =~= entries);
}

/// Writes `x` and reads the bytes back as a `Value`; `x` must write exactly
/// one complete object.
pub fn serialize<S: Serialize>(x: &S) -> (r: Value)
    requires
        x.encodable(),
        parse_value(x.encoded()) is Some,
    ensures
        parse_value(x.encoded()) matches Some((m, k)) && r@ == m,
{
    let buf = crate::codec::serialize(x);
    let mut d = Deserializer::new(buf.as_slice());
    match d.deserialize_value() {
        Ok(v) => v,
        Err(_) => Value::Nil,
    }
}

/// Writes `value` and reads a `D` from the bytes.
pub fn deserialize<D: Deserialize>(value: Value) -> (r: Result<D, DeserializeError>)
    requires
        value_wf(value@),
    ensures
        exists|k: int| D::reads(enc_value(value@), r, k),
{
    let buf = crate::codec::serialize(value);
    crate::codec::deserialize(buf.as_slice())
}

} // verus!
