use std::convert::TryFrom;
use msgpack_schema::value::{deserialize as deserialize_from_value, serialize as serialize_to_value};
use msgpack_schema::{
    deserialize, serialize, tagged_enum_value, tagged_struct_fields, tagged_struct_value,
    tuple_struct_fields, Any, Bin, DeserializeError, Deserializer, Ext, FieldDecl, Int,
    InvalidInputError, Nil, Serialize, Serializer, Str, Token, ValidationError, Value,
};

fn num(v: i64) -> Value {
    Value::Int(Int::from(v))
}

fn text(s: &str) -> Value {
    Value::Str(Str::from(s.to_owned()))
}

fn bytes_of(v: &Value) -> Vec<u8> {
    serialize(v)
}

fn value_of(b: &[u8]) -> Result<Value, DeserializeError> {
    deserialize(b)
}

struct Human {
    age: u32,
    name: String,
}

impl Serialize for Human {
    fn serialize(&self, serializer: &mut Serializer) {
        serializer.serialize_map(2);
        serializer.serialize(0u32);
        serializer.serialize(self.age);
        serializer.serialize(1u32);
        serializer.serialize(&self.name);
    }
}

fn check_serialize_result<T: Serialize>(x: T, v: Value) {
    let buf1 = serialize(&x);
    let buf2 = serialize(v);
    assert_eq!(buf1, buf2);
}

fn human_value() -> Value {
    Value::Pairs(vec![(num(0), num(42)), (num(1), text("John"))])
}

#[test]
fn deserialize_ignores_extra_bytes() {
    let input: Vec<u8> = vec![0x01, 0xc1];
    let v: Int = deserialize(&input).unwrap();
    assert_eq!(v, Int::from(1u32));
}

#[test]
fn tests_1_struct_vs_value() {
    check_serialize_result(Human { age: 42, name: "John".into() }, human_value());
}

#[test]
fn tests_1_box_vs_value() {
    check_serialize_result(Box::new(42i32), num(42));
}

#[test]
fn tests_1_rc_vs_value() {
    check_serialize_result(std::rc::Rc::new(42i32), num(42));
}

#[test]
fn tests_1_arc_vs_value() {
    check_serialize_result(std::sync::Arc::new(42i32), num(42));
}

#[test]
fn lib_struct_vs_value() {
    check_serialize_result(Human { age: 42, name: "John".into() }, human_value());
}

#[test]
fn lib_box_vs_value() {
    check_serialize_result(Box::new(42i32), num(42));
}

#[test]
fn lib_rc_vs_value() {
    check_serialize_result(std::rc::Rc::new(42i32), num(42));
}

#[test]
fn lib_arc_vs_value() {
    check_serialize_result(std::sync::Arc::new(42i32), num(42));
}

#[test]
fn lib_roundtrip_int() {
    assert_eq!(i64::MAX, Int::from(i64::MAX).try_into_i64().unwrap());
    assert_eq!(i64::MIN, Int::from(i64::MIN).try_into_i64().unwrap());
    assert_eq!(u64::MAX, Int::from(u64::MAX).try_into_u64().unwrap());
    assert_eq!(u64::MIN, Int::from(u64::MIN).try_into_u64().unwrap());
}

#[test]
fn tests_roundtrip_int() {
    assert_eq!(i64::MAX, Int::from(i64::MAX).try_into_i64().unwrap());
    assert_eq!(i64::MIN, Int::from(i64::MIN).try_into_i64().unwrap());
    assert_eq!(u64::MAX, Int::from(u64::MAX).try_into_u64().unwrap());
    assert_eq!(u64::MIN, Int::from(u64::MIN).try_into_u64().unwrap());
}

fn index_sample() -> Value {
    Value::Pairs(vec![
        (num(0), num(1)),
        (text("foo"), text("bar")),
        (text("foo"), text("baz")),
    ])
}

#[test]
fn lib_test_index() {
    let v = index_sample();
    let k = v.index_str(b"foo").unwrap();
    assert_eq!(k.as_str().unwrap().as_bytes(), "baz".as_bytes());

    let v = Value::Array(vec![text("foo"), text("bar"), text("baz")]);
    let k = v.index_at(1).unwrap();
    assert_eq!(k.as_str().unwrap().as_bytes(), "bar".as_bytes());
}

#[test]
fn tests_test_index() {
    let v = index_sample();
    let k = v.index_str(b"foo").unwrap();
    assert_eq!(k.as_str().unwrap().as_bytes(), "baz".as_bytes());

    let v = Value::Array(vec![text("foo"), text("bar"), text("baz")]);
    let k = v.index_at(1).unwrap();
    assert_eq!(k.as_str().unwrap().as_bytes(), "bar".as_bytes());
}

#[test]
fn index_misses_are_none() {
    assert!(Value::Array(vec![]).index_str(b"foo").is_none());
    assert!(Value::Array(vec![]).index_at(0).is_none());
    let v = Value::Pairs(vec![(text("foo"), text("bar"))]);
    assert!(v.index_str(b"baz").is_none());
}

// Round trip of values of every kind, nested, through the bytes.
#[test]
fn value_round_trip_all_kinds() {
    let v = Value::Array(vec![
        Value::Nil,
        Value::Bool(true),
        Value::Bool(false),
        num(0),
        num(-1),
        num(-33),
        num(127),
        num(128),
        num(300),
        num(70_000),
        num(-40_000),
        num(-3_000_000_000),
        num(5_000_000_000),
        num(i64::MIN),
        Value::Int(Int::from(u64::MAX)),
        Value::F32(0x4048_f5c3),
        Value::F64(0x4009_21fb_5444_2d18),
        text("hello"),
        Value::Str(Str(vec![0xff, 0xfe])),
        Value::Bin(Bin(vec![0xde, 0xad, 0xbe, 0xef])),
        Value::Ext(Ext { tag: -5, data: vec![1, 2, 3] }),
        Value::Ext(Ext { tag: 7, data: vec![9] }),
        Value::Pairs(vec![(num(1), Value::Array(vec![])), (Value::Nil, text("x"))]),
        Value::Str(Str(vec![b'a'; 40])),
        Value::Bin(Bin(vec![7; 300])),
        Value::Array((0..20).map(num).collect()),
    ]);
    let b = bytes_of(&v);
    assert_eq!(value_of(&b).unwrap(), v);
}

#[test]
fn value_duplicate_keys_kept() {
    let bytes = vec![0x82, 0xa1, b'k', 0x01, 0xa1, b'k', 0x02];
    let v = value_of(&bytes).unwrap();
    assert_eq!(v, Value::Pairs(vec![(text("k"), num(1)), (text("k"), num(2))]));
    assert_eq!(v.index_str(b"k"), Some(&num(2)));
    assert_eq!(bytes_of(&v), bytes);
}

#[test]
fn int_encodings_are_narrowest() {
    assert_eq!(bytes_of(&num(5)), vec![0x05]);
    assert_eq!(bytes_of(&num(-1)), vec![0xff]);
    assert_eq!(bytes_of(&num(-32)), vec![0xe0]);
    assert_eq!(bytes_of(&num(-33)), vec![0xd0, 0xdf]);
    assert_eq!(bytes_of(&num(200)), vec![0xcc, 0xc8]);
    assert_eq!(bytes_of(&num(0x1234)), vec![0xcd, 0x12, 0x34]);
    assert_eq!(bytes_of(&num(-200)), vec![0xd1, 0xff, 0x38]);
    assert_eq!(bytes_of(&num(0x1_0000)), vec![0xce, 0x00, 0x01, 0x00, 0x00]);
    assert_eq!(
        bytes_of(&Value::Int(Int::from(u64::MAX))),
        vec![0xcf, 0xff, 0xff, 0xff, 0xff, 0xff, 0xff, 0xff, 0xff]
    );
    assert_eq!(
        bytes_of(&num(i64::MIN)),
        vec![0xd3, 0x80, 0, 0, 0, 0, 0, 0, 0]
    );
}

#[test]
fn container_and_blob_headers() {
    assert_eq!(bytes_of(&text("hello")), vec![0xa5, b'h', b'e', b'l', b'l', b'o']);
    assert_eq!(bytes_of(&Value::Str(Str(vec![b'a'; 32])))[..2], [0xd9, 32]);
    assert_eq!(bytes_of(&Value::Str(Str(vec![b'a'; 256])))[..3], [0xda, 1, 0]);
    assert_eq!(bytes_of(&Value::Bin(Bin(vec![1, 2]))), vec![0xc4, 2, 1, 2]);
    assert_eq!(bytes_of(&Value::Array(vec![])), vec![0x90]);
    assert_eq!(bytes_of(&Value::Array((0..16).map(|_| Value::Nil).collect()))[..3], [0xdc, 0, 16]);
    assert_eq!(bytes_of(&Value::Pairs(vec![])), vec![0x80]);
    assert_eq!(bytes_of(&Value::Ext(Ext { tag: 1, data: vec![9] })), vec![0xd4, 1, 9]);
    assert_eq!(bytes_of(&Value::Ext(Ext { tag: -1, data: vec![9, 9, 9] })), vec![0xc7, 3, 0xff, 9, 9, 9]);
    assert_eq!(bytes_of(&Value::F32(0x3f80_0000)), vec![0xca, 0x3f, 0x80, 0, 0]);
    assert_eq!(bytes_of(&Value::Nil), vec![0xc0]);
    assert_eq!(bytes_of(&Value::Bool(true)), vec![0xc3]);
}

#[test]
fn tagged_struct_wire_example() {
    let v = Value::Pairs(vec![(num(0), num(42)), (num(1), text("hello"))]);
    assert_eq!(
        bytes_of(&v),
        vec![0x82, 0x00, 0x2a, 0x01, 0xa5, 0x68, 0x65, 0x6c, 0x6c, 0x6f]
    );
}

#[test]
fn malformed_input_is_invalid_input() {
    assert_eq!(value_of(&[]), Err(DeserializeError::InvalidInput(InvalidInputError)));
    assert_eq!(value_of(&[0xc1]), Err(DeserializeError::InvalidInput(InvalidInputError)));
    assert_eq!(value_of(&[0xa3, b'a']), Err(DeserializeError::InvalidInput(InvalidInputError)));
    assert_eq!(value_of(&[0x92, 0x01]), Err(DeserializeError::InvalidInput(InvalidInputError)));
    assert_eq!(value_of(&[0xcd, 0x01]), Err(DeserializeError::InvalidInput(InvalidInputError)));
}

#[test]
fn token_reader_reads_headers_only() {
    let bytes = vec![0x92, 0x01, 0xa1, b'x'];
    let mut d = Deserializer::new(&bytes);
    assert_eq!(d.deserialize_token(), Ok(Token::Array(2)));
    assert_eq!(d.deserialize_token(), Ok(Token::Int(Int::from(1u32))));
    assert_eq!(d.deserialize_token(), Ok(Token::Str(vec![b'x'])));
    assert_eq!(d.deserialize_token(), Err(InvalidInputError));
}

#[test]
fn any_skips_one_nested_object() {
    let bytes = vec![0x82, 0x01, 0x92, 0x02, 0x03, 0x04, 0x81, 0xc0, 0xc3, 0x2a];
    let mut d = Deserializer::new(&bytes);
    let _: Any = d.deserialize().unwrap();
    assert_eq!(d.pos, 9);
    let n: u32 = d.deserialize().unwrap();
    assert_eq!(n, 42);
}

#[test]
fn try_deserialize_restores_cursor() {
    let bytes = vec![0xa1, b'x'];
    let mut d = Deserializer::new(&bytes);
    assert_eq!(d.try_deserialize::<u32>(), Ok(None));
    assert_eq!(d.pos, 0);
    assert_eq!(d.try_deserialize::<String>(), Ok(Some("x".to_owned())));
    assert_eq!(d.pos, 2);
    let bad = vec![0xc1];
    let mut d = Deserializer::new(&bad);
    assert_eq!(d.try_deserialize::<u32>(), Err(InvalidInputError));
}

#[test]
fn int_out_of_range_errors() {
    assert!(Int::from(u64::MAX).try_into_i64().is_err());
    assert!(Int::from(-1i64).try_into_u64().is_err());
    assert_eq!(Int::from(300u32).try_into_u8().ok(), None);
    assert_eq!(Int::from(-129i32).try_into_i8().ok(), None);
    assert_eq!(Int::from(-128i32).try_into_i8().ok(), Some(-128));
    let b = bytes_of(&Value::Int(Int::from(u64::MAX)));
    assert_eq!(
        deserialize::<i64>(&b),
        Err(DeserializeError::Validation(ValidationError::IntegerOutOfRange))
    );
    assert_eq!(
        deserialize::<u8>(&[0xcd, 0x01, 0x00]),
        Err(DeserializeError::Validation(ValidationError::IntegerOutOfRange))
    );
}

#[test]
fn primitive_round_trips() {
    for v in [i64::MIN, -1, 0, 1, i64::MAX] {
        assert_eq!(deserialize::<i64>(&serialize(v)).unwrap(), v);
    }
    for v in [0u64, 255, 65_536, u64::MAX] {
        assert_eq!(deserialize::<u64>(&serialize(v)).unwrap(), v);
    }
    assert!(deserialize::<bool>(&serialize(true)).unwrap());
    assert_eq!(deserialize::<String>(&serialize("héllo".to_owned())).unwrap(), "héllo");
    assert_eq!(deserialize::<Vec<i32>>(&serialize(vec![1i32, -2, 3])).unwrap(), vec![1, -2, 3]);
    assert_eq!(*deserialize::<Box<i32>>(&serialize(Box::new(7i32))).unwrap(), 7);
    assert_eq!(deserialize::<Nil>(&serialize(Nil)).unwrap(), Nil);
}

#[test]
fn text_decoding_errors() {
    assert_eq!(
        deserialize::<String>(&[0xa2, 0xff, 0xfe]),
        Err(DeserializeError::Validation(ValidationError::InvalidUtf8))
    );
    assert_eq!(
        deserialize::<String>(&[0x01]),
        Err(DeserializeError::Validation(ValidationError::InvalidType))
    );
    assert_eq!(
        deserialize::<bool>(&[0xc0]),
        Err(DeserializeError::Validation(ValidationError::InvalidType))
    );
}

fn age_name_decls() -> Vec<FieldDecl> {
    vec![FieldDecl { tag: 0, optional: false }, FieldDecl { tag: 1, optional: true }]
}

#[test]
fn optional_field_omitted() {
    let some = tagged_struct_value(vec![(0, Some(num(42))), (1, Some(text("John")))]);
    assert_eq!(bytes_of(&some)[0], 0x82);
    let none = tagged_struct_value(vec![(0, Some(num(42))), (1, None)]);
    assert_eq!(bytes_of(&none), vec![0x81, 0x00, 0x2a]);
    let fields = tagged_struct_fields(none, &age_name_decls()).unwrap();
    assert_eq!(fields, vec![Some(num(42)), None]);
}

#[test]
fn unknown_keys_ignored() {
    let plain = Value::Pairs(vec![(num(0), num(42))]);
    let with_scalar = Value::Pairs(vec![(num(0), num(42)), (num(9), Value::Bool(true))]);
    let with_nested = Value::Pairs(vec![
        (num(9), Value::Array(vec![Value::Pairs(vec![(Value::Nil, num(1))])])),
        (num(0), num(42)),
    ]);
    let expected = tagged_struct_fields(plain, &age_name_decls()).unwrap();
    assert_eq!(tagged_struct_fields(with_scalar, &age_name_decls()).unwrap(), expected);
    assert_eq!(tagged_struct_fields(with_nested, &age_name_decls()).unwrap(), expected);
}

#[test]
fn duplicate_tag_rejected() {
    let first = Value::Pairs(vec![(num(0), num(42)), (num(0), num(43))]);
    let second = Value::Pairs(vec![(num(1), text("a")), (num(0), num(42)), (num(1), text("b"))]);
    assert_eq!(
        tagged_struct_fields(first, &age_name_decls()),
        Err(ValidationError::DuplicatedField)
    );
    assert_eq!(
        tagged_struct_fields(second, &age_name_decls()),
        Err(ValidationError::DuplicatedField)
    );
}

#[test]
fn struct_shape_errors() {
    assert_eq!(
        tagged_struct_fields(Value::Pairs(vec![(num(1), text("a"))]), &age_name_decls()),
        Err(ValidationError::MissingField)
    );
    assert_eq!(
        tagged_struct_fields(num(3), &age_name_decls()),
        Err(ValidationError::InvalidType)
    );
    assert_eq!(
        tagged_struct_fields(Value::Pairs(vec![(text("x"), num(1))]), &age_name_decls()),
        Err(ValidationError::InvalidType)
    );
    assert_eq!(
        tagged_struct_fields(Value::Pairs(vec![(num(-1), num(1))]), &age_name_decls()),
        Err(ValidationError::IntegerOutOfRange)
    );
}

#[test]
fn untagged_struct_arity() {
    let v = Value::Array(vec![num(42), text("hello")]);
    assert_eq!(bytes_of(&v)[0], 0x92);
    assert_eq!(tuple_struct_fields(v, 2).unwrap(), vec![num(42), text("hello")]);
    assert_eq!(
        tuple_struct_fields(Value::Array(vec![num(42)]), 2),
        Err(ValidationError::InvalidLength)
    );
    assert_eq!(
        tuple_struct_fields(Value::Array(vec![num(42), text("a"), Value::Nil]), 2),
        Err(ValidationError::InvalidLength)
    );
    assert_eq!(tuple_struct_fields(num(1), 2), Err(ValidationError::InvalidType));
}

#[test]
fn enum_tag_shapes() {
    assert_eq!(bytes_of(&tagged_enum_value(3, None)), vec![0x03]);
    assert_eq!(bytes_of(&tagged_enum_value(3, Some(num(42)))), vec![0x92, 0x03, 0x2a]);
}

#[test]
fn value_bridge_helpers() {
    let v = serialize_to_value(&vec![1u32, 2]);
    assert_eq!(v, Value::Array(vec![num(1), num(2)]));
    let back: Vec<u32> = deserialize_from_value(v).unwrap();
    assert_eq!(back, vec![1, 2]);
}

#[test]
fn try_from_conversions() {
    assert_eq!(u8::try_from(Int::from(255u32)), Ok(255u8));
    assert!(u8::try_from(Int::from(256u32)).is_err());
    assert_eq!(i64::try_from(Int::from(-5i32)), Ok(-5i64));
    assert_eq!(bool::try_from(Value::Bool(true)), Ok(true));
    assert!(bool::try_from(Value::Nil).is_err());
    assert_eq!(Vec::<Value>::try_from(Value::Array(vec![num(1)])), Ok(vec![num(1)]));
    assert_eq!(Int::try_from(num(7)), Ok(Int::from(7u8)));
}

#[test]
fn kind_getters() {
    let mut v = text("ab");
    assert!(v.is_str() && !v.is_int() && !v.is_nil());
    v.as_str_mut().unwrap().0.push(b'c');
    assert_eq!(v, text("abc"));
    assert!(v.as_bin_mut().is_none());
    let mut a = Value::Array(vec![]);
    a.as_array_mut().unwrap().push(Value::Nil);
    assert_eq!(a.as_array().unwrap().len(), 1);
    assert_eq!(num(3).as_int(), Some(Int::from(3u8)));
    assert_eq!(Value::F64(7).as_f64(), Some(7));
    assert!(Value::Pairs(vec![]).is_map());
}

#[test]
fn encodability_check() {
    let v = Value::Array(vec![text("a"), Value::Pairs(vec![(num(1), Value::Bin(Bin(vec![1])))])]);
    assert!(v.is_encodable());
    assert!(Value::Nil.is_encodable());
}

#[test]
fn sequence_and_pointer_round_trips() {
    let v = vec![1i32, -2, 300, i32::MIN];
    assert_eq!(deserialize::<Vec<i32>>(&serialize(&v)).unwrap(), v);
    let empty: Vec<i32> = vec![];
    assert_eq!(deserialize::<Vec<i32>>(&serialize(&empty)).unwrap(), empty);
    assert_eq!(*deserialize::<Box<i32>>(&serialize(Box::new(-9i32))).unwrap(), -9);
    assert_eq!(*deserialize::<std::rc::Rc<i32>>(&serialize(std::rc::Rc::new(5i32))).unwrap(), 5);
    assert_eq!(*deserialize::<std::sync::Arc<i32>>(&serialize(std::sync::Arc::new(6i32))).unwrap(), 6);
}

#[test]
fn sequence_reader_errors() {
    assert_eq!(
        deserialize::<Vec<i32>>(&[0xdd, 0xff, 0xff, 0xff, 0xff]),
        Err(DeserializeError::InvalidInput(InvalidInputError))
    );
    assert_eq!(
        deserialize::<Vec<i32>>(&[0x01]),
        Err(DeserializeError::Validation(ValidationError::InvalidType))
    );
    assert_eq!(
        deserialize::<Vec<u8>>(&[0x92, 0x01, 0xcd, 0x01, 0x00]),
        Err(DeserializeError::Validation(ValidationError::IntegerOutOfRange))
    );
    assert_eq!(deserialize::<Vec<i32>>(&[]), Err(DeserializeError::InvalidInput(InvalidInputError)));
}

#[test]
fn value_clone_is_deep() {
    let v = Value::Pairs(vec![(text("k"), Value::Array(vec![num(1), Value::Bin(Bin(vec![2]))]))]);
    let mut c = v.clone();
    assert_eq!(c, v);
    c.as_map_mut().unwrap().push((Value::Nil, Value::Nil));
    assert_ne!(c, v);
}
