use msgpack_schema::value::{deserialize as deserialize_from_value, serialize as serialize_to_value};
use msgpack_schema::{
    tagged_enum_value, tagged_enum_variant, tagged_struct_fields, tagged_struct_value,
    tuple_struct_fields, Deserialize, DeserializeError, Deserializer, Empty, FieldDecl, Int,
    Serialize, Serializer, Str, ValidationError, Value, VariantDecl,
};

fn num(v: i64) -> Value {
    Value::Int(Int::from(v))
}

fn text(s: &str) -> Value {
    Value::Str(Str::from(s.to_owned()))
}

fn write_value(serializer: &mut Serializer, v: Value) {
    serializer.serialize_value(&v);
}

fn required<D: Deserialize>(slot: Option<Value>) -> Result<D, DeserializeError> {
    deserialize_from_value(slot.unwrap())
}

fn optional<D: Deserialize>(slot: Option<Value>) -> Result<Option<D>, DeserializeError> {
    match slot {
        Some(v) => Ok(Some(deserialize_from_value(v)?)),
        None => Ok(None),
    }
}

fn validation(e: ValidationError) -> DeserializeError {
    DeserializeError::Validation(e)
}

// A tagged struct: age under tag 0, name under tag 2.
#[derive(Debug, PartialEq, Eq)]
struct Human {
    age: u32,
    name: String,
}

impl Serialize for Human {
    fn serialize(&self, serializer: &mut Serializer) {
        let v = tagged_struct_value(vec![
            (0, Some(Value::from(self.age))),
            (2, Some(Value::from(self.name.clone()))),
        ]);
        write_value(serializer, v);
    }
}

impl Deserialize for Human {
    fn deserialize(deserializer: &mut Deserializer) -> Result<Self, DeserializeError> {
        let v = deserializer.deserialize_value()?;
        let decls = vec![
            FieldDecl { tag: 0, optional: false },
            FieldDecl { tag: 2, optional: false },
        ];
        let mut slots = tagged_struct_fields(v, &decls).map_err(validation)?;
        let name = required(slots.pop().unwrap())?;
        let age = required(slots.pop().unwrap())?;
        Ok(Human { age, name })
    }
}

// A tagged struct with an optional field: age under tag 0, name under tag 2.
#[derive(Debug, PartialEq, Eq)]
struct OptHuman {
    age: u32,
    name: Option<String>,
}

impl Serialize for OptHuman {
    fn serialize(&self, serializer: &mut Serializer) {
        let v = tagged_struct_value(vec![
            (0, Some(Value::from(self.age))),
            (2, self.name.clone().map(Value::from)),
        ]);
        write_value(serializer, v);
    }
}

impl Deserialize for OptHuman {
    fn deserialize(deserializer: &mut Deserializer) -> Result<Self, DeserializeError> {
        let v = deserializer.deserialize_value()?;
        let decls = vec![
            FieldDecl { tag: 0, optional: false },
            FieldDecl { tag: 2, optional: true },
        ];
        let mut slots = tagged_struct_fields(v, &decls).map_err(validation)?;
        let name = optional(slots.pop().unwrap())?;
        let age = required(slots.pop().unwrap())?;
        Ok(OptHuman { age, name })
    }
}

// An untagged struct: name, then age.
#[derive(Debug, PartialEq, Eq)]
struct UntaggedHuman {
    name: String,
    age: u32,
}

impl Serialize for UntaggedHuman {
    fn serialize(&self, serializer: &mut Serializer) {
        write_value(
            serializer,
            Value::Array(vec![Value::from(self.name.clone()), Value::from(self.age)]),
        );
    }
}

impl Deserialize for UntaggedHuman {
    fn deserialize(deserializer: &mut Deserializer) -> Result<Self, DeserializeError> {
        let v = deserializer.deserialize_value()?;
        let mut items = tuple_struct_fields(v, 2).map_err(validation)?;
        let age = deserialize_from_value(items.pop().unwrap())?;
        let name = deserialize_from_value(items.pop().unwrap())?;
        Ok(UntaggedHuman { name, age })
    }
}

// A newtype struct: the inner value alone.
#[derive(Debug, PartialEq, Eq)]
struct Newtype(u32);

impl Serialize for Newtype {
    fn serialize(&self, serializer: &mut Serializer) {
        self.0.serialize(serializer)
    }
}

impl Deserialize for Newtype {
    fn deserialize(deserializer: &mut Deserializer) -> Result<Self, DeserializeError> {
        Ok(Newtype(deserializer.deserialize()?))
    }
}

// A tuple struct of a u32 and a string.
#[derive(Debug, PartialEq, Eq)]
struct Pair(u32, String);

impl Serialize for Pair {
    fn serialize(&self, serializer: &mut Serializer) {
        write_value(
            serializer,
            Value::Array(vec![Value::from(self.0), Value::from(self.1.clone())]),
        );
    }
}

impl Deserialize for Pair {
    fn deserialize(deserializer: &mut Deserializer) -> Result<Self, DeserializeError> {
        let v = deserializer.deserialize_value()?;
        let mut items = tuple_struct_fields(v, 2).map_err(validation)?;
        let b = deserialize_from_value(items.pop().unwrap())?;
        let a = deserialize_from_value(items.pop().unwrap())?;
        Ok(Pair(a, b))
    }
}

// A tuple struct of a u32 and a bool.
#[derive(Debug, PartialEq, Eq)]
struct Flagged(u32, bool);

impl Deserialize for Flagged {
    fn deserialize(deserializer: &mut Deserializer) -> Result<Self, DeserializeError> {
        let v = deserializer.deserialize_value()?;
        let mut items = tuple_struct_fields(v, 2).map_err(validation)?;
        let b = deserialize_from_value(items.pop().unwrap())?;
        let a = deserialize_from_value(items.pop().unwrap())?;
        Ok(Flagged(a, b))
    }
}

// A tagged enum with one unit variant under tag 2.
#[derive(Debug, PartialEq, Eq)]
enum UnitAnimal {
    Dog,
}

impl Serialize for UnitAnimal {
    fn serialize(&self, serializer: &mut Serializer) {
        match self {
            UnitAnimal::Dog => write_value(serializer, tagged_enum_value(2, None)),
        }
    }
}

impl Deserialize for UnitAnimal {
    fn deserialize(deserializer: &mut Deserializer) -> Result<Self, DeserializeError> {
        let v = deserializer.deserialize_value()?;
        let decls = vec![VariantDecl { tag: 2, has_payload: false }];
        match tagged_enum_variant(v, &decls).map_err(validation)? {
            (0, _) => Ok(UnitAnimal::Dog),
            _ => Err(validation(ValidationError::UnknownVariant)),
        }
    }
}

// A tagged enum: Cat(String) under 1, Dog(u32) under 2, Bird under 3.
#[derive(Debug, PartialEq, Eq)]
enum Animal {
    Cat(String),
    Dog(u32),
    Bird,
}

impl Serialize for Animal {
    fn serialize(&self, serializer: &mut Serializer) {
        let v = match self {
            Animal::Cat(s) => tagged_enum_value(1, Some(Value::from(s.clone()))),
            Animal::Dog(n) => tagged_enum_value(2, Some(Value::from(*n))),
            Animal::Bird => tagged_enum_value(3, None),
        };
        write_value(serializer, v);
    }
}

impl Deserialize for Animal {
    fn deserialize(deserializer: &mut Deserializer) -> Result<Self, DeserializeError> {
        let v = deserializer.deserialize_value()?;
        let decls = vec![
            VariantDecl { tag: 1, has_payload: true },
            VariantDecl { tag: 2, has_payload: true },
            VariantDecl { tag: 3, has_payload: false },
        ];
        match tagged_enum_variant(v, &decls).map_err(validation)? {
            (0, Some(p)) => Ok(Animal::Cat(deserialize_from_value(p)?)),
            (1, Some(p)) => Ok(Animal::Dog(deserialize_from_value(p)?)),
            (2, None) => Ok(Animal::Bird),
            _ => Err(validation(ValidationError::UnknownVariant)),
        }
    }
}

// An untagged enum, tried in declaration order: Cat(String), then Dog(u32).
#[derive(Debug, PartialEq, Eq)]
enum Untagged {
    Cat(String),
    Dog(u32),
}

impl Serialize for Untagged {
    fn serialize(&self, serializer: &mut Serializer) {
        match self {
            Untagged::Cat(s) => s.serialize(serializer),
            Untagged::Dog(n) => n.serialize(serializer),
        }
    }
}

impl Deserialize for Untagged {
    fn deserialize(deserializer: &mut Deserializer) -> Result<Self, DeserializeError> {
        if let Some(s) = deserializer.try_deserialize::<String>()? {
            return Ok(Untagged::Cat(s));
        }
        if let Some(n) = deserializer.try_deserialize::<u32>()? {
            return Ok(Untagged::Dog(n));
        }
        Err(validation(ValidationError::UnknownVariant))
    }
}

// Flatten: S1 holds x under tag 1; S2 holds x under tag 2 and S1's fields.
#[derive(Debug, PartialEq, Eq)]
struct S1 {
    x: u32,
}

#[derive(Debug, PartialEq, Eq)]
struct S2 {
    x: u32,
    s1: S1,
}

impl S1 {
    fn entries(&self) -> Vec<(u32, Option<Value>)> {
        vec![(1, Some(Value::from(self.x)))]
    }

    fn decls() -> Vec<FieldDecl> {
        vec![FieldDecl { tag: 1, optional: false }]
    }
}

impl Serialize for S2 {
    fn serialize(&self, serializer: &mut Serializer) {
        let mut fields = vec![(2, Some(Value::from(self.x)))];
        fields.extend(self.s1.entries());
        write_value(serializer, tagged_struct_value(fields));
    }
}

impl Deserialize for S2 {
    fn deserialize(deserializer: &mut Deserializer) -> Result<Self, DeserializeError> {
        let v = deserializer.deserialize_value()?;
        let mut decls = vec![FieldDecl { tag: 2, optional: false }];
        decls.extend(S1::decls());
        let mut slots = tagged_struct_fields(v, &decls).map_err(validation)?;
        let inner_x = required(slots.pop().unwrap())?;
        let x = required(slots.pop().unwrap())?;
        Ok(S2 { x, s1: S1 { x: inner_x } })
    }
}

fn human_map() -> Value {
    Value::Pairs(vec![(num(0), num(42)), (num(2), text("John"))])
}

#[test]
fn serialize_struct_tag() {
    let val = Human { age: 42, name: "John".into() };
    assert_eq!(serialize_to_value(&val), human_map());
}

#[test]
fn deserialize_struct_tag() {
    let val = human_map();
    assert_eq!(
        Human { age: 42, name: "John".into() },
        deserialize_from_value(val).unwrap()
    );
}

#[test]
fn struct_tag_roundtrip() {
    let val = Human { age: 42, name: "John".into() };
    assert_eq!(val, deserialize_from_value(serialize_to_value(&val)).unwrap());

    let val = human_map();
    assert_eq!(
        val,
        serialize_to_value(&deserialize_from_value::<Human>(human_map()).unwrap())
    );
}

#[test]
fn error_duplicate_tags() {
    let val = Value::Pairs(vec![
        (num(0), num(42)),
        (num(0), num(43)),
        (num(2), text("John")),
    ]);
    assert!(deserialize_from_value::<Human>(val).is_err());
}

#[test]
fn serialize_struct_optional() {
    let val = OptHuman { age: 42, name: Some("John".into()) };
    assert_eq!(serialize_to_value(&val), human_map());

    let val = OptHuman { age: 42, name: None };
    assert_eq!(serialize_to_value(&val), Value::Pairs(vec![(num(0), num(42))]));
}

#[test]
fn deserialize_struct_optional() {
    assert_eq!(
        OptHuman { age: 42, name: Some("John".into()) },
        deserialize_from_value(human_map()).unwrap()
    );

    let val = Value::Pairs(vec![(num(0), num(42))]);
    assert_eq!(OptHuman { age: 42, name: None }, deserialize_from_value(val).unwrap());
}

#[test]
fn serialize_unit_variants() {
    assert_eq!(serialize_to_value(&UnitAnimal::Dog), num(2));
}

#[test]
fn deserialize_unit_variants() {
    assert_eq!(UnitAnimal::Dog, deserialize_from_value(num(2)).unwrap());
}

#[test]
fn serialize_newtype_struct() {
    assert_eq!(serialize_to_value(&Newtype(42)), num(42));
}

#[test]
fn deserialize_newtype_struct() {
    assert_eq!(Newtype(42), deserialize_from_value(num(42)).unwrap());
}

#[test]
fn serialize_empty_tuple_variants() {
    assert_eq!(serialize_to_value(&UnitAnimal::Dog), num(2));
}

#[test]
fn deserialize_empty_tuple_variants() {
    assert_eq!(UnitAnimal::Dog, deserialize_from_value(num(2)).unwrap());
}

#[test]
fn serialize_tuple_variants() {
    assert_eq!(
        serialize_to_value(&Animal::Cat("hello".to_owned())),
        Value::Array(vec![1.into(), "hello".to_owned().into()])
    );
    assert_eq!(
        serialize_to_value(&Animal::Dog(42u32)),
        Value::Array(vec![2.into(), 42u32.into()])
    );
}

#[test]
fn deserialize_tuple_variants() {
    assert_eq!(Animal::Bird, deserialize_from_value(num(3)).unwrap());
    assert!(deserialize_from_value::<Animal>(num(1)).is_err());
    assert!(deserialize_from_value::<Animal>(num(10)).is_err());

    let val = Value::Array(vec![1.into(), 42u32.into()]);
    assert!(deserialize_from_value::<Animal>(val).is_err());

    let val = Value::Array(vec![1.into(), "hello".to_owned().into()]);
    assert_eq!(Animal::Cat("hello".to_owned()), deserialize_from_value(val).unwrap());
}

#[test]
fn serialize_untagged_enum() {
    assert_eq!(serialize_to_value(&Untagged::Dog(3)), num(3));
    assert_eq!(serialize_to_value(&Untagged::Cat("hello".to_owned())), text("hello"));
}

#[test]
fn deserialize_untagged_enum() {
    assert_eq!(Untagged::Dog(3), deserialize_from_value(num(3)).unwrap());
    assert_eq!(
        Untagged::Cat("hello".to_owned()),
        deserialize_from_value::<Untagged>(text("hello")).unwrap()
    );
    assert!(deserialize_from_value::<Untagged>(num(-10)).is_err());
}

#[test]
fn serialize_untagged_struct() {
    let val = UntaggedHuman { name: "John".to_string(), age: 42 };
    assert_eq!(serialize_to_value(&val), Value::Array(vec![text("John"), num(42)]));
}

#[test]
fn deserialize_untagged_struct() {
    let val = Value::Array(vec![text("John"), num(42)]);
    assert_eq!(
        UntaggedHuman { name: "John".to_string(), age: 42 },
        deserialize_from_value(val).unwrap()
    );

    let val = Value::Array(vec![text("John"), num(42), Value::Nil]);
    assert!(deserialize_from_value::<UntaggedHuman>(val).is_err());
}

#[test]
fn serialize_struct_tag_schema() {
    let val = Human { age: 42, name: "John".into() };
    assert_eq!(serialize_to_value(&val), human_map());
}

#[test]
fn serialize_struct_flatten() {
    let val = S2 { x: 42, s1: S1 { x: 43 } };
    assert_eq!(
        serialize_to_value(&val),
        Value::Pairs(vec![(num(2), num(42)), (num(1), num(43))])
    );
}

#[test]
fn deserialize_struct_flatten() {
    let val = S2 { x: 42, s1: S1 { x: 43 } };
    assert_eq!(
        val,
        deserialize_from_value(Value::Pairs(vec![(num(2), num(42)), (num(1), num(43))])).unwrap()
    );
}

#[test]
fn serialize_deserialize_empty() {
    let empty = Empty {};
    assert_eq!(serialize_to_value(&empty), Value::Pairs(vec![]));
    assert_eq!(empty, deserialize_from_value(Value::Pairs(vec![])).unwrap());
}

#[test]
fn serialize_tuple_struct() {
    let s = Pair(42, "hello".to_owned());
    assert_eq!(serialize_to_value(&s), Value::Array(vec![num(42), text("hello")]));
}

#[test]
fn deserialize_tuple_struct() {
    let s = Pair(42, "hello".to_owned());
    assert_eq!(
        s,
        deserialize_from_value(Value::Array(vec![num(42), text("hello")])).unwrap()
    );
}

#[test]
fn deserialize_tuple_struct_wrong_length() {
    let v = Value::Array(vec![num(42)]);
    assert!(matches!(
        deserialize_from_value::<Flagged>(v).unwrap_err(),
        DeserializeError::Validation(_)
    ));
}

#[test]
fn untagged_enum_tries_variants_in_order() {
    let v: Untagged = msgpack_schema::deserialize(&[0x03]).unwrap();
    assert_eq!(v, Untagged::Dog(3));
    let v: Untagged = msgpack_schema::deserialize(&[0xa1, b'x']).unwrap();
    assert_eq!(v, Untagged::Cat("x".to_owned()));
    assert_eq!(
        msgpack_schema::deserialize::<Untagged>(&[0xc3]),
        Err(DeserializeError::Validation(ValidationError::UnknownVariant))
    );
    assert_eq!(
        msgpack_schema::deserialize::<Untagged>(&[0xa2, b'x']),
        Err(DeserializeError::InvalidInput(msgpack_schema::InvalidInputError))
    );
}

#[test]
fn optional_field_struct_bytes() {
    let full = OptHuman { age: 42, name: Some("John".into()) };
    assert_eq!(
        msgpack_schema::serialize(&full),
        vec![0x82, 0x00, 0x2a, 0x02, 0xa4, b'J', b'o', b'h', b'n']
    );
    let bare = OptHuman { age: 42, name: None };
    let bytes = msgpack_schema::serialize(&bare);
    assert_eq!(bytes, vec![0x81, 0x00, 0x2a]);
    assert_eq!(msgpack_schema::deserialize::<OptHuman>(&bytes).unwrap(), bare);
}

#[test]
fn duplicate_and_missing_fields_in_bytes() {
    let dup = vec![0x83, 0x00, 0x2a, 0x02, 0xa1, b'a', 0x02, 0xa1, b'b'];
    assert_eq!(
        msgpack_schema::deserialize::<Human>(&dup),
        Err(DeserializeError::Validation(ValidationError::DuplicatedField))
    );
    let missing = vec![0x81, 0x00, 0x2a];
    assert_eq!(
        msgpack_schema::deserialize::<Human>(&missing),
        Err(DeserializeError::Validation(ValidationError::MissingField))
    );
    let extra = vec![0x83, 0x00, 0x2a, 0x07, 0x91, 0x80, 0x02, 0xa1, b'a'];
    assert_eq!(
        msgpack_schema::deserialize::<Human>(&extra).unwrap(),
        Human { age: 42, name: "a".into() }
    );
}

#[test]
fn tagged_enum_errors() {
    assert_eq!(
        msgpack_schema::deserialize::<Animal>(&[0x0a]),
        Err(DeserializeError::Validation(ValidationError::UnknownVariant))
    );
    assert_eq!(
        msgpack_schema::deserialize::<Animal>(&[0x01]),
        Err(DeserializeError::Validation(ValidationError::InvalidType))
    );
    assert_eq!(
        msgpack_schema::deserialize::<Animal>(&[0x93, 0x01, 0x01, 0x01]),
        Err(DeserializeError::Validation(ValidationError::InvalidLength))
    );
    assert_eq!(
        msgpack_schema::deserialize::<Animal>(&[0xc0]),
        Err(DeserializeError::Validation(ValidationError::InvalidType))
    );
}

#[test]
fn declared_tags_must_differ() {
    assert!(msgpack_schema::check_field_tags(&vec![
        FieldDecl { tag: 0, optional: false },
        FieldDecl { tag: 2, optional: true },
    ]));
    assert!(!msgpack_schema::check_field_tags(&vec![
        FieldDecl { tag: 1, optional: false },
        FieldDecl { tag: 1, optional: true },
    ]));
    assert!(!msgpack_schema::check_variant_tags(&vec![
        VariantDecl { tag: 3, has_payload: false },
        VariantDecl { tag: 3, has_payload: true },
    ]));
}

// An untagged enum whose first variant is an array of u32.
#[derive(Debug, PartialEq, Eq)]
enum ListOrNumber {
    List(Vec<u32>),
    Number(u32),
}

impl Deserialize for ListOrNumber {
    fn deserialize(deserializer: &mut Deserializer) -> Result<Self, DeserializeError> {
        if let Some(v) = deserializer.try_deserialize::<Vec<u32>>()? {
            return Ok(ListOrNumber::List(v));
        }
        if let Some(n) = deserializer.try_deserialize::<u32>()? {
            return Ok(ListOrNumber::Number(n));
        }
        Err(validation(ValidationError::UnknownVariant))
    }
}

#[test]
fn untagged_enum_truncated_array_is_invalid_input() {
    assert!(matches!(
        msgpack_schema::deserialize::<ListOrNumber>(&[0x92, 0x01]),
        Err(DeserializeError::InvalidInput(_))
    ));
    assert_eq!(
        msgpack_schema::deserialize::<ListOrNumber>(&[0x92, 0x01, 0x02]).unwrap(),
        ListOrNumber::List(vec![1, 2])
    );
    assert_eq!(
        msgpack_schema::deserialize::<ListOrNumber>(&[0x07]).unwrap(),
        ListOrNumber::Number(7)
    );
}

#[test]
fn struct_round_trip_through_cloned_value() {
    let val = human_map();
    assert_eq!(
        val.clone(),
        serialize_to_value(&deserialize_from_value::<Human>(val).unwrap())
    );
}
