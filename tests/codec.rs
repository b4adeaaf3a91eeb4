use serde_clj::{
    from_object, get_keyword, to_object, variant_map, ArrayList, Error, Kind, Object, Schema,
    SeqCursor, Value, VariantSchema,
};

fn s(text: &str) -> String {
    text.to_string()
}

fn kw(name: &str) -> Object {
    Object::Keyword(s(name))
}

fn field(name: &str, v: Value) -> (String, Value) {
    (s(name), v)
}

fn field_schema(name: &str, sc: Schema) -> (String, Schema) {
    (s(name), sc)
}

fn vars_schema() -> Schema {
    Schema::Enum(vec![
        (s("Zero"), VariantSchema::Unit),
        (s("One"), VariantSchema::Newtype(Box::new(Schema::U64))),
        (s("Two"), VariantSchema::Newtype(Box::new(Schema::Str))),
        (
            s("Three"),
            VariantSchema::Newtype(Box::new(Schema::Dict(Box::new(Schema::I32), Box::new(Schema::Str)))),
        ),
        (
            s("Four"),
            VariantSchema::Struct(vec![
                field_schema("a", Schema::I32),
                field_schema("b", Schema::Bool),
                field_schema("s", Schema::Str),
            ]),
        ),
        (s("Five"), VariantSchema::Tuple(vec![Schema::I8, Schema::Str])),
    ])
}

fn small_struct() -> Value {
    Value::Struct(vec![
        field("value", Value::Sequence(vec![Value::I64(1), Value::I64(2), Value::I64(3)])),
        field("another_field", Value::Optional(None)),
        field("a_string", Value::Str(s("test"))),
    ])
}

fn small_schema() -> Schema {
    Schema::Struct(vec![
        field_schema("value", Schema::Sequence(Box::new(Schema::I64))),
        field_schema("another_field", Schema::Optional(Box::new(Schema::Str))),
        field_schema("a_string", Schema::Str),
    ])
}

#[test]
fn struct_encodes_to_keyword_map_and_back() {
    let v = small_struct();
    let o = to_object(&v);
    assert_eq!(
        o,
        Object::Dict(vec![
            (kw("value"), Object::Vector(vec![Object::Long(1), Object::Long(2), Object::Long(3)])),
            (kw("another_field"), Object::Null),
            (kw("a_string"), Object::Str(s("test"))),
        ])
    );
    assert_eq!(from_object(&o, &small_schema()), Ok(v));
}

#[test]
fn newtype_variant_round_trip() {
    let v = Value::NewtypeVariant(s("Two"), Box::new(Value::Str(s("three"))));
    let o = to_object(&v);
    assert_eq!(o, Object::Dict(vec![(kw("Two"), Object::Str(s("three")))]));
    assert_eq!(from_object(&o, &vars_schema()), Ok(v));
}

#[test]
fn empty_map_freezes_to_an_empty_map() {
    let o = to_object(&Value::Dict(vec![]));
    assert_eq!(o, Object::Dict(vec![]));
    assert_eq!(ArrayList::new().to_hashmap(), Ok(Object::Dict(vec![])));
    let back = from_object(&o, &Schema::Dict(Box::new(Schema::I32), Box::new(Schema::Str)));
    assert_eq!(back, Ok(Value::Dict(vec![])));
}

#[test]
fn bytes_are_a_native_byte_array() {
    let v = Value::Bytes(vec![0, 1, 2]);
    let o = to_object(&v);
    assert_eq!(o, Object::Bytes(vec![0, 1, 2]));
    assert_eq!(from_object(&o, &Schema::Bytes), Ok(Value::Bytes(vec![0, 1, 2])));
    let generic = Object::Vector(vec![Object::Byte(0), Object::Byte(1), Object::Byte(2)]);
    assert_eq!(from_object(&generic, &Schema::Bytes), Err(Error::TypeMismatch(Kind::Bytes)));
}

#[test]
fn round_trip_of_a_nested_record() {
    let schema = Schema::Struct(vec![
        field_schema("value", Schema::Sequence(Box::new(Schema::I64))),
        field_schema("another_field", Schema::Optional(Box::new(Schema::Str))),
        field_schema("a_string", Schema::Str),
        field_schema("a_char", Schema::Char),
        field_schema("tuple", Schema::Tuple(vec![Schema::I32, Schema::Str])),
        field_schema(
            "opt_tuple",
            Schema::Tuple(vec![Schema::I32, Schema::Optional(Box::new(Schema::Str))]),
        ),
        field_schema("enumerate", Schema::Sequence(Box::new(vars_schema()))),
        field_schema("bytes", Schema::Bytes),
        field_schema("small", Schema::U8),
        field_schema("wide", Schema::U32),
        field_schema("ratio", Schema::F64),
    ]);
    let v = Value::Struct(vec![
        field("value", Value::Sequence(vec![Value::I64(1), Value::I64(2), Value::I64(3)])),
        field("another_field", Value::Optional(Some(Box::new(Value::Str(s("here")))))),
        field("a_string", Value::Str(s("test"))),
        field("a_char", Value::Char('\u{29E3D}')),
        field("tuple", Value::Sequence(vec![Value::I32(4), Value::Str(s("hey"))])),
        field("opt_tuple", Value::Sequence(vec![Value::I32(2), Value::Optional(Some(Box::new(Value::Str(s("x")))))])),
        field(
            "enumerate",
            Value::Sequence(vec![
                Value::UnitVariant(s("Zero")),
                Value::NewtypeVariant(s("One"), Box::new(Value::U64(1))),
                Value::NewtypeVariant(s("Two"), Box::new(Value::Str(s("three")))),
                Value::NewtypeVariant(
                    s("Three"),
                    Box::new(Value::Dict(vec![(Value::I32(7), Value::Str(s("test")))])),
                ),
                Value::StructVariant(
                    s("Four"),
                    vec![
                        field("a", Value::I32(1)),
                        field("b", Value::Bool(true)),
                        field("s", Value::Str(s("ok?"))),
                    ],
                ),
                Value::TupleVariant(s("Five"), vec![Value::I8(-3), Value::Str(s("t"))]),
            ]),
        ),
        field("bytes", Value::Bytes(vec![0, 1, 2])),
        field("small", Value::U8(200)),
        field("wide", Value::U32(4_000_000_000)),
        field("ratio", Value::F64(0.25f64.to_bits())),
    ]);
    let o = to_object(&v);
    assert_eq!(from_object(&o, &schema), Ok(v));
}

#[test]
fn odd_map_freeze_is_refused() {
    let mut b = ArrayList::new();
    b.add(kw("a"));
    b.add(Object::Int(1));
    b.add(kw("b"));
    assert_eq!(b.len(), 3);
    assert_eq!(b.to_hashmap(), Err(Error::OddMapLength));
    let mut even = ArrayList::new();
    even.add(kw("a"));
    even.add(Object::Int(1));
    even.add(kw("b"));
    even.add(Object::Int(2));
    assert_eq!(
        even.to_hashmap(),
        Ok(Object::Dict(vec![(kw("a"), Object::Int(1)), (kw("b"), Object::Int(2))]))
    );
}

#[test]
fn builder_freezes_to_vector_in_order() {
    let mut b = ArrayList::new();
    b.add(Object::Int(3));
    b.add(Object::Null);
    b.add(Object::Int(1));
    assert_eq!(b.to_vector(), Object::Vector(vec![Object::Int(3), Object::Null, Object::Int(1)]));
}

#[test]
fn enum_shapes() {
    assert_eq!(to_object(&Value::UnitVariant(s("Zero"))), kw("Zero"));
    let tuple = to_object(&Value::TupleVariant(s("Five"), vec![Value::I8(1), Value::Str(s("a"))]));
    assert_eq!(
        tuple,
        Object::Dict(vec![(kw("Five"), Object::Vector(vec![Object::Byte(1), Object::Str(s("a"))]))])
    );
    let st = to_object(&Value::StructVariant(s("Four"), vec![field("a", Value::I32(1))]));
    assert_eq!(st, Object::Dict(vec![(kw("Four"), Object::Dict(vec![(kw("a"), Object::Int(1))]))]));
    assert_eq!(from_object(&kw("Zero"), &vars_schema()), Ok(Value::UnitVariant(s("Zero"))));
    let vector = Object::Vector(vec![kw("Zero")]);
    assert_eq!(from_object(&vector, &vars_schema()), Err(Error::TypeMismatch(Kind::Enum)));
    let two = Object::Dict(vec![
        (kw("Two"), Object::Str(s("a"))),
        (kw("One"), Object::Long(1)),
    ]);
    assert_eq!(from_object(&two, &vars_schema()), Err(Error::TypeMismatch(Kind::Enum)));
    assert_eq!(from_object(&Object::Dict(vec![]), &vars_schema()), Err(Error::TypeMismatch(Kind::Enum)));
    assert_eq!(from_object(&kw("Two"), &vars_schema()), Err(Error::TypeMismatch(Kind::Enum)));
    assert_eq!(from_object(&kw("Six"), &vars_schema()), Err(Error::UnknownVariant));
}

#[test]
fn sequence_walk_is_single_pass() {
    let items = vec![Object::Int(1), Object::Int(2)];
    let mut cursor = SeqCursor::new(&items);
    assert_eq!(cursor.decode_remaining(&Schema::I32), Ok(vec![Value::I32(1), Value::I32(2)]));
    assert_eq!(cursor.decode_remaining(&Schema::I32), Ok(vec![]));
    assert_eq!(cursor.next_element(), None);
    let mut fresh = SeqCursor::new(&items);
    assert_eq!(fresh.next_element(), Some(&Object::Int(1)));
    assert_eq!(fresh.decode_remaining(&Schema::I32), Ok(vec![Value::I32(2)]));
}

#[test]
fn sequence_walk_stops_at_null() {
    let o = Object::Vector(vec![Object::Int(1), Object::Null, Object::Int(2)]);
    let r = from_object(&o, &Schema::Sequence(Box::new(Schema::I32)));
    assert_eq!(r, Ok(Value::Sequence(vec![Value::I32(1)])));
    let items = vec![Object::Null, Object::Int(2)];
    let mut cursor = SeqCursor::new(&items);
    assert_eq!(cursor.next_element(), None);
    assert_eq!(cursor.next_element(), None);
    assert_eq!(from_object(&Object::Null, &Schema::Sequence(Box::new(Schema::I32))), Ok(Value::Sequence(vec![])));
}

#[test]
fn unsigned_integers_widen() {
    assert_eq!(to_object(&Value::U8(255)), Object::Short(255));
    assert_eq!(to_object(&Value::U16(65535)), Object::Int(65535));
    assert_eq!(to_object(&Value::U32(4_294_967_295)), Object::Long(4_294_967_295));
    assert_eq!(to_object(&Value::U64(u64::MAX)), Object::Long(-1));
    assert_eq!(from_object(&Object::Long(-1), &Schema::U64), Err(Error::OutOfRange));
    assert_eq!(from_object(&Object::Short(255), &Schema::U8), Ok(Value::U8(255)));
}

#[test]
fn integers_read_from_any_width() {
    assert_eq!(from_object(&Object::Byte(-5), &Schema::I64), Ok(Value::I64(-5)));
    assert_eq!(from_object(&Object::Long(100), &Schema::I8), Ok(Value::I8(100)));
    assert_eq!(from_object(&Object::Int(300), &Schema::U8), Err(Error::OutOfRange));
    assert_eq!(from_object(&Object::Long(-129), &Schema::I8), Err(Error::OutOfRange));
    assert_eq!(from_object(&Object::Str(s("1")), &Schema::I32), Err(Error::TypeMismatch(Kind::Integer)));
}

#[test]
fn floats_hand_on_the_other_width() {
    let half = 0.5f32.to_bits();
    assert_eq!(from_object(&Object::Float(half), &Schema::F64), Ok(Value::F32(half)));
    assert_eq!(from_object(&Object::Float(half), &Schema::F32), Ok(Value::F32(half)));
    let d = 1.5f64.to_bits();
    assert_eq!(from_object(&Object::Double(d), &Schema::F32), Ok(Value::F64(d)));
    assert_eq!(from_object(&Object::Int(1), &Schema::F64), Err(Error::TypeMismatch(Kind::Float)));
    assert_eq!(to_object(&Value::F32(half)), Object::Float(half));
}

#[test]
fn strings_from_keywords_and_chars() {
    assert_eq!(from_object(&kw("name"), &Schema::Str), Ok(Value::Str(s("name"))));
    assert_eq!(to_object(&Value::Char('x')), Object::Str(s("x")));
    assert_eq!(to_object(&Value::Char('\u{29E3D}')), Object::Str(s("\u{29E3D}")));
    assert_eq!(from_object(&Object::Str(s("xy")), &Schema::Char), Err(Error::TypeMismatch(Kind::Char)));
    assert_eq!(from_object(&Object::Str(s("\u{29E3D}")), &Schema::Char), Ok(Value::Char('\u{29E3D}')));
    assert_eq!(from_object(&Object::Int(1), &Schema::Str), Err(Error::TypeMismatch(Kind::String)));
    assert_eq!(get_keyword("k"), kw("k"));
    assert_eq!(variant_map("V", Object::Int(1)), Object::Dict(vec![(kw("V"), Object::Int(1))]));
}

#[test]
fn options_and_unit() {
    let opt = Schema::Optional(Box::new(Schema::I32));
    assert_eq!(from_object(&Object::Null, &opt), Ok(Value::Optional(None)));
    assert_eq!(from_object(&Object::Int(4), &opt), Ok(Value::Optional(Some(Box::new(Value::I32(4))))));
    assert_eq!(to_object(&Value::Optional(Some(Box::new(Value::I32(4))))), Object::Int(4));
    assert_eq!(to_object(&Value::Unit), Object::Null);
    assert_eq!(from_object(&Object::Null, &Schema::Unit), Ok(Value::Unit));
    assert_eq!(from_object(&Object::Int(0), &Schema::Unit), Err(Error::TypeMismatch(Kind::Null)));
    // An option holding null comes back as no option at all.
    let nested = Value::Optional(Some(Box::new(Value::Optional(None))));
    let back = from_object(&to_object(&nested), &Schema::Optional(Box::new(opt)));
    assert_eq!(back, Ok(Value::Optional(None)));
}

#[test]
fn struct_field_rules() {
    let missing_optional = Object::Dict(vec![
        (kw("a_string"), Object::Str(s("x"))),
        (kw("value"), Object::Vector(vec![])),
    ]);
    assert_eq!(
        from_object(&missing_optional, &small_schema()),
        Ok(Value::Struct(vec![
            field("value", Value::Sequence(vec![])),
            field("another_field", Value::Optional(None)),
            field("a_string", Value::Str(s("x"))),
        ]))
    );
    let missing = Object::Dict(vec![(kw("value"), Object::Vector(vec![]))]);
    assert_eq!(from_object(&missing, &small_schema()), Err(Error::MissingField));
    let twice = Object::Dict(vec![
        (kw("a_string"), Object::Str(s("x"))),
        (Object::Str(s("a_string")), Object::Str(s("y"))),
    ]);
    assert_eq!(from_object(&twice, &small_schema()), Err(Error::DuplicateField));
    let unknown = Object::Dict(vec![(kw("other"), Object::Int(1))]);
    assert_eq!(from_object(&unknown, &small_schema()), Err(Error::UnsupportedOperation));
    let bad_key = Object::Dict(vec![(Object::Int(1), Object::Int(1))]);
    assert_eq!(from_object(&bad_key, &small_schema()), Err(Error::TypeMismatch(Kind::String)));
    assert_eq!(from_object(&Object::Vector(vec![]), &small_schema()), Err(Error::TypeMismatch(Kind::Dict)));
}

#[test]
fn tuple_length_and_schema_less_decode() {
    let ts = Schema::Tuple(vec![Schema::I32, Schema::Str]);
    assert_eq!(from_object(&Object::Vector(vec![Object::Int(1)]), &ts), Err(Error::InvalidLength));
    assert_eq!(from_object(&Object::Null, &ts), Err(Error::InvalidLength));
    let longer = Object::Vector(vec![Object::Int(1), Object::Str(s("a")), Object::Int(9)]);
    assert_eq!(from_object(&longer, &ts), Ok(Value::Sequence(vec![Value::I32(1), Value::Str(s("a"))])));
    assert_eq!(from_object(&Object::Int(1), &ts), Err(Error::TypeMismatch(Kind::Sequence)));
    assert_eq!(from_object(&Object::Int(1), &Schema::Any), Err(Error::UnsupportedOperation));
    assert_eq!(from_object(&Object::Int(1), &Schema::Bool), Err(Error::TypeMismatch(Kind::Boolean)));
    assert_eq!(
        from_object(&Object::Int(1), &Schema::Dict(Box::new(Schema::I32), Box::new(Schema::I32))),
        Err(Error::TypeMismatch(Kind::Dict))
    );
}

#[test]
fn error_messages() {
    assert_eq!(Error::TypeMismatch(Kind::Dict).message(), "ExpectedMap");
    assert_eq!(Error::UnsupportedOperation.message(), "deserialize_any not supported!");
    assert_eq!(Error::OddMapLength.message(), "odd number of map elements");
}
