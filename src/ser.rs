use vstd::prelude::*;

use crate::builder::ArrayList;
use crate::object::{ObjView, Object};
use crate::value::{
    fields_view, lemma_fields_view, lemma_val_pairs_view, lemma_vals_view, val_pairs_view,
    vals_view, ValView, Value,
};

verus! {

/// The single-entry map that tags an enum payload with its variant's keyword.
pub open spec fn variant_map_of(variant: Seq<char>, payload: ObjView) -> ObjView {
    ObjView::Dict(seq![(ObjView::Keyword(variant), payload)])
}

/// The host object that encodes a typed value.
pub open spec fn encoded(v: ValView) -> ObjView
    decreases v,
{
    match v {
        ValView::Bool(b) => ObjView::Boolean(b),
        ValView::I8(x) => ObjView::Byte(x),
        ValView::I16(x) => ObjView::Short(x),
        ValView::I32(x) => ObjView::Int(x),
        ValView::I64(x) => ObjView::Long(x),
        ValView::U8(x) => ObjView::Short(x as i16),
        ValView::U16(x) => ObjView::Int(x as i32),
        ValView::U32(x) => ObjView::Long(x as i64),
        ValView::U64(x) => ObjView::Long(x as i64),
        ValView::F32(x) => ObjView::Float(x),
        ValView::F64(x) => ObjView::Double(x),
        ValView::Char(c) => ObjView::Str(seq![c]),
        ValView::Str(s) => ObjView::Str(s),
        ValView::Bytes(b) => ObjView::Bytes(b),
        ValView::Unit => ObjView::Null,
        ValView::Optional(o) => match o {
            Option::Some(x) => encoded(*x),
            Option::None => ObjView::Null,
        },
        ValView::Sequence(items) => ObjView::Vector(encoded_all(items)),
        ValView::Dict(pairs) => ObjView::Dict(encoded_pairs(pairs)),
        ValView::Struct(fields) => ObjView::Dict(encoded_fields(fields)),
        ValView::UnitVariant(n) => ObjView::Keyword(n),
        ValView::NewtypeVariant(n, x) => variant_map_of(n, encoded(*x)),
        ValView::TupleVariant(n, items) => variant_map_of(n, ObjView::Vector(encoded_all(items))),
        ValView::StructVariant(n, fields) => variant_map_of(
            n,
            ObjView::Dict(encoded_fields(fields)),
        ),
    }
}

/// The encodings of a sequence of values, in order.
pub open spec fn encoded_all(s: Seq<ValView>) -> Seq<ObjView>
    decreases s,
{
    if s.len() == 0 {
        Seq::empty()
    } else {
        encoded_all(s.drop_last()).push(encoded(s.last()))
    }
}

/// The encodings of key/value pairs, in order.
pub open spec fn encoded_pairs(s: Seq<(ValView, ValView)>) -> Seq<(ObjView, ObjView)>
    decreases s,
{
    if s.len() == 0 {
        Seq::empty()
    } else {
        encoded_pairs(s.drop_last()).push((encoded(s.last().0), encoded(s.last().1)))
    }
}

/// The entries of an encoded struct: each field's keyword with its encoded value.
pub open spec fn encoded_fields(s: Seq<(Seq<char>, ValView)>) -> Seq<(ObjView, ObjView)>
    decreases s,
{
    if s.len() == 0 {
        Seq::empty()
    } else {
        encoded_fields(s.drop_last()).push((ObjView::Keyword(s.last().0), encoded(s.last().1)))
    }
}

pub proof fn lemma_encoded_all(s: Seq<ValView>)
    ensures
        encoded_all(s).len() == s.len(),
        forall|i: int| 0 <= i < s.len() ==> #[trigger] encoded_all(s)[i] == encoded(s[i]),
    decreases s.len(),
{
    if s.len() > 0 {
        lemma_encoded_all(s.drop_last());
        assert(encoded_all(s) == encoded_all(s.drop_last()).push(encoded(s.last())));
    } else {
        assert(encoded_all(s) == Seq::<ObjView>::empty());
    }
}

pub proof fn lemma_encoded_pairs(s: Seq<(ValView, ValView)>)
    ensures
        encoded_pairs(s).len() == s.len(),
        forall|i: int|
            0 <= i < s.len() ==> #[trigger] encoded_pairs(s)[i] == (
                encoded(s[i].0),
                encoded(s[i].1),
            ),
    decreases s.len(),
{
    if s.len() > 0 {
        lemma_encoded_pairs(s.drop_last());
        assert(encoded_pairs(s) == encoded_pairs(s.drop_last()).push(
            (encoded(s.last().0), encoded(s.last().1)),
        ));
    } else {
        assert(encoded_pairs(s) == Seq::<(ObjView, ObjView)>::empty());
    }
}

pub proof fn lemma_encoded_fields(s: Seq<(Seq<char>, ValView)>)
    ensures
        encoded_fields(s).len() == s.len(),
        forall|i: int|
            0 <= i < s.len() ==> #[trigger] encoded_fields(s)[i] == (
                ObjView::Keyword(s[i].0),
                encoded(s[i].1),
            ),
    decreases s.len(),
{
    if s.len() > 0 {
        lemma_encoded_fields(s.drop_last());
        assert(encoded_fields(s) == encoded_fields(s.drop_last()).push(
            (ObjView::Keyword(s.last().0), encoded(s.last().1)),
        ));
    } else {
        assert(encoded_fields(s) == Seq::<(ObjView, ObjView)>::empty());
    }
}

/// Relies on std's `From<char> for String`: a string of that one character.
#[verifier::external_body]
fn char_string(c: char) -> (r: String)
    ensures
        r@ == seq![c],
{
    String::from(c)
}

/// The interned keyword of the given name.
pub fn get_keyword(name: &str) -> (r: Object)
    ensures
        r@ == ObjView::Keyword(name@),
{
    Object::Keyword(name.to_owned())
}

/// Tags `value` with `variant`: a map from the variant's keyword to the value.
pub fn variant_map(variant: &str, value: Object) -> (r: Object)
    ensures
        r@ == variant_map_of(variant@, value@),
{
    let mut res = ArrayList::new();
    res.add(get_keyword(variant));
    res.add(value);
    let ghost staged = res@;
    match res.to_hashmap() {
        Ok(o) => {
            assert(ObjView::pairs_of(staged) =~= seq![(ObjView::Keyword(variant@), value@)]);
            o
        },
        Err(_) => {
            assert(false);
            Object::Null
        },
    }
}

pub(crate) fn copy_bytes(b: &Vec<u8>) -> (r: Vec<u8>)
    ensures
        r@ == b@,
{
    let mut r: Vec<u8> = Vec::new();
    let mut i: usize = 0;
    while i < b.len()
        invariant
            i <= b.len(),
            r@ == b@.take(i as int),
        decreases b.len() - i,
    {
        r.push(b[i]);
        i = i + 1;
        assert(r@ =~= b@.take(i as int));
    }
    assert(b@.take(i as int) =~= b@);
    r
}

/// Stages the encoding of each value, in order, and freezes them to a vector.
fn encode_seq(items: &Vec<Value>) -> (r: Object)
    ensures
        r@ == ObjView::Vector(encoded_all(vals_view(items@))),
    decreases items, 0nat,
{
    let mut vec = ArrayList::new();
    let mut i: usize = 0;
    while i < items.len()
        invariant
            i <= items.len(),
            vec@.len() == i,
            forall|j: int| 0 <= j < i ==> #[trigger] vec@[j] == encoded(items@[j]@),
        decreases items.len() - i,
    {
        let o = to_object(&items[i]);
        vec.add(o);
        i = i + 1;
    }
    proof {
        lemma_vals_view(items@);
        lemma_encoded_all(vals_view(items@));
        assert(vec@ =~= encoded_all(vals_view(items@)));
    }
    vec.to_vector()
}

/// Stages each key then its value, in order, and freezes them to a map.
fn encode_pairs(pairs: &Vec<(Value, Value)>) -> (r: Object)
    ensures
        r@ == ObjView::Dict(encoded_pairs(val_pairs_view(pairs@))),
    decreases pairs, 0nat,
{
    let mut map = ArrayList::new();
    let mut i: usize = 0;
    while i < pairs.len()
        invariant
            i <= pairs.len(),
            map@.len() == 2 * i,
            forall|j: int|
                0 <= j < i ==> {
                    &&& #[trigger] map@[2 * j] == encoded(pairs@[j].0@)
                    &&& map@[2 * j + 1] == encoded(pairs@[j].1@)
                },
        decreases pairs.len() - i,
    {
        let k = to_object(&pairs[i].0);
        map.add(k);
        let v = to_object(&pairs[i].1);
        map.add(v);
        i = i + 1;
    }
    let ghost staged = map@;
    proof {
        lemma_val_pairs_view(pairs@);
        lemma_encoded_pairs(val_pairs_view(pairs@));
    }
    match map.to_hashmap() {
        Ok(o) => {
            assert(ObjView::pairs_of(staged) =~= encoded_pairs(val_pairs_view(pairs@)));
            o
        },
        Err(_) => {
            assert(false);
            Object::Null
        },
    }
}

/// Stages each field's keyword then its value, in order, and freezes them to a map.
fn encode_fields(fields: &Vec<(String, Value)>) -> (r: Object)
    ensures
        r@ == ObjView::Dict(encoded_fields(fields_view(fields@))),
    decreases fields, 0nat,
{
    let mut map = ArrayList::new();
    let mut i: usize = 0;
    while i < fields.len()
        invariant
            i <= fields.len(),
            map@.len() == 2 * i,
            forall|j: int|
                0 <= j < i ==> {
                    &&& #[trigger] map@[2 * j] == ObjView::Keyword(fields@[j].0@)
                    &&& map@[2 * j + 1] == encoded(fields@[j].1@)
                },
        decreases fields.len() - i,
    {
        map.add(get_keyword(fields[i].0.as_str()));
        let v = to_object(&fields[i].1);
        map.add(v);
        i = i + 1;
    }
    let ghost staged = map@;
    proof {
        lemma_fields_view(fields@);
        lemma_encoded_fields(fields_view(fields@));
    }
    match map.to_hashmap() {
        Ok(o) => {
            assert(ObjView::pairs_of(staged) =~= encoded_fields(fields_view(fields@)));
            o
        },
        Err(_) => {
            assert(false);
            Object::Null
        },
    }
}

/// Encodes a typed value as a host object.
///
/// Unsigned integers widen into the next signed container; a `u64` is
/// reinterpreted bit for bit as an `i64`. `Some(v)` encodes as `v` itself.
pub fn to_object(value: &Value) -> (r: Object)
    ensures
        r@ == encoded(value@),
    decreases value, 1nat,
{
    match value {
        Value::Bool(b) => Object::Boolean(*b),
        Value::I8(x) => Object::Byte(*x),
        Value::I16(x) => Object::Short(*x),
        Value::I32(x) => Object::Int(*x),
        Value::I64(x) => Object::Long(*x),
        Value::U8(x) => Object::Short(*x as i16),
        Value::U16(x) => Object::Int(*x as i32),
        Value::U32(x) => Object::Long(*x as i64),
        Value::U64(x) => Object::Long(*x as i64),
        Value::F32(x) => Object::Float(*x),
        Value::F64(x) => Object::Double(*x),
        Value::Char(c) => Object::Str(char_string(*c)),
        Value::Str(s) => Object::Str(s.clone()),
        Value::Bytes(b) => Object::Bytes(copy_bytes(b)),
        Value::Unit => Object::Null,
        Value::Optional(o) => match o {
            Option::Some(x) => to_object(x),
            Option::None => Object::Null,
        },
        Value::Sequence(items) => encode_seq(items),
        Value::Dict(pairs) => encode_pairs(pairs),
        Value::Struct(fields) => encode_fields(fields),
        Value::UnitVariant(n) => get_keyword(n.as_str()),
        Value::NewtypeVariant(n, x) => {
            let payload = to_object(x);
            variant_map(n.as_str(), payload)
        },
        Value::TupleVariant(n, items) => {
            let payload = encode_seq(items);
            variant_map(n.as_str(), payload)
        },
        Value::StructVariant(n, fields) => {
            let payload = encode_fields(fields);
            variant_map(n.as_str(), payload)
        },
    }
}

} // verus!
