use vstd::prelude::*;

use vstd::string::StrSliceExecFns;

use crate::error::{Error, Kind};
use crate::object::{entries_view, lemma_entries_view, lemma_objs_view, objs_view, ObjView, Object};
use crate::schema::{
    lemma_named_view, lemma_schemas_view, lemma_variants_view, named_view, schemas_view,
    variants_view, Schema, SchemaView, VariantSchema, VariantView,
};
use crate::ser::copy_bytes;
use crate::value::{
    fields_view, lemma_fields_view, val_pairs_view, vals_view, ValView, Value,
};

verus! {

/// The integer that a boxed integer of any width holds.
pub open spec fn int_of(o: ObjView) -> Option<int> {
    match o {
        ObjView::Byte(x) => Option::Some(x as int),
        ObjView::Short(x) => Option::Some(x as int),
        ObjView::Int(x) => Option::Some(x as int),
        ObjView::Long(x) => Option::Some(x as int),
        _ => Option::None,
    }
}

/// The text of a string, or the name of a keyword.
pub open spec fn key_name(o: ObjView) -> Option<Seq<char>> {
    match o {
        ObjView::Str(s) => Option::Some(s),
        ObjView::Keyword(s) => Option::Some(s),
        _ => Option::None,
    }
}

/// The position of the first entry named `name`, or -1.
pub open spec fn index_of<T>(s: Seq<(Seq<char>, T)>, name: Seq<char>) -> int
    decreases s.len(),
{
    if s.len() == 0 {
        -1
    } else if index_of(s.drop_last(), name) >= 0 {
        index_of(s.drop_last(), name)
    } else if s.last().0 == name {
        s.len() - 1
    } else {
        -1
    }
}

/// The first position at or after `from` that holds null, or the length:
/// a sequence walk stops at the first null head.
pub open spec fn run_end(items: Seq<ObjView>, from: int) -> int
    decreases items.len() - from,
{
    if from < 0 || from >= items.len() {
        items.len() as int
    } else if items[from] is Null {
        from
    } else {
        run_end(items, from + 1)
    }
}

/// An integer of the requested width, or why not.
pub open spec fn decoded_int(o: ObjView, s: SchemaView) -> Result<ValView, Error> {
    match int_of(o) {
        Option::None => Err(Error::TypeMismatch(Kind::Integer)),
        Option::Some(x) => match s {
            SchemaView::I8 => if i8::MIN <= x <= i8::MAX {
                Ok(ValView::I8(x as i8))
            } else {
                Err(Error::OutOfRange)
            },
            SchemaView::I16 => if i16::MIN <= x <= i16::MAX {
                Ok(ValView::I16(x as i16))
            } else {
                Err(Error::OutOfRange)
            },
            SchemaView::I32 => if i32::MIN <= x <= i32::MAX {
                Ok(ValView::I32(x as i32))
            } else {
                Err(Error::OutOfRange)
            },
            SchemaView::I64 => Ok(ValView::I64(x as i64)),
            SchemaView::U8 => if 0 <= x <= u8::MAX {
                Ok(ValView::U8(x as u8))
            } else {
                Err(Error::OutOfRange)
            },
            SchemaView::U16 => if 0 <= x <= u16::MAX {
                Ok(ValView::U16(x as u16))
            } else {
                Err(Error::OutOfRange)
            },
            SchemaView::U32 => if 0 <= x <= u32::MAX {
                Ok(ValView::U32(x as u32))
            } else {
                Err(Error::OutOfRange)
            },
            _ => if 0 <= x {
                Ok(ValView::U64(x as u64))
            } else {
                Err(Error::OutOfRange)
            },
        },
    }
}

/// Whether the schema asks for an integer.
pub open spec fn is_int_schema(s: SchemaView) -> bool {
    ||| s is I8
    ||| s is I16
    ||| s is I32
    ||| s is I64
    ||| s is U8
    ||| s is U16
    ||| s is U32
    ||| s is U64
}

/// The typed value that the schema reads from a host object, or the error.
pub open spec fn decoded(o: ObjView, s: SchemaView) -> Result<ValView, Error>
    decreases o, s, 2nat, 0int,
{
    if is_int_schema(s) {
        decoded_int(o, s)
    } else {
        match s {
            SchemaView::Bool => match o {
                ObjView::Boolean(b) => Ok(ValView::Bool(b)),
                _ => Err(Error::TypeMismatch(Kind::Boolean)),
            },
            SchemaView::F32 => match o {
                ObjView::Float(b) => Ok(ValView::F32(b)),
                ObjView::Double(b) => Ok(ValView::F64(b)),
                _ => Err(Error::TypeMismatch(Kind::Float)),
            },
            SchemaView::F64 => match o {
                ObjView::Double(b) => Ok(ValView::F64(b)),
                ObjView::Float(b) => Ok(ValView::F32(b)),
                _ => Err(Error::TypeMismatch(Kind::Float)),
            },
            SchemaView::Char => match o {
                ObjView::Str(t) => if t.len() == 1 {
                    Ok(ValView::Char(t[0]))
                } else {
                    Err(Error::TypeMismatch(Kind::Char))
                },
                _ => Err(Error::TypeMismatch(Kind::Char)),
            },
            SchemaView::Str => match key_name(o) {
                Option::Some(t) => Ok(ValView::Str(t)),
                Option::None => Err(Error::TypeMismatch(Kind::String)),
            },
            SchemaView::Bytes => match o {
                ObjView::Bytes(b) => Ok(ValView::Bytes(b)),
                _ => Err(Error::TypeMismatch(Kind::Bytes)),
            },
            SchemaView::Unit => match o {
                ObjView::Null => Ok(ValView::Unit),
                _ => Err(Error::TypeMismatch(Kind::Null)),
            },
            SchemaView::Optional(t) => if o is Null {
                Ok(ValView::Optional(Option::None))
            } else {
                match decoded(o, *t) {
                    Ok(v) => Ok(ValView::Optional(Option::Some(Box::new(v)))),
                    Err(e) => Err(e),
                }
            },
            SchemaView::Sequence(t) => match o {
                ObjView::Vector(items) => match decoded_run(items, 0, run_end(items, 0), *t) {
                    Ok(vs) => Ok(ValView::Sequence(vs)),
                    Err(e) => Err(e),
                },
                ObjView::Null => Ok(ValView::Sequence(Seq::empty())),
                _ => Err(Error::TypeMismatch(Kind::Sequence)),
            },
            SchemaView::Tuple(ts) => match decoded_tuple(o, ts) {
                Ok(vs) => Ok(ValView::Sequence(vs)),
                Err(e) => Err(e),
            },
            SchemaView::Dict(k, v) => match o {
                ObjView::Dict(entries) => match decoded_entries(entries, *k, *v, entries.len() as int) {
                    Ok(ps) => Ok(ValView::Dict(ps)),
                    Err(e) => Err(e),
                },
                _ => Err(Error::TypeMismatch(Kind::Dict)),
            },
            SchemaView::Struct(fields) => match decoded_struct(o, fields) {
                Ok(fs) => Ok(ValView::Struct(fs)),
                Err(e) => Err(e),
            },
            SchemaView::Enum(variants) => decoded_enum(o, variants),
            _ => Err(Error::UnsupportedOperation),
        }
    }
}

/// The elements `items[from..to]` decoded in order with one shape; the
/// first error met wins.
pub open spec fn decoded_run(items: Seq<ObjView>, from: int, to: int, t: SchemaView) -> Result<
    Seq<ValView>,
    Error,
>
    decreases items, t, 0nat, to - from,
{
    if to <= from || from < 0 || to > items.len() {
        Ok(Seq::empty())
    } else {
        match decoded_run(items, from, to - 1, t) {
            Err(e) => Err(e),
            Ok(vs) => match decoded(items[to - 1], t) {
                Err(e) => Err(e),
                Ok(v) => Ok(vs.push(v)),
            },
        }
    }
}

/// The first `n` elements decoded in order, each with its own shape.
pub open spec fn decoded_prefix(items: Seq<ObjView>, ts: Seq<SchemaView>, n: int) -> Result<
    Seq<ValView>,
    Error,
>
    decreases items, ts, 0nat, n,
{
    if n <= 0 || n > items.len() || n > ts.len() {
        Ok(Seq::empty())
    } else {
        match decoded_prefix(items, ts, n - 1) {
            Err(e) => Err(e),
            Ok(vs) => match decoded(items[n - 1], ts[n - 1]) {
                Err(e) => Err(e),
                Ok(v) => Ok(vs.push(v)),
            },
        }
    }
}

/// A tuple: one element per shape, read in order; a walk that stops
/// early is `InvalidLength`, and elements past the last shape are not read.
pub open spec fn decoded_tuple(o: ObjView, ts: Seq<SchemaView>) -> Result<Seq<ValView>, Error>
    decreases o, ts, 1nat, 0int,
{
    match o {
        ObjView::Vector(items) => {
            let end = run_end(items, 0);
            let n = if end < ts.len() {
                end
            } else {
                ts.len() as int
            };
            match decoded_prefix(items, ts, n) {
                Err(e) => Err(e),
                Ok(vs) => if end < ts.len() {
                    Err(Error::InvalidLength)
                } else {
                    Ok(vs)
                },
            }
        },
        ObjView::Null => if ts.len() > 0 {
            Err(Error::InvalidLength)
        } else {
            Ok(Seq::empty())
        },
        _ => Err(Error::TypeMismatch(Kind::Sequence)),
    }
}

/// The first `n` map entries decoded in order, key before value.
pub open spec fn decoded_entries(
    entries: Seq<(ObjView, ObjView)>,
    k: SchemaView,
    v: SchemaView,
    n: int,
) -> Result<Seq<(ValView, ValView)>, Error>
    decreases entries, k, 0nat, n,
{
    if n <= 0 || n > entries.len() {
        Ok(Seq::empty())
    } else {
        match decoded_entries(entries, k, v, n - 1) {
            Err(e) => Err(e),
            Ok(ps) => match decoded(entries[n - 1].0, k) {
                Err(e) => Err(e),
                Ok(kv) => match decoded(entries[n - 1].1, v) {
                    Err(e) => Err(e),
                    Ok(vv) => Ok(ps.push((kv, vv))),
                },
            },
        }
    }
}

/// The struct's field slots after reading the first `n` map entries: each
/// key names a field, which gets its decoded value; an unknown key needs a
/// shape-less decode, and a field seen twice is refused.
pub open spec fn filled_slots(
    entries: Seq<(ObjView, ObjView)>,
    fields: Seq<(Seq<char>, SchemaView)>,
    n: int,
) -> Result<Seq<Option<ValView>>, Error>
    decreases entries, fields, 0nat, n,
{
    if n <= 0 || n > entries.len() {
        Ok(Seq::new(fields.len(), |j: int| Option::<ValView>::None))
    } else {
        match filled_slots(entries, fields, n - 1) {
            Err(e) => Err(e),
            Ok(slots) => match key_name(entries[n - 1].0) {
                Option::None => Err(Error::TypeMismatch(Kind::String)),
                Option::Some(name) => {
                    let j = index_of(fields, name);
                    if j < 0 {
                        Err(Error::UnsupportedOperation)
                    } else if slots[j] is Some {
                        Err(Error::DuplicateField)
                    } else {
                        match decoded(entries[n - 1].1, fields[j].1) {
                            Err(e) => Err(e),
                            Ok(v) => Ok(slots.update(j, Option::Some(v))),
                        }
                    }
                },
            },
        }
    }
}

/// The fields in declaration order: an absent optional field is `None`,
/// any other absent field is `MissingField`.
pub open spec fn collected(fields: Seq<(Seq<char>, SchemaView)>, slots: Seq<Option<ValView>>) -> Result<
    Seq<(Seq<char>, ValView)>,
    Error,
> {
    if exists|j: int|
        0 <= j < fields.len() && #[trigger] slots[j] is None && !(fields[j].1 is Optional) {
        Err(Error::MissingField)
    } else {
        Ok(
            Seq::new(
                fields.len(),
                |j: int|
                    (
                        fields[j].0,
                        match slots[j] {
                            Option::Some(v) => v,
                            Option::None => ValView::Optional(Option::None),
                        },
                    ),
            ),
        )
    }
}

/// A struct read from a map whose keys name its fields.
pub open spec fn decoded_struct(o: ObjView, fields: Seq<(Seq<char>, SchemaView)>) -> Result<
    Seq<(Seq<char>, ValView)>,
    Error,
>
    decreases o, fields, 1nat, 0int,
{
    match o {
        ObjView::Dict(entries) => match filled_slots(entries, fields, entries.len() as int) {
            Err(e) => Err(e),
            Ok(slots) => collected(fields, slots),
        },
        _ => Err(Error::TypeMismatch(Kind::Dict)),
    }
}

/// An enum value: a bare keyword names a unit variant; a single-entry map
/// from the variant's name to its payload is any other variant.
pub open spec fn decoded_enum(o: ObjView, variants: Seq<(Seq<char>, VariantView)>) -> Result<
    ValView,
    Error,
>
    decreases o, variants, 1nat, 0int,
{
    match o {
        ObjView::Keyword(name) => {
            let j = index_of(variants, name);
            if j < 0 {
                Err(Error::UnknownVariant)
            } else if variants[j].1 is Unit {
                Ok(ValView::UnitVariant(name))
            } else {
                Err(Error::TypeMismatch(Kind::Enum))
            }
        },
        ObjView::Dict(entries) => if entries.len() != 1 {
            Err(Error::TypeMismatch(Kind::Enum))
        } else {
            match key_name(entries[0].0) {
                Option::None => Err(Error::TypeMismatch(Kind::String)),
                Option::Some(name) => {
                    let j = index_of(variants, name);
                    let payload = entries[0].1;
                    if j < 0 {
                        Err(Error::UnknownVariant)
                    } else {
                        match variants[j].1 {
                            VariantView::Unit => Err(Error::TypeMismatch(Kind::Enum)),
                            VariantView::Newtype(t) => match decoded(payload, *t) {
                                Ok(v) => Ok(ValView::NewtypeVariant(name, Box::new(v))),
                                Err(e) => Err(e),
                            },
                            VariantView::Tuple(ts) => match decoded_tuple(payload, ts) {
                                Ok(vs) => Ok(ValView::TupleVariant(name, vs)),
                                Err(e) => Err(e),
                            },
                            VariantView::Struct(fs) => match decoded_struct(payload, fs) {
                                Ok(fvs) => Ok(ValView::StructVariant(name, fvs)),
                                Err(e) => Err(e),
                            },
                        }
                    }
                },
            }
        },
        _ => Err(Error::TypeMismatch(Kind::Enum)),
    }
}


pub proof fn lemma_index_of<T>(s: Seq<(Seq<char>, T)>, name: Seq<char>)
    ensures
        -1 <= index_of(s, name) < s.len(),
        index_of(s, name) >= 0 ==> s[index_of(s, name)].0 == name,
        forall|m: int| 0 <= m < s.len() && m < index_of(s, name) ==> s[m].0 != name,
        index_of(s, name) == -1 ==> forall|m: int| 0 <= m < s.len() ==> s[m].0 != name,
    decreases s.len(),
{
    if s.len() > 0 {
        let p = s.drop_last();
        lemma_index_of(p, name);
        assert forall|m: int| 0 <= m < s.len() - 1 implies #[trigger] s[m] == p[m] by {}
    }
}

pub proof fn lemma_run_end(items: Seq<ObjView>, from: int, i: int)
    requires
        0 <= from <= i <= items.len(),
        forall|j: int| from <= j < i ==> !(#[trigger] items[j] is Null),
    ensures
        i <= run_end(items, from) <= items.len(),
        (i == items.len() || items[i] is Null) ==> run_end(items, from) == i,
    decreases items.len() - from,
{
    if from < items.len() && !(items[from] is Null) {
        lemma_run_end(items, from + 1, if i > from { i } else { from + 1 });
    }
}

pub proof fn lemma_run_end_stops(items: Seq<ObjView>, from: int)
    requires
        0 <= from <= items.len(),
    ensures
        run_end(items, from) == items.len() || items[run_end(items, from)] is Null,
    decreases items.len() - from,
{
    if from < items.len() && !(items[from] is Null) {
        lemma_run_end_stops(items, from + 1);
    }
}

pub proof fn lemma_run_err(items: Seq<ObjView>, from: int, m: int, n: int, t: SchemaView)
    requires
        from <= m <= n <= items.len(),
        decoded_run(items, from, m, t) is Err,
    ensures
        decoded_run(items, from, n, t) == decoded_run(items, from, m, t),
    decreases n - m,
{
    if n > m {
        lemma_run_err(items, from, m, n - 1, t);
    }
}

pub proof fn lemma_prefix_err(items: Seq<ObjView>, ts: Seq<SchemaView>, m: int, n: int)
    requires
        0 <= m <= n <= items.len(),
        n <= ts.len(),
        decoded_prefix(items, ts, m) is Err,
    ensures
        decoded_prefix(items, ts, n) == decoded_prefix(items, ts, m),
    decreases n - m,
{
    if n > m {
        lemma_prefix_err(items, ts, m, n - 1);
    }
}

pub proof fn lemma_entries_err(
    entries: Seq<(ObjView, ObjView)>,
    k: SchemaView,
    v: SchemaView,
    m: int,
    n: int,
)
    requires
        0 <= m <= n <= entries.len(),
        decoded_entries(entries, k, v, m) is Err,
    ensures
        decoded_entries(entries, k, v, n) == decoded_entries(entries, k, v, m),
    decreases n - m,
{
    if n > m {
        lemma_entries_err(entries, k, v, m, n - 1);
    }
}

pub proof fn lemma_slots_err(
    entries: Seq<(ObjView, ObjView)>,
    fields: Seq<(Seq<char>, SchemaView)>,
    m: int,
    n: int,
)
    requires
        0 <= m <= n <= entries.len(),
        filled_slots(entries, fields, m) is Err,
    ensures
        filled_slots(entries, fields, n) == filled_slots(entries, fields, m),
    decreases n - m,
{
    if n > m {
        lemma_slots_err(entries, fields, m, n - 1);
    }
}


/// The model of a decode's outcome.
pub open spec fn result_view(r: Result<Value, Error>) -> Result<ValView, Error> {
    match r {
        Ok(v) => Ok(v@),
        Err(e) => Err(e),
    }
}

pub open spec fn vals_result(r: Result<Vec<Value>, Error>) -> Result<Seq<ValView>, Error> {
    match r {
        Ok(v) => Ok(vals_view(v@)),
        Err(e) => Err(e),
    }
}

pub open spec fn pairs_result(r: Result<Vec<(Value, Value)>, Error>) -> Result<
    Seq<(ValView, ValView)>,
    Error,
> {
    match r {
        Ok(v) => Ok(val_pairs_view(v@)),
        Err(e) => Err(e),
    }
}

pub open spec fn fields_result(r: Result<Vec<(String, Value)>, Error>) -> Result<
    Seq<(Seq<char>, ValView)>,
    Error,
> {
    match r {
        Ok(v) => Ok(fields_view(v@)),
        Err(e) => Err(e),
    }
}

pub open spec fn opt_view(o: Option<Value>) -> Option<ValView> {
    match o {
        Option::Some(v) => Option::Some(v@),
        Option::None => Option::None,
    }
}

pub open spec fn slots_view(s: Seq<Option<Value>>) -> Seq<Option<ValView>> {
    Seq::new(s.len(), |j: int| opt_view(s[j]))
}

/// The integer held by a boxed integer of any width.
fn int_value(obj: &Object) -> (r: Option<i64>)
    ensures
        r matches Option::Some(x) ==> int_of(obj@) == Option::Some(x as int),
        r is None ==> int_of(obj@) is None,
{
    match obj {
        Object::Byte(x) => Option::Some(*x as i64),
        Object::Short(x) => Option::Some(*x as i64),
        Object::Int(x) => Option::Some(*x as i64),
        Object::Long(x) => Option::Some(*x),
        _ => Option::None,
    }
}

/// The text of a string or the name of a keyword.
fn name_of(obj: &Object) -> (r: Option<String>)
    ensures
        r matches Option::Some(t) ==> key_name(obj@) == Option::Some(t@),
        r is None ==> key_name(obj@) is None,
{
    match obj {
        Object::Str(t) => Option::Some(t.clone()),
        Object::Keyword(t) => Option::Some(t.clone()),
        _ => Option::None,
    }
}

fn find_field(fields: &Vec<(String, Schema)>, name: &String) -> (r: Option<usize>)
    ensures
        r matches Option::Some(j) ==> index_of(named_view(fields@), name@) == j as int,
        r is None ==> index_of(named_view(fields@), name@) == -1,
{
    proof {
        lemma_named_view(fields@);
        lemma_index_of(named_view(fields@), name@);
    }
    let mut j: usize = 0;
    while j < fields.len()
        invariant
            j <= fields.len(),
            forall|m: int| 0 <= m < j ==> fields@[m].0@ != name@,
        decreases fields.len() - j,
    {
        if fields[j].0 == *name {
            proof {
                lemma_named_view(fields@);
                lemma_index_of(named_view(fields@), name@);
                let idx = index_of(named_view(fields@), name@);
                assert(named_view(fields@)[j as int].0 == name@);
                if idx >= 0 {
                    assert(named_view(fields@)[idx].0 == name@);
                    assert(fields@[idx].0@ == name@);
                }
            }
            return Option::Some(j);
        }
        j = j + 1;
    }
    proof {
        lemma_named_view(fields@);
        lemma_index_of(named_view(fields@), name@);
        let idx = index_of(named_view(fields@), name@);
        if idx >= 0 {
            assert(named_view(fields@)[idx].0 == name@);
            assert(fields@[idx].0@ == name@);
        }
    }
    Option::None
}

fn find_variant(variants: &Vec<(String, VariantSchema)>, name: &String) -> (r: Option<usize>)
    ensures
        r matches Option::Some(j) ==> index_of(variants_view(variants@), name@) == j as int,
        r is None ==> index_of(variants_view(variants@), name@) == -1,
{
    proof {
        lemma_variants_view(variants@);
        lemma_index_of(variants_view(variants@), name@);
    }
    let mut j: usize = 0;
    while j < variants.len()
        invariant
            j <= variants.len(),
            forall|m: int| 0 <= m < j ==> variants@[m].0@ != name@,
        decreases variants.len() - j,
    {
        if variants[j].0 == *name {
            proof {
                lemma_variants_view(variants@);
                lemma_index_of(variants_view(variants@), name@);
                let idx = index_of(variants_view(variants@), name@);
                assert(variants_view(variants@)[j as int].0 == name@);
                if idx >= 0 {
                    assert(variants_view(variants@)[idx].0 == name@);
                    assert(variants@[idx].0@ == name@);
                }
            }
            return Option::Some(j);
        }
        j = j + 1;
    }
    proof {
        lemma_variants_view(variants@);
        lemma_index_of(variants_view(variants@), name@);
        let idx = index_of(variants_view(variants@), name@);
        if idx >= 0 {
            assert(variants_view(variants@)[idx].0 == name@);
            assert(variants@[idx].0@ == name@);
        }
    }
    Option::None
}

/// An integer of the width that `schema` asks for.
fn decode_int(obj: &Object, schema: &Schema) -> (r: Result<Value, Error>)
    requires
        is_int_schema(schema@),
    ensures
        result_view(r) == decoded_int(obj@, schema@),
{
    let x = match int_value(obj) {
        Option::Some(x) => x,
        Option::None => return Err(Error::TypeMismatch(Kind::Integer)),
    };
    match schema {
        Schema::I8 => if i8::MIN as i64 <= x && x <= i8::MAX as i64 {
            Ok(Value::I8(x as i8))
        } else {
            Err(Error::OutOfRange)
        },
        Schema::I16 => if i16::MIN as i64 <= x && x <= i16::MAX as i64 {
            Ok(Value::I16(x as i16))
        } else {
            Err(Error::OutOfRange)
        },
        Schema::I32 => if i32::MIN as i64 <= x && x <= i32::MAX as i64 {
            Ok(Value::I32(x as i32))
        } else {
            Err(Error::OutOfRange)
        },
        Schema::I64 => Ok(Value::I64(x)),
        Schema::U8 => if 0 <= x && x <= u8::MAX as i64 {
            Ok(Value::U8(x as u8))
        } else {
            Err(Error::OutOfRange)
        },
        Schema::U16 => if 0 <= x && x <= u16::MAX as i64 {
            Ok(Value::U16(x as u16))
        } else {
            Err(Error::OutOfRange)
        },
        Schema::U32 => if 0 <= x && x <= u32::MAX as i64 {
            Ok(Value::U32(x as u32))
        } else {
            Err(Error::OutOfRange)
        },
        _ => if 0 <= x {
            Ok(Value::U64(x as u64))
        } else {
            Err(Error::OutOfRange)
        },
    }
}


/// Decodes the elements of a sequence walk from position `from`, in
/// order, until the first null.
fn decode_seq(items: &Vec<Object>, from: usize, t: &Schema) -> (r: Result<Vec<Value>, Error>)
    requires
        from <= items.len(),
    ensures
        vals_result(r) == decoded_run(
            objs_view(items@),
            from as int,
            run_end(objs_view(items@), from as int),
            t@,
        ),
        r matches Ok(vs) ==> from + vs.len() == run_end(objs_view(items@), from as int),
    decreases items, t, 0nat,
{
    let ghost iv = objs_view(items@);
    proof {
        lemma_objs_view(items@);
    }
    let mut out: Vec<Value> = Vec::new();
    let mut i: usize = from;
    while i < items.len()
        invariant
            from <= i <= items.len(),
            out.len() == i - from,
            iv == objs_view(items@),
            iv.len() == items.len(),
            forall|j: int| 0 <= j < items.len() ==> #[trigger] iv[j] == items@[j]@,
            forall|j: int| from <= j < i ==> !(#[trigger] iv[j] is Null),
            decoded_run(iv, from as int, i as int, t@) == Ok::<Seq<ValView>, Error>(
                vals_view(out@),
            ),
        ensures
            i == items.len() || iv[i as int] is Null,
            decoded_run(iv, from as int, i as int, t@) == Ok::<Seq<ValView>, Error>(
                vals_view(out@),
            ),
            forall|j: int| from <= j < i ==> !(#[trigger] iv[j] is Null),
            from <= i <= items.len(),
            out.len() == i - from,
        decreases items.len() - i,
    {
        if items[i].is_null() {
            break;
        }
        match from_object(&items[i], t) {
            Ok(v) => {
                let ghost before = out@;
                out.push(v);
                proof {
                    assert(out@.drop_last() =~= before);
                }
                i = i + 1;
            },
            Err(e) => {
                proof {
                    lemma_run_end(iv, from as int, i as int + 1);
                    lemma_run_err(iv, from as int, i as int + 1, run_end(iv, from as int), t@);
                }
                return Err(e);
            },
        }
    }
    proof {
        lemma_run_end(iv, from as int, i as int);
    }
    Ok(out)
}

/// A forward-only walk over the elements of a host sequence.
///
/// The walk stops at the first null element, as the host's head/tail
/// protocol does; once stopped it stays stopped.
pub struct SeqCursor<'a> {
    items: &'a Vec<Object>,
    pos: usize,
}

impl<'a> SeqCursor<'a> {
    /// The elements walked over.
    pub closed spec fn items(&self) -> Seq<ObjView> {
        objs_view(self.items@)
    }

    /// The position of the next element.
    pub closed spec fn pos(&self) -> int {
        self.pos as int
    }

    pub open spec fn wf(&self) -> bool {
        0 <= self.pos() <= self.items().len()
    }

    /// Whether the walk has stopped: no element left, or a null head.
    pub open spec fn exhausted(&self) -> bool {
        self.pos() >= self.items().len() || self.items()[self.pos()] is Null
    }

    /// A walk from the first element of `items`.
    pub fn new(items: &'a Vec<Object>) -> (r: SeqCursor<'a>)
        ensures
            r.wf(),
            r.items() == objs_view(items@),
            r.pos() == 0,
    {
        proof {
            lemma_objs_view(items@);
        }
        SeqCursor { items, pos: 0 }
    }

    /// The next element, or `None` once the walk has stopped.
    pub fn next_element(&mut self) -> (r: Option<&'a Object>)
        requires
            old(self).wf(),
        ensures
            final(self).wf(),
            final(self).items() == old(self).items(),
            old(self).exhausted() ==> r is None && final(self).pos() == old(self).pos(),
            !old(self).exhausted() ==> (r matches Option::Some(o) && o@ == old(self).items()[old(
                self,
            ).pos()] && final(self).pos() == old(self).pos() + 1),
    {
        proof {
            lemma_objs_view(self.items@);
        }
        if self.pos >= self.items.len() || self.items[self.pos].is_null() {
            return Option::None;
        }
        let o = &self.items[self.pos];
        self.pos = self.pos + 1;
        Option::Some(o)
    }

    /// Decodes every element left in the walk with one shape, in order.
    /// On success the walk has stopped.
    pub fn decode_remaining(&mut self, t: &Schema) -> (r: Result<Vec<Value>, Error>)
        requires
            old(self).wf(),
        ensures
            final(self).wf(),
            final(self).items() == old(self).items(),
            vals_result(r) == decoded_run(
                old(self).items(),
                old(self).pos(),
                run_end(old(self).items(), old(self).pos()),
                t@,
            ),
            r is Ok ==> final(self).pos() == run_end(old(self).items(), old(self).pos()),
            r is Ok ==> final(self).exhausted(),
    {
        proof {
            lemma_objs_view(self.items@);
        }
        let r = decode_seq(self.items, self.pos, t);
        match r {
            Ok(vs) => {
                proof {
                    lemma_run_end(self.items(), self.pos(), self.pos());
                    lemma_run_end_stops(self.items(), self.pos());
                    assert(self.items().len() == self.items.len());
                    assert(run_end(self.items(), self.pos()) <= self.items.len());
                    assert(self.pos + vs.len() == run_end(self.items(), self.pos()));
                }
                self.pos = self.pos + vs.len();
                Ok(vs)
            },
            Err(e) => Err(e),
        }
    }
}

/// Decodes one element per shape from a sequence walk.
fn decode_tuple(obj: &Object, ts: &Vec<Schema>) -> (r: Result<Vec<Value>, Error>)
    ensures
        vals_result(r) == decoded_tuple(obj@, schemas_view(ts@)),
    decreases obj, ts, 1nat,
{
    match obj {
        Object::Vector(items) => decode_elements(items, ts),
        Object::Null => {
            if ts.len() > 0 {
                return Err(Error::InvalidLength);
            }
            Ok(Vec::new())
        },
        _ => Err(Error::TypeMismatch(Kind::Sequence)),
    }
}

/// Decodes the first element with the first shape, and so on; the walk
/// must not stop before every shape has had its element.
fn decode_elements(items: &Vec<Object>, ts: &Vec<Schema>) -> (r: Result<Vec<Value>, Error>)
    ensures
        vals_result(r) == decoded_tuple(ObjView::Vector(objs_view(items@)), schemas_view(ts@)),
    decreases items, ts, 0nat,
{
    let ghost tv = schemas_view(ts@);
    proof {
        lemma_schemas_view(ts@);
    }
    let ghost iv = objs_view(items@);
    proof {
        lemma_objs_view(items@);
    }
    let mut out: Vec<Value> = Vec::new();
    let mut i: usize = 0;
    while i < ts.len()
        invariant
            i <= ts.len(),
            i <= items.len(),
            tv == schemas_view(ts@),
            tv.len() == ts.len(),
            forall|j: int| 0 <= j < ts.len() ==> #[trigger] tv[j] == ts@[j]@,
            iv == objs_view(items@),
            iv.len() == items.len(),
            forall|j: int| 0 <= j < items.len() ==> #[trigger] iv[j] == items@[j]@,
            forall|j: int| 0 <= j < i ==> !(#[trigger] iv[j] is Null),
            decoded_prefix(iv, tv, i as int) == Ok::<Seq<ValView>, Error>(vals_view(out@)),
        decreases ts.len() - i,
    {
        if i >= items.len() || items[i].is_null() {
            proof {
                lemma_run_end(iv, 0, i as int);
            }
            return Err(Error::InvalidLength);
        }
        match from_object(&items[i], &ts[i]) {
            Ok(v) => {
                let ghost before = out@;
                out.push(v);
                proof {
                    assert(out@.drop_last() =~= before);
                }
                i = i + 1;
            },
            Err(e) => {
                proof {
                    lemma_run_end(iv, 0, i as int + 1);
                    let end = run_end(iv, 0);
                    let n = if end < tv.len() { end } else { tv.len() as int };
                    lemma_prefix_err(iv, tv, i as int + 1, n);
                }
                return Err(e);
            },
        }
    }
    proof {
        lemma_run_end(iv, 0, i as int);
    }
    Ok(out)
}

/// Decodes each map entry in order, key before value.
fn decode_entries(entries: &Vec<(Object, Object)>, k: &Schema, v: &Schema) -> (r: Result<
    Vec<(Value, Value)>,
    Error,
>)
    ensures
        pairs_result(r) == decoded_entries(entries_view(entries@), k@, v@, entries@.len() as int),
    decreases entries, k, 0nat,
{
    let ghost ev = entries_view(entries@);
    proof {
        lemma_entries_view(entries@);
    }
    let mut out: Vec<(Value, Value)> = Vec::new();
    let mut i: usize = 0;
    while i < entries.len()
        invariant
            i <= entries.len(),
            ev == entries_view(entries@),
            ev.len() == entries.len(),
            forall|j: int|
                0 <= j < entries.len() ==> #[trigger] ev[j] == (entries@[j].0@, entries@[j].1@),
            decoded_entries(ev, k@, v@, i as int) == Ok::<Seq<(ValView, ValView)>, Error>(
                val_pairs_view(out@),
            ),
        decreases entries.len() - i,
    {
        let kv = match from_object(&entries[i].0, k) {
            Ok(kv) => kv,
            Err(e) => {
                proof {
                    lemma_entries_err(ev, k@, v@, i as int + 1, ev.len() as int);
                }
                return Err(e);
            },
        };
        let vv = match from_object(&entries[i].1, v) {
            Ok(vv) => vv,
            Err(e) => {
                proof {
                    lemma_entries_err(ev, k@, v@, i as int + 1, ev.len() as int);
                }
                return Err(e);
            },
        };
        let ghost before = out@;
        out.push((kv, vv));
        proof {
            assert(out@.drop_last() =~= before);
        }
        i = i + 1;
    }
    Ok(out)
}

/// Decodes a struct from a map whose keys name its fields.
fn decode_struct(obj: &Object, fields: &Vec<(String, Schema)>) -> (r: Result<
    Vec<(String, Value)>,
    Error,
>)
    ensures
        fields_result(r) == decoded_struct(obj@, named_view(fields@)),
    decreases obj, fields, 1nat,
{
    match obj {
        Object::Dict(entries) => decode_fields(entries, fields),
        _ => Err(Error::TypeMismatch(Kind::Dict)),
    }
}

/// Fills each field from the entry whose key names it, then lists the
/// fields in declaration order.
fn decode_fields(entries: &Vec<(Object, Object)>, fields: &Vec<(String, Schema)>) -> (r: Result<
    Vec<(String, Value)>,
    Error,
>)
    ensures
        fields_result(r) == decoded_struct(ObjView::Dict(entries_view(entries@)), named_view(fields@)),
    decreases entries, fields, 0nat,
{
    let ghost fv = named_view(fields@);
    proof {
        lemma_named_view(fields@);
    }
    let ghost ev = entries_view(entries@);
    proof {
        lemma_entries_view(entries@);
    }
    let mut slots: Vec<Option<Value>> = Vec::new();
    while slots.len() < fields.len()
        invariant
            slots.len() <= fields.len(),
            forall|j: int| 0 <= j < slots.len() ==> #[trigger] slots@[j] is None,
        decreases fields.len() - slots.len(),
    {
        slots.push(Option::None);
    }
    assert(slots_view(slots@) =~= Seq::new(fv.len(), |j: int| Option::<ValView>::None));
    let mut i: usize = 0;
    while i < entries.len()
        invariant
            i <= entries.len(),
            ev == entries_view(entries@),
            ev.len() == entries.len(),
            forall|j: int|
                0 <= j < entries.len() ==> #[trigger] ev[j] == (entries@[j].0@, entries@[j].1@),
            fv == named_view(fields@),
            fv.len() == fields.len(),
            forall|j: int| 0 <= j < fields.len() ==> #[trigger] fv[j] == (fields@[j].0@, fields@[j].1@),
            slots.len() == fields.len(),
            filled_slots(ev, fv, i as int) == Ok::<Seq<Option<ValView>>, Error>(slots_view(slots@)),
        decreases entries.len() - i,
    {
        let name = match name_of(&entries[i].0) {
            Option::Some(name) => name,
            Option::None => {
                proof {
                    lemma_slots_err(ev, fv, i as int + 1, ev.len() as int);
                }
                return Err(Error::TypeMismatch(Kind::String));
            },
        };
        let j = match find_field(fields, &name) {
            Option::Some(j) => j,
            Option::None => {
                proof {
                    lemma_slots_err(ev, fv, i as int + 1, ev.len() as int);
                }
                return Err(Error::UnsupportedOperation);
            },
        };
        proof {
            lemma_index_of(fv, name@);
        }
        if slots[j].is_some() {
            proof {
                assert(slots_view(slots@)[j as int] is Some);
                lemma_slots_err(ev, fv, i as int + 1, ev.len() as int);
            }
            return Err(Error::DuplicateField);
        }
        let v = match from_object(&entries[i].1, &fields[j].1) {
            Ok(v) => v,
            Err(e) => {
                proof {
                    lemma_slots_err(ev, fv, i as int + 1, ev.len() as int);
                }
                return Err(e);
            },
        };
        let ghost before = slots@;
        let ghost vv = v@;
        slots.set(j, Option::Some(v));
        proof {
            assert(slots_view(slots@) =~= slots_view(before).update(j as int, Option::Some(vv)));
        }
        i = i + 1;
    }
    let ghost filled = slots_view(slots@);
    let mut m: usize = 0;
    while m < fields.len()
        invariant
            ev == entries_view(entries@),
            filled_slots(ev, fv, ev.len() as int) == Ok::<Seq<Option<ValView>>, Error>(filled),
            m <= fields.len(),
            slots.len() == fields.len(),
            filled == slots_view(slots@),
            fv == named_view(fields@),
            fv.len() == fields.len(),
            forall|j: int| 0 <= j < fields.len() ==> #[trigger] fv[j] == (fields@[j].0@, fields@[j].1@),
            forall|j: int|
                0 <= j < m ==> !(#[trigger] filled[j] is None && !(fv[j].1 is Optional)),
        decreases fields.len() - m,
    {
        let optional = match &fields[m].1 {
            Schema::Optional(_) => true,
            _ => false,
        };
        if slots[m].is_none() && !optional {
            proof {
                assert(filled[m as int] is None && !(fv[m as int].1 is Optional));
                assert(collected(fv, filled) == Err::<Seq<(Seq<char>, ValView)>, Error>(
                    Error::MissingField,
                ));
            }
            return Err(Error::MissingField);
        }
        m = m + 1;
    }
    let mut out: Vec<(String, Value)> = Vec::new();
    let mut m: usize = 0;
    while m < fields.len()
        invariant
            ev == entries_view(entries@),
            filled_slots(ev, fv, ev.len() as int) == Ok::<Seq<Option<ValView>>, Error>(filled),
            forall|j: int|
                0 <= j < fields.len() ==> !(#[trigger] filled[j] is None && !(fv[j].1 is Optional)),
            filled.len() == fields.len(),
            m <= fields.len(),
            slots.len() == fields.len(),
            fv == named_view(fields@),
            fv.len() == fields.len(),
            forall|j: int| 0 <= j < fields.len() ==> #[trigger] fv[j] == (fields@[j].0@, fields@[j].1@),
            forall|j: int| m <= j < fields.len() ==> #[trigger] opt_view(slots@[j]) == filled[j],
            out.len() == m,
            forall|j: int|
                0 <= j < m ==> (#[trigger] out@[j]).0@ == fv[j].0 && out@[j].1@ == match filled[j] {
                    Option::Some(v) => v,
                    Option::None => ValView::Optional(Option::None),
                },
        decreases fields.len() - m,
    {
        let mut taken: Option<Value> = Option::None;
        let ghost slot = filled[m as int];
        assert(opt_view(slots@[m as int]) == slot);
        slots.set_and_swap(m, &mut taken);
        let v = match taken {
            Option::Some(v) => v,
            Option::None => Value::Optional(Option::None),
        };
        assert(v@ == match slot {
            Option::Some(x) => x,
            Option::None => ValView::Optional(Option::None),
        });
        out.push((fields[m].0.clone(), v));
        m = m + 1;
    }
    proof {
        lemma_fields_view(out@);
        assert(fields_view(out@) =~= collected(fv, filled)->Ok_0);
    }
    Ok(out)
}

/// Decodes an enum value: a bare keyword, or a single-entry map from the
/// variant's name to its payload.
fn decode_enum(obj: &Object, variants: &Vec<(String, VariantSchema)>) -> (r: Result<Value, Error>)
    ensures
        result_view(r) == decoded_enum(obj@, variants_view(variants@)),
    decreases obj, variants, 1nat,
{
    let ghost vv = variants_view(variants@);
    proof {
        lemma_variants_view(variants@);
    }
    match obj {
        Object::Keyword(name) => {
            let j = match find_variant(variants, name) {
                Option::Some(j) => j,
                Option::None => return Err(Error::UnknownVariant),
            };
            proof {
                lemma_index_of(vv, name@);
            }
            match &variants[j].1 {
                VariantSchema::Unit => Ok(Value::UnitVariant(name.clone())),
                _ => Err(Error::TypeMismatch(Kind::Enum)),
            }
        },
        Object::Dict(entries) => {
            proof {
                lemma_entries_view(entries@);
            }
            if entries.len() != 1 {
                return Err(Error::TypeMismatch(Kind::Enum));
            }
            let name = match name_of(&entries[0].0) {
                Option::Some(name) => name,
                Option::None => return Err(Error::TypeMismatch(Kind::String)),
            };
            let j = match find_variant(variants, &name) {
                Option::Some(j) => j,
                Option::None => return Err(Error::UnknownVariant),
            };
            proof {
                lemma_index_of(vv, name@);
            }
            let payload = &entries[0].1;
            match &variants[j].1 {
                VariantSchema::Unit => Err(Error::TypeMismatch(Kind::Enum)),
                VariantSchema::Newtype(t) => match from_object(payload, t) {
                    Ok(v) => Ok(Value::NewtypeVariant(name, Box::new(v))),
                    Err(e) => Err(e),
                },
                VariantSchema::Tuple(ts) => match decode_tuple(payload, ts) {
                    Ok(vs) => Ok(Value::TupleVariant(name, vs)),
                    Err(e) => Err(e),
                },
                VariantSchema::Struct(fs) => match decode_struct(payload, fs) {
                    Ok(fvs) => Ok(Value::StructVariant(name, fvs)),
                    Err(e) => Err(e),
                },
            }
        },
        _ => Err(Error::TypeMismatch(Kind::Enum)),
    }
}

/// Decodes a host object into the typed value that `schema` asks for.
///
/// Integers of any boxed width are read and must fit the requested width;
/// a float of the other width is handed on as found; a string is read from
/// a string or a keyword's name; null reads as `None` for an option. A
/// sequence walk stops at the first null element.
pub fn from_object(obj: &Object, schema: &Schema) -> (r: Result<Value, Error>)
    ensures
        result_view(r) == decoded(obj@, schema@),
    decreases obj, schema, 2nat,
{
    match schema {
        Schema::I8 | Schema::I16 | Schema::I32 | Schema::I64 | Schema::U8 | Schema::U16
        | Schema::U32 | Schema::U64 => decode_int(obj, schema),
        Schema::Bool => match obj {
            Object::Boolean(b) => Ok(Value::Bool(*b)),
            _ => Err(Error::TypeMismatch(Kind::Boolean)),
        },
        Schema::F32 => match obj {
            Object::Float(b) => Ok(Value::F32(*b)),
            Object::Double(b) => Ok(Value::F64(*b)),
            _ => Err(Error::TypeMismatch(Kind::Float)),
        },
        Schema::F64 => match obj {
            Object::Double(b) => Ok(Value::F64(*b)),
            Object::Float(b) => Ok(Value::F32(*b)),
            _ => Err(Error::TypeMismatch(Kind::Float)),
        },
        Schema::Char => match obj {
            Object::Str(t) => {
                if t.as_str().unicode_len() == 1 {
                    Ok(Value::Char(t.as_str().get_char(0)))
                } else {
                    Err(Error::TypeMismatch(Kind::Char))
                }
            },
            _ => Err(Error::TypeMismatch(Kind::Char)),
        },
        Schema::Str => match name_of(obj) {
            Option::Some(t) => Ok(Value::Str(t)),
            Option::None => Err(Error::TypeMismatch(Kind::String)),
        },
        Schema::Bytes => match obj {
            Object::Bytes(b) => Ok(Value::Bytes(copy_bytes(b))),
            _ => Err(Error::TypeMismatch(Kind::Bytes)),
        },
        Schema::Unit => match obj {
            Object::Null => Ok(Value::Unit),
            _ => Err(Error::TypeMismatch(Kind::Null)),
        },
        Schema::Optional(t) => {
            if obj.is_null() {
                Ok(Value::Optional(Option::None))
            } else {
                match from_object(obj, t) {
                    Ok(v) => Ok(Value::Optional(Option::Some(Box::new(v)))),
                    Err(e) => Err(e),
                }
            }
        },
        Schema::Sequence(t) => match obj {
            Object::Vector(items) => match decode_seq(items, 0, t) {
                Ok(vs) => Ok(Value::Sequence(vs)),
                Err(e) => Err(e),
            },
            Object::Null => {
                let out: Vec<Value> = Vec::new();
                assert(vals_view(out@) =~= Seq::<ValView>::empty());
                Ok(Value::Sequence(out))
            },
            _ => Err(Error::TypeMismatch(Kind::Sequence)),
        },
        Schema::Tuple(ts) => match decode_tuple(obj, ts) {
            Ok(vs) => Ok(Value::Sequence(vs)),
            Err(e) => Err(e),
        },
        Schema::Dict(k, v) => match obj {
            Object::Dict(entries) => {
                proof {
                    lemma_entries_view(entries@);
                }
                match decode_entries(entries, k, v) {
                    Ok(ps) => Ok(Value::Dict(ps)),
                    Err(e) => Err(e),
                }
            },
            _ => Err(Error::TypeMismatch(Kind::Dict)),
        },
        Schema::Struct(fields) => match decode_struct(obj, fields) {
            Ok(fs) => Ok(Value::Struct(fs)),
            Err(e) => Err(e),
        },
        Schema::Enum(variants) => decode_enum(obj, variants),
        Schema::Any => Err(Error::UnsupportedOperation),
    }
}

} // verus!
