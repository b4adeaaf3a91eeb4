use vstd::prelude::*;

use crate::de::{
    collected, decoded, decoded_entries, decoded_prefix, decoded_run, decoded_struct,
    decoded_enum, decoded_tuple, filled_slots, index_of, lemma_index_of, lemma_run_end,
    lemma_run_end_stops, run_end,
};
use crate::error::{Error, Kind};
use crate::object::ObjView;
use crate::schema::{SchemaView, VariantView};
use crate::ser::{
    encoded, encoded_all, encoded_fields, encoded_pairs, lemma_encoded_all, lemma_encoded_fields,
    lemma_encoded_pairs,
};
use crate::value::ValView;

verus! {

/// Whether no two fields of a struct schema share a name.
pub open spec fn distinct_names(fs: Seq<(Seq<char>, SchemaView)>) -> bool {
    forall|i: int, j: int|
        0 <= i < fs.len() && 0 <= j < fs.len() && i != j ==> #[trigger] fs[i].0 != #[trigger] fs[j].0
}

/// Whether a value encodes to something other than the host's null, so that
/// a sequence walk or an option does not read it as absent.
pub open spec fn not_null(v: ValView) -> bool {
    !(encoded(v) is Null)
}

/// Whether `v` has the shape `s` and stays clear of the codec's lossy
/// cases: a `u64` above the signed 64-bit range, and a null inside an
/// option or a sequence (the option would read as `None`, the sequence
/// would end there).
pub open spec fn round_trips(v: ValView, s: SchemaView) -> bool
    decreases v,
{
    match v {
        ValView::Bool(_) => s is Bool,
        ValView::I8(_) => s is I8,
        ValView::I16(_) => s is I16,
        ValView::I32(_) => s is I32,
        ValView::I64(_) => s is I64,
        ValView::U8(_) => s is U8,
        ValView::U16(_) => s is U16,
        ValView::U32(_) => s is U32,
        ValView::U64(x) => s is U64 && x <= i64::MAX,
        ValView::F32(_) => s is F32,
        ValView::F64(_) => s is F64,
        ValView::Char(_) => s is Char,
        ValView::Str(_) => s is Str,
        ValView::Bytes(_) => s is Bytes,
        ValView::Unit => s is Unit,
        ValView::Optional(o) => match s {
            SchemaView::Optional(t) => match o {
                Option::None => true,
                Option::Some(x) => round_trips(*x, *t) && not_null(*x),
            },
            _ => false,
        },
        ValView::Sequence(items) => match s {
            SchemaView::Sequence(t) => forall|i: int|
                0 <= i < items.len() ==> round_trips(#[trigger] items[i], *t) && not_null(items[i]),
            SchemaView::Tuple(ts) => items.len() == ts.len() && forall|i: int|
                0 <= i < items.len() ==> round_trips(#[trigger] items[i], ts[i]) && not_null(items[i]),
            _ => false,
        },
        ValView::Dict(pairs) => match s {
            SchemaView::Dict(k, t) => forall|i: int|
                0 <= i < pairs.len() ==> round_trips(#[trigger] pairs[i].0, *k) && round_trips(
                    pairs[i].1,
                    *t,
                ),
            _ => false,
        },
        ValView::Struct(fields) => match s {
            SchemaView::Struct(fs) => fields_round_trip(fields, fs),
            _ => false,
        },
        ValView::UnitVariant(n) => match s {
            SchemaView::Enum(vs) => index_of(vs, n) >= 0 && vs[index_of(vs, n)].1 is Unit,
            _ => false,
        },
        ValView::NewtypeVariant(n, x) => match s {
            SchemaView::Enum(vs) => index_of(vs, n) >= 0 && match vs[index_of(vs, n)].1 {
                VariantView::Newtype(t) => round_trips(*x, *t),
                _ => false,
            },
            _ => false,
        },
        ValView::TupleVariant(n, items) => match s {
            SchemaView::Enum(vs) => index_of(vs, n) >= 0 && match vs[index_of(vs, n)].1 {
                VariantView::Tuple(ts) => items.len() == ts.len() && forall|i: int|
                    0 <= i < items.len() ==> round_trips(#[trigger] items[i], ts[i]) && not_null(
                        items[i],
                    ),
                _ => false,
            },
            _ => false,
        },
        ValView::StructVariant(n, fields) => match s {
            SchemaView::Enum(vs) => index_of(vs, n) >= 0 && match vs[index_of(vs, n)].1 {
                VariantView::Struct(fs) => fields_round_trip(fields, fs),
                _ => false,
            },
            _ => false,
        },
    }
}

/// Whether struct fields match a struct schema field by field, names and
/// shapes, the schema's names being distinct.
pub open spec fn fields_round_trip(
    fields: Seq<(Seq<char>, ValView)>,
    fs: Seq<(Seq<char>, SchemaView)>,
) -> bool
    decreases fields,
{
    &&& fields.len() == fs.len()
    &&& distinct_names(fs)
    &&& forall|i: int|
        0 <= i < fields.len() ==> (#[trigger] fields[i]).0 == fs[i].0 && round_trips(
            fields[i].1,
            fs[i].1,
        )
}


proof fn lemma_run_ok(objs: Seq<ObjView>, t: SchemaView, vals: Seq<ValView>, n: int)
    requires
        objs.len() == vals.len(),
        0 <= n <= objs.len(),
        forall|i: int| 0 <= i < n ==> decoded(#[trigger] objs[i], t) == Ok::<ValView, Error>(vals[i]),
    ensures
        decoded_run(objs, 0, n, t) == Ok::<Seq<ValView>, Error>(vals.take(n)),
    decreases n,
{
    if n > 0 {
        lemma_run_ok(objs, t, vals, n - 1);
        assert(vals.take(n - 1).push(vals[n - 1]) =~= vals.take(n));
    } else {
        assert(vals.take(0) =~= Seq::<ValView>::empty());
    }
}

proof fn lemma_prefix_ok(objs: Seq<ObjView>, ts: Seq<SchemaView>, vals: Seq<ValView>, n: int)
    requires
        objs.len() == vals.len(),
        objs.len() == ts.len(),
        0 <= n <= objs.len(),
        forall|i: int|
            0 <= i < n ==> decoded(#[trigger] objs[i], ts[i]) == Ok::<ValView, Error>(vals[i]),
    ensures
        decoded_prefix(objs, ts, n) == Ok::<Seq<ValView>, Error>(vals.take(n)),
    decreases n,
{
    if n > 0 {
        lemma_prefix_ok(objs, ts, vals, n - 1);
        assert(vals.take(n - 1).push(vals[n - 1]) =~= vals.take(n));
    } else {
        assert(vals.take(0) =~= Seq::<ValView>::empty());
    }
}

proof fn lemma_entries_ok(
    entries: Seq<(ObjView, ObjView)>,
    k: SchemaView,
    t: SchemaView,
    pairs: Seq<(ValView, ValView)>,
    n: int,
)
    requires
        entries.len() == pairs.len(),
        0 <= n <= entries.len(),
        forall|i: int|
            0 <= i < n ==> decoded((#[trigger] entries[i]).0, k) == Ok::<ValView, Error>(
                pairs[i].0,
            ) && decoded(entries[i].1, t) == Ok::<ValView, Error>(pairs[i].1),
    ensures
        decoded_entries(entries, k, t, n) == Ok::<Seq<(ValView, ValView)>, Error>(pairs.take(n)),
    decreases n,
{
    if n > 0 {
        lemma_entries_ok(entries, k, t, pairs, n - 1);
        assert(pairs.take(n - 1).push(pairs[n - 1]) =~= pairs.take(n));
    } else {
        assert(pairs.take(0) =~= Seq::<(ValView, ValView)>::empty());
    }
}

proof fn lemma_slots_ok(
    entries: Seq<(ObjView, ObjView)>,
    fs: Seq<(Seq<char>, SchemaView)>,
    vals: Seq<ValView>,
    n: int,
)
    requires
        entries.len() == fs.len(),
        vals.len() == fs.len(),
        distinct_names(fs),
        0 <= n <= entries.len(),
        forall|i: int|
            0 <= i < entries.len() ==> (#[trigger] entries[i]).0 == ObjView::Keyword(fs[i].0)
                && decoded(entries[i].1, fs[i].1) == Ok::<ValView, Error>(vals[i]),
    ensures
        filled_slots(entries, fs, n) == Ok::<Seq<Option<ValView>>, Error>(
            Seq::new(
                fs.len(),
                |j: int|
                    if j < n {
                        Option::Some(vals[j])
                    } else {
                        Option::None
                    },
            ),
        ),
    decreases n,
{
    let full = Seq::new(
        fs.len(),
        |j: int|
            if j < n {
                Option::Some(vals[j])
            } else {
                Option::None
            },
    );
    if n > 0 {
        lemma_slots_ok(entries, fs, vals, n - 1);
        let prev = Seq::new(
            fs.len(),
            |j: int|
                if j < n - 1 {
                    Option::Some(vals[j])
                } else {
                    Option::None
                },
        );
        let name = fs[n - 1].0;
        lemma_index_of(fs, name);
        let j = index_of(fs, name);
        assert(entries[n - 1].0 == ObjView::Keyword(name));
        if j != n - 1 {
            assert(fs[j].0 == fs[n - 1].0);
        }
        assert(prev[n - 1] is None);
        assert(prev.update(n - 1, Option::Some(vals[n - 1])) =~= full);
    } else {
        assert(Seq::new(fs.len(), |j: int| Option::<ValView>::None) =~= full);
    }
}


proof fn lemma_tuple_round_trip(items: Seq<ValView>, ts: Seq<SchemaView>)
    requires
        items.len() == ts.len(),
        forall|i: int|
            0 <= i < items.len() ==> not_null(#[trigger] items[i]) && decoded(
                encoded(items[i]),
                ts[i],
            ) == Ok::<ValView, Error>(items[i]),
    ensures
        decoded_tuple(ObjView::Vector(encoded_all(items)), ts) == Ok::<Seq<ValView>, Error>(items),
{
    let objs = encoded_all(items);
    lemma_encoded_all(items);
    assert forall|j: int| 0 <= j < objs.len() implies !(#[trigger] objs[j] is Null) by {
        assert(not_null(items[j]));
    }
    lemma_run_end(objs, 0, objs.len() as int);
    assert forall|i: int| 0 <= i < objs.len() implies decoded(
        #[trigger] objs[i],
        ts[i],
    ) == Ok::<ValView, Error>(items[i]) by {
        assert(not_null(items[i]));
    }
    lemma_prefix_ok(objs, ts, items, objs.len() as int);
    assert(items.take(items.len() as int) =~= items);
}

proof fn lemma_struct_round_trip(fields: Seq<(Seq<char>, ValView)>, fs: Seq<(Seq<char>, SchemaView)>)
    requires
        fields_round_trip(fields, fs),
        forall|i: int|
            0 <= i < fields.len() ==> decoded(encoded((#[trigger] fields[i]).1), fs[i].1) == Ok::<
                ValView,
                Error,
            >(fields[i].1),
    ensures
        decoded_struct(ObjView::Dict(encoded_fields(fields)), fs) == Ok::<
            Seq<(Seq<char>, ValView)>,
            Error,
        >(fields),
{
    let entries = encoded_fields(fields);
    lemma_encoded_fields(fields);
    let vals = Seq::new(fields.len(), |i: int| fields[i].1);
    assert forall|i: int| 0 <= i < entries.len() implies (#[trigger] entries[i]).0
        == ObjView::Keyword(fs[i].0) && decoded(entries[i].1, fs[i].1) == Ok::<ValView, Error>(
        vals[i],
    ) by {
        assert(fields[i].0 == fs[i].0);
    }
    lemma_slots_ok(entries, fs, vals, entries.len() as int);
    let full = Seq::new(
        fs.len(),
        |j: int|
            if j < entries.len() {
                Option::Some(vals[j])
            } else {
                Option::None
            },
    );
    assert(filled_slots(entries, fs, entries.len() as int) == Ok::<Seq<Option<ValView>>, Error>(
        full,
    ));
    assert(!exists|j: int| 0 <= j < fs.len() && #[trigger] full[j] is None && !(fs[j].1 is Optional));
    assert forall|i: int| 0 <= i < fields.len() implies #[trigger] fields[i] == (fs[i].0, vals[i]) by {
        assert(fields[i].0 == fs[i].0);
    }
    assert(collected(fs, full)->Ok_0 =~= fields);
}

/// Round trip: decoding, with the value's own schema, what the encoder
/// made of a value gives the value back, unless the value meets one of the
/// codec's lossy cases (see `round_trips`).
pub proof fn lemma_round_trip(v: ValView, s: SchemaView)
    requires
        round_trips(v, s),
    ensures
        decoded(encoded(v), s) == Ok::<ValView, Error>(v),
    decreases v,
{
    match v {
        ValView::Optional(o) => {
            let t = s->Optional_0;
            match o {
                Option::Some(x) => {
                    lemma_round_trip(*x, *t);
                    assert(v == ValView::Optional(Option::Some(Box::new(*x))));
                },
                Option::None => {},
            }
        },
        ValView::Sequence(items) => {
            match s {
                SchemaView::Sequence(t) => {
                    let objs = encoded_all(items);
                    lemma_encoded_all(items);
                    assert forall|i: int| 0 <= i < objs.len() implies decoded(
                        #[trigger] objs[i],
                        *t,
                    ) == Ok::<ValView, Error>(items[i]) && !(objs[i] is Null) by {
                        lemma_round_trip(items[i], *t);
                    }
                    lemma_run_end(objs, 0, objs.len() as int);
                    lemma_run_ok(objs, *t, items, objs.len() as int);
                    assert(items.take(items.len() as int) =~= items);
                },
                SchemaView::Tuple(ts) => {
                    assert forall|i: int| 0 <= i < items.len() implies not_null(#[trigger] items[i])
                        && decoded(encoded(items[i]), ts[i]) == Ok::<ValView, Error>(items[i]) by {
                        lemma_round_trip(items[i], ts[i]);
                    }
                    lemma_tuple_round_trip(items, ts);
                },
                _ => {},
            }
        },
        ValView::Dict(pairs) => {
            let k = *s->Dict_0;
            let t = *s->Dict_1;
            let entries = encoded_pairs(pairs);
            lemma_encoded_pairs(pairs);
            assert forall|i: int| 0 <= i < entries.len() implies decoded(
                (#[trigger] entries[i]).0,
                k,
            ) == Ok::<ValView, Error>(pairs[i].0) && decoded(entries[i].1, t) == Ok::<
                ValView,
                Error,
            >(pairs[i].1) by {
                lemma_round_trip(pairs[i].0, k);
                lemma_round_trip(pairs[i].1, t);
            }
            lemma_entries_ok(entries, k, t, pairs, entries.len() as int);
            assert(pairs.take(pairs.len() as int) =~= pairs);
        },
        ValView::Struct(fields) => {
            let fs = s->Struct_0;
            assert(fields_round_trip(fields, fs));
            assert forall|i: int| 0 <= i < fields.len() implies decoded(
                encoded((#[trigger] fields[i]).1),
                fs[i].1,
            ) == Ok::<ValView, Error>(fields[i].1) by {
                lemma_round_trip(fields[i].1, fs[i].1);
            }
            lemma_struct_round_trip(fields, fs);
        },
        ValView::UnitVariant(n) => {
            assert(decoded_enum(encoded(v), s->Enum_0) == Ok::<ValView, Error>(v));
        },
        ValView::NewtypeVariant(n, x) => {
            let vs = s->Enum_0;
            let t = vs[index_of(vs, n)].1->Newtype_0;
            lemma_round_trip(*x, *t);
            assert(decoded_enum(encoded(v), vs) == Ok::<ValView, Error>(v));
        },
        ValView::TupleVariant(n, items) => {
            let vs = s->Enum_0;
            let ts = vs[index_of(vs, n)].1->Tuple_0;
            assert forall|i: int| 0 <= i < items.len() implies not_null(#[trigger] items[i])
                && decoded(encoded(items[i]), ts[i]) == Ok::<ValView, Error>(items[i]) by {
                lemma_round_trip(items[i], ts[i]);
            }
            lemma_tuple_round_trip(items, ts);
        },
        ValView::StructVariant(n, fields) => {
            let vs = s->Enum_0;
            let fs = vs[index_of(vs, n)].1->Struct_0;
            assert(fields_round_trip(fields, fs));
            assert forall|i: int| 0 <= i < fields.len() implies decoded(
                encoded((#[trigger] fields[i]).1),
                fs[i].1,
            ) == Ok::<ValView, Error>(fields[i].1) by {
                lemma_round_trip(fields[i].1, fs[i].1);
            }
            lemma_struct_round_trip(fields, fs);
        },
        _ => {},
    }
}


/// Enum shapes, encoding side: a unit variant encodes as a bare keyword
/// named after it; a variant with a payload encodes as a map with exactly
/// one entry, whose key is the variant's keyword.
pub proof fn lemma_enum_encoding_shape(v: ValView)
    ensures
        v matches ValView::UnitVariant(n) ==> encoded(v) == ObjView::Keyword(n),
        v matches ValView::NewtypeVariant(n, _) ==> encoded(v) is Dict && encoded(v)->Dict_0.len()
            == 1 && encoded(v)->Dict_0[0].0 == ObjView::Keyword(n),
        v matches ValView::TupleVariant(n, _) ==> encoded(v) is Dict && encoded(v)->Dict_0.len()
            == 1 && encoded(v)->Dict_0[0].0 == ObjView::Keyword(n),
        v matches ValView::StructVariant(n, _) ==> encoded(v) is Dict && encoded(v)->Dict_0.len()
            == 1 && encoded(v)->Dict_0[0].0 == ObjView::Keyword(n),
{
}

/// Enum shapes, decoding side: an enum schema accepts only a bare keyword
/// or a single-entry map, and any other host value is a type mismatch.
pub proof fn lemma_enum_decoding_shape(o: ObjView, variants: Seq<(Seq<char>, VariantView)>)
    ensures
        decoded(o, SchemaView::Enum(variants)) is Ok ==> (o is Keyword || (o is Dict
            && o->Dict_0.len() == 1)),
        !(o is Keyword) && !(o is Dict && o->Dict_0.len() == 1) ==> decoded(
            o,
            SchemaView::Enum(variants),
        ) == Err::<ValView, Error>(Error::TypeMismatch(Kind::Enum)),
{
    assert(decoded(o, SchemaView::Enum(variants)) == decoded_enum(o, variants));
}


/// Sequence single pass: a walk that has decoded every element it reaches
/// from `from` stops at the same place when asked again, and a further
/// decode from there yields no element, neither an error nor a repeat.
pub proof fn lemma_sequence_single_pass(items: Seq<ObjView>, from: int, t: SchemaView)
    requires
        0 <= from <= items.len(),
    ensures
        run_end(items, run_end(items, from)) == run_end(items, from),
        decoded_run(items, run_end(items, from), run_end(items, run_end(items, from)), t) == Ok::<
            Seq<ValView>,
            Error,
        >(Seq::empty()),
{
    let e = run_end(items, from);
    lemma_run_end(items, from, from);
    lemma_run_end_stops(items, from);
    lemma_run_end(items, e, e);
}

} // verus!
