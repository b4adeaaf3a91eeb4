use vstd::prelude::*;

verus! {

/// A typed value, as the typed-value layer presents it one shape at a time.
///
/// `F32` and `F64` hold the IEEE-754 bits of the number. A `Struct` or a
/// struct variant lists its fields in declaration order.
#[derive(Debug, PartialEq)]
pub enum Value {
    Bool(bool),
    I8(i8),
    I16(i16),
    I32(i32),
    I64(i64),
    U8(u8),
    U16(u16),
    U32(u32),
    U64(u64),
    F32(u32),
    F64(u64),
    Char(char),
    Str(String),
    Bytes(Vec<u8>),
    Unit,
    Optional(Option<Box<Value>>),
    Sequence(Vec<Value>),
    Dict(Vec<(Value, Value)>),
    Struct(Vec<(String, Value)>),
    UnitVariant(String),
    NewtypeVariant(String, Box<Value>),
    TupleVariant(String, Vec<Value>),
    StructVariant(String, Vec<(String, Value)>),
}

/// The mathematical model of a [`Value`].
pub ghost enum ValView {
    Bool(bool),
    I8(i8),
    I16(i16),
    I32(i32),
    I64(i64),
    U8(u8),
    U16(u16),
    U32(u32),
    U64(u64),
    F32(u32),
    F64(u64),
    Char(char),
    Str(Seq<char>),
    Bytes(Seq<u8>),
    Unit,
    Optional(Option<Box<ValView>>),
    Sequence(Seq<ValView>),
    Dict(Seq<(ValView, ValView)>),
    Struct(Seq<(Seq<char>, ValView)>),
    UnitVariant(Seq<char>),
    NewtypeVariant(Seq<char>, Box<ValView>),
    TupleVariant(Seq<char>, Seq<ValView>),
    StructVariant(Seq<char>, Seq<(Seq<char>, ValView)>),
}

/// The models of a sequence of values, element by element.
pub open spec fn vals_view(s: Seq<Value>) -> Seq<ValView>
    decreases s,
{
    if s.len() == 0 {
        Seq::empty()
    } else {
        vals_view(s.drop_last()).push(s.last().view())
    }
}

/// The models of a sequence of key/value pairs, pair by pair.
pub open spec fn val_pairs_view(s: Seq<(Value, Value)>) -> Seq<(ValView, ValView)>
    decreases s,
{
    if s.len() == 0 {
        Seq::empty()
    } else {
        val_pairs_view(s.drop_last()).push((s.last().0.view(), s.last().1.view()))
    }
}

/// The models of a sequence of named fields, field by field.
pub open spec fn fields_view(s: Seq<(String, Value)>) -> Seq<(Seq<char>, ValView)>
    decreases s,
{
    if s.len() == 0 {
        Seq::empty()
    } else {
        fields_view(s.drop_last()).push((s.last().0@, s.last().1.view()))
    }
}

impl View for Value {
    type V = ValView;

    open spec fn view(&self) -> ValView
        decreases self,
    {
        match self {
            Value::Bool(b) => ValView::Bool(*b),
            Value::I8(x) => ValView::I8(*x),
            Value::I16(x) => ValView::I16(*x),
            Value::I32(x) => ValView::I32(*x),
            Value::I64(x) => ValView::I64(*x),
            Value::U8(x) => ValView::U8(*x),
            Value::U16(x) => ValView::U16(*x),
            Value::U32(x) => ValView::U32(*x),
            Value::U64(x) => ValView::U64(*x),
            Value::F32(x) => ValView::F32(*x),
            Value::F64(x) => ValView::F64(*x),
            Value::Char(c) => ValView::Char(*c),
            Value::Str(s) => ValView::Str(s@),
            Value::Bytes(b) => ValView::Bytes(b@),
            Value::Unit => ValView::Unit,
            Value::Optional(o) => match o {
                Option::Some(x) => ValView::Optional(Option::Some(Box::new((**x).view()))),
                Option::None => ValView::Optional(Option::None),
            },
            Value::Sequence(v) => ValView::Sequence(vals_view(v@)),
            Value::Dict(v) => ValView::Dict(val_pairs_view(v@)),
            Value::Struct(v) => ValView::Struct(fields_view(v@)),
            Value::UnitVariant(n) => ValView::UnitVariant(n@),
            Value::NewtypeVariant(n, x) => ValView::NewtypeVariant(n@, Box::new((**x).view())),
            Value::TupleVariant(n, v) => ValView::TupleVariant(n@, vals_view(v@)),
            Value::StructVariant(n, v) => ValView::StructVariant(n@, fields_view(v@)),
        }
    }
}

/// Each element of `vals_view(s)` is the model of the matching value.
pub proof fn lemma_vals_view(s: Seq<Value>)
    ensures
        vals_view(s).len() == s.len(),
        forall|i: int| 0 <= i < s.len() ==> #[trigger] vals_view(s)[i] == s[i]@,
    decreases s.len(),
{
    if s.len() > 0 {
        lemma_vals_view(s.drop_last());
        assert(vals_view(s) == vals_view(s.drop_last()).push(s.last().view()));
    } else {
        assert(vals_view(s) == Seq::<ValView>::empty());
    }
}

/// Each element of `val_pairs_view(s)` is the model of the matching pair.
pub proof fn lemma_val_pairs_view(s: Seq<(Value, Value)>)
    ensures
        val_pairs_view(s).len() == s.len(),
        forall|i: int|
            0 <= i < s.len() ==> #[trigger] val_pairs_view(s)[i] == (s[i].0@, s[i].1@),
    decreases s.len(),
{
    if s.len() > 0 {
        lemma_val_pairs_view(s.drop_last());
        assert(val_pairs_view(s) == val_pairs_view(s.drop_last()).push(
            (s.last().0.view(), s.last().1.view()),
        ));
    } else {
        assert(val_pairs_view(s) == Seq::<(ValView, ValView)>::empty());
    }
}

/// Each element of `fields_view(s)` is the model of the matching field.
pub proof fn lemma_fields_view(s: Seq<(String, Value)>)
    ensures
        fields_view(s).len() == s.len(),
        forall|i: int| 0 <= i < s.len() ==> #[trigger] fields_view(s)[i] == (s[i].0@, s[i].1@),
    decreases s.len(),
{
    if s.len() > 0 {
        lemma_fields_view(s.drop_last());
        assert(fields_view(s) == fields_view(s.drop_last()).push((s.last().0@, s.last().1.view())));
    } else {
        assert(fields_view(s) == Seq::<(Seq<char>, ValView)>::empty());
    }
}

} // verus!
