use vstd::prelude::*;

verus! {

/// The shape that a decode asks for, supplied by the caller.
#[derive(Debug, PartialEq)]
pub enum Schema {
    Bool,
    I8,
    I16,
    I32,
    I64,
    U8,
    U16,
    U32,
    U64,
    F32,
    F64,
    Char,
    Str,
    Bytes,
    Unit,
    Optional(Box<Schema>),
    /// A sequence whose elements all have the given shape.
    Sequence(Box<Schema>),
    /// A fixed number of elements, each with its own shape.
    Tuple(Vec<Schema>),
    Dict(Box<Schema>, Box<Schema>),
    /// Named fields, in declaration order.
    Struct(Vec<(String, Schema)>),
    /// Named variants.
    Enum(Vec<(String, VariantSchema)>),
    /// No shape at all: asks the decoder to guess, which it refuses.
    Any,
}

/// The payload shape of one enum variant.
#[derive(Debug, PartialEq)]
pub enum VariantSchema {
    Unit,
    Newtype(Box<Schema>),
    Tuple(Vec<Schema>),
    Struct(Vec<(String, Schema)>),
}

/// The mathematical model of a [`Schema`].
pub ghost enum SchemaView {
    Bool,
    I8,
    I16,
    I32,
    I64,
    U8,
    U16,
    U32,
    U64,
    F32,
    F64,
    Char,
    Str,
    Bytes,
    Unit,
    Optional(Box<SchemaView>),
    Sequence(Box<SchemaView>),
    Tuple(Seq<SchemaView>),
    Dict(Box<SchemaView>, Box<SchemaView>),
    Struct(Seq<(Seq<char>, SchemaView)>),
    Enum(Seq<(Seq<char>, VariantView)>),
    Any,
}

/// The mathematical model of a [`VariantSchema`].
pub ghost enum VariantView {
    Unit,
    Newtype(Box<SchemaView>),
    Tuple(Seq<SchemaView>),
    Struct(Seq<(Seq<char>, SchemaView)>),
}

pub open spec fn schema_view(s: Schema) -> SchemaView
    decreases s,
{
    match s {
        Schema::Bool => SchemaView::Bool,
        Schema::I8 => SchemaView::I8,
        Schema::I16 => SchemaView::I16,
        Schema::I32 => SchemaView::I32,
        Schema::I64 => SchemaView::I64,
        Schema::U8 => SchemaView::U8,
        Schema::U16 => SchemaView::U16,
        Schema::U32 => SchemaView::U32,
        Schema::U64 => SchemaView::U64,
        Schema::F32 => SchemaView::F32,
        Schema::F64 => SchemaView::F64,
        Schema::Char => SchemaView::Char,
        Schema::Str => SchemaView::Str,
        Schema::Bytes => SchemaView::Bytes,
        Schema::Unit => SchemaView::Unit,
        Schema::Optional(t) => SchemaView::Optional(Box::new(schema_view(*t))),
        Schema::Sequence(t) => SchemaView::Sequence(Box::new(schema_view(*t))),
        Schema::Tuple(ts) => SchemaView::Tuple(schemas_view(ts@)),
        Schema::Dict(k, v) => SchemaView::Dict(
            Box::new(schema_view(*k)),
            Box::new(schema_view(*v)),
        ),
        Schema::Struct(fs) => SchemaView::Struct(named_view(fs@)),
        Schema::Enum(vs) => SchemaView::Enum(variants_view(vs@)),
        Schema::Any => SchemaView::Any,
    }
}

pub open spec fn variant_view(v: VariantSchema) -> VariantView
    decreases v,
{
    match v {
        VariantSchema::Unit => VariantView::Unit,
        VariantSchema::Newtype(t) => VariantView::Newtype(Box::new(schema_view(*t))),
        VariantSchema::Tuple(ts) => VariantView::Tuple(schemas_view(ts@)),
        VariantSchema::Struct(fs) => VariantView::Struct(named_view(fs@)),
    }
}

/// The models of a sequence of schemas, in order.
pub open spec fn schemas_view(s: Seq<Schema>) -> Seq<SchemaView>
    decreases s,
{
    if s.len() == 0 {
        Seq::empty()
    } else {
        schemas_view(s.drop_last()).push(schema_view(s.last()))
    }
}

/// The models of named field schemas, in order.
pub open spec fn named_view(s: Seq<(String, Schema)>) -> Seq<(Seq<char>, SchemaView)>
    decreases s,
{
    if s.len() == 0 {
        Seq::empty()
    } else {
        named_view(s.drop_last()).push((s.last().0@, schema_view(s.last().1)))
    }
}

/// The models of named variant schemas, in order.
pub open spec fn variants_view(s: Seq<(String, VariantSchema)>) -> Seq<(Seq<char>, VariantView)>
    decreases s,
{
    if s.len() == 0 {
        Seq::empty()
    } else {
        variants_view(s.drop_last()).push((s.last().0@, variant_view(s.last().1)))
    }
}

impl View for Schema {
    type V = SchemaView;

    open spec fn view(&self) -> SchemaView {
        schema_view(*self)
    }
}

impl View for VariantSchema {
    type V = VariantView;

    open spec fn view(&self) -> VariantView {
        variant_view(*self)
    }
}

pub proof fn lemma_schemas_view(s: Seq<Schema>)
    ensures
        schemas_view(s).len() == s.len(),
        forall|i: int| 0 <= i < s.len() ==> #[trigger] schemas_view(s)[i] == s[i]@,
    decreases s.len(),
{
    if s.len() > 0 {
        lemma_schemas_view(s.drop_last());
        assert(schemas_view(s) == schemas_view(s.drop_last()).push(schema_view(s.last())));
    } else {
        assert(schemas_view(s) == Seq::<SchemaView>::empty());
    }
}

pub proof fn lemma_named_view(s: Seq<(String, Schema)>)
    ensures
        named_view(s).len() == s.len(),
        forall|i: int| 0 <= i < s.len() ==> #[trigger] named_view(s)[i] == (s[i].0@, s[i].1@),
    decreases s.len(),
{
    if s.len() > 0 {
        lemma_named_view(s.drop_last());
        assert(named_view(s) == named_view(s.drop_last()).push(
            (s.last().0@, schema_view(s.last().1)),
        ));
    } else {
        assert(named_view(s) == Seq::<(Seq<char>, SchemaView)>::empty());
    }
}

pub proof fn lemma_variants_view(s: Seq<(String, VariantSchema)>)
    ensures
        variants_view(s).len() == s.len(),
        forall|i: int| 0 <= i < s.len() ==> #[trigger] variants_view(s)[i] == (s[i].0@, s[i].1@),
    decreases s.len(),
{
    if s.len() > 0 {
        lemma_variants_view(s.drop_last());
        assert(variants_view(s) == variants_view(s.drop_last()).push(
            (s.last().0@, variant_view(s.last().1)),
        ));
    } else {
        assert(variants_view(s) == Seq::<(Seq<char>, VariantView)>::empty());
    }
}

} // verus!
