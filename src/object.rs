use vstd::prelude::*;

verus! {

/// A value of the host runtime's object model, held as plain data.
///
/// Boxed primitives keep their exact width; `Float` and `Double` hold the
/// IEEE-754 bits of the number. `Vector` and `Dict` hold their elements in the
/// host collection's iteration order.
#[derive(Debug, PartialEq)]
pub enum Object {
    Null,
    Boolean(bool),
    Byte(i8),
    Short(i16),
    Int(i32),
    Long(i64),
    Float(u32),
    Double(u64),
    Character(u16),
    Str(String),
    Bytes(Vec<u8>),
    Keyword(String),
    Vector(Vec<Object>),
    Dict(Vec<(Object, Object)>),
}

/// The mathematical model of an [`Object`].
pub ghost enum ObjView {
    Null,
    Boolean(bool),
    Byte(i8),
    Short(i16),
    Int(i32),
    Long(i64),
    Float(u32),
    Double(u64),
    Character(u16),
    Str(Seq<char>),
    Bytes(Seq<u8>),
    Keyword(Seq<char>),
    Vector(Seq<ObjView>),
    Dict(Seq<(ObjView, ObjView)>),
}

/// The models of a sequence of objects, element by element.
pub open spec fn objs_view(s: Seq<Object>) -> Seq<ObjView>
    decreases s,
{
    if s.len() == 0 {
        Seq::empty()
    } else {
        objs_view(s.drop_last()).push(s.last().view())
    }
}

/// The models of a sequence of map entries, entry by entry.
pub open spec fn entries_view(s: Seq<(Object, Object)>) -> Seq<(ObjView, ObjView)>
    decreases s,
{
    if s.len() == 0 {
        Seq::empty()
    } else {
        entries_view(s.drop_last()).push((s.last().0.view(), s.last().1.view()))
    }
}

impl View for Object {
    type V = ObjView;

    open spec fn view(&self) -> ObjView
        decreases self,
    {
        match self {
            Object::Null => ObjView::Null,
            Object::Boolean(b) => ObjView::Boolean(*b),
            Object::Byte(x) => ObjView::Byte(*x),
            Object::Short(x) => ObjView::Short(*x),
            Object::Int(x) => ObjView::Int(*x),
            Object::Long(x) => ObjView::Long(*x),
            Object::Float(x) => ObjView::Float(*x),
            Object::Double(x) => ObjView::Double(*x),
            Object::Character(x) => ObjView::Character(*x),
            Object::Str(s) => ObjView::Str(s@),
            Object::Bytes(b) => ObjView::Bytes(b@),
            Object::Keyword(s) => ObjView::Keyword(s@),
            Object::Vector(v) => ObjView::Vector(objs_view(v@)),
            Object::Dict(v) => ObjView::Dict(entries_view(v@)),
        }
    }
}

/// Each element of `objs_view(s)` is the model of the matching object.
pub proof fn lemma_objs_view(s: Seq<Object>)
    ensures
        objs_view(s).len() == s.len(),
        forall|i: int| 0 <= i < s.len() ==> #[trigger] objs_view(s)[i] == s[i]@,
    decreases s.len(),
{
    if s.len() > 0 {
        lemma_objs_view(s.drop_last());
        assert(objs_view(s) == objs_view(s.drop_last()).push(s.last().view()));
    } else {
        assert(objs_view(s) == Seq::<ObjView>::empty());
    }
}

/// Each element of `entries_view(s)` is the model of the matching entry.
pub proof fn lemma_entries_view(s: Seq<(Object, Object)>)
    ensures
        entries_view(s).len() == s.len(),
        forall|i: int|
            0 <= i < s.len() ==> #[trigger] entries_view(s)[i] == (s[i].0@, s[i].1@),
    decreases s.len(),
{
    if s.len() > 0 {
        lemma_entries_view(s.drop_last());
        assert(entries_view(s) == entries_view(s.drop_last()).push(
            (s.last().0.view(), s.last().1.view()),
        ));
    } else {
        assert(entries_view(s) == Seq::<(ObjView, ObjView)>::empty());
    }
}

impl ObjView {
    /// The interleaved keys and values of a map's entries.
    pub open spec fn pairs_of(s: Seq<ObjView>) -> Seq<(ObjView, ObjView)> {
        Seq::new(s.len() / 2, |i: int| (s[2 * i], s[2 * i + 1]))
    }
}

impl Object {
    /// Whether the object is the host's null.
    pub fn is_null(&self) -> (r: bool)
        ensures
            r == (self@ is Null),
    {
        match self {
            Object::Null => true,
            _ => false,
        }
    }
}

} // verus!
