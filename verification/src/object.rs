use vstd::prelude::*;
use std::rc::Rc;

verus! {

/// A binary object: an immutable byte sequence `data` together with an
/// ordered list `refs` of child objects. A string is an object whose `data`
/// is its UTF-8 bytes and whose `refs` is empty; a list is an object with
/// empty `data` and `refs` set. Children are shared, so copying is cheap and
/// semantically a plain copy.
pub struct Object {
    pub data: Vec<u8>,
    pub refs: Vec<Rc<Object>>,
}

/// The mathematical value of an object: its bytes and its children.
#[verifier::ext_equal]
pub ghost struct ObjView {
    pub data: Seq<u8>,
    pub refs: Seq<Object>,
}

impl View for Object {
    type V = ObjView;

    open spec fn view(&self) -> ObjView {
        ObjView { data: self.data@, refs: Seq::new(self.refs@.len(), |i: int| *self.refs@[i]) }
    }
}

/// Relies on Rc::clone from std: the returned handle is the same value.
#[verifier::external_body]
pub fn rc_dup<T>(v: &Rc<T>) -> (r: Rc<T>)
    ensures
        r == *v,
{
    Rc::clone(v)
}

/// Pairwise concatenation of two object views.
pub open spec fn concat_view(a: ObjView, b: ObjView) -> ObjView {
    ObjView { data: a.data + b.data, refs: a.refs + b.refs }
}

/// The view of an object that wraps `o` as a one-element list.
pub open spec fn intoref_view(o: Object) -> ObjView {
    ObjView { data: Seq::empty(), refs: seq![o] }
}

fn copy_bytes_into(dst: &mut Vec<u8>, src: &Vec<u8>)
    ensures
        final(dst)@ == old(dst)@ + src@,
{
    let mut i: usize = 0;
    while i < src.len()
        invariant
            0 <= i <= src.len(),
            dst@ == old(dst)@ + src@.subrange(0, i as int),
        decreases src.len() - i,
    {
        dst.push(src[i]);
        i = i + 1;
    }
    assert(dst@ =~= old(dst)@ + src@);
}

fn copy_refs_into(dst: &mut Vec<Rc<Object>>, src: &Vec<Rc<Object>>)
    ensures
        final(dst)@ == old(dst)@ + src@,
{
    let mut i: usize = 0;
    while i < src.len()
        invariant
            0 <= i <= src.len(),
            dst@ == old(dst)@ + src@.subrange(0, i as int),
        decreases src.len() - i,
    {
        dst.push(rc_dup(&src[i]));
        i = i + 1;
    }
    assert(dst@ =~= old(dst)@ + src@);
}

proof fn lemma_refs_view_append(a: Seq<Rc<Object>>, b: Seq<Rc<Object>>)
    ensures
        Seq::new((a + b).len(), |i: int| *(a + b)[i]) == Seq::new(a.len(), |i: int| *a[i]) + Seq::new(
            b.len(),
            |i: int| *b[i],
        ),
{
    assert(Seq::new((a + b).len(), |i: int| *(a + b)[i]) =~= Seq::new(a.len(), |i: int| *a[i])
        + Seq::new(b.len(), |i: int| *b[i]));
}

impl Object {
    /// The empty object: no bytes, no children.
    pub fn empty() -> (r: Object)
        ensures
            r@.data == Seq::<u8>::empty(),
            r@.refs == Seq::<Object>::empty(),
    {
        let r = Object { data: Vec::new(), refs: Vec::new() };
        assert(r@.refs =~= Seq::<Object>::empty());
        r
    }

    /// An object holding the given bytes and no children.
    pub fn from_bytes(data: Vec<u8>) -> (r: Object)
        ensures
            r@.data == data@,
            r@.refs == Seq::<Object>::empty(),
    {
        let r = Object { data, refs: Vec::new() };
        assert(r@.refs =~= Seq::<Object>::empty());
        r
    }

    /// An object holding the given children and no bytes.
    pub fn from_refs(refs: Vec<Rc<Object>>) -> (r: Object)
        ensures
            r@.data == Seq::<u8>::empty(),
            r@.refs == Seq::new(refs@.len(), |i: int| *refs@[i]),
    {
        Object { data: Vec::new(), refs }
    }

    /// The byte sequence of this object.
    pub fn data(&self) -> (r: &Vec<u8>)
        ensures
            r@ == self@.data,
    {
        &self.data
    }

    /// The children of this object.
    pub fn refs(&self) -> (r: &Vec<Rc<Object>>)
        ensures
            r@.len() == self@.refs.len(),
            forall|i: int| 0 <= i < r@.len() ==> *r@[i] == self@.refs[i],
    {
        &self.refs
    }

    /// Pairwise concatenation: bytes after bytes, children after children.
    pub fn concat(&self, rhs: &Object) -> (r: Object)
        ensures
            r@ == concat_view(self@, rhs@),
    {
        let mut data: Vec<u8> = Vec::new();
        copy_bytes_into(&mut data, &self.data);
        copy_bytes_into(&mut data, &rhs.data);
        let mut refs: Vec<Rc<Object>> = Vec::new();
        copy_refs_into(&mut refs, &self.refs);
        copy_refs_into(&mut refs, &rhs.refs);
        proof {
            lemma_refs_view_append(self.refs@, rhs.refs@);
        }
        let r = Object { data, refs };
        assert(r@ =~= concat_view(self@, rhs@));
        r
    }

    /// The sub-object given by a byte range and a child range.
    pub fn slice(&self, data: core::ops::Range<usize>, refs: core::ops::Range<usize>) -> (r:
        Object)
        requires
            data.start <= data.end <= self@.data.len(),
            refs.start <= refs.end <= self@.refs.len(),
        ensures
            r@.data == self@.data.subrange(data.start as int, data.end as int),
            r@.refs == self@.refs.subrange(refs.start as int, refs.end as int),
    {
        let mut d: Vec<u8> = Vec::new();
        let mut i: usize = data.start;
        while i < data.end
            invariant
                data.start <= i <= data.end <= self.data@.len(),
                d@ == self.data@.subrange(data.start as int, i as int),
            decreases data.end - i,
        {
            d.push(self.data[i]);
            i = i + 1;
            assert(d@ =~= self.data@.subrange(data.start as int, i as int));
        }
        let mut rs: Vec<Rc<Object>> = Vec::new();
        let mut j: usize = refs.start;
        while j < refs.end
            invariant
                refs.start <= j <= refs.end <= self.refs@.len(),
                rs@ == self.refs@.subrange(refs.start as int, j as int),
            decreases refs.end - j,
        {
            rs.push(rc_dup(&self.refs[j]));
            j = j + 1;
            assert(rs@ =~= self.refs@.subrange(refs.start as int, j as int));
        }
        let r = Object { data: d, refs: rs };
        assert(r@.data =~= self@.data.subrange(data.start as int, data.end as int));
        assert(r@.refs =~= self@.refs.subrange(refs.start as int, refs.end as int));
        r
    }

    /// Wraps this object as the only child of a new object.
    pub fn intoref(self: Rc<Object>) -> (r: Object)
        ensures
            r@ == intoref_view(*self),
    {
        let mut refs: Vec<Rc<Object>> = Vec::new();
        refs.push(self);
        let r = Object { data: Vec::new(), refs };
        assert(r@ =~= intoref_view(*r.refs@[0]));
        r
    }
}

/// Concatenation of objects is associative, on bytes and on children alike.
pub proof fn lemma_concat_associative(a: ObjView, b: ObjView, c: ObjView)
    ensures
        concat_view(concat_view(a, b), c) == concat_view(a, concat_view(b, c)),
{
    assert(concat_view(concat_view(a, b), c) =~= concat_view(a, concat_view(b, c)));
}

/// Wrapping an object as a one-element list and taking the child at index
/// zero gives back the original object.
pub proof fn lemma_intoref_roundtrip(o: Object)
    ensures
        intoref_view(o).refs.len() == 1,
        intoref_view(o).refs[0] == o,
{
}

} // verus!
