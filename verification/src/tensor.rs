//! A contiguous host tensor: a shape, its elements in row-major order and the
//! element kind the elements stand for.
use vstd::prelude::*;

verus! {

/// The element kinds a tensor can be tagged with.
#[derive(Clone, Copy, PartialEq, Eq, Debug, Structural)]
pub enum DType {
    F64,
    F32,
    F16,
    BF16,
    I64,
    U8,
}

/// Number of elements of a row-major tensor of the given shape.
pub open spec fn shape_numel(shape: Seq<usize>) -> nat
    decreases shape.len(),
{
    if shape.len() == 0 {
        1
    } else {
        shape_numel(shape.drop_last()) * (shape.last() as nat)
    }
}

/// A contiguous tensor: `data` holds the elements of `shape` in row-major order.
pub struct HostTensor<T> {
    pub shape: Vec<usize>,
    pub data: Vec<T>,
    pub dtype: DType,
}

impl<T> HostTensor<T> {
    /// The element count matches the shape.
    pub open spec fn wf(&self) -> bool {
        self.data.len() == shape_numel(self.shape@)
    }

    /// Builds a tensor from its elements, its shape and its element kind.
    pub fn new(data: Vec<T>, shape: Vec<usize>, dtype: DType) -> (r: Self)
        ensures
            r.data@ == data@,
            r.shape@ == shape@,
            r.dtype == dtype,
    {
        HostTensor { shape, data, dtype }
    }

    /// The same elements under another shape with the same element count.
    pub fn reshape(self, shape: Vec<usize>) -> (r: Self)
        ensures
            r.data@ == self.data@,
            r.shape@ == shape@,
            r.dtype == self.dtype,
    {
        HostTensor { shape, data: self.data, dtype: self.dtype }
    }
}

/// Element count of a five-dimensional shape, as a plain product.
pub open spec fn numel5(s: Seq<usize>) -> int {
    s[0] * s[1] * s[2] * s[3] * s[4]
}

pub proof fn lemma_numel_5(s: Seq<usize>)
    requires
        s.len() == 5,
    ensures
        shape_numel(s) == numel5(s),
{
    reveal_with_fuel(shape_numel, 6);
    assert(s.drop_last().drop_last().drop_last().drop_last().drop_last() =~= Seq::<usize>::empty());
}

pub proof fn lemma_numel_4(s: Seq<usize>)
    requires
        s.len() == 4,
    ensures
        shape_numel(s) == s[0] * s[1] * s[2] * s[3],
{
    reveal_with_fuel(shape_numel, 5);
    assert(s.drop_last().drop_last().drop_last().drop_last() =~= Seq::<usize>::empty());
}

pub proof fn lemma_numel_3(s: Seq<usize>)
    requires
        s.len() == 3,
    ensures
        shape_numel(s) == s[0] * s[1] * s[2],
{
    reveal_with_fuel(shape_numel, 4);
    let s2 = s.drop_last();
    let s1 = s2.drop_last();
    let s0 = s1.drop_last();
    assert(s0 =~= Seq::<usize>::empty());
    assert(shape_numel(s0) == 1);
    assert(s1.last() == s[0] && s2.last() == s[1] && s.last() == s[2]);
    assert(shape_numel(s1) == shape_numel(s0) * (s1.last() as nat));
    assert(shape_numel(s1) == s[0]) by (nonlinear_arith)
        requires
            shape_numel(s1) == shape_numel(s0) * (s1.last() as nat),
            shape_numel(s0) == 1,
            s1.last() == s[0],
    ;
    assert(shape_numel(s2) == s[0] * s[1]);
}

/// The element count of two shapes laid side by side is the product of
/// their element counts.
pub proof fn lemma_numel_concat(a: Seq<usize>, b: Seq<usize>)
    ensures
        shape_numel(a + b) == shape_numel(a) * shape_numel(b),
    decreases b.len(),
{
    if b.len() == 0 {
        assert(a + b =~= a);
        assert(shape_numel(b) == 1);
    } else {
        let b0 = b.drop_last();
        lemma_numel_concat(a, b0);
        assert((a + b).drop_last() =~= a + b0);
        assert((a + b).last() == b.last());
        let x = shape_numel(a);
        let y = shape_numel(b0);
        let z = b.last() as nat;
        assert(shape_numel(a + b) == shape_numel(a + b0) * z);
        assert(shape_numel(b) == y * z);
        assert(x * y * z == x * (y * z)) by (nonlinear_arith);
        assert(shape_numel(a + b) == x * y * z);
    }
}

/// A shape splits around axis `d` into the counts before it, its own extent
/// and the counts after it.
pub proof fn lemma_numel_split(s: Seq<usize>, d: int)
    requires
        0 <= d < s.len(),
    ensures
        shape_numel(s) == shape_numel(s.take(d)) * (s[d] as nat) * shape_numel(s.skip(d + 1)),
{
    let head = s.take(d);
    let mid = seq![s[d]];
    let tail = s.skip(d + 1);
    assert(s =~= head + (mid + tail));
    lemma_numel_concat(head, mid + tail);
    lemma_numel_concat(mid, tail);
    reveal_with_fuel(shape_numel, 2);
    assert(mid.drop_last() =~= Seq::<usize>::empty());
    assert(shape_numel(mid) == s[d] as nat);
    let x = shape_numel(head);
    let y = s[d] as nat;
    let z = shape_numel(tail);
    assert(x * (y * z) == x * y * z) by (nonlinear_arith);
}

} // verus!
