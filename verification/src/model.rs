//! Owned model data: named, shaped tensors of 16-bit quantized elements, and
//! the well-formedness conditions the loader establishes and the engine
//! relies on.

use vstd::prelude::*;

verus! {

/// One named parameter tensor: a shape of positive dimension sizes and a flat
/// buffer of 16-bit quantized elements, stored row-major.
pub struct Tensor {
    pub name: Vec<u8>,
    pub shape: Vec<u16>,
    pub data: Vec<u16>,
}

/// The mathematical image of a [`Tensor`].
#[verifier::ext_equal]
pub struct TensorView {
    pub name: Seq<u8>,
    pub shape: Seq<u16>,
    pub data: Seq<u16>,
}

impl View for Tensor {
    type V = TensorView;

    open spec fn view(&self) -> TensorView {
        TensorView { name: self.name@, shape: self.shape@, data: self.data@ }
    }
}

/// The parsed, owned representation of a loaded model: an ordered sequence of
/// named tensors.  Immutable after construction; a model state swaps whole
/// values of this type.
pub struct ModelWeights {
    pub tensors: Vec<Tensor>,
}

impl View for ModelWeights {
    type V = Seq<TensorView>;

    open spec fn view(&self) -> Seq<TensorView> {
        Seq::new(self.tensors@.len(), |i: int| self.tensors@[i]@)
    }
}

/// The number of elements a shape describes: the product of its dimension
/// sizes (one, for an empty shape).
pub open spec fn shape_product(s: Seq<u16>) -> nat
    decreases s.len(),
{
    if s.len() == 0 {
        1
    } else {
        shape_product(s.drop_last()) * (s.last() as nat)
    }
}

/// Every dimension size of `s` is positive.
pub open spec fn dims_positive(s: Seq<u16>) -> bool {
    forall|i: int| 0 <= i < s.len() ==> (#[trigger] s[i]) >= 1
}

/// Well-formedness of one tensor: the fields fit the 16-bit descriptor
/// fields of the buffer format, the dimensions are positive, and the element
/// buffer holds exactly one element per shape cell.
pub open spec fn tensor_wf(t: TensorView) -> bool {
    &&& t.name.len() <= 0xFFFF
    &&& t.shape.len() <= 0xFFFF
    &&& dims_positive(t.shape)
    &&& t.data.len() == shape_product(t.shape)
    &&& 2 * t.data.len() <= 0xFFFF
}

/// Well-formedness of a whole model: every tensor is well formed and the
/// tensor count fits the 32-bit header field.
pub open spec fn model_wf(m: Seq<TensorView>) -> bool {
    &&& m.len() <= 0xFFFF_FFFF
    &&& forall|i: int| 0 <= i < m.len() ==> tensor_wf(#[trigger] m[i])
}

/// A well-formed model stays well formed when its first tensor is removed,
/// and that tensor is itself well formed.
pub proof fn lemma_model_wf_drop_first(m: Seq<TensorView>)
    requires
        model_wf(m),
        m.len() > 0,
    ensures
        model_wf(m.drop_first()),
        tensor_wf(m[0]),
{
    assert(forall|i: int|
        0 <= i < m.drop_first().len() ==> #[trigger] m.drop_first()[i] == m[i + 1]);
}

/// Appending one dimension multiplies the element count by it.
pub proof fn lemma_shape_product_push(s: Seq<u16>, d: u16)
    ensures
        shape_product(s.push(d)) == shape_product(s) * (d as nat),
{
    assert(s.push(d).drop_last() =~= s);
}

/// With positive dimensions, the element count of a prefix never exceeds the
/// element count of the whole shape.
pub proof fn lemma_shape_product_prefix(s: Seq<u16>, j: int)
    requires
        dims_positive(s),
        0 <= j <= s.len(),
    ensures
        shape_product(s.take(j)) <= shape_product(s),
    decreases s.len(),
{
    if j == s.len() {
        assert(s.take(j) =~= s);
    } else {
        assert(s.drop_last().take(j) =~= s.take(j));
        assert(dims_positive(s.drop_last()));
        lemma_shape_product_prefix(s.drop_last(), j);
        assert(shape_product(s) == shape_product(s.drop_last()) * (s.last() as nat));
        assert(s.last() >= 1);
        assert(shape_product(s.drop_last()) * (s.last() as nat) >= shape_product(s.drop_last()) * 1)
            by (nonlinear_arith)
            requires
                s.last() >= 1,
        ;
    }
}

} // verus!
