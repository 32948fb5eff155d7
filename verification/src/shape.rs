//! Tensor shapes: a list of extents, outermost dimension first.

use vstd::prelude::*;

verus! {

/// The product of a list of extents. The empty list has product one.
pub open spec fn product(dims: Seq<usize>) -> nat
    decreases dims.len(),
{
    if dims.len() == 0 {
        1
    } else {
        product(dims.drop_last()) * dims.last() as nat
    }
}

/// Whether the product of `dims`, taken from the left, stays within `usize` at every step.
pub open spec fn product_fits(dims: Seq<usize>) -> bool {
    forall|i: int| 0 <= i <= dims.len() ==> #[trigger] product(dims.take(i)) <= usize::MAX
}

/// `dims` with copies of `scalar` put in front until it has at least `rank` extents.
pub open spec fn left_padded(dims: Seq<usize>, scalar: usize, rank: int) -> Seq<usize> {
    Seq::new((if dims.len() < rank { rank - dims.len() } else { 0 }) as nat, |i: int| scalar) + dims
}

/// The product of a concatenation is the product of the products.
pub proof fn law_product_of_concat(front: Seq<usize>, back: Seq<usize>)
    ensures
        product(front + back) == product(front) * product(back),
    decreases back.len(),
{
    if back.len() == 0 {
        assert(front + back =~= front);
        assert(product(back) == 1);
        assert(product(front) * 1 == product(front)) by (nonlinear_arith);
    } else {
        let whole = front + back;
        assert(whole.last() == back.last());
        assert(whole.drop_last() =~= front + back.drop_last());
        law_product_of_concat(front, back.drop_last());
        let p: int = product(front) as int;
        let q: int = product(back.drop_last()) as int;
        let r: int = back.last() as int;
        assert((p * q) * r == p * (q * r)) by (nonlinear_arith);
    }
}

/// No extents have product one, and a single extent has itself as product.
pub proof fn law_product_of_at_most_one(extent: usize)
    ensures
        product(Seq::<usize>::empty()) == 1,
        product(seq![extent]) == extent,
{
    assert(seq![extent].drop_last() =~= Seq::<usize>::empty());
    assert(product(Seq::<usize>::empty()) == 1);
    assert(product(seq![extent]) == 1 * extent as nat);
}

/// The product of no extents fits, and one more extent keeps a product in range exactly if the
/// product so far is in range and, multiplied by it, is at most `usize::MAX`.
pub proof fn law_product_fits_step_by_step(dims: Seq<usize>, extent: usize)
    ensures
        product_fits(Seq::empty()),
        product_fits(dims.push(extent)) <==> product_fits(dims) && product(dims) * extent
            <= usize::MAX,
        product_fits(dims) ==> product(dims) <= usize::MAX,
{
    let more = dims.push(extent);
    assert forall|i: int| 0 <= i <= 0 implies #[trigger] product(
        Seq::<usize>::empty().take(i),
    ) <= usize::MAX by {
        assert(Seq::<usize>::empty().take(i) =~= Seq::<usize>::empty());
    }
    assert(more.drop_last() =~= dims);
    assert(product(more) == product(dims) * extent as nat);
    assert(dims.take(dims.len() as int) =~= dims);
    assert(more.take(more.len() as int) =~= more);
    if product_fits(more) {
        assert forall|i: int| 0 <= i <= dims.len() implies #[trigger] product(dims.take(i))
            <= usize::MAX by {
            assert(more.take(i) =~= dims.take(i));
        }
    }
    if product_fits(dims) && product(dims) * extent <= usize::MAX {
        assert forall|i: int| 0 <= i <= more.len() implies #[trigger] product(more.take(i))
            <= usize::MAX by {
            if i <= dims.len() {
                assert(more.take(i) =~= dims.take(i));
            } else {
                assert(more.take(i) =~= more);
            }
        }
    }
}

/// Padding puts the scalar in front of the extents, which it keeps in order, until there are as
/// many as asked for and no more.
pub proof fn law_padding_keeps_extents(dims: Seq<usize>, scalar: usize, rank: int)
    ensures
        ({
            let padded = left_padded(dims, scalar, rank);
            let pad = padded.len() - dims.len();
            &&& padded.len() == (if dims.len() < rank { rank } else { dims.len() as int })
            &&& forall|i: int| 0 <= i < pad ==> #[trigger] padded[i] == scalar
            &&& forall|i: int| 0 <= i < dims.len() ==> #[trigger] dims[i] == padded[pad + i]
        }),
{
}

/// A list of ones has product one.
proof fn lemma_product_of_ones(n: nat)
    ensures
        product(Seq::new(n, |i: int| 1usize)) == 1,
    decreases n,
{
    let ones = Seq::new(n, |i: int| 1usize);
    if n > 0 {
        assert(ones.drop_last() =~= Seq::new((n - 1) as nat, |i: int| 1usize));
        lemma_product_of_ones((n - 1) as nat);
    }
}

/// Padding a shape with ones on the left keeps the number of elements.
pub proof fn law_padding_with_ones_keeps_product(dims: Seq<usize>, rank: int)
    ensures
        product(left_padded(dims, 1, rank)) == product(dims),
{
    let n = (if dims.len() < rank { rank - dims.len() } else { 0 }) as nat;
    lemma_product_of_ones(n);
    law_product_of_concat(Seq::new(n, |i: int| 1usize), dims);
}

/// Ones put in front of a list have no bearing on whether its product fits.
pub proof fn lemma_padding_with_ones_keeps_fit(dims: Seq<usize>, rank: int)
    ensures
        product_fits(left_padded(dims, 1, rank)) <==> product_fits(dims),
{
    let padded = left_padded(dims, 1, rank);
    let pad = padded.len() - dims.len();
    assert forall|i: int| 0 <= i <= dims.len() implies #[trigger] product(dims.take(i)) == product(
        padded.take(pad + i),
    ) by {
        assert(padded.take(pad + i) =~= left_padded(dims.take(i), 1, pad + i));
        law_padding_with_ones_keeps_product(dims.take(i), pad + i);
    }
    if product_fits(padded) {
        assert forall|i: int| 0 <= i <= dims.len() implies #[trigger] product(dims.take(i))
            <= usize::MAX by {
            assert(product(padded.take(pad + i)) <= usize::MAX);
        }
    }
    if product_fits(dims) {
        assert forall|i: int| 0 <= i <= padded.len() implies #[trigger] product(padded.take(i))
            <= usize::MAX by {
            if i < pad {
                assert(padded.take(i) =~= left_padded(Seq::empty(), 1, i));
                law_padding_with_ones_keeps_product(Seq::empty(), i);
                assert(product(Seq::<usize>::empty()) == 1);
            } else {
                assert(product(dims.take(i - pad)) == product(padded.take(pad + (i - pad))));
            }
        }
    }
}

/// Appending one extent multiplies the product by it.
pub proof fn lemma_product_step(dims: Seq<usize>, i: int)
    requires
        0 <= i < dims.len(),
    ensures
        product(dims.take(i + 1)) == product(dims.take(i)) * dims[i] as nat,
{
    assert(dims.take(i + 1).drop_last() =~= dims.take(i));
}

/// The shape of a tensor.
#[derive(Debug, PartialEq, Eq, Hash)]
pub struct Shape(Vec<usize>);

impl View for Shape {
    type V = Seq<usize>;

    closed spec fn view(&self) -> Seq<usize> {
        self.0@
    }
}

impl Clone for Shape {
    fn clone(&self) -> (copy: Self)
        ensures
            copy@ == self@,
    {
        let dims = self.0.clone();
        assert(dims@ =~= self.0@);
        Shape(dims)
    }
}

impl Shape {
    /// The shape with the given extents.
    pub fn new(dims: Vec<usize>) -> (shape: Self)
        ensures
            shape@ == dims@,
    {
        Shape(dims)
    }

    /// The shape with the given extents, each widened to `usize`.
    pub fn from_u32s(dims: &[u32]) -> (shape: Self)
        ensures
            shape@ == dims@.map_values(|d: u32| d as usize),
    {
        let mut out: Vec<usize> = Vec::new();
        let mut i: usize = 0;
        while i < dims.len()
            invariant
                i <= dims@.len(),
                out@ == dims@.take(i as int).map_values(|d: u32| d as usize),
            decreases dims@.len() - i,
        {
            out.push(dims[i] as usize);
            i = i + 1;
            assert(out@ =~= dims@.take(i as int).map_values(|d: u32| d as usize));
        }
        assert(dims@.take(i as int) =~= dims@);
        Shape(out)
    }

    /// The number of dimensions.
    pub fn rank(&self) -> (rank: usize)
        ensures
            rank == self@.len(),
    {
        self.0.len()
    }

    /// The extent of dimension `i`.
    pub fn dim(&self, i: usize) -> (extent: usize)
        requires
            i < self@.len(),
        ensures
            extent == self@[i as int],
    {
        self.0[i]
    }

    /// The number of elements.
    pub fn numel(&self) -> (n: usize)
        requires
            product_fits(self@),
        ensures
            n == product(self@),
    {
        let mut acc: usize = 1;
        let mut i: usize = 0;
        while i < self.0.len()
            invariant
                i <= self.0@.len(),
                acc == product(self.0@.take(i as int)),
                product_fits(self.0@),
            decreases self.0@.len() - i,
        {
            proof {
                lemma_product_step(self.0@, i as int);
                assert(product(self.0@.take(i + 1)) <= usize::MAX);
            }
            acc = acc * self.0[i];
            i = i + 1;
        }
        assert(self.0@.take(i as int) =~= self.0@);
        acc
    }

    /// The number of elements, or nothing if some partial product leaves `usize`.
    pub fn checked_numel(&self) -> (n: Option<usize>)
        ensures
            n is Some <==> product_fits(self@),
            n matches Some(v) ==> v == product(self@),
    {
        let mut acc: usize = 1;
        let mut i: usize = 0;
        while i < self.0.len()
            invariant
                i <= self.0@.len(),
                acc == product(self.0@.take(i as int)),
                forall|j: int|
                    0 <= j <= i ==> #[trigger] product(self.0@.take(j)) <= usize::MAX,
            decreases self.0@.len() - i,
        {
            proof {
                lemma_product_step(self.0@, i as int);
            }
            match acc.checked_mul(self.0[i]) {
                Some(next) => {
                    acc = next;
                },
                None => {
                    assert(product(self.0@.take(i + 1)) > usize::MAX);
                    return None;
                },
            }
            i = i + 1;
        }
        assert(self.0@.take(i as int) =~= self.0@);
        Some(acc)
    }

    /// Puts `extent` before dimension `i`.
    pub fn insert(&mut self, i: usize, extent: usize)
        requires
            i <= old(self)@.len(),
        ensures
            final(self)@ == old(self)@.insert(i as int, extent),
    {
        self.0.insert(i, extent);
    }

    /// Puts `scalar` in front until the shape has at least `rank` dimensions.
    pub fn left_pad_to(&mut self, scalar: usize, rank: usize)
        ensures
            final(self)@ == left_padded(old(self)@, scalar, rank as int),
    {
        let ghost start = self@;
        assert(left_padded(start, scalar, start.len() as int) =~= start);
        while self.0.len() < rank
            invariant
                start.len() <= self.0@.len(),
                self.0@.len() <= rank || self.0@ == start,
                self.0@ == left_padded(start, scalar, self.0@.len() as int),
            decreases rank - self.0@.len(),
        {
            self.0.insert(0, scalar);
            assert(self.0@ =~= left_padded(start, scalar, self.0@.len() as int));
        }
        assert(self.0@ =~= left_padded(start, scalar, rank as int));
    }

    /// The dimensions from `start` up to, not including, `end`.
    pub fn slice(&self, start: usize, end: usize) -> (part: Shape)
        requires
            start <= end <= self@.len(),
        ensures
            part@ == self@.subrange(start as int, end as int),
    {
        let mut dims: Vec<usize> = Vec::new();
        let mut i: usize = start;
        while i < end
            invariant
                start <= i <= end <= self.0@.len(),
                dims@ == self.0@.subrange(start as int, i as int),
            decreases end - i,
        {
            dims.push(self.0[i]);
            i = i + 1;
            assert(dims@ =~= self.0@.subrange(start as int, i as int));
        }
        Shape(dims)
    }

    /// Takes the first `end` dimensions out of the shape and returns them.
    pub fn drain(&mut self, end: usize) -> (front: Shape)
        requires
            end <= old(self)@.len(),
        ensures
            front@ == old(self)@.take(end as int),
            final(self)@ == old(self)@.skip(end as int),
    {
        let mut rest = self.0.split_off(end);
        std::mem::swap(&mut rest, &mut self.0);
        assert(rest@ =~= old(self)@.take(end as int));
        assert(self.0@ =~= old(self)@.skip(end as int));
        Shape(rest)
    }
}

} // verus!
