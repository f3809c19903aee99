use vstd::prelude::*;

verus! {

/// An 8-bit quantized matrix: a per-column scale and row-major signed
/// 8-bit cells. The scale cells are carried as 32-bit patterns.
pub struct MatrixInt8 {
    max_values: Vec<u32>,
    int8_values: Vec<i8>,
}

/// The mathematical image of an 8-bit quantized matrix.
pub struct Int8Model {
    pub max_values: Seq<u32>,
    pub int8_values: Seq<i8>,
}

impl View for MatrixInt8 {
    type V = Int8Model;

    closed spec fn view(&self) -> Int8Model {
        Int8Model { max_values: self.max_values@, int8_values: self.int8_values@ }
    }
}

impl Int8Model {
    /// One scale per column, and whole rows only.
    pub open spec fn wf(self) -> bool {
        &&& self.max_values.len() > 0
        &&& self.int8_values.len() % self.max_values.len() == 0
    }

    pub open spec fn spec_rows(self) -> int {
        self.int8_values.len() as int / self.max_values.len() as int
    }

    pub open spec fn spec_cols(self) -> int {
        self.max_values.len() as int
    }
}

impl MatrixInt8 {
    #[verifier::type_invariant]
    spec fn inv(self) -> bool {
        self@.wf()
    }

    pub fn new(max_values: Vec<u32>, int8_values: Vec<i8>) -> (r: Self)
        requires
            max_values@.len() > 0,
            int8_values@.len() % max_values@.len() == 0,
        ensures
            r@ == (Int8Model { max_values: max_values@, int8_values: int8_values@ }),
            r@.wf(),
    {
        MatrixInt8 { max_values, int8_values }
    }

    pub fn n_cols(&self) -> (r: usize)
        ensures
            r == self@.spec_cols(),
    {
        self.max_values.len()
    }

    pub fn n_rows(&self) -> (r: usize)
        ensures
            r == self@.spec_rows(),
            r * self@.spec_cols() == self@.int8_values.len(),
    {
        proof {
            use_type_invariant(self);
            vstd::arithmetic::div_mod::lemma_fundamental_div_mod(
                self.int8_values@.len() as int, self.max_values@.len() as int);
            crate::matrix::lemma_mul_commute(
                self@.spec_rows(), self.max_values@.len() as int);
        }
        self.int8_values.len() / self.max_values.len()
    }

    pub fn shape(&self) -> (r: (usize, usize))
        ensures
            r.0 == self@.spec_rows(),
            r.1 == self@.spec_cols(),
    {
        (self.n_rows(), self.n_cols())
    }

    pub fn max_values(&self) -> (r: &Vec<u32>)
        ensures
            r@ == self@.max_values,
    {
        &self.max_values
    }

    pub fn int8_values(&self) -> (r: &Vec<i8>)
        ensures
            r@ == self@.int8_values,
            self@.wf(),
    {
        proof {
            use_type_invariant(self);
        }
        &self.int8_values
    }

    /// The packed cells of row `y`.
    pub fn row_codes(&self, y: usize) -> (r: Vec<i8>)
        requires
            y < self@.spec_rows(),
        ensures
            r@ == self@.int8_values.subrange(
                y * self@.spec_cols(), (y + 1) * self@.spec_cols()),
    {
        proof {
            use_type_invariant(self);
            assert(self.int8_values.len() == self.int8_values@.len());
            vstd::arithmetic::div_mod::lemma_fundamental_div_mod(
                self.int8_values@.len() as int, self.max_values@.len() as int);
            crate::matrix::lemma_index_bound(
                self@.spec_rows(), self@.spec_cols(), y as int, 0);
            assert((y + 1) * self@.spec_cols() <= self@.int8_values.len());
        }
        crate::shard::slice_range(
            &self.int8_values, y * self.max_values.len(), (y + 1) * self.max_values.len())
    }
}

} // verus!
