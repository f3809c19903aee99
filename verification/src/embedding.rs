use vstd::prelude::*;
use crate::matrix_int8::MatrixInt8;

verus! {

/// An 8-bit quantized matrix presented as an embedding table: a token
/// id selects one row.
pub struct EmbeddingINT8 {
    weight: MatrixInt8,
}

impl View for EmbeddingINT8 {
    type V = crate::matrix_int8::Int8Model;

    closed spec fn view(&self) -> crate::matrix_int8::Int8Model {
        self.weight@
    }
}

impl EmbeddingINT8 {
    pub fn new(weight: MatrixInt8) -> (r: Self)
        ensures
            r@ == weight@,
    {
        EmbeddingINT8 { weight }
    }

    pub fn weight(&self) -> (r: &MatrixInt8)
        ensures
            r@ == self@,
    {
        &self.weight
    }

    /// The packed cells of the row of one token.
    pub fn row_codes(&self, token: usize) -> (r: Vec<i8>)
        requires
            token < self@.spec_rows(),
        ensures
            r@ == self@.int8_values.subrange(
                token * self@.spec_cols(), (token + 1) * self@.spec_cols()),
    {
        self.weight.row_codes(token)
    }
}

} // verus!
