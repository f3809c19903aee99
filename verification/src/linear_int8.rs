use vstd::prelude::*;
use crate::matrix_int8::MatrixInt8;

verus! {

/// An 8-bit quantized matrix presented as a linear operator.
pub struct LinearINT8 {
    weight: MatrixInt8,
}

impl View for LinearINT8 {
    type V = crate::matrix_int8::Int8Model;

    closed spec fn view(&self) -> crate::matrix_int8::Int8Model {
        self.weight@
    }
}

impl LinearINT8 {
    pub fn new(weight: MatrixInt8) -> (r: Self)
        ensures
            r@ == weight@,
    {
        LinearINT8 { weight }
    }

    pub fn shape(&self) -> (r: (usize, usize))
        ensures
            r.0 == self@.spec_rows(),
            r.1 == self@.spec_cols(),
    {
        self.weight.shape()
    }

    pub fn weight(&self) -> (r: &MatrixInt8)
        ensures
            r@ == self@,
    {
        &self.weight
    }
}

} // verus!
