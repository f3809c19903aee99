use vstd::prelude::*;

verus! {

/// The parameters of one additively-quantized linear operator: two
/// codebooks of 256 eight-wide codewords, a per-output scale, and the
/// packed code indices. Numeric cells are carried as 32-bit patterns.
pub struct LinearAQLM {
    codebooks: Vec<u32>,
    scales: Vec<u32>,
    codes: Vec<u8>,
    out_dim: usize,
    in_group_dim: usize,
}

/// The mathematical image of an AQLM operator.
pub struct AqlmModel {
    pub codebooks: Seq<u32>,
    pub scales: Seq<u32>,
    pub codes: Seq<u8>,
    pub out_dim: int,
    pub in_group_dim: int,
}

impl View for LinearAQLM {
    type V = AqlmModel;

    closed spec fn view(&self) -> AqlmModel {
        AqlmModel {
            codebooks: self.codebooks@,
            scales: self.scales@,
            codes: self.codes@,
            out_dim: self.out_dim as int,
            in_group_dim: self.in_group_dim as int,
        }
    }
}

impl AqlmModel {
    /// The sizes the kernel relies on: one code per codebook per input
    /// group per output, one scale per output.
    pub open spec fn wf(self) -> bool {
        &&& self.codes.len() == self.in_group_dim * 2 * self.out_dim
        &&& self.scales.len() == self.out_dim
        &&& self.in_group_dim * 8 <= usize::MAX
    }
}

impl LinearAQLM {
    #[verifier::type_invariant]
    spec fn inv(self) -> bool {
        self@.wf()
    }

    pub fn new(
        codebooks: Vec<u32>,
        scales: Vec<u32>,
        codes: Vec<u8>,
        out_dim: usize,
        in_group_dim: usize,
    ) -> (r: Self)
        requires
            codes@.len() == (in_group_dim as int) * 2 * (out_dim as int),
            scales@.len() == out_dim,
            (in_group_dim as int) * 8 <= usize::MAX,
        ensures
            r@ == (AqlmModel {
                codebooks: codebooks@,
                scales: scales@,
                codes: codes@,
                out_dim: out_dim as int,
                in_group_dim: in_group_dim as int,
            }),
            r@.wf(),
    {
        LinearAQLM { codebooks, scales, codes, out_dim, in_group_dim }
    }

    /// The operator's shape: `out_dim` rows of `in_group_dim * 8`
    /// inputs each.
    pub fn shape(&self) -> (r: (usize, usize))
        ensures
            r.0 == self@.out_dim,
            r.1 == self@.in_group_dim * 8,
    {
        proof {
            use_type_invariant(self);
        }
        (self.out_dim, self.in_group_dim * 8)
    }

    pub fn codebooks(&self) -> (r: &Vec<u32>)
        ensures
            r@ == self@.codebooks,
    {
        &self.codebooks
    }

    pub fn scales(&self) -> (r: &Vec<u32>)
        ensures
            r@ == self@.scales,
    {
        &self.scales
    }

    pub fn codes(&self) -> (r: &Vec<u8>)
        ensures
            r@ == self@.codes,
            r@.len() == self@.in_group_dim * 2 * self@.out_dim,
    {
        proof {
            use_type_invariant(self);
        }
        &self.codes
    }

    pub fn out_dim(&self) -> (r: usize)
        ensures
            r == self@.out_dim,
    {
        self.out_dim
    }

    pub fn in_group_dim(&self) -> (r: usize)
        ensures
            r == self@.in_group_dim,
    {
        self.in_group_dim
    }
}

/// The index of a packed code: the outer axis is the input group, the
/// middle axis the codebook, the inner axis the output. This layout is
/// load-bearing for the kernel's memory access pattern.
pub fn get_codes_120(
    in_group_dim: usize,
    out_dim: usize,
    codebook_idx: usize,
    in_group_idx: usize,
    out_idx: usize,
) -> (r: usize)
    requires
        codebook_idx < 2,
        in_group_idx < in_group_dim,
        out_idx < out_dim,
        (in_group_dim as int) * 2 * (out_dim as int) <= usize::MAX,
    ensures
        r == (in_group_idx as int) * (2 * (out_dim as int))
            + (codebook_idx as int) * (out_dim as int) + (out_idx as int),
        r < (in_group_dim as int) * 2 * (out_dim as int),
{
    proof {
        assert((in_group_idx as int) * (2 * (out_dim as int))
            + (codebook_idx as int) * (out_dim as int) + (out_idx as int)
            < (in_group_dim as int) * 2 * (out_dim as int)) by (nonlinear_arith)
            requires
                codebook_idx < 2,
                in_group_idx < in_group_dim,
                out_idx < out_dim,
        {}
        assert(2 * (out_dim as int) <= (in_group_dim as int) * 2 * (out_dim as int))
            by (nonlinear_arith)
            requires 1 <= in_group_dim as int, 0 <= out_dim as int
        {}
    }
    in_group_idx * (2 * out_dim) + codebook_idx * out_dim + out_idx
}

/// The index of a lookup-table entry: batch, input group, codebook,
/// code, with 256 codes per codebook and 2 codebooks per group.
pub fn get_lut_0123(
    batch_size: usize,
    in_group_dim: usize,
    batch_idx: usize,
    code_idx: usize,
    codebook_idx: usize,
    in_group_idx: usize,
) -> (r: usize)
    requires
        batch_idx < batch_size,
        code_idx < 256,
        codebook_idx < 2,
        in_group_idx < in_group_dim,
        (batch_size as int) * ((in_group_dim as int) * 2 * 256) <= usize::MAX,
    ensures
        r == (batch_idx as int) * ((in_group_dim as int) * 2 * 256)
            + (in_group_idx as int) * (2 * 256) + (codebook_idx as int) * 256
            + (code_idx as int),
        r < (batch_size as int) * ((in_group_dim as int) * 2 * 256),
{
    proof {
        assert((batch_idx as int) * ((in_group_dim as int) * 2 * 256)
            + (in_group_idx as int) * (2 * 256) + (codebook_idx as int) * 256
            + (code_idx as int)
            < (batch_size as int) * ((in_group_dim as int) * 2 * 256)) by (nonlinear_arith)
            requires
                batch_idx < batch_size,
                code_idx < 256,
                codebook_idx < 2,
                in_group_idx < in_group_dim,
        {}
        assert((in_group_dim as int) * 2 <= (in_group_dim as int) * 2 * 256
            && (in_group_dim as int) * 2 * 256
                <= (batch_size as int) * ((in_group_dim as int) * 2 * 256))
            by (nonlinear_arith)
            requires 1 <= batch_size as int, 0 <= in_group_dim as int
        {}
    }
    batch_idx * (in_group_dim * 2 * 256) + in_group_idx * (2 * 256) + codebook_idx * 256
        + code_idx
}

} // verus!
