use vstd::prelude::*;
use vstd::bytes::spec_u32_from_le_bytes;
use vstd::string::StringExecFns;
use crate::error::EngineError;
use crate::matrix::Matrix;

verus! {

/// The element kinds the weight files carry.
#[derive(Clone, Copy, Debug, PartialEq, Eq, Structural)]
pub enum Dtype {
    F32,
    U8,
    I8,
}

/// One tensor as read from a weight file: raw bytes, shape, and the
/// element kind.
#[derive(Debug)]
pub struct OwnedTensor {
    pub data: Vec<u8>,
    pub shape: Vec<usize>,
    pub dtype: Dtype,
}

/// The number of elements a shape describes.
pub open spec fn spec_numel(shape: Seq<usize>) -> int
    decreases shape.len(),
{
    if shape.len() == 0 {
        1
    } else {
        (shape[0] as int) * spec_numel(shape.drop_first())
    }
}

/// One tensor as the file-format parser hands it over, with the
/// element kind still under its name in the file format.
pub struct RawTensor {
    pub name: String,
    pub dtype_name: String,
    pub shape: Vec<usize>,
    pub data: Vec<u8>,
}

/// The mathematical image of a parsed tensor.
pub struct RawTensorModel {
    pub name: Seq<char>,
    pub dtype_name: Seq<char>,
    pub shape: Seq<usize>,
    pub data: Seq<u8>,
}

impl View for RawTensor {
    type V = RawTensorModel;

    open spec fn view(&self) -> RawTensorModel {
        RawTensorModel {
            name: self.name@,
            dtype_name: self.dtype_name@,
            shape: self.shape@,
            data: self.data@,
        }
    }
}

/// The tensor a byte buffer parses to, when it is a well-formed weight
/// file holding exactly one tensor; `None` when the buffer does not
/// parse or holds another tensor count. The parse is a function of the
/// bytes alone; only the single-tensor content is named, because the
/// listing order of a multi-tensor file is not.
pub uninterp spec fn st_tensor_of(data: Seq<u8>) -> Option<RawTensorModel>;

/// A parsed tensor's byte length agrees with its shape and element
/// width: 32 bits for F32, 8 for U8 and I8.
pub open spec fn raw_tensor_sized(t: RawTensorModel) -> bool {
    &&& (t.dtype_name == "F32"@ ==> t.data.len() == 4 * spec_numel(t.shape))
    &&& (t.dtype_name == "U8"@ ==> t.data.len() == spec_numel(t.shape))
    &&& (t.dtype_name == "I8"@ ==> t.data.len() == spec_numel(t.shape))
}

/// Every parsed tensor's byte length agrees with its shape.
pub open spec fn parsed_tensors_sized(ts: Seq<RawTensor>) -> bool {
    forall|i: int| 0 <= i < ts.len() ==> raw_tensor_sized((#[trigger] ts[i])@)
}

/// Relies on safetensors::SafeTensors::deserialize and tensors().
/// Whether the bytes parse, how many tensors they hold, and the single
/// tensor of a one-tensor file are functions of the bytes, which
/// `st_tensor_of` names; the header validation guarantees that each
/// returned view's byte length is the product of its shape times the
/// element width.
#[verifier::external_body]
fn parse_safetensors(data: &[u8]) -> (r: Result<Vec<RawTensor>, EngineError>)
    ensures
        r is Err || parsed_tensors_sized(r->Ok_0@),
        r matches Err(e) ==> e == EngineError::ParseFailed,
        r is Err ==> st_tensor_of(data@) is None,
        r matches Ok(ts) ==> (ts@.len() == 1 ==> st_tensor_of(data@) == Some(ts@[0]@)),
        r matches Ok(ts) ==> (ts@.len() != 1 ==> st_tensor_of(data@) is None),
{
    match safetensors::SafeTensors::deserialize(data) {
        Err(_) => Err(EngineError::ParseFailed),
        Ok(st) => Ok(st.tensors().into_iter().map(|(name, t)| RawTensor {
            name,
            dtype_name: format!("{:?}", t.dtype()),
            shape: t.shape().to_vec(),
            data: t.data().to_vec(),
        }).collect()),
    }
}

/// The file-format name of an element kind the engine consumes.
pub open spec fn spec_dtype_name(d: Dtype) -> Seq<char> {
    match d {
        Dtype::F32 => "F32"@,
        Dtype::U8 => "U8"@,
        Dtype::I8 => "I8"@,
    }
}

/// Whether a file-format element kind is one the engine consumes.
pub open spec fn supported_dtype_name(s: Seq<char>) -> bool {
    s == "F32"@ || s == "U8"@ || s == "I8"@
}

/// Parse a weight file. It succeeds exactly when the bytes parse to
/// one tensor of a supported element kind, and then returns that
/// tensor's bytes, shape and kind; anything else is a parse failure.
pub fn read_owned_tensor(data: &[u8]) -> (r: Result<OwnedTensor, EngineError>)
    ensures
        r is Ok <==> (st_tensor_of(data@) matches Some(m)
            && supported_dtype_name(m.dtype_name)),
        r matches Ok(t) ==> (st_tensor_of(data@) matches Some(m)
            && t.data@ == m.data && t.shape@ == m.shape
            && m.dtype_name == spec_dtype_name(t.dtype)),
        r matches Ok(t) ==> (t.dtype == Dtype::F32
                ==> t.data@.len() == 4 * spec_numel(t.shape@))
            && (t.dtype == Dtype::U8 || t.dtype == Dtype::I8
                ==> t.data@.len() == spec_numel(t.shape@)),
        r is Err ==> r == Err::<OwnedTensor, EngineError>(EngineError::ParseFailed),
{
    let mut tensors = match parse_safetensors(data) {
        Ok(ts) => ts,
        Err(e) => {
            return Err(EngineError::ParseFailed);
        },
    };
    let ghost ts0 = tensors@;
    if tensors.len() != 1 {
        return Err(EngineError::ParseFailed);
    }
    let t = match tensors.pop() {
        Some(t) => t,
        None => {
            return Err(EngineError::ParseFailed);
        },
    };
    proof {
        assert(t == ts0[0]);
        assert(st_tensor_of(data@) == Some(t@));
        assert(raw_tensor_sized(t@));
    }
    let dtype = if t.dtype_name == String::from_str("F32") {
        Dtype::F32
    } else if t.dtype_name == String::from_str("U8") {
        Dtype::U8
    } else if t.dtype_name == String::from_str("I8") {
        Dtype::I8
    } else {
        return Err(EngineError::ParseFailed);
    };
    Ok(OwnedTensor { data: t.data, shape: t.shape, dtype })
}

/// The 32-bit cells of an F32 tensor, assembled little-endian from its
/// bytes, with its shape.
pub fn get_f32_data(tensor: OwnedTensor) -> (r: (Vec<u32>, Vec<usize>))
    requires
        tensor.dtype == Dtype::F32,
        tensor.data@.len() % 4 == 0,
    ensures
        r.0@.len() == tensor.data@.len() as int / 4,
        forall|i: int| 0 <= i < r.0@.len() ==> r.0@[i]
            == spec_u32_from_le_bytes(tensor.data@.subrange(4 * i, 4 * i + 4)),
        r.1@ == tensor.shape@,
{
    let n = tensor.data.len() / 4;
    proof {
        vstd::arithmetic::div_mod::lemma_fundamental_div_mod(
            tensor.data@.len() as int, 4);
    }
    let mut out: Vec<u32> = Vec::new();
    let mut i: usize = 0;
    while i < n
        invariant
            i <= n,
            4 * n == tensor.data@.len(),
            out@.len() == i,
            forall|k: int| 0 <= k < i ==> out@[k]
                == spec_u32_from_le_bytes(tensor.data@.subrange(4 * k, 4 * k + 4)),
        decreases n - i,
    {
        proof {
            assert(tensor.data.len() == tensor.data@.len());
        }
        let s = vstd::slice::slice_subrange(tensor.data.as_slice(), 4 * i, 4 * i + 4);
        out.push(vstd::bytes::u32_from_le_bytes(s));
        i += 1;
    }
    (out, tensor.shape)
}

/// The bytes of a U8 tensor, with its shape.
pub fn get_u8_data(tensor: OwnedTensor) -> (r: (Vec<u8>, Vec<usize>))
    requires
        tensor.dtype == Dtype::U8,
    ensures
        r.0@ == tensor.data@,
        r.1@ == tensor.shape@,
{
    (tensor.data, tensor.shape)
}

/// The signed bytes of an I8 tensor, with its shape.
pub fn get_i8_data(tensor: OwnedTensor) -> (r: (Vec<i8>, Vec<usize>))
    requires
        tensor.dtype == Dtype::I8,
    ensures
        r.0@.len() == tensor.data@.len(),
        forall|i: int| 0 <= i < r.0@.len() ==> r.0@[i] == tensor.data@[i] as i8,
        r.1@ == tensor.shape@,
{
    let mut out: Vec<i8> = Vec::new();
    let mut i: usize = 0;
    while i < tensor.data.len()
        invariant
            i <= tensor.data@.len(),
            out@.len() == i,
            forall|k: int| 0 <= k < i ==> out@[k] == tensor.data@[k] as i8,
        decreases tensor.data@.len() - i,
    {
        out.push(tensor.data[i] as i8);
        i += 1;
    }
    (out, tensor.shape)
}

/// A two-dimensional F32 tensor as a matrix of 32-bit cells.
pub fn get_matrix(tensor: OwnedTensor) -> (r: Matrix<u32>)
    requires
        tensor.dtype == Dtype::F32,
        tensor.data@.len() % 4 == 0,
        tensor.shape@.len() == 2,
        tensor.data@.len() as int / 4
            == (tensor.shape@[0] as int) * (tensor.shape@[1] as int),
    ensures
        r.spec_rows() == tensor.shape@[0],
        r.spec_cols() == tensor.shape@[1],
        forall|i: int| 0 <= i < r@.len() ==> r@[i]
            == spec_u32_from_le_bytes(tensor.data@.subrange(4 * i, 4 * i + 4)),
{
    let ghost gdata = tensor.data@;
    let shape0 = tensor.shape[0];
    let shape1 = tensor.shape[1];
    let (cells, _shape) = get_f32_data(tensor);
    Matrix::from_vec((shape0, shape1), cells)
}

// ---------------------------------------------------------------------
// Where the weight files live.
// ---------------------------------------------------------------------

pub const WEIGHTS_URL_PREFIX: &'static str =
    "https://huggingface.co/galqiwi/llama-3.1-aqlm-pv-2x8-f32-int8-emb/resolve/main/";

pub const WEIGHTS_URL_SUFFIX: &'static str = "?download=true";

/// The URL a weight file is fetched from.
pub fn get_url_by_name(filename: &str) -> (r: String)
    ensures
        r@ == WEIGHTS_URL_PREFIX@ + filename@ + WEIGHTS_URL_SUFFIX@,
{
    let url = WEIGHTS_URL_PREFIX.to_owned();
    let url = url.concat(filename);
    url.concat(WEIGHTS_URL_SUFFIX)
}

/// How often one blob is attempted before loading fails: the first
/// fetch and up to two retries.
pub const FETCH_ATTEMPTS: usize = 3;

/// Whether the loader tries a blob again after this many failed
/// attempts; after the last allowed attempt the load fails.
pub fn should_retry_fetch(failed_attempts: usize) -> (r: bool)
    ensures
        r == (failed_attempts < FETCH_ATTEMPTS),
{
    failed_attempts < FETCH_ATTEMPTS
}

// ---------------------------------------------------------------------
// The order in which the model's parts are loaded.
// ---------------------------------------------------------------------

/// One step of the loading interleave.
#[derive(Clone, Copy, Debug, PartialEq, Eq, Structural)]
pub enum LoadStep {
    Block(usize),
    Embedding,
    Norm,
    Head,
}

/// The loading order: the first half of the blocks, then the
/// embedding, the final norm and the head, then the remaining blocks.
/// The interleave lets early blocks start streaming before the whole
/// file set is fetched.
pub fn loading_schedule(n_layers: usize) -> (r: Vec<LoadStep>)
    requires
        n_layers + 3 <= usize::MAX,
    ensures
        r@.len() == n_layers + 3,
        forall|i: int| 0 <= i < n_layers as int / 2 ==> r@[i] == LoadStep::Block(i as usize),
        r@[n_layers as int / 2] == LoadStep::Embedding,
        r@[n_layers as int / 2 + 1] == LoadStep::Norm,
        r@[n_layers as int / 2 + 2] == LoadStep::Head,
        forall|i: int| n_layers as int / 2 + 3 <= i < n_layers + 3
            ==> r@[i] == LoadStep::Block((i - 3) as usize),
{
    let half = n_layers / 2;
    proof {
        vstd::arithmetic::div_mod::lemma_fundamental_div_mod(n_layers as int, 2);
    }
    let mut out: Vec<LoadStep> = Vec::new();
    let mut i: usize = 0;
    while i < half
        invariant
            i <= half,
            half == n_layers as int / 2,
            out@.len() == i,
            forall|k: int| 0 <= k < i ==> out@[k] == LoadStep::Block(k as usize),
        decreases half - i,
    {
        out.push(LoadStep::Block(i));
        i += 1;
    }
    out.push(LoadStep::Embedding);
    out.push(LoadStep::Norm);
    out.push(LoadStep::Head);
    let mut j: usize = half;
    while j < n_layers
        invariant
            half <= j <= n_layers,
            half == n_layers as int / 2,
            half + half <= n_layers + 1,
            out@.len() == j + 3,
            forall|k: int| 0 <= k < half ==> out@[k] == LoadStep::Block(k as usize),
            out@[half as int] == LoadStep::Embedding,
            out@[half as int + 1] == LoadStep::Norm,
            out@[half as int + 2] == LoadStep::Head,
            forall|k: int| half + 3 <= k < j + 3 ==> out@[k] == LoadStep::Block((k - 3) as usize),
        decreases n_layers - j,
    {
        out.push(LoadStep::Block(j));
        j += 1;
    }
    out
}

} // verus!
