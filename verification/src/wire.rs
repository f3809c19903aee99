use vstd::prelude::*;
use vstd::bytes::{
    lemma_auto_spec_u32_to_from_le_bytes, lemma_auto_spec_u64_to_from_le_bytes,
    spec_u32_from_le_bytes, spec_u32_to_le_bytes, spec_u64_from_le_bytes, spec_u64_to_le_bytes,
    u32_from_le_bytes, u32_to_le_bytes, u64_from_le_bytes, u64_to_le_bytes,
};

verus! {

// ---------------------------------------------------------------------
// Encodings. Every field of a wire message is one of four primitive
// layouts, each a length-free u64 or a u64 length prefix followed by a
// fixed-width payload, little-endian throughout.
// ---------------------------------------------------------------------

/// A byte string: u64 length, then the bytes.
pub open spec fn spec_enc_bytes(v: Seq<u8>) -> Seq<u8> {
    spec_u64_to_le_bytes(v.len() as u64) + v
}

/// The payload of a u32 vector: four bytes per element.
pub open spec fn u32s_payload(v: Seq<u32>) -> Seq<u8> {
    Seq::new((4 * v.len()) as nat, |i: int| spec_u32_to_le_bytes(v[i / 4])[i % 4])
}

/// A u32 vector: u64 length, then four bytes per element.
pub open spec fn spec_enc_u32s(v: Seq<u32>) -> Seq<u8> {
    spec_u64_to_le_bytes(v.len() as u64) + u32s_payload(v)
}

/// The payload of an i8 vector: one byte per element, two's complement.
pub open spec fn i8s_payload(v: Seq<i8>) -> Seq<u8> {
    Seq::new(v.len(), |i: int| v[i] as u8)
}

/// An i8 vector: u64 length, then one byte per element.
pub open spec fn spec_enc_i8s(v: Seq<i8>) -> Seq<u8> {
    spec_u64_to_le_bytes(v.len() as u64) + i8s_payload(v)
}

// ---------------------------------------------------------------------
// Decoders, as spec functions over the whole buffer and a cursor.
// ---------------------------------------------------------------------

pub open spec fn spec_dec_u64(b: Seq<u8>, pos: int) -> Option<(u64, int)> {
    if 0 <= pos && pos + 8 <= b.len() {
        Some((spec_u64_from_le_bytes(b.subrange(pos, pos + 8)), pos + 8))
    } else {
        None
    }
}

pub open spec fn spec_dec_bytes(b: Seq<u8>, pos: int) -> Option<(Seq<u8>, int)> {
    match spec_dec_u64(b, pos) {
        Some((n, p)) => if n as int <= b.len() - p {
            Some((b.subrange(p, p + n), p + n))
        } else {
            None
        },
        None => None,
    }
}

pub open spec fn spec_dec_u32s(b: Seq<u8>, pos: int) -> Option<(Seq<u32>, int)> {
    match spec_dec_u64(b, pos) {
        Some((n, p)) => if 4 * (n as int) <= b.len() - p {
            Some(
                (
                    Seq::new(
                        n as nat,
                        |i: int| spec_u32_from_le_bytes(b.subrange(p + 4 * i, p + 4 * i + 4)),
                    ),
                    p + 4 * (n as int),
                ),
            )
        } else {
            None
        },
        None => None,
    }
}

pub open spec fn spec_dec_i8s(b: Seq<u8>, pos: int) -> Option<(Seq<i8>, int)> {
    match spec_dec_u64(b, pos) {
        Some((n, p)) => if n as int <= b.len() - p {
            Some((Seq::new(n as nat, |i: int| b[p + i] as i8), p + (n as int)))
        } else {
            None
        },
        None => None,
    }
}

// ---------------------------------------------------------------------
// Executable encoders: each appends its layout to the output buffer.
// ---------------------------------------------------------------------

pub fn enc_u64(out: &mut Vec<u8>, x: u64)
    ensures
        final(out)@ == old(out)@ + spec_u64_to_le_bytes(x),
{
    let mut b = u64_to_le_bytes(x);
    out.append(&mut b);
}

pub fn enc_bytes(out: &mut Vec<u8>, v: &Vec<u8>)
    ensures
        final(out)@ == old(out)@ + spec_enc_bytes(v@),
{
    enc_u64(out, v.len() as u64);
    let mut i: usize = 0;
    while i < v.len()
        invariant
            i <= v@.len(),
            out@ == old(out)@ + spec_u64_to_le_bytes(v@.len() as u64) + v@.take(i as int),
        decreases v@.len() - i,
    {
        out.push(v[i]);
        proof {
            assert(v@.take(i + 1) =~= v@.take(i as int).push(v@[i as int]));
            assert(old(out)@ + spec_u64_to_le_bytes(v@.len() as u64) + v@.take(i + 1)
                =~= (old(out)@ + spec_u64_to_le_bytes(v@.len() as u64) + v@.take(i as int))
                    .push(v@[i as int]));
        }
        i += 1;
    }
    proof {
        assert(v@.take(v@.len() as int) =~= v@);
        assert(old(out)@ + spec_u64_to_le_bytes(v@.len() as u64) + v@
            =~= old(out)@ + spec_enc_bytes(v@));
    }
}

pub fn enc_u32s(out: &mut Vec<u8>, v: &Vec<u32>)
    ensures
        final(out)@ == old(out)@ + spec_enc_u32s(v@),
{
    enc_u64(out, v.len() as u64);
    let ghost base = old(out)@ + spec_u64_to_le_bytes(v@.len() as u64);
    let mut i: usize = 0;
    while i < v.len()
        invariant
            i <= v@.len(),
            base == old(out)@ + spec_u64_to_le_bytes(v@.len() as u64),
            out@.len() == base.len() + 4 * i,
            out@ == base + u32s_payload(v@.take(i as int)),
        decreases v@.len() - i,
    {
        let mut b = u32_to_le_bytes(v[i]);
        out.append(&mut b);
        proof {
            lemma_u32s_payload_take(v@, i + 1);
            assert(out@ =~= base + u32s_payload(v@.take(i + 1)));
        }
        i += 1;
    }
    proof {
        assert(v@.take(v@.len() as int) =~= v@);
        assert(base + u32s_payload(v@) =~= old(out)@ + spec_enc_u32s(v@));
    }
}

/// The payload of a prefix extends the payload of the shorter prefix by
/// the bytes of one more element.
proof fn lemma_u32s_payload_take(v: Seq<u32>, i: int)
    requires
        0 < i <= v.len(),
    ensures
        u32s_payload(v.take(i)) =~= u32s_payload(v.take(i - 1))
            + spec_u32_to_le_bytes(v[i - 1]),
{
    lemma_auto_spec_u32_to_from_le_bytes();
    let lhs = u32s_payload(v.take(i));
    let rhs = u32s_payload(v.take(i - 1)) + spec_u32_to_le_bytes(v[i - 1]);
    assert forall|k: int| 0 <= k < lhs.len() implies lhs[k] == rhs[k] by {
        assert(0 <= k / 4 < i) by (nonlinear_arith)
            requires 0 <= k < 4 * i
        {}
        assert(0 <= k % 4 < 4) by (nonlinear_arith) {}
        if k < 4 * (i - 1) {
            assert(0 <= k / 4 < i - 1) by (nonlinear_arith)
                requires 0 <= k < 4 * (i - 1)
            {}
        } else {
            assert(k / 4 == i - 1 && k % 4 == k - 4 * (i - 1)) by (nonlinear_arith)
                requires 4 * (i - 1) <= k < 4 * i
            {}
        }
    }
}

pub fn enc_i8s(out: &mut Vec<u8>, v: &Vec<i8>)
    ensures
        final(out)@ == old(out)@ + spec_enc_i8s(v@),
{
    enc_u64(out, v.len() as u64);
    let ghost base = old(out)@ + spec_u64_to_le_bytes(v@.len() as u64);
    let mut i: usize = 0;
    while i < v.len()
        invariant
            i <= v@.len(),
            base == old(out)@ + spec_u64_to_le_bytes(v@.len() as u64),
            out@ == base + i8s_payload(v@.take(i as int)),
        decreases v@.len() - i,
    {
        out.push(v[i] as u8);
        proof {
            assert(i8s_payload(v@.take(i + 1))
                =~= i8s_payload(v@.take(i as int)).push(v@[i as int] as u8));
            assert(out@ =~= base + i8s_payload(v@.take(i + 1)));
        }
        i += 1;
    }
    proof {
        assert(v@.take(v@.len() as int) =~= v@);
        assert(i8s_payload(v@.take(v@.len() as int)) =~= i8s_payload(v@));
    }
}

// ---------------------------------------------------------------------
// Executable decoders, each proved to agree with its spec decoder.
// ---------------------------------------------------------------------

pub fn dec_u64(b: &Vec<u8>, pos: usize) -> (r: Option<(u64, usize)>)
    ensures
        r is Some <==> spec_dec_u64(b@, pos as int) is Some,
        r matches Some(p) ==> spec_dec_u64(b@, pos as int) == Some((p.0, p.1 as int)),
{
    if pos < b.len() && b.len() - pos >= 8 {
        let s = vstd::slice::slice_subrange(b.as_slice(), pos, pos + 8);
        Some((u64_from_le_bytes(s), pos + 8))
    } else {
        None
    }
}

pub fn dec_bytes(b: &Vec<u8>, pos: usize) -> (r: Option<(Vec<u8>, usize)>)
    ensures
        r is Some <==> spec_dec_bytes(b@, pos as int) is Some,
        r matches Some(p) ==> spec_dec_bytes(b@, pos as int) matches Some(q)
            && p.0@ == q.0 && p.1 as int == q.1,
{
    match dec_u64(b, pos) {
        None => None,
        Some((n, p)) => {
            if n <= (b.len() - p) as u64 {
                let n = n as usize;
                let s = vstd::slice::slice_subrange(b.as_slice(), p, p + n);
                Some((vstd::slice::slice_to_vec(s), p + n))
            } else {
                None
            }
        },
    }
}

pub fn dec_u32s(b: &Vec<u8>, pos: usize) -> (r: Option<(Vec<u32>, usize)>)
    ensures
        r is Some <==> spec_dec_u32s(b@, pos as int) is Some,
        r matches Some(p) ==> spec_dec_u32s(b@, pos as int) matches Some(q)
            && p.0@ == q.0 && p.1 as int == q.1,
{
    match dec_u64(b, pos) {
        None => None,
        Some((n, p)) => {
            if n <= ((b.len() - p) / 4) as u64 {
                let n = n as usize;
                let mut out: Vec<u32> = Vec::new();
                let mut i: usize = 0;
                proof {
                    assert(b.len() == b@.len());
                    assert(4 * (n as int) <= b@.len() - p) by (nonlinear_arith)
                        requires
                            n as int <= (b@.len() - p) / 4,
                            0 <= p <= b@.len(),
                    {}
                }
                while i < n
                    invariant
                        i <= n,
                        p + 4 * n <= b@.len(),
                        b@.len() <= usize::MAX,
                        out@.len() == i,
                        forall|k: int| 0 <= k < i ==> out@[k]
                            == spec_u32_from_le_bytes(
                                b@.subrange(p + 4 * k, p + 4 * k + 4)),
                    decreases n - i,
                {
                    let s = vstd::slice::slice_subrange(b.as_slice(), p + 4 * i, p + 4 * i + 4);
                    out.push(u32_from_le_bytes(s));
                    i += 1;
                }
                proof {
                    let q = spec_dec_u32s(b@, pos as int);
                    assert(q matches Some(qq) && out@ =~= qq.0);
                }
                Some((out, p + 4 * n))
            } else {
                None
            }
        },
    }
}

pub fn dec_i8s(b: &Vec<u8>, pos: usize) -> (r: Option<(Vec<i8>, usize)>)
    ensures
        r is Some <==> spec_dec_i8s(b@, pos as int) is Some,
        r matches Some(p) ==> spec_dec_i8s(b@, pos as int) matches Some(q)
            && p.0@ == q.0 && p.1 as int == q.1,
{
    match dec_u64(b, pos) {
        None => None,
        Some((n, p)) => {
            if n <= (b.len() - p) as u64 {
                let n = n as usize;
                let mut out: Vec<i8> = Vec::new();
                let mut i: usize = 0;
                proof {
                    assert(b.len() == b@.len());
                }
                while i < n
                    invariant
                        i <= n,
                        p + n <= b@.len(),
                        b@.len() <= usize::MAX,
                        out@.len() == i,
                        forall|k: int| 0 <= k < i ==> out@[k] == b@[p + k] as i8,
                    decreases n - i,
                {
                    out.push(b[p + i] as i8);
                    i += 1;
                }
                proof {
                    let q = spec_dec_i8s(b@, pos as int);
                    assert(q matches Some(qq) && out@ =~= qq.0);
                }
                Some((out, p + n))
            } else {
                None
            }
        },
    }
}

// ---------------------------------------------------------------------
// Peel lemmas: a decoder applied where the buffer continues with a
// known encoding recovers exactly the encoded value.
// ---------------------------------------------------------------------

/// Splitting a known concatenation off the tail of a buffer.
pub proof fn lemma_peel(b: Seq<u8>, pos: int, x: Seq<u8>, rest: Seq<u8>)
    requires
        0 <= pos <= b.len(),
        b.subrange(pos, b.len() as int) == x + rest,
    ensures
        pos + x.len() <= b.len(),
        b.subrange(pos, pos + x.len()) == x,
        b.subrange(pos + x.len(), b.len() as int) == rest,
{
    let tail = b.subrange(pos, b.len() as int);
    assert(tail.len() == x.len() + rest.len());
    assert forall|i: int| 0 <= i < x.len() implies b.subrange(pos, pos + x.len())[i] == x[i] by {
        assert(b.subrange(pos, pos + x.len())[i] == b[pos + i]);
        assert(tail[i] == b[pos + i]);
        assert(tail[i] == (x + rest)[i]);
    }
    assert(b.subrange(pos, pos + x.len()) =~= x);
    assert forall|i: int| 0 <= i < rest.len() implies
        b.subrange(pos + x.len(), b.len() as int)[i] == rest[i] by {
        assert(b.subrange(pos + x.len(), b.len() as int)[i] == b[pos + x.len() + i]);
        assert(tail[x.len() + i] == b[pos + x.len() + i]);
        assert(tail[x.len() + i] == (x + rest)[x.len() + i]);
    }
    assert(b.subrange(pos + x.len(), b.len() as int) =~= rest);
}

pub proof fn lemma_dec_u64_of_enc(b: Seq<u8>, pos: int, x: u64, rest: Seq<u8>)
    requires
        0 <= pos <= b.len(),
        b.subrange(pos, b.len() as int) == spec_u64_to_le_bytes(x) + rest,
    ensures
        spec_dec_u64(b, pos) == Some((x, pos + 8)),
        b.subrange(pos + 8, b.len() as int) == rest,
{
    lemma_auto_spec_u64_to_from_le_bytes();
    lemma_peel(b, pos, spec_u64_to_le_bytes(x), rest);
}

pub proof fn lemma_dec_bytes_of_enc(b: Seq<u8>, pos: int, v: Seq<u8>, rest: Seq<u8>)
    requires
        0 <= pos <= b.len(),
        v.len() <= usize::MAX,
        b.subrange(pos, b.len() as int) == spec_enc_bytes(v) + rest,
    ensures
        spec_dec_bytes(b, pos) == Some((v, pos + 8 + v.len())),
        b.subrange(pos + 8 + v.len(), b.len() as int) == rest,
{
    assert(spec_enc_bytes(v) + rest =~= spec_u64_to_le_bytes(v.len() as u64) + (v + rest));
    lemma_dec_u64_of_enc(b, pos, v.len() as u64, v + rest);
    let p = pos + 8;
    lemma_peel(b, p, v, rest);
}

pub proof fn lemma_dec_u32s_of_enc(b: Seq<u8>, pos: int, v: Seq<u32>, rest: Seq<u8>)
    requires
        0 <= pos <= b.len(),
        v.len() <= usize::MAX,
        b.subrange(pos, b.len() as int) == spec_enc_u32s(v) + rest,
    ensures
        spec_dec_u32s(b, pos) == Some((v, pos + 8 + 4 * v.len())),
        b.subrange(pos + 8 + 4 * v.len(), b.len() as int) == rest,
{
    lemma_auto_spec_u32_to_from_le_bytes();
    assert(spec_enc_u32s(v) + rest
        =~= spec_u64_to_le_bytes(v.len() as u64) + (u32s_payload(v) + rest));
    lemma_dec_u64_of_enc(b, pos, v.len() as u64, u32s_payload(v) + rest);
    let p = pos + 8;
    assert(b.subrange(p, b.len() as int) == u32s_payload(v) + rest);
    lemma_peel(b, p, u32s_payload(v), rest);
    let q = spec_dec_u32s(b, pos);
    assert(4 * (v.len() as int) <= b.len() - p);
    assert(q matches Some(qq) && qq.1 == p + 4 * v.len());
    let dv = q->Some_0.0;
    assert forall|i: int| 0 <= i < v.len() implies dv[i] == v[i] by {
        assert(b.subrange(p + 4 * i, p + 4 * i + 4) =~= spec_u32_to_le_bytes(v[i])) by {
            assert forall|j: int| 0 <= j < 4 implies
                b.subrange(p + 4 * i, p + 4 * i + 4)[j] == spec_u32_to_le_bytes(v[i])[j] by {
                assert(b.subrange(p + 4 * i, p + 4 * i + 4)[j]
                    == (u32s_payload(v) + rest)[4 * i + j]);
                assert(0 <= 4 * i + j < 4 * v.len()) by (nonlinear_arith)
                    requires 0 <= i < v.len(), 0 <= j < 4
                {}
                assert((u32s_payload(v) + rest)[4 * i + j] == u32s_payload(v)[4 * i + j]);
                assert((4 * i + j) / 4 == i && (4 * i + j) % 4 == j) by (nonlinear_arith)
                    requires 0 <= j < 4
                {}
            }
        }
    }
    assert(dv =~= v);
    assert(b.subrange(p + 4 * v.len(), b.len() as int) == rest);
}

pub proof fn lemma_dec_i8s_of_enc(b: Seq<u8>, pos: int, v: Seq<i8>, rest: Seq<u8>)
    requires
        0 <= pos <= b.len(),
        v.len() <= usize::MAX,
        b.subrange(pos, b.len() as int) == spec_enc_i8s(v) + rest,
    ensures
        spec_dec_i8s(b, pos) == Some((v, pos + 8 + v.len())),
        b.subrange(pos + 8 + v.len(), b.len() as int) == rest,
{
    assert(spec_enc_i8s(v) + rest
        =~= spec_u64_to_le_bytes(v.len() as u64) + (i8s_payload(v) + rest));
    lemma_dec_u64_of_enc(b, pos, v.len() as u64, i8s_payload(v) + rest);
    let p = pos + 8;
    lemma_peel(b, p, i8s_payload(v), rest);
    let q = spec_dec_i8s(b, pos);
    assert(q matches Some(qq) && qq.1 == p + v.len());
    let dv = q->Some_0.0;
    assert forall|i: int| 0 <= i < v.len() implies dv[i] == v[i] by {
        assert(b.subrange(p, p + v.len())[i] == b[p + i]);
        assert(b[p + i] == i8s_payload(v)[i]);
        let x = v[i];
        assert((x as u8) as i8 == x) by (bit_vector);
    }
    assert(dv =~= v);
}

} // verus!
