use vstd::prelude::*;

verus! {

/// Who wrote a message of a dialog.
#[derive(Clone, Copy, Debug, PartialEq, Eq, Structural)]
pub enum Role {
    System,
    User,
    Assistant,
}

/// One message of a dialog.
#[derive(Clone, Debug)]
pub struct Message {
    pub content: String,
    pub role: Role,
}

/// The segments `split_delimited` cuts a token sequence into:
/// non-empty, concatenating back to the input, each segment after the
/// first starting with the delimiter, and the delimiter occurring
/// nowhere else but at a segment's start.
pub open spec fn split_segments_ok(input: Seq<usize>, delim: usize, segs: Seq<Seq<usize>>)
    -> bool {
    &&& segs.flatten() == input
    &&& (input.len() == 0 ==> segs.len() == 0)
    &&& (input.len() > 0 ==> segs.len() > 0)
    &&& forall|k: int| 0 <= k < segs.len() ==> (#[trigger] segs[k]).len() > 0
    &&& forall|k: int| 1 <= k < segs.len() ==> (#[trigger] segs[k])[0] == delim
    &&& forall|k: int, i: int|
        0 <= k < segs.len() && 1 <= i < segs[k].len() ==> #[trigger] segs[k][i] != delim
}

/// Split a token sequence before every occurrence of the delimiter
/// except at position zero.
pub fn split_delimited(input: &Vec<usize>, delim: usize) -> (r: Vec<Vec<usize>>)
    ensures
        split_segments_ok(input@, delim, r@.map_values(|v: Vec<usize>| v@)),
{
    let mut segs: Vec<Vec<usize>> = Vec::new();
    let mut cur: Vec<usize> = Vec::new();
    let mut i: usize = 0;
    while i < input.len()
        invariant
            i <= input@.len(),
            segs@.map_values(|v: Vec<usize>| v@).flatten() + cur@ == input@.take(i as int),
            i > 0 ==> cur@.len() > 0,
            i == 0 ==> cur@.len() == 0 && segs@.len() == 0,
            forall|k: int| 0 <= k < segs@.len() ==> (#[trigger] segs@[k])@.len() > 0,
            forall|k: int| 1 <= k < segs@.len() ==> (#[trigger] segs@[k])@[0] == delim,
            forall|k: int, t: int|
                0 <= k < segs@.len() && 1 <= t < segs@[k]@.len()
                    ==> #[trigger] segs@[k]@[t] != delim,
            segs@.len() > 0 ==> cur@.len() > 0 && cur@[0] == delim,
            forall|t: int| 1 <= t < cur@.len() ==> cur@[t] != delim,
        decreases input@.len() - i,
    {
        let tok = input[i];
        if tok == delim && i > 0 {
            let ghost pre_segs = segs@.map_values(|v: Vec<usize>| v@);
            let ghost pre_cur = cur@;
            let mut finished: Vec<usize> = Vec::new();
            core::mem::swap(&mut finished, &mut cur);
            segs.push(finished);
            cur.push(tok);
            proof {
                assert(segs@.map_values(|v: Vec<usize>| v@)
                    =~= pre_segs.push(pre_cur));
                pre_segs.lemma_flatten_push(pre_cur);
                assert(segs@.map_values(|v: Vec<usize>| v@).flatten()
                    == pre_segs.flatten() + pre_cur);
                assert(cur@ =~= seq![tok]);
                assert(input@.take(i + 1) =~= input@.take(i as int).push(tok));
                assert((pre_segs.flatten() + pre_cur) + seq![tok]
                    =~= (pre_segs.flatten() + pre_cur).push(tok));
                assert(segs@.map_values(|v: Vec<usize>| v@).flatten() + cur@
                    =~= input@.take(i + 1));
            }
        } else {
            cur.push(tok);
            proof {
                assert(segs@.map_values(|v: Vec<usize>| v@).flatten() + cur@
                    =~= input@.take(i + 1));
            }
        }
        i += 1;
    }
    if cur.len() > 0 {
        let ghost pre_segs = segs@.map_values(|v: Vec<usize>| v@);
        let ghost pre_cur = cur@;
        segs.push(cur);
        proof {
            assert(segs@.map_values(|v: Vec<usize>| v@) =~= pre_segs.push(pre_cur));
            pre_segs.lemma_flatten_push(pre_cur);
            assert(input@.take(input@.len() as int) =~= input@);
            assert(segs@.map_values(|v: Vec<usize>| v@).flatten() =~= input@);
        }
    } else {
        proof {
            assert(input@.take(input@.len() as int) =~= input@);
            assert(segs@.map_values(|v: Vec<usize>| v@).flatten() + cur@
                =~= segs@.map_values(|v: Vec<usize>| v@).flatten());
            assert(segs@.map_values(|v: Vec<usize>| v@).flatten() =~= input@);
        }
    }
    proof {
        let m = segs@.map_values(|v: Vec<usize>| v@);
        assert forall|k: int| 0 <= k < m.len() implies (#[trigger] m[k]).len() > 0 by {
            assert(m[k] == segs@[k]@);
        }
        assert forall|k: int| 1 <= k < m.len() implies (#[trigger] m[k])[0] == delim by {
            assert(m[k] == segs@[k]@);
        }
        assert forall|k: int, t: int|
            0 <= k < m.len() && 1 <= t < m[k].len() implies #[trigger] m[k][t] != delim by {
            assert(m[k] == segs@[k]@);
        }
    }
    segs
}

} // verus!
