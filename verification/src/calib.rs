use vstd::prelude::*;

verus! {

/// The index of the first smallest latency.
pub fn argmin(timings: &Vec<u64>) -> (r: usize)
    requires
        timings@.len() > 0,
    ensures
        r < timings@.len(),
        forall|i: int| 0 <= i < timings@.len() ==> timings@[r as int] <= #[trigger] timings@[i],
        forall|i: int| 0 <= i < r ==> timings@[r as int] < #[trigger] timings@[i],
{
    let mut best: usize = 0;
    let mut i: usize = 1;
    while i < timings.len()
        invariant
            1 <= i <= timings@.len(),
            best < i,
            forall|j: int| 0 <= j < i ==> timings@[best as int] <= #[trigger] timings@[j],
            forall|j: int| 0 <= j < best ==> timings@[best as int] < #[trigger] timings@[j],
        decreases timings@.len() - i,
    {
        if timings[i] < timings[best] {
            best = i;
        }
        i += 1;
    }
    best
}

/// The shard count the calibration chooses: one more than the index of
/// the first smallest latency among the fan-outs 1, 2, ... that were
/// timed.
pub fn optimal_n_workers(timings: &Vec<u64>) -> (r: usize)
    requires
        timings@.len() > 0,
        timings@.len() < usize::MAX,
    ensures
        1 <= r <= timings@.len(),
        forall|i: int| 0 <= i < timings@.len()
            ==> timings@[r - 1] <= #[trigger] timings@[i],
        forall|i: int| 0 <= i < r - 1 ==> timings@[r - 1] < #[trigger] timings@[i],
    {
    argmin(timings) + 1
}

/// The lazily filled cache of chosen shard counts, keyed by operator
/// shape (out_dim, in_group_dim). One shape is calibrated once per
/// run; two operators of the same shape share the chosen count.
pub struct CalibrationCache {
    entries: Vec<(usize, usize, usize)>,
}

/// What a lookup finds: the first entry with the given shape.
pub open spec fn calib_get(s: Seq<(usize, usize, usize)>, out_dim: int, in_group_dim: int)
    -> Option<usize>
    decreases s.len(),
{
    if s.len() == 0 {
        None
    } else if s[0].0 == out_dim && s[0].1 == in_group_dim {
        Some(s[0].2)
    } else {
        calib_get(s.drop_first(), out_dim, in_group_dim)
    }
}

proof fn lemma_calib_get_push(
    s: Seq<(usize, usize, usize)>,
    e: (usize, usize, usize),
    out_dim: int,
    in_group_dim: int,
)
    ensures
        calib_get(s.push(e), out_dim, in_group_dim) == (
            if calib_get(s, out_dim, in_group_dim) is Some {
                calib_get(s, out_dim, in_group_dim)
            } else if e.0 == out_dim && e.1 == in_group_dim {
                Some(e.2)
            } else {
                None
            }),
    decreases s.len(),
{
    if s.len() == 0 {
        assert(s.push(e)[0] == e);
        assert(s.push(e).drop_first() =~= Seq::<(usize, usize, usize)>::empty());
        assert(calib_get(s.push(e).drop_first(), out_dim, in_group_dim) is None);
        assert(calib_get(s, out_dim, in_group_dim) is None);
    } else {
        assert(s.push(e)[0] == s[0]);
        assert(s.push(e).drop_first() =~= s.drop_first().push(e));
        lemma_calib_get_push(s.drop_first(), e, out_dim, in_group_dim);
        assert(calib_get(s.push(e), out_dim, in_group_dim) == (
            if calib_get(s, out_dim, in_group_dim) is Some {
                calib_get(s, out_dim, in_group_dim)
            } else if e.0 == out_dim && e.1 == in_group_dim {
                Some(e.2)
            } else {
                None
            }));
    }
}

impl CalibrationCache {
    pub closed spec fn spec_get(&self, out_dim: int, in_group_dim: int) -> Option<usize> {
        calib_get(self.entries@, out_dim, in_group_dim)
    }

    pub fn new() -> (r: Self)
        ensures
            forall|o: int, g: int| r.spec_get(o, g) is None,
    {
        CalibrationCache { entries: Vec::new() }
    }

    /// The chosen shard count for a shape, if that shape was
    /// calibrated before.
    pub fn get(&self, out_dim: usize, in_group_dim: usize) -> (r: Option<usize>)
        ensures
            r == self.spec_get(out_dim as int, in_group_dim as int),
    {
        let mut i: usize = 0;
        proof {
            assert(self.entries@.skip(0) =~= self.entries@);
        }
        while i < self.entries.len()
            invariant
                i <= self.entries@.len(),
                forall|j: int| 0 <= j < i
                    ==> !((#[trigger] self.entries@[j]).0 == out_dim
                        && self.entries@[j].1 == in_group_dim),
                calib_get(self.entries@, out_dim as int, in_group_dim as int)
                    == calib_get(
                        self.entries@.skip(i as int), out_dim as int, in_group_dim as int),
            decreases self.entries@.len() - i,
        {
            let e = self.entries[i];
            proof {
                assert(self.entries@.skip(i as int)[0] == self.entries@[i as int]);
                assert(self.entries@.skip(i as int).drop_first()
                    =~= self.entries@.skip(i + 1));
            }
            if e.0 == out_dim && e.1 == in_group_dim {
                return Some(e.2);
            }
            i += 1;
        }
        proof {
            assert(self.entries@.skip(self.entries@.len() as int)
                =~= Seq::<(usize, usize, usize)>::empty());
        }
        None
    }

    /// Record the chosen shard count for a newly calibrated shape.
    pub fn store(&mut self, out_dim: usize, in_group_dim: usize, n_workers: usize)
        requires
            old(self).spec_get(out_dim as int, in_group_dim as int) is None,
        ensures
            final(self).spec_get(out_dim as int, in_group_dim as int) == Some(n_workers),
            forall|o: int, g: int| !(o == out_dim && g == in_group_dim)
                ==> #[trigger] final(self).spec_get(o, g) == old(self).spec_get(o, g),
    {
        let ghost pre = self.entries@;
        self.entries.push((out_dim, in_group_dim, n_workers));
        proof {
            assert forall|o: int, g: int| true implies
                #[trigger] calib_get(self.entries@, o, g) == (
                    if calib_get(pre, o, g) is Some {
                        calib_get(pre, o, g)
                    } else if o == out_dim && g == in_group_dim {
                        Some(n_workers)
                    } else {
                        None
                    }) by {
                lemma_calib_get_push(pre, (out_dim, in_group_dim, n_workers), o, g);
            }
        }
    }
}

} // verus!
