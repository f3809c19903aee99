use vstd::prelude::*;
use crate::error::EngineError;

verus! {

/// The tokens the transformer still has to be driven over after new
/// tokens are appended: the previous last token first, then every new
/// token but the last.
pub open spec fn spec_forward_list(current: Seq<usize>, ts: Seq<usize>) -> Seq<usize> {
    if ts.len() == 0 {
        Seq::empty()
    } else if current.len() == 0 {
        ts.drop_last()
    } else {
        seq![current.last()] + ts.drop_last()
    }
}

/// The token sequence of a generation episode, together with the depth
/// of every KV cache (the number of transformer forwards run so far).
///
/// The caller owns the transformer; each mutating method returns the
/// tokens to run it on, and the state tracks the resulting cache depth.
pub struct Generator {
    tokens: Vec<usize>,
    n_processed: usize,
}

impl Generator {
    /// The KV caches always hold one row per token but the last.
    /// Constructors establish it and every method preserves it.
    pub open spec fn wf(self) -> bool {
        if self.spec_tokens().len() == 0 {
            self.spec_processed() == 0
        } else {
            self.spec_processed() == self.spec_tokens().len() - 1
        }
    }

    pub closed spec fn spec_tokens(self) -> Seq<usize> {
        self.tokens@
    }

    /// The depth of every KV cache.
    pub closed spec fn spec_processed(self) -> int {
        self.n_processed as int
    }

    pub fn new() -> (r: Self)
        ensures
            r.spec_tokens() == Seq::<usize>::empty(),
            r.spec_processed() == 0,
            r.wf(),
    {
        Generator { tokens: Vec::new(), n_processed: 0 }
    }

    pub fn tokens(&self) -> (r: &Vec<usize>)
        ensures
            r@ == self.spec_tokens(),
    {
        &self.tokens
    }

    pub fn n_processed(&self) -> (r: usize)
        requires
            self.wf(),
        ensures
            r == self.spec_processed(),
            self.spec_tokens().len() == 0 ==> r == 0,
            self.spec_tokens().len() > 0 ==> r == self.spec_tokens().len() - 1,
    {
        self.n_processed
    }

    /// Append tokens. The returned list holds the tokens to run the
    /// transformer on, in order: each warms the caches before the next
    /// token lands, and the last appended token stays unprocessed.
    pub fn add_tokens(&mut self, ts: &Vec<usize>) -> (r: Vec<usize>)
        requires
            old(self).wf(),
        ensures
            final(self).wf(),
            final(self).spec_tokens() == old(self).spec_tokens() + ts@,
            r@ == spec_forward_list(old(self).spec_tokens(), ts@),
            final(self).spec_processed() == old(self).spec_processed() + r@.len(),
    {
        let mut forwards: Vec<usize> = Vec::new();
        let mut i: usize = 0;
        while i < ts.len()
            invariant
                i <= ts@.len(),
                self.tokens@ == old(self).tokens@ + ts@.take(i as int),
                self.wf(),
                forwards@.len() == self.n_processed - old(self).n_processed,
                old(self).tokens@.len() == 0
                    ==> forwards@.len() == (if i == 0 { 0int } else { i - 1 }),
                old(self).tokens@.len() > 0 ==> forwards@.len() == i,
                i == 0 ==> forwards@ =~= Seq::<usize>::empty(),
                i > 0 ==> forwards@ =~= spec_forward_list(
                    old(self).tokens@, ts@).take(forwards@.len() as int),
                i > 0 ==> self.tokens@.len() > 0,
            decreases ts@.len() - i,
        {
            if self.tokens.len() > 0 {
                let last = self.tokens[self.tokens.len() - 1];
                forwards.push(last);
                self.n_processed += 1;
                proof {
                    let full = spec_forward_list(old(self).tokens@, ts@);
                    if i == 0 {
                        assert(old(self).tokens@.len() > 0);
                        assert(last == old(self).tokens@.last());
                        assert(forwards@ =~= full.take(1));
                    } else {
                        assert(last == ts@[i - 1]);
                        assert(full[forwards@.len() - 1] == ts@.drop_last()[
                            forwards@.len() - 1 - (if old(self).tokens@.len() == 0 { 0int }
                                else { 1int })]);
                        assert(forwards@ =~= full.take(forwards@.len() as int));
                    }
                }
            }
            self.tokens.push(ts[i]);
            proof {
                assert(self.tokens@ =~= old(self).tokens@ + ts@.take(i + 1));
            }
            i += 1;
        }
        proof {
            assert(ts@.take(ts@.len() as int) =~= ts@);
            let full = spec_forward_list(old(self).tokens@, ts@);
            assert(forwards@ =~= full) by {
                if ts@.len() == 0 {
                } else if old(self).tokens@.len() == 0 {
                    assert(forwards@.len() == ts@.len() - 1);
                    assert(forwards@ =~= full.take(forwards@.len() as int));
                    assert(full.take(forwards@.len() as int) =~= full);
                } else {
                    assert(forwards@.len() == ts@.len());
                    assert(forwards@ =~= full.take(forwards@.len() as int));
                    assert(full.take(forwards@.len() as int) =~= full);
                }
            }
        }
        forwards
    }

    /// Replace the token sequence by `ts`, which must extend the
    /// current sequence: already-processed tokens are never rewritten.
    /// On success the tokens equal `ts` and the cache depth is one less
    /// than their number; the returned list holds the tokens to run
    /// the transformer on.
    pub fn set_tokens(&mut self, ts: &Vec<usize>) -> (r: Result<Vec<usize>, EngineError>)
        requires
            old(self).wf(),
        ensures
            final(self).wf(),
            r is Ok <==> old(self).spec_tokens().is_prefix_of(ts@),
            r matches Ok(fwd) ==> final(self).spec_tokens() == ts@
                && fwd@ == spec_forward_list(
                    old(self).spec_tokens(), ts@.skip(old(self).spec_tokens().len() as int))
                && (ts@.len() > 0 ==> final(self).spec_processed() == ts@.len() - 1)
                && (ts@.len() == 0 ==> final(self).spec_processed() == 0),
            r is Err ==> r == Err::<Vec<usize>, EngineError>(EngineError::InvariantViolation)
                && final(self).spec_tokens() == old(self).spec_tokens()
                && final(self).spec_processed() == old(self).spec_processed(),
    {
        let n = self.tokens.len();
        if n > ts.len() {
            return Err(EngineError::InvariantViolation);
        }
        let mut i: usize = 0;
        while i < n
            invariant
                i <= n,
                n == self.tokens@.len(),
                n <= ts@.len(),
                self.tokens@ == old(self).tokens@,
                self.spec_processed() == old(self).spec_processed(),
                self.wf(),
                forall|j: int| 0 <= j < i ==> self.tokens@[j] == ts@[j],
            decreases n - i,
        {
            if self.tokens[i] != ts[i] {
                proof {
                    assert(!old(self).spec_tokens().is_prefix_of(ts@));
                }
                return Err(EngineError::InvariantViolation);
            }
            i += 1;
        }
        proof {
            assert(old(self).spec_tokens().is_prefix_of(ts@));
        }
        let suffix = crate::shard::slice_range(ts, n, ts.len());
        let fwd = self.add_tokens(&suffix);
        proof {
            assert(old(self).spec_tokens() + ts@.skip(n as int) =~= ts@);
        }
        Ok(fwd)
    }

    /// Record the token the sampler produced: the transformer has just
    /// been run on the previous last token, so the cache depth grows
    /// with the sequence.
    pub fn record_next_token(&mut self, t: usize)
        requires
            old(self).wf(),
            old(self).spec_tokens().len() > 0,
        ensures
            final(self).wf(),
            final(self).spec_tokens() == old(self).spec_tokens().push(t),
            final(self).spec_processed() == old(self).spec_processed() + 1,
    {
        proof {
            assert(self.tokens.len() == self.tokens@.len());
        }
        self.n_processed += 1;
        self.tokens.push(t);
    }

    /// Empty the sequence; the caller clears every KV cache alongside.
    pub fn clear(&mut self)
        ensures
            final(self).spec_tokens() == Seq::<usize>::empty(),
            final(self).spec_processed() == 0,
            final(self).wf(),
    {
        self.tokens.clear();
        self.n_processed = 0;
    }
}

} // verus!
