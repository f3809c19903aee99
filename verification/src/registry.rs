use vstd::prelude::*;
use crate::linear_aqlm::{AqlmModel, LinearAQLM};
use crate::linear_int8::LinearINT8;
use crate::matrix_int8::{Int8Model, MatrixInt8};

verus! {

// ---------------------------------------------------------------------
// A name-indexed store of operators. Names are byte strings chosen by
// the coordinator; the store behaves as a map with insert-or-replace
// and remove.
// ---------------------------------------------------------------------

/// What a lookup of `k` finds in an association list: the first pair
/// whose key is `k`.
pub open spec fn seq_get<V>(s: Seq<(Vec<u8>, V)>, k: Seq<u8>) -> Option<V>
    decreases s.len(),
{
    if s.len() == 0 {
        None
    } else if s[0].0@ == k {
        Some(s[0].1)
    } else {
        seq_get(s.drop_first(), k)
    }
}

proof fn lemma_seq_get_at<V>(s: Seq<(Vec<u8>, V)>, k: Seq<u8>, i: int)
    requires
        0 <= i < s.len(),
        s[i].0@ == k,
        forall|j: int| 0 <= j < i ==> (#[trigger] s[j]).0@ != k,
    ensures
        seq_get(s, k) == Some(s[i].1),
    decreases i,
{
    if i == 0 {
    } else {
        assert(s[0].0@ != k);
        lemma_seq_get_at(s.drop_first(), k, i - 1);
    }
}

proof fn lemma_seq_get_none<V>(s: Seq<(Vec<u8>, V)>, k: Seq<u8>)
    requires
        forall|j: int| 0 <= j < s.len() ==> (#[trigger] s[j]).0@ != k,
    ensures
        seq_get(s, k) is None,
    decreases s.len(),
{
    if s.len() > 0 {
        lemma_seq_get_none(s.drop_first(), k);
    }
}

proof fn lemma_seq_get_push_other<V>(s: Seq<(Vec<u8>, V)>, e: (Vec<u8>, V), k: Seq<u8>)
    requires
        e.0@ != k,
    ensures
        seq_get(s.push(e), k) == seq_get(s, k),
    decreases s.len(),
{
    if s.len() == 0 {
        assert(s.push(e)[0] == e);
        assert(s.push(e).drop_first() =~= Seq::<(Vec<u8>, V)>::empty());
        assert(seq_get(s.push(e).drop_first(), k) is None);
        assert(seq_get(s.push(e), k) is None);
        assert(seq_get(s, k) is None);
    } else {
        assert(s.push(e)[0] == s[0]);
        assert(s.push(e).drop_first() =~= s.drop_first().push(e));
        lemma_seq_get_push_other(s.drop_first(), e, k);
        assert(seq_get(s.push(e), k) == seq_get(s, k));
    }
}

proof fn lemma_seq_get_remove_other<V>(s: Seq<(Vec<u8>, V)>, i: int, k: Seq<u8>)
    requires
        0 <= i < s.len(),
        s[i].0@ != k,
    ensures
        seq_get(s.remove(i), k) == seq_get(s, k),
    decreases s.len(),
{
    if i == 0 {
        assert(s.remove(0) =~= s.drop_first());
    } else {
        assert(s.remove(i)[0] == s[0]);
        if s[0].0@ == k {
        } else {
            assert(s.remove(i).drop_first() =~= s.drop_first().remove(i - 1));
            lemma_seq_get_remove_other(s.drop_first(), i - 1, k);
        }
    }
}

/// A byte-name-indexed store.
pub struct NamedStore<V> {
    items: Vec<(Vec<u8>, V)>,
}

impl<V> NamedStore<V> {
    /// Keys are pairwise distinct, so the first match is the only one.
    #[verifier::type_invariant]
    spec fn distinct_keys(self) -> bool {
        forall|i: int, j: int|
            0 <= i < j < self.items@.len()
                ==> (#[trigger] self.items@[i]).0@ != (#[trigger] self.items@[j]).0@
    }

    /// The binding of a name, if any.
    pub closed spec fn spec_get(&self, k: Seq<u8>) -> Option<V> {
        seq_get(self.items@, k)
    }

    pub fn new() -> (r: Self)
        ensures
            forall|k: Seq<u8>| r.spec_get(k) is None,
    {
        let r = NamedStore { items: Vec::new() };
        proof {
            assert forall|k: Seq<u8>| r.spec_get(k) is None by {
                lemma_seq_get_none(r.items@, k);
            }
        }
        r
    }

    fn find_index(&self, name: &Vec<u8>) -> (r: Option<usize>)
        ensures
            r matches Some(i) ==> i < self.items@.len() && self.items@[i as int].0@ == name@
                && (forall|j: int| 0 <= j < i ==> (#[trigger] self.items@[j]).0@ != name@)
                && self.spec_get(name@) == Some(self.items@[i as int].1),
            r is None ==> self.spec_get(name@) is None,
    {
        let mut i: usize = 0;
        while i < self.items.len()
            invariant
                i <= self.items@.len(),
                forall|j: int| 0 <= j < i ==> (#[trigger] self.items@[j]).0@ != name@,
            decreases self.items@.len() - i,
        {
            if &self.items[i].0 == name {
                proof {
                    assert(self.items@[i as int].0@ =~= name@);
                    lemma_seq_get_at(self.items@, name@, i as int);
                }
                return Some(i);
            }
            proof {
                assert(self.items@[i as int].0@ != name@) by {
                    if self.items@[i as int].0@ == name@ {
                        assert(self.items@[i as int].0@ =~= name@);
                    }
                }
            }
            i += 1;
        }
        proof {
            lemma_seq_get_none(self.items@, name@);
        }
        None
    }

    /// Bind a name, replacing any earlier binding.
    pub fn insert(&mut self, name: Vec<u8>, value: V)
        ensures
            final(self).spec_get(name@) == Some(value),
            forall|k: Seq<u8>| k != name@
                ==> #[trigger] final(self).spec_get(k) == old(self).spec_get(k),
    {
        proof {
            use_type_invariant(&*self);
        }
        let found = self.find_index(&name);
        let ghost pre = self.items@;
        let mut items: Vec<(Vec<u8>, V)> = Vec::new();
        core::mem::swap(&mut items, &mut self.items);
        match found {
            Some(i) => {
                let _ = items.remove(i);
                proof {
                    let mid = items@;
                    assert(mid =~= pre.remove(i as int));
                    assert forall|j: int| 0 <= j < mid.len() implies
                        (#[trigger] mid[j]).0@ != name@ by {
                        assert(mid[j] == if j < i { pre[j] } else { pre[j + 1] });
                    }
                }
            },
            None => {
                proof {
                    assert forall|j: int| 0 <= j < items@.len() implies
                        (#[trigger] items@[j]).0@ != name@ by {
                        if items@[j].0@ == name@ {
                            lemma_seq_get_at(items@, name@, j);
                            assert(false);
                        }
                    }
                }
            },
        }
        let ghost mid = items@;
        items.push((name, value));
        proof {
            assert forall|a: int, b: int|
                0 <= a < b < items@.len() implies
                (#[trigger] items@[a]).0@ != (#[trigger] items@[b]).0@ by {
                if b < mid.len() {
                    assert(items@[a] == mid[a] && items@[b] == mid[b]);
                    match found {
                        Some(i) => {
                            assert(mid[a] == if a < i { pre[a] } else { pre[a + 1] });
                            assert(mid[b] == if b < i { pre[b] } else { pre[b + 1] });
                        },
                        None => {},
                    }
                } else {
                    assert(items@[b].0@ == name@);
                    assert(items@[a] == mid[a]);
                }
            }
            lemma_seq_get_at(items@, name@, mid.len() as int);
        }
        core::mem::swap(&mut items, &mut self.items);
        proof {
            assert forall|k: Seq<u8>| k != name@ implies
                #[trigger] final(self).spec_get(k) == old(self).spec_get(k) by {
                match found {
                    Some(i) => {
                        lemma_seq_get_push_other(
                            pre.remove(i as int), (name, value), k);
                        if pre[i as int].0@ == k {
                        } else {
                            lemma_seq_get_remove_other(pre, i as int, k);
                        }
                    },
                    None => {
                        lemma_seq_get_push_other(pre, (name, value), k);
                    },
                }
            }
        }
    }

    /// Drop a binding; answers whether the name was bound.
    pub fn remove(&mut self, name: &Vec<u8>) -> (r: bool)
        ensures
            r == (old(self).spec_get(name@) is Some),
            final(self).spec_get(name@) is None,
            forall|k: Seq<u8>| k != name@
                ==> #[trigger] final(self).spec_get(k) == old(self).spec_get(k),
    {
        proof {
            use_type_invariant(&*self);
        }
        let found = self.find_index(name);
        let ghost pre = self.items@;
        match found {
            Some(i) => {
                let mut items: Vec<(Vec<u8>, V)> = Vec::new();
                core::mem::swap(&mut items, &mut self.items);
                let _ = items.remove(i);
                proof {
                    let mid = items@;
                    assert(mid =~= pre.remove(i as int));
                    assert forall|a: int, b: int|
                        0 <= a < b < mid.len() implies
                        (#[trigger] mid[a]).0@ != (#[trigger] mid[b]).0@ by {
                        assert(mid[a] == if a < i { pre[a] } else { pre[a + 1] });
                        assert(mid[b] == if b < i { pre[b] } else { pre[b + 1] });
                    }
                    assert forall|j: int| 0 <= j < mid.len() implies
                        (#[trigger] mid[j]).0@ != name@ by {
                        assert(mid[j] == if j < i { pre[j] } else { pre[j + 1] });
                    }
                    lemma_seq_get_none(mid, name@);
                    assert forall|k: Seq<u8>| k != name@ implies
                        #[trigger] seq_get(mid, k) == seq_get(pre, k) by {
                        if pre[i as int].0@ == k {
                        } else {
                            lemma_seq_get_remove_other(pre, i as int, k);
                        }
                    }
                }
                core::mem::swap(&mut items, &mut self.items);
                true
            },
            None => false,
        }
    }

    /// Look a binding up.
    pub fn get(&self, name: &Vec<u8>) -> (r: Option<&V>)
        ensures
            r matches Some(v) ==> self.spec_get(name@) == Some(*v),
            r is None ==> self.spec_get(name@) is None,
    {
        match self.find_index(name) {
            Some(i) => Some(&self.items[i].1),
            None => None,
        }
    }
}

// ---------------------------------------------------------------------
// The worker-side registry: one named store of AQLM operators and one
// of INT8 operators.
// ---------------------------------------------------------------------

pub struct LocalLinearRegistry {
    aqlm_storage: NamedStore<LinearAQLM>,
    int8_storage: NamedStore<LinearINT8>,
}

impl LocalLinearRegistry {
    /// The AQLM operator bound to a name, as its model.
    pub closed spec fn spec_aqlm(&self, k: Seq<u8>) -> Option<AqlmModel> {
        match self.aqlm_storage.spec_get(k) {
            Some(op) => Some(op@),
            None => None,
        }
    }

    /// The INT8 operator bound to a name, as its model.
    pub closed spec fn spec_int8(&self, k: Seq<u8>) -> Option<Int8Model> {
        match self.int8_storage.spec_get(k) {
            Some(op) => Some(op@),
            None => None,
        }
    }

    pub fn new() -> (r: Self)
        ensures
            forall|k: Seq<u8>| r.spec_aqlm(k) is None,
            forall|k: Seq<u8>| r.spec_int8(k) is None,
    {
        LocalLinearRegistry { aqlm_storage: NamedStore::new(), int8_storage: NamedStore::new() }
    }

    pub fn echo(&mut self, data: Vec<u8>) -> (r: Vec<u8>)
        ensures
            r == data,
    {
        data
    }

    /// Install an AQLM operator under a name.
    pub fn add_aqlm(
        &mut self,
        name: Vec<u8>,
        codebooks: Vec<u32>,
        scales: Vec<u32>,
        codes: Vec<u8>,
        out_dim: usize,
        in_group_dim: usize,
    )
        requires
            codes@.len() == (in_group_dim as int) * 2 * (out_dim as int),
            scales@.len() == out_dim,
            (in_group_dim as int) * 8 <= usize::MAX,
        ensures
            final(self).spec_aqlm(name@) == Some(AqlmModel {
                codebooks: codebooks@,
                scales: scales@,
                codes: codes@,
                out_dim: out_dim as int,
                in_group_dim: in_group_dim as int,
            }),
            forall|k: Seq<u8>| k != name@
                ==> #[trigger] final(self).spec_aqlm(k) == old(self).spec_aqlm(k),
            forall|k: Seq<u8>| #[trigger] final(self).spec_int8(k) == old(self).spec_int8(k),
    {
        let op = LinearAQLM::new(codebooks, scales, codes, out_dim, in_group_dim);
        self.aqlm_storage.insert(name, op);
    }

    /// Install an INT8 operator under a name.
    pub fn add_int8(&mut self, name: Vec<u8>, max_values: Vec<u32>, int8_values: Vec<i8>)
        requires
            max_values@.len() > 0,
            int8_values@.len() % max_values@.len() == 0,
        ensures
            final(self).spec_int8(name@) == Some(Int8Model {
                max_values: max_values@,
                int8_values: int8_values@,
            }),
            forall|k: Seq<u8>| k != name@
                ==> #[trigger] final(self).spec_int8(k) == old(self).spec_int8(k),
            forall|k: Seq<u8>| #[trigger] final(self).spec_aqlm(k) == old(self).spec_aqlm(k),
    {
        let op = LinearINT8::new(MatrixInt8::new(max_values, int8_values));
        self.int8_storage.insert(name, op);
    }

    /// Uninstall an AQLM operator; answers whether it was installed.
    pub fn remove_aqlm(&mut self, name: &Vec<u8>) -> (r: bool)
        ensures
            r == (old(self).spec_aqlm(name@) is Some),
            final(self).spec_aqlm(name@) is None,
            forall|k: Seq<u8>| k != name@
                ==> #[trigger] final(self).spec_aqlm(k) == old(self).spec_aqlm(k),
            forall|k: Seq<u8>| #[trigger] final(self).spec_int8(k) == old(self).spec_int8(k),
    {
        self.aqlm_storage.remove(name)
    }

    /// The AQLM operator a forward request names.
    pub fn get_aqlm(&self, name: &Vec<u8>) -> (r: Option<&LinearAQLM>)
        ensures
            r matches Some(op) ==> self.spec_aqlm(name@) == Some(op@),
            r is None ==> self.spec_aqlm(name@) is None,
    {
        self.aqlm_storage.get(name)
    }

    /// The INT8 operator a forward request names.
    pub fn get_int8(&self, name: &Vec<u8>) -> (r: Option<&LinearINT8>)
        ensures
            r matches Some(op) ==> self.spec_int8(name@) == Some(op@),
            r is None ==> self.spec_int8(name@) is None,
    {
        self.int8_storage.get(name)
    }
}

} // verus!
