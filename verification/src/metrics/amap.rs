use vstd::prelude::*;
use vstd::pervasive::VecAdditionalExecFns;

use crate::errors::MetricsError;
use crate::metrics::count_of;
use crate::metrics::has_key;
use crate::metrics::keys_unique;
use crate::metrics::lemma_count_at;
use crate::metrics::lemma_count_update;
use crate::metrics::lemma_count_zero;
use crate::metrics::position_of;
use crate::metrics::render_entry_lines;
use crate::metrics::render_lines;

verus! {

/// A counter mapping over a key set fixed at construction: an update to a
/// key outside the set fails instead of creating a counter.
pub struct AmapMetrics {
    data: Vec<(String, i64)>,
}

impl View for AmapMetrics {
    type V = Seq<(String, i64)>;

    closed spec fn view(&self) -> Seq<(String, i64)> {
        self.data@
    }
}

impl AmapMetrics {
    /// The representation invariant: one entry per counter name.
    pub open spec fn wf(&self) -> bool {
        keys_unique(self@)
    }

    /// Builds the mapping over the given names, every counter at 0.
    /// A repeated name keeps its first entry.
    pub fn new(metric_names: &Vec<String>) -> (r: AmapMetrics)
        ensures
            r.wf(),
            forall|k: Seq<char>|
                #[trigger] has_key(r@, k) <==> (exists|t: int|
                    0 <= t < metric_names@.len() && (#[trigger] metric_names@[t])@ == k),
            forall|k: Seq<char>| #[trigger] count_of(r@, k) == 0,
    {
        let n = metric_names.len();
        let mut data: Vec<(String, i64)> = Vec::new();
        let mut i: usize = 0;
        while i < n
            invariant
                i <= n,
                n == metric_names@.len(),
                keys_unique(data@),
                forall|t: int| 0 <= t < data@.len() ==> (#[trigger] data@[t]).1 == 0i64,
                forall|k: Seq<char>|
                    #[trigger] has_key(data@, k) <==> (exists|t: int|
                        0 <= t < i && (#[trigger] metric_names@[t])@ == k),
            decreases n - i,
        {
            let ghost prior = data@;
            let name = &metric_names[i];
            match position_of(&data, name) {
                Some(_) => {
                    proof {
                        assert forall|k: Seq<char>| #[trigger] has_key(data@, k) <==> (exists|
                            t: int,
                        |
                            0 <= t < i + 1 && (#[trigger] metric_names@[t])@ == k) by {
                            if k == name@ {
                                assert(has_key(data@, k));
                                assert((metric_names@[i as int])@ == k);
                            }
                        }
                    }
                },
                None => {
                    data.push((name.clone(), 0));
                    proof {
                        let nv = data@[data@.len() - 1];
                        assert(data@ =~= prior.push(nv));
                        assert forall|k: Seq<char>| #[trigger] has_key(data@, k) <==> (exists|
                            t: int,
                        |
                            0 <= t < i + 1 && (#[trigger] metric_names@[t])@ == k) by {
                            if has_key(data@, k) {
                                let t = choose|t: int|
                                    0 <= t < data@.len() && (#[trigger] data@[t]).0@ == k;
                                if t < prior.len() {
                                    assert(prior[t].0@ == data@[t].0@);
                                    assert(has_key(prior, k));
                                } else {
                                    assert(data@[t] == nv);
                                    assert((metric_names@[i as int])@ == k);
                                }
                            }
                            if exists|t: int|
                                0 <= t < i + 1 && (#[trigger] metric_names@[t])@ == k {
                                let t = choose|t: int|
                                    0 <= t < i + 1 && (#[trigger] metric_names@[t])@ == k;
                                if t < i {
                                    assert(has_key(prior, k));
                                    let u = choose|u: int|
                                        0 <= u < prior.len() && (#[trigger] prior[u]).0@ == k;
                                    assert(data@[u].0@ == prior[u].0@);
                                    assert(has_key(data@, k));
                                } else {
                                    assert(data@[data@.len() - 1].0@ == k);
                                    assert(has_key(data@, k));
                                }
                            }
                        }
                        assert forall|p: int, q: int|
                            0 <= p < q < data@.len() implies (#[trigger] data@[p]).0@
                            != (#[trigger] data@[q]).0@ by {
                            if q < data@.len() - 1 {
                                assert(data@[p].0@ == prior[p].0@);
                                assert(data@[q].0@ == prior[q].0@);
                            } else {
                                assert(data@[p].0@ == prior[p].0@);
                                assert(data@[q] == nv);
                            }
                        }
                    }
                },
            }
            i = i + 1;
        }
        let r = AmapMetrics { data };
        proof {
            assert forall|k: Seq<char>| #[trigger] count_of(r@, k) == 0 by {
                lemma_count_zero(r@, k);
            }
        }
        r
    }

    /// Raises the key's counter by one; fails, changing nothing, exactly
    /// when the key set does not contain the key.
    pub fn increment(&mut self, key: &String) -> (r: Result<(), MetricsError>)
        requires
            old(self).wf(),
            has_key(old(self)@, key@) ==> count_of(old(self)@, key@) < i64::MAX,
        ensures
            final(self).wf(),
            has_key(old(self)@, key@) ==> (r.is_ok() && count_of(final(self)@, key@) == count_of(
                old(self)@,
                key@,
            ) + 1),
            !has_key(old(self)@, key@) ==> (r == Err::<(), MetricsError>(MetricsError::KeyNotFound)
                && final(self)@ == old(self)@),
            forall|k: Seq<char>|
                k != key@ ==> #[trigger] count_of(final(self)@, k) == count_of(old(self)@, k),
            forall|k: Seq<char>| #[trigger] has_key(final(self)@, k) <==> has_key(old(self)@, k),
    {
        let ghost prior = self@;
        let ghost keyv = key@;
        match position_of(&self.data, key) {
            Some(i) => {
                proof {
                    assert(has_key(prior, keyv));
                    lemma_count_at(prior, keyv, i as int);
                }
                let name = self.data[i].0.clone();
                let v = self.data[i].1;
                self.data.set(i, (name, v + 1));
                proof {
                    let nv = self@[i as int];
                    assert(self@ =~= prior.update(i as int, nv));
                    lemma_count_update(prior, i as int, nv, keyv);
                    assert forall|k: Seq<char>| k != keyv implies #[trigger] count_of(self@, k)
                        == count_of(prior, k) by {
                        lemma_count_update(prior, i as int, nv, k);
                    }
                    assert forall|k: Seq<char>| #[trigger] has_key(self@, k) <==> has_key(
                        prior,
                        k,
                    ) by {
                        if has_key(self@, k) {
                            let t = choose|t: int|
                                0 <= t < self@.len() && (#[trigger] self@[t]).0@ == k;
                            assert(prior[t].0@ == self@[t].0@);
                            assert(has_key(prior, k));
                        }
                        if has_key(prior, k) {
                            let t = choose|t: int|
                                0 <= t < prior.len() && (#[trigger] prior[t]).0@ == k;
                            assert(self@[t].0@ == prior[t].0@);
                            assert(has_key(self@, k));
                        }
                    }
                    assert forall|p: int, q: int|
                        0 <= p < q < self@.len() implies (#[trigger] self@[p]).0@
                        != (#[trigger] self@[q]).0@ by {
                        assert(self@[p].0@ == prior[p].0@);
                        assert(self@[q].0@ == prior[q].0@);
                    }
                }
                Ok(())
            },
            None => {
                proof {
                    assert(!has_key(prior, keyv));
                }
                Err(MetricsError::KeyNotFound)
            },
        }
    }

    /// Lowers the key's counter by one; fails, changing nothing, exactly
    /// when the key set does not contain the key.
    pub fn decrement(&mut self, key: &String) -> (r: Result<(), MetricsError>)
        requires
            old(self).wf(),
            has_key(old(self)@, key@) ==> count_of(old(self)@, key@) > i64::MIN,
        ensures
            final(self).wf(),
            has_key(old(self)@, key@) ==> (r.is_ok() && count_of(final(self)@, key@) == count_of(
                old(self)@,
                key@,
            ) - 1),
            !has_key(old(self)@, key@) ==> (r == Err::<(), MetricsError>(MetricsError::KeyNotFound)
                && final(self)@ == old(self)@),
            forall|k: Seq<char>|
                k != key@ ==> #[trigger] count_of(final(self)@, k) == count_of(old(self)@, k),
            forall|k: Seq<char>| #[trigger] has_key(final(self)@, k) <==> has_key(old(self)@, k),
    {
        let ghost prior = self@;
        let ghost keyv = key@;
        match position_of(&self.data, key) {
            Some(i) => {
                proof {
                    assert(has_key(prior, keyv));
                    lemma_count_at(prior, keyv, i as int);
                }
                let name = self.data[i].0.clone();
                let v = self.data[i].1;
                self.data.set(i, (name, v - 1));
                proof {
                    let nv = self@[i as int];
                    assert(self@ =~= prior.update(i as int, nv));
                    lemma_count_update(prior, i as int, nv, keyv);
                    assert forall|k: Seq<char>| k != keyv implies #[trigger] count_of(self@, k)
                        == count_of(prior, k) by {
                        lemma_count_update(prior, i as int, nv, k);
                    }
                    assert forall|k: Seq<char>| #[trigger] has_key(self@, k) <==> has_key(
                        prior,
                        k,
                    ) by {
                        if has_key(self@, k) {
                            let t = choose|t: int|
                                0 <= t < self@.len() && (#[trigger] self@[t]).0@ == k;
                            assert(prior[t].0@ == self@[t].0@);
                            assert(has_key(prior, k));
                        }
                        if has_key(prior, k) {
                            let t = choose|t: int|
                                0 <= t < prior.len() && (#[trigger] prior[t]).0@ == k;
                            assert(self@[t].0@ == prior[t].0@);
                            assert(has_key(self@, k));
                        }
                    }
                    assert forall|p: int, q: int|
                        0 <= p < q < self@.len() implies (#[trigger] self@[p]).0@
                        != (#[trigger] self@[q]).0@ by {
                        assert(self@[p].0@ == prior[p].0@);
                        assert(self@[q].0@ == prior[q].0@);
                    }
                }
                Ok(())
            },
            None => {
                proof {
                    assert(!has_key(prior, keyv));
                }
                Err(MetricsError::KeyNotFound)
            },
        }
    }

    /// Renders every counter as a `key: value` line, in key-set order.
    pub fn render(&self) -> (r: String)
        ensures
            r@ == render_lines(self@, self@.len() as int),
    {
        render_entry_lines(&self.data)
    }
}

} // verus!
