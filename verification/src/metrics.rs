use vstd::prelude::*;
use vstd::pervasive::VecAdditionalExecFns;
use vstd::string::StringExecFns;

mod amap;

pub use amap::AmapMetrics;

use crate::decimal::dec_int;
use crate::decimal::push_i64;
use crate::errors::MetricsError;

verus! {

/// The counter value that `entries` holds for `key`: the value beside the
/// first entry carrying the key, and 0 where no entry carries it.
pub open spec fn count_of(entries: Seq<(String, i64)>, key: Seq<char>) -> int
    decreases entries.len(),
{
    if entries.len() == 0 {
        0
    } else if entries[0].0@ == key {
        entries[0].1 as int
    } else {
        count_of(entries.drop_first(), key)
    }
}

/// Some entry carries `key`.
pub open spec fn has_key(entries: Seq<(String, i64)>, key: Seq<char>) -> bool {
    exists|k: int| 0 <= k < entries.len() && (#[trigger] entries[k]).0@ == key
}

/// No two entries carry the same key.
pub open spec fn keys_unique(entries: Seq<(String, i64)>) -> bool {
    forall|p: int, q: int|
        0 <= p < q < entries.len() ==> (#[trigger] entries[p]).0@ != (#[trigger] entries[q]).0@
}

/// The first entry carrying `key` decides the count.
pub(crate) proof fn lemma_count_at(entries: Seq<(String, i64)>, key: Seq<char>, k: int)
    requires
        0 <= k < entries.len(),
        entries[k].0@ == key,
        forall|t: int| 0 <= t < k ==> (#[trigger] entries[t]).0@ != key,
    ensures
        count_of(entries, key) == entries[k].1,
    decreases k,
{
    if k > 0 {
        lemma_count_at(entries.drop_first(), key, k - 1);
    }
}

/// A key that no entry carries counts 0.
pub(crate) proof fn lemma_count_absent(entries: Seq<(String, i64)>, key: Seq<char>)
    requires
        forall|t: int| 0 <= t < entries.len() ==> (#[trigger] entries[t]).0@ != key,
    ensures
        count_of(entries, key) == 0,
    decreases entries.len(),
{
    if entries.len() > 0 {
        lemma_count_absent(entries.drop_first(), key);
    }
}

/// Replacing the entry at `idx` with one carrying the same key changes the
/// count of that key alone.
pub(crate) proof fn lemma_count_update(
    entries: Seq<(String, i64)>,
    idx: int,
    nv: (String, i64),
    key: Seq<char>,
)
    requires
        0 <= idx < entries.len(),
        nv.0@ == entries[idx].0@,
        keys_unique(entries),
    ensures
        key == nv.0@ ==> count_of(entries.update(idx, nv), key) == nv.1,
        key != nv.0@ ==> count_of(entries.update(idx, nv), key) == count_of(entries, key),
    decreases entries.len(),
{
    let updated = entries.update(idx, nv);
    if idx == 0 {
        assert(updated.drop_first() =~= entries.drop_first());
    } else {
        assert(updated[0] == entries[0]);
        assert(updated.drop_first() =~= entries.drop_first().update(idx - 1, nv));
        assert(entries.drop_first()[idx - 1] == entries[idx]);
        assert(keys_unique(entries.drop_first())) by {
            assert forall|p: int, q: int|
                0 <= p < q < entries.drop_first().len() implies (#[trigger] entries.drop_first()[p]).0@
                != (#[trigger] entries.drop_first()[q]).0@ by {
                assert(entries.drop_first()[p] == entries[p + 1]);
                assert(entries.drop_first()[q] == entries[q + 1]);
            }
        }
        lemma_count_update(entries.drop_first(), idx - 1, nv, key);
        if entries[0].0@ == key && key == nv.0@ {
            // Two entries would carry the key, against uniqueness.
            assert(entries[idx].0@ == key);
            assert(false);
        }
    }
}

/// Appending an entry leaves every other key's count alone, and gives a key
/// that no entry carried the appended value.
pub(crate) proof fn lemma_count_push(
    entries: Seq<(String, i64)>,
    nv: (String, i64),
    key: Seq<char>,
)
    ensures
        key != nv.0@ ==> count_of(entries.push(nv), key) == count_of(entries, key),
        key == nv.0@ && !has_key(entries, key) ==> count_of(entries.push(nv), key) == nv.1,
    decreases entries.len(),
{
    let pushed = entries.push(nv);
    if entries.len() == 0 {
        assert(pushed.drop_first() =~= Seq::<(String, i64)>::empty());
        if key != nv.0@ {
            assert(pushed[0] == nv);
            assert(count_of(pushed, key) == count_of(pushed.drop_first(), key));
            assert(count_of(pushed, key) == 0);
        }
    } else {
        assert(pushed[0] == entries[0]);
        assert(pushed.drop_first() =~= entries.drop_first().push(nv));
        if entries[0].0@ != key {
            lemma_count_push(entries.drop_first(), nv, key);
            if !has_key(entries, key) {
                let rest = entries.drop_first();
                assert forall|t: int| 0 <= t < rest.len() implies (#[trigger] rest[t]).0@
                    != key by {
                    assert(rest[t] == entries[t + 1]);
                    assert(!((entries[t + 1]).0@ == key));
                }
                assert(!has_key(rest, key));
            }
            if key != nv.0@ {
                assert(count_of(pushed, key) == count_of(pushed.drop_first(), key));
                assert(count_of(pushed.drop_first(), key) == count_of(entries.drop_first(), key));
                assert(count_of(entries, key) == count_of(entries.drop_first(), key));
            }
        } else {
            assert(has_key(entries, key));
            if key != nv.0@ {
                assert(count_of(pushed, key) == pushed[0].1);
                assert(count_of(entries, key) == entries[0].1);
            }
        }
    }
}

/// Every entry valued 0 makes every count 0.
pub(crate) proof fn lemma_count_zero(entries: Seq<(String, i64)>, key: Seq<char>)
    requires
        forall|t: int| 0 <= t < entries.len() ==> (#[trigger] entries[t]).1 == 0i64,
    ensures
        count_of(entries, key) == 0,
    decreases entries.len(),
{
    if entries.len() > 0 {
        lemma_count_zero(entries.drop_first(), key);
    }
}

/// The first `n` entries rendered one per line, as `key: value`.
pub open spec fn render_lines(entries: Seq<(String, i64)>, n: int) -> Seq<char>
    decreases n,
{
    if n <= 0 {
        Seq::empty()
    } else {
        render_lines(entries, n - 1) + entries[n - 1].0@ + ": "@ + dec_int(
            entries[n - 1].1 as int,
        ) + "\n"@
    }
}

/// The index of the first entry carrying `key`, if any; on `None`, no entry
/// carries it.
pub(crate) fn position_of(data: &Vec<(String, i64)>, key: &String) -> (r: Option<usize>)
    ensures
        match r {
            Some(i) => i < data@.len() && data@[i as int].0@ == key@ && (forall|t: int|
                0 <= t < i ==> (#[trigger] data@[t]).0@ != key@),
            None => forall|t: int| 0 <= t < data@.len() ==> (#[trigger] data@[t]).0@ != key@,
        },
{
    let n = data.len();
    let mut i: usize = 0;
    while i < n
        invariant
            i <= n,
            n == data@.len(),
            forall|t: int| 0 <= t < i ==> (#[trigger] data@[t]).0@ != key@,
        decreases n - i,
    {
        if data[i].0 == *key {
            return Some(i);
        }
        i = i + 1;
    }
    None
}

/// Renders `entries` one per line, as `key: value`.
pub(crate) fn render_entry_lines(data: &Vec<(String, i64)>) -> (r: String)
    ensures
        r@ == render_lines(data@, data@.len() as int),
{
    let mut s = String::new();
    let n = data.len();
    let mut i: usize = 0;
    while i < n
        invariant
            i <= n,
            n == data@.len(),
            s@ == render_lines(data@, i as int),
        decreases n - i,
    {
        s.append(data[i].0.as_str());
        s.append(": ");
        push_i64(&mut s, data[i].1);
        s.append("\n");
        proof {
            assert(s@ =~= render_lines(data@, i as int + 1));
        }
        i = i + 1;
    }
    s
}

/// A growable mapping of counter names to signed counts. A counter
/// springs into being at its first update.
pub struct Metrics {
    data: Vec<(String, i64)>,
}

impl View for Metrics {
    type V = Seq<(String, i64)>;

    closed spec fn view(&self) -> Seq<(String, i64)> {
        self.data@
    }
}

impl Metrics {
    /// The representation invariant: one entry per counter name.
    pub open spec fn wf(&self) -> bool {
        keys_unique(self@)
    }

    pub fn new() -> (r: Metrics)
        ensures
            r@.len() == 0,
            r.wf(),
    {
        Metrics { data: Vec::new() }
    }

    /// Raises the key's counter by one, creating it at 1 when absent.
    /// Never fails: the mapping grows on demand.
    pub fn increment(&mut self, key: String) -> (r: Result<(), MetricsError>)
        requires
            old(self).wf(),
            count_of(old(self)@, key@) < i64::MAX,
        ensures
            final(self).wf(),
            r.is_ok(),
            count_of(final(self)@, key@) == count_of(old(self)@, key@) + 1,
            forall|k: Seq<char>|
                k != key@ ==> #[trigger] count_of(final(self)@, k) == count_of(old(self)@, k),
            forall|k: Seq<char>|
                #[trigger] has_key(final(self)@, k) <==> (has_key(old(self)@, k) || k == key@),
    {
        let ghost prior = self@;
        let ghost keyv = key@;
        match position_of(&self.data, &key) {
            Some(i) => {
                proof {
                    lemma_count_at(prior, keyv, i as int);
                }
                let v = self.data[i].1;
                self.data.set(i, (key, v + 1));
                proof {
                    let nv = self@[i as int];
                    assert(self@ =~= prior.update(i as int, nv));
                    lemma_count_update(prior, i as int, nv, keyv);
                    assert forall|k: Seq<char>| k != keyv implies #[trigger] count_of(self@, k)
                        == count_of(prior, k) by {
                        lemma_count_update(prior, i as int, nv, k);
                    }
                    assert forall|k: Seq<char>| #[trigger] has_key(self@, k) <==> (has_key(
                        prior,
                        k,
                    ) || k == keyv) by {
                        if has_key(self@, k) {
                            let t = choose|t: int|
                                0 <= t < self@.len() && (#[trigger] self@[t]).0@ == k;
                            assert(prior[t].0@ == self@[t].0@);
                            assert(has_key(prior, k));
                        }
                        if has_key(prior, k) {
                            let t = choose|t: int|
                                0 <= t < prior.len() && (#[trigger] prior[t]).0@ == k;
                            assert(self@[t].0@ == prior[t].0@);
                            assert(has_key(self@, k));
                        }
                        if k == keyv {
                            assert(prior[i as int].0@ == k);
                            assert(has_key(prior, k));
                        }
                    }
                    assert forall|p: int, q: int|
                        0 <= p < q < self@.len() implies (#[trigger] self@[p]).0@
                        != (#[trigger] self@[q]).0@ by {
                        assert(self@[p].0@ == prior[p].0@);
                        assert(self@[q].0@ == prior[q].0@);
                    }
                }
                Ok(())
            },
            None => {
                proof {
                    lemma_count_absent(prior, keyv);
                    assert(!has_key(prior, keyv));
                }
                self.data.push((key, 1));
                proof {
                    let nv = self@[self@.len() - 1];
                    assert(self@ =~= prior.push(nv));
                    lemma_count_push(prior, nv, keyv);
                    assert forall|k: Seq<char>| k != keyv implies #[trigger] count_of(self@, k)
                        == count_of(prior, k) by {
                        lemma_count_push(prior, nv, k);
                    }
                    assert forall|k: Seq<char>| #[trigger] has_key(self@, k) <==> (has_key(
                        prior,
                        k,
                    ) || k == keyv) by {
                        if has_key(self@, k) {
                            let t = choose|t: int|
                                0 <= t < self@.len() && (#[trigger] self@[t]).0@ == k;
                            if t < prior.len() {
                                assert(prior[t].0@ == self@[t].0@);
                                assert(has_key(prior, k));
                            } else {
                                assert(self@[t] == nv);
                            }
                        }
                        if has_key(prior, k) {
                            let t = choose|t: int|
                                0 <= t < prior.len() && (#[trigger] prior[t]).0@ == k;
                            assert(self@[t].0@ == prior[t].0@);
                            assert(has_key(self@, k));
                        }
                        if k == keyv {
                            assert(self@[self@.len() - 1].0@ == k);
                            assert(has_key(self@, k));
                        }
                    }
                    assert forall|p: int, q: int|
                        0 <= p < q < self@.len() implies (#[trigger] self@[p]).0@
                        != (#[trigger] self@[q]).0@ by {
                        if q < self@.len() - 1 {
                            assert(self@[p].0@ == prior[p].0@);
                            assert(self@[q].0@ == prior[q].0@);
                        } else {
                            assert(self@[p].0@ == prior[p].0@);
                            assert(self@[q] == nv);
                            assert(!((prior[p]).0@ == keyv));
                        }
                    }
                }
                Ok(())
            },
        }
    }

    /// Lowers the key's counter by one, creating it at -1 when absent.
    /// Never fails: the mapping grows on demand.
    pub fn decrement(&mut self, key: String) -> (r: Result<(), MetricsError>)
        requires
            old(self).wf(),
            count_of(old(self)@, key@) > i64::MIN,
        ensures
            final(self).wf(),
            r.is_ok(),
            count_of(final(self)@, key@) == count_of(old(self)@, key@) - 1,
            forall|k: Seq<char>|
                k != key@ ==> #[trigger] count_of(final(self)@, k) == count_of(old(self)@, k),
            forall|k: Seq<char>|
                #[trigger] has_key(final(self)@, k) <==> (has_key(old(self)@, k) || k == key@),
    {
        let ghost prior = self@;
        let ghost keyv = key@;
        match position_of(&self.data, &key) {
            Some(i) => {
                proof {
                    lemma_count_at(prior, keyv, i as int);
                }
                let v = self.data[i].1;
                self.data.set(i, (key, v - 1));
                proof {
                    let nv = self@[i as int];
                    assert(self@ =~= prior.update(i as int, nv));
                    lemma_count_update(prior, i as int, nv, keyv);
                    assert forall|k: Seq<char>| k != keyv implies #[trigger] count_of(self@, k)
                        == count_of(prior, k) by {
                        lemma_count_update(prior, i as int, nv, k);
                    }
                    assert forall|k: Seq<char>| #[trigger] has_key(self@, k) <==> (has_key(
                        prior,
                        k,
                    ) || k == keyv) by {
                        if has_key(self@, k) {
                            let t = choose|t: int|
                                0 <= t < self@.len() && (#[trigger] self@[t]).0@ == k;
                            assert(prior[t].0@ == self@[t].0@);
                            assert(has_key(prior, k));
                        }
                        if has_key(prior, k) {
                            let t = choose|t: int|
                                0 <= t < prior.len() && (#[trigger] prior[t]).0@ == k;
                            assert(self@[t].0@ == prior[t].0@);
                            assert(has_key(self@, k));
                        }
                        if k == keyv {
                            assert(prior[i as int].0@ == k);
                            assert(has_key(prior, k));
                        }
                    }
                    assert forall|p: int, q: int|
                        0 <= p < q < self@.len() implies (#[trigger] self@[p]).0@
                        != (#[trigger] self@[q]).0@ by {
                        assert(self@[p].0@ == prior[p].0@);
                        assert(self@[q].0@ == prior[q].0@);
                    }
                }
                Ok(())
            },
            None => {
                proof {
                    lemma_count_absent(prior, keyv);
                    assert(!has_key(prior, keyv));
                }
                self.data.push((key, -1));
                proof {
                    let nv = self@[self@.len() - 1];
                    assert(self@ =~= prior.push(nv));
                    lemma_count_push(prior, nv, keyv);
                    assert forall|k: Seq<char>| k != keyv implies #[trigger] count_of(self@, k)
                        == count_of(prior, k) by {
                        lemma_count_push(prior, nv, k);
                    }
                    assert forall|k: Seq<char>| #[trigger] has_key(self@, k) <==> (has_key(
                        prior,
                        k,
                    ) || k == keyv) by {
                        if has_key(self@, k) {
                            let t = choose|t: int|
                                0 <= t < self@.len() && (#[trigger] self@[t]).0@ == k;
                            if t < prior.len() {
                                assert(prior[t].0@ == self@[t].0@);
                                assert(has_key(prior, k));
                            } else {
                                assert(self@[t] == nv);
                            }
                        }
                        if has_key(prior, k) {
                            let t = choose|t: int|
                                0 <= t < prior.len() && (#[trigger] prior[t]).0@ == k;
                            assert(self@[t].0@ == prior[t].0@);
                            assert(has_key(self@, k));
                        }
                        if k == keyv {
                            assert(self@[self@.len() - 1].0@ == k);
                            assert(has_key(self@, k));
                        }
                    }
                    assert forall|p: int, q: int|
                        0 <= p < q < self@.len() implies (#[trigger] self@[p]).0@
                        != (#[trigger] self@[q]).0@ by {
                        if q < self@.len() - 1 {
                            assert(self@[p].0@ == prior[p].0@);
                            assert(self@[q].0@ == prior[q].0@);
                        } else {
                            assert(self@[p].0@ == prior[p].0@);
                            assert(self@[q] == nv);
                            assert(!((prior[p]).0@ == keyv));
                        }
                    }
                }
                Ok(())
            },
        }
    }

    /// A copy of every counter with its current value, in creation order.
    pub fn snapshot(&self) -> (r: Result<Vec<(String, i64)>, MetricsError>)
        ensures
            r matches Ok(v) && v@.len() == self@.len() && (forall|t: int|
                0 <= t < self@.len() ==> ((#[trigger] v@[t]).0@ == self@[t].0@ && v@[t].1
                    == self@[t].1)),
    {
        let n = self.data.len();
        let mut out: Vec<(String, i64)> = Vec::new();
        let mut i: usize = 0;
        while i < n
            invariant
                i <= n,
                n == self@.len(),
                out@.len() == i,
                forall|t: int|
                    0 <= t < i ==> ((#[trigger] out@[t]).0@ == self@[t].0@ && out@[t].1
                        == self@[t].1),
            decreases n - i,
        {
            let name = self.data[i].0.clone();
            let value = self.data[i].1;
            out.push((name, value));
            i = i + 1;
        }
        Ok(out)
    }

    /// Renders every counter as a `key: value` line, in creation order.
    pub fn render(&self) -> (r: String)
        ensures
            r@ == render_lines(self@, self@.len() as int),
    {
        render_entry_lines(&self.data)
    }
}

impl Default for Metrics {
    fn default() -> (r: Metrics)
        ensures
            r@.len() == 0,
            r.wf(),
    {
        Metrics::new()
    }
}

} // verus!
