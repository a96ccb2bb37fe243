//! Call-count instrumentation.
//!
//! A tracer maps a call-site label to an accumulated invocation count.  The
//! store only grows: counts rise through `increment_call` and whole tracers
//! combine through `merge`.  Counts saturate at the word limit instead of
//! wrapping.  The tracer is diagnostic only; nothing in the solvers reads it
//! back to steer control flow.

use vstd::prelude::*;

verus! {

/// Saturating addition on counter words.
pub open spec fn sat_add_u64(a: u64, b: u64) -> u64 {
    if a + b > u64::MAX {
        u64::MAX
    } else {
        (a + b) as u64
    }
}

/// The count stored under `k`, or zero when the label is absent.
pub open spec fn map_count(m: Map<Seq<char>, u64>, k: Seq<char>) -> u64 {
    if m.dom().contains(k) {
        m[k]
    } else {
        0
    }
}

/// Whether the entry list holds the label `k`.
pub open spec fn keys_contain(s: Seq<(String, u64)>, k: Seq<char>) -> bool
    decreases s.len(),
{
    if s.len() == 0 {
        false
    } else if s.last().0@ == k {
        true
    } else {
        keys_contain(s.drop_last(), k)
    }
}

/// The count stored in the entry list under `k`, zero when absent.
pub open spec fn count_of(s: Seq<(String, u64)>, k: Seq<char>) -> u64
    decreases s.len(),
{
    if s.len() == 0 {
        0
    } else if s.last().0@ == k {
        s.last().1
    } else {
        count_of(s.drop_last(), k)
    }
}

/// No label occurs twice in the entry list.
pub open spec fn keys_unique(s: Seq<(String, u64)>) -> bool {
    forall|i: int, j: int| 0 <= i < j < s.len() ==> (#[trigger] s[i]).0@ != (#[trigger] s[j]).0@
}

/// A label is held exactly when some entry carries it; an absent label
/// counts zero.
pub proof fn lemma_keys_contain_iff(s: Seq<(String, u64)>, k: Seq<char>)
    ensures
        keys_contain(s, k) <==> exists|x: int| 0 <= x < s.len() && (#[trigger] s[x]).0@ == k,
        !keys_contain(s, k) ==> count_of(s, k) == 0,
    decreases s.len(),
{
    if s.len() > 0 {
        lemma_keys_contain_iff(s.drop_last(), k);
        if s.last().0@ == k {
            assert(s[s.len() - 1].0@ == k);
        } else {
            if exists|x: int| 0 <= x < s.len() && (#[trigger] s[x]).0@ == k {
                let x = choose|x: int| 0 <= x < s.len() && (#[trigger] s[x]).0@ == k;
                assert(x < s.len() - 1 && s.drop_last()[x] == s[x]);
            }
        }
    }
}

/// With unique labels, the count under an entry's label is that entry's
/// count.
pub proof fn lemma_count_at(s: Seq<(String, u64)>, j: int)
    requires
        keys_unique(s),
        0 <= j < s.len(),
    ensures
        count_of(s, s[j].0@) == s[j].1,
        keys_contain(s, s[j].0@),
    decreases s.len(),
{
    if j == s.len() - 1 {
        assert(s.last() == s[j]);
    } else {
        assert(s.last() == s[s.len() - 1]);
        assert(s[s.len() - 1].0@ != s[j].0@);
        assert(s.drop_last()[j] == s[j]);
        lemma_count_at(s.drop_last(), j);
    }
}

/// The map obtained from `m0` by folding in the first `i` entries of `s`,
/// each through a saturating increment.
pub open spec fn merged_prefix(
    m0: Map<Seq<char>, u64>,
    s: Seq<(String, u64)>,
    i: nat,
) -> Map<Seq<char>, u64>
    decreases i,
{
    if i == 0 {
        m0
    } else {
        let p = merged_prefix(m0, s, (i - 1) as nat);
        p.insert(s[i - 1].0@, sat_add_u64(map_count(p, s[i - 1].0@), s[i - 1].1))
    }
}

/// With unique labels, folding in the first `i` entries raises exactly the
/// labels among them, each by its stored count.
pub proof fn lemma_merged_prefix_count(
    m0: Map<Seq<char>, u64>,
    s: Seq<(String, u64)>,
    i: nat,
    k: Seq<char>,
)
    requires
        keys_unique(s),
        i <= s.len(),
    ensures
        map_count(merged_prefix(m0, s, i), k) == (if exists|x: int|
            0 <= x < i && (#[trigger] s[x]).0@ == k {
            sat_add_u64(map_count(m0, k), count_of(s, k))
        } else {
            map_count(m0, k)
        }),
        merged_prefix(m0, s, i).dom().contains(k) <==> m0.dom().contains(k) || exists|x: int|
            0 <= x < i && (#[trigger] s[x]).0@ == k,
    decreases i,
{
    if i == 0 {
    } else {
        lemma_merged_prefix_count(m0, s, (i - 1) as nat, k);
        let p = merged_prefix(m0, s, (i - 1) as nat);
        let ki = s[i - 1].0@;
        let r = merged_prefix(m0, s, i);
        if k == ki {
            assert(!(exists|x: int| 0 <= x < i - 1 && (#[trigger] s[x]).0@ == k)) by {
                if exists|x: int| 0 <= x < i - 1 && (#[trigger] s[x]).0@ == k {
                    let x = choose|x: int| 0 <= x < i - 1 && (#[trigger] s[x]).0@ == k;
                    assert(s[x].0@ != s[i - 1].0@);
                }
            }
            assert(map_count(p, k) == map_count(m0, k));
            lemma_count_at(s, i - 1);
            assert(map_count(r, k) == sat_add_u64(map_count(m0, k), count_of(s, k)));
            assert(0 <= i - 1 < i && s[i - 1].0@ == k);
        } else {
            assert(map_count(r, k) == map_count(p, k));
            assert(r.dom().contains(k) == p.dom().contains(k));
            if exists|x: int| 0 <= x < i && (#[trigger] s[x]).0@ == k {
                let x = choose|x: int| 0 <= x < i && (#[trigger] s[x]).0@ == k;
                assert(x != i - 1);
                assert(0 <= x < i - 1 && s[x].0@ == k);
            } else {
                assert(!(exists|x: int| 0 <= x < i - 1 && (#[trigger] s[x]).0@ == k)) by {
                    if exists|x: int| 0 <= x < i - 1 && (#[trigger] s[x]).0@ == k {
                        let x = choose|x: int| 0 <= x < i - 1 && (#[trigger] s[x]).0@ == k;
                        assert(0 <= x < i && s[x].0@ == k);
                    }
                }
            }
        }
    }
}

/// One saturating bump of a single label: every other label keeps its
/// count, and no count decreases.
pub proof fn lemma_bump_frame(m: Map<Seq<char>, u64>, key: Seq<char>, amt: u64)
    ensures
        ({
            let m2 = m.insert(key, sat_add_u64(map_count(m, key), amt));
            &&& forall|k: Seq<char>|
                k != key ==> #[trigger] map_count(m2, k) == map_count(m, k)
            &&& forall|k: Seq<char>| #[trigger] map_count(m2, k) >= map_count(m, k)
        }),
{
    let m2 = m.insert(key, sat_add_u64(map_count(m, key), amt));
    assert forall|k: Seq<char>| #[trigger] map_count(m2, k) >= map_count(m, k) by {
        if k == key {
            assert(map_count(m2, k) == sat_add_u64(map_count(m, key), amt));
        }
    }
}

/// Process-scoped store of per-label invocation counts.
pub struct Tracer {
    calls: Vec<(String, u64)>,
}

impl View for Tracer {
    type V = Map<Seq<char>, u64>;

    closed spec fn view(&self) -> Map<Seq<char>, u64> {
        Map::new(
            |k: Seq<char>| keys_contain(self.calls@, k),
            |k: Seq<char>| count_of(self.calls@, k),
        )
    }
}

impl Tracer {
    /// Each label is stored at most once.
    pub closed spec fn wf(self) -> bool {
        keys_unique(self.calls@)
    }

    /// An empty tracer: no label has been counted.
    pub fn new() -> (r: Tracer)
        ensures
            r.wf(),
            r@ == Map::<Seq<char>, u64>::empty(),
    {
        let r = Tracer { calls: Vec::new() };
        proof {
            assert(r@ =~= Map::<Seq<char>, u64>::empty());
        }
        r
    }

    /// The number of distinct labels held.
    pub fn num_entries(&self) -> (n: usize)
        ensures
            n == self.num_entries_spec(),
    {
        self.calls.len()
    }

    /// The label and count of the entry at position `i`, in the store's own
    /// unspecified order.
    pub fn entry_at(&self, i: usize) -> (r: (String, u64))
        requires
            self.wf(),
            i < self.num_entries_spec(),
        ensures
            self@.dom().contains(r.0@),
            r.1 == map_count(self@, r.0@),
    {
        let key = self.calls[i].0.clone();
        let count = self.calls[i].1;
        proof {
            lemma_count_at(self.calls@, i as int);
        }
        (key, count)
    }

    /// The number of entries, for use in callers' bounds.
    pub closed spec fn num_entries_spec(&self) -> nat {
        self.calls@.len()
    }

    /// Adds `amount` to the count stored for `name`, starting from `amount`
    /// itself the first time the label occurs; the count saturates at the
    /// word limit.
    #[verifier::loop_isolation(false)]
    pub fn increment_call(&mut self, name: String, amount: u64)
        requires
            old(self).wf(),
        ensures
            final(self).wf(),
            final(self)@ == old(self)@.insert(
                name@,
                sat_add_u64(map_count(old(self)@, name@), amount),
            ),
    {
        let ghost m0 = self@;
        let ghost s0 = self.calls@;
        proof {
            lemma_keys_contain_iff(s0, name@);
        }
        let n = self.calls.len();
        let mut i: usize = 0;
        while i < n
            invariant
                self.calls@ == s0,
                keys_unique(s0),
                m0 == self@,
                n == s0.len(),
                i <= n,
                forall|x: int| 0 <= x < i ==> (#[trigger] s0[x]).0@ != name@,
            decreases n - i,
        {
            if self.calls[i].0 == name {
                proof {
                    assert(s0[i as int].0@ == name@);
                }
                let c = self.calls[i].1;
                let nv = match c.checked_add(amount) {
                    Some(v) => v,
                    None => u64::MAX,
                };
                proof {
                    lemma_count_at(s0, i as int);
                    assert(map_count(m0, name@) == c);
                }
                self.calls[i] = (name, nv);
                proof {
                    let s1 = self.calls@;
                    assert(s1 == s0.update(i as int, (s1[i as int].0, nv)));
                    assert(s1[i as int].0@ == name@ && s0[i as int].0@ == name@);
                    assert(keys_unique(s1)) by {
                        assert forall|a: int, b: int|
                            0 <= a < b < s1.len() implies (#[trigger] s1[a]).0@ != (
                        #[trigger] s1[b]).0@ by {
                            assert(s1[a].0@ == s0[a].0@ && s1[b].0@ == s0[b].0@);
                        }
                    }
                    lemma_count_at(s1, i as int);
                    assert forall|k: Seq<char>| k != name@ implies keys_contain(s1, k)
                        == keys_contain(s0, k) && count_of(s1, k) == count_of(s0, k) by {
                        lemma_keys_contain_iff(s0, k);
                        lemma_keys_contain_iff(s1, k);
                        if keys_contain(s0, k) {
                            let x = choose|x: int| 0 <= x < s0.len() && (#[trigger] s0[x]).0@ == k;
                            assert(s1[x].0@ == k);
                            lemma_count_at(s0, x);
                            lemma_count_at(s1, x);
                        } else if keys_contain(s1, k) {
                            let x = choose|x: int| 0 <= x < s1.len() && (#[trigger] s1[x]).0@ == k;
                            assert(s0[x].0@ == k);
                        }
                    }
                    assert(keys_contain(s1, name@));
                    assert(self@ =~= m0.insert(
                        name@,
                        sat_add_u64(map_count(m0, name@), amount),
                    ));
                }
                return ;
            }
            i += 1;
        }
        proof {
            assert(!keys_contain(s0, name@));
            assert(map_count(m0, name@) == 0);
        }
        let nv = match amount.checked_add(0) {
            Some(v) => v,
            None => u64::MAX,
        };
        self.calls.push((name, nv));
        proof {
            let s1 = self.calls@;
            assert(s1.drop_last() =~= s0);
            assert(s1.last().0@ == name@ && s1.last().1 == nv);
            assert(keys_unique(s1)) by {
                assert forall|a: int, b: int|
                    0 <= a < b < s1.len() implies (#[trigger] s1[a]).0@ != (#[trigger] s1[b]).0@ by {
                    if b < s1.len() - 1 {
                        assert(s1[a].0@ == s0[a].0@ && s1[b].0@ == s0[b].0@);
                    } else {
                        assert(s1[a].0@ == s0[a].0@);
                        lemma_keys_contain_iff(s0, s1[b].0@);
                    }
                }
            }
            assert forall|k: Seq<char>| k != name@ implies keys_contain(s1, k) == keys_contain(
                s0,
                k,
            ) && count_of(s1, k) == count_of(s0, k) by {}
            assert(self@ =~= m0.insert(
                name@,
                sat_add_u64(map_count(m0, name@), amount),
            ));
        }
    }

    /// The count stored for `name`, zero when the label is absent.
    pub fn get(&self, name: &String) -> (r: u64)
        requires
            self.wf(),
        ensures
            r == map_count(self@, name@),
    {
        proof {
            lemma_keys_contain_iff(self.calls@, name@);
        }
        let n = self.calls.len();
        let mut i: usize = 0;
        while i < n
            invariant
                self.wf(),
                n == self.calls@.len(),
                i <= n,
                forall|x: int| 0 <= x < i ==> (#[trigger] self.calls@[x]).0@ != name@,
            decreases n - i,
        {
            if self.calls[i].0 == *name {
                proof {
                    lemma_count_at(self.calls@, i as int);
                }
                return self.calls[i].1;
            }
            i += 1;
        }
        proof {
            assert(!keys_contain(self.calls@, name@));
        }
        0
    }

    /// Adds every count of `other` into this tracer: afterwards each label
    /// holds the saturating sum of what the two tracers held for it.
    pub fn merge(&mut self, other: &Tracer)
        requires
            old(self).wf(),
            other.wf(),
        ensures
            final(self).wf(),
            forall|k: Seq<char>|
                map_count(final(self)@, k) == sat_add_u64(
                    map_count(old(self)@, k),
                    #[trigger] map_count(other@, k),
                ),
            final(self)@.dom() == old(self)@.dom().union(other@.dom()),
    {
        let ghost m0 = self@;
        let n = other.calls.len();
        let mut i: usize = 0;
        while i < n
            invariant
                self.wf(),
                other.wf(),
                n == other.calls@.len(),
                i <= n,
                self@ == merged_prefix(m0, other.calls@, i as nat),
            decreases n - i,
        {
            let key = other.calls[i].0.clone();
            let amount = other.calls[i].1;
            let ghost mprev = self@;
            self.increment_call(key, amount);
            proof {
                assert(self@ == mprev.insert(
                    other.calls@[i as int].0@,
                    sat_add_u64(map_count(mprev, other.calls@[i as int].0@), amount),
                ));
                assert(self@ == merged_prefix(m0, other.calls@, (i + 1) as nat));
            }
            i += 1;
        }
        proof {
            assert forall|k: Seq<char>|
                #![trigger map_count(other@, k)]
                #![trigger other@.dom().contains(k)]
                map_count(self@, k) == sat_add_u64(map_count(m0, k), map_count(other@, k)) && (
                self@.dom().contains(k) <==> m0.dom().contains(k) || other@.dom().contains(
                    k,
                )) by {
                lemma_merged_prefix_count(m0, other.calls@, n as nat, k);
                lemma_keys_contain_iff(other.calls@, k);
                if other@.dom().contains(k) {
                    assert(keys_contain(other.calls@, k));
                    let x = choose|x: int|
                        0 <= x < other.calls@.len() && (#[trigger] other.calls@[x]).0@ == k;
                    assert(0 <= x < n && other.calls@[x].0@ == k);
                }
            }
            assert forall|k: Seq<char>|
                self@.dom().contains(k) == m0.dom().union(other@.dom()).contains(k) by {
                lemma_merged_prefix_count(m0, other.calls@, n as nat, k);
                lemma_keys_contain_iff(other.calls@, k);
                if other@.dom().contains(k) {
                    assert(keys_contain(other.calls@, k));
                    let x = choose|x: int|
                        0 <= x < other.calls@.len() && (#[trigger] other.calls@[x]).0@ == k;
                    assert(0 <= x < n && other.calls@[x].0@ == k);
                }
            }
            assert(self@.dom() =~= m0.dom().union(other@.dom()));
        }
    }
}

} // verus!
