//! A map from contracts to values, walked in the order of the contracts.

use crate::domain::contract::{
    key_less, lemma_key_less_total, lemma_key_less_transitive, ContractKey, KeyView,
};
use vstd::prelude::*;

verus! {

/// Whether the keys of some entries increase strictly.
pub open spec fn increasing<V>(s: Seq<(ContractKey, V)>) -> bool {
    forall|i: int, j: int|
        #![trigger s[i], s[j]]
        0 <= i < j < s.len() ==> key_less(s[i].0@, s[j].0@)
}

/// Whether some entry has the key `k`.
pub open spec fn has_key<V>(s: Seq<(ContractKey, V)>, k: KeyView) -> bool {
    exists|i: int| 0 <= i < s.len() && (#[trigger] s[i]).0@ == k
}

/// The place of the entry with the key `k`.
pub open spec fn place_of<V>(s: Seq<(ContractKey, V)>, k: KeyView) -> int {
    choose|i: int| 0 <= i < s.len() && (#[trigger] s[i]).0@ == k
}

/// What some entries map contracts to.
pub open spec fn entries_map<V>(s: Seq<(ContractKey, V)>) -> Map<KeyView, V> {
    Map::new(|k: KeyView| has_key(s, k), |k: KeyView| s[place_of(s, k)].1)
}

/// A map from contracts to values. Its entries are kept in the order of their
/// keys, and no key occurs twice.
#[derive(Debug, PartialEq)]
pub struct ContractMap<V> {
    entries: Vec<(ContractKey, V)>,
}

impl<V> ContractMap<V> {
    /// The entries, in the order of their keys.
    pub closed spec fn entries(self) -> Seq<(ContractKey, V)> {
        self.entries@
    }

    /// The keys increase strictly.
    #[verifier::type_invariant]
    pub open spec fn wf(self) -> bool {
        increasing(self.entries())
    }
}

impl<V> View for ContractMap<V> {
    type V = Map<KeyView, V>;

    open spec fn view(&self) -> Map<KeyView, V> {
        entries_map(self.entries())
    }
}

impl<V: Clone> Clone for ContractMap<V> {
    fn clone(&self) -> (r: Self)
        ensures
            r.entries().len() == self.entries().len(),
            forall|i: int|
                #![trigger r.entries()[i]]
                #![trigger self.entries()[i]]
                0 <= i < self.entries().len() ==> r.entries()[i].0 == self.entries()[i].0
                    && cloned::<V>(self.entries()[i].1, r.entries()[i].1),
    {
        proof {
            use_type_invariant(self);
        }
        let mut entries: Vec<(ContractKey, V)> = Vec::with_capacity(self.entries.len());
        let mut i: usize = 0;
        while i < self.entries.len()
            invariant
                i <= self.entries@.len(),
                entries@.len() == i,
                forall|k: int|
                    #![trigger entries@[k]]
                    #![trigger self.entries@[k]]
                    0 <= k < i ==> entries@[k].0 == self.entries@[k].0 && cloned::<V>(
                        self.entries@[k].1,
                        entries@[k].1,
                    ),
            decreases self.entries.len() - i,
        {
            entries.push((self.entries[i].0.clone(), self.entries[i].1.clone()));
            i = i + 1;
        }
        assert(increasing(entries@)) by {
            assert forall|a: int, b: int|
                #![trigger entries@[a], entries@[b]]
                0 <= a < b < entries@.len() implies key_less(entries@[a].0@, entries@[b].0@) by {
                assert(key_less(self.entries()[a].0@, self.entries()[b].0@));
            }
        }
        ContractMap { entries }
    }
}

/// Where keys increase strictly, an entry is what its key maps to.
pub proof fn lemma_entry_is_mapped<V>(s: Seq<(ContractKey, V)>, i: int)
    requires
        increasing(s),
        0 <= i < s.len(),
    ensures
        entries_map(s).dom().contains(s[i].0@),
        entries_map(s)[s[i].0@] == s[i].1,
{
    let k = s[i].0@;
    assert(has_key(s, k));
    let j = place_of(s, k);
    assert(0 <= j < s.len() && s[j].0@ == k);
    if j < i {
        assert(key_less(s[j].0@, s[i].0@));
        lemma_key_less_total(s[j].0@, s[i].0@);
    } else if i < j {
        assert(key_less(s[i].0@, s[j].0@));
        lemma_key_less_total(s[i].0@, s[j].0@);
    }
}

impl<V> ContractMap<V> {
    /// The empty map.
    pub fn new() -> (m: Self)
        ensures
            m@ == Map::<KeyView, V>::empty(),
            m.entries() == Seq::<(ContractKey, V)>::empty(),
    {
        let m = ContractMap { entries: Vec::new() };
        assert(m@ =~= Map::<KeyView, V>::empty());
        m
    }

    /// The number of entries.
    pub fn len(&self) -> (n: usize)
        ensures
            n == self.entries().len(),
    {
        self.entries.len()
    }

    /// The key of the entry at place `i`.
    pub fn key_at(&self, i: usize) -> (k: &ContractKey)
        requires
            i < self.entries().len(),
        ensures
            *k == self.entries()[i as int].0,
    {
        &self.entries[i].0
    }

    /// The value of the entry at place `i`.
    pub fn value_at(&self, i: usize) -> (v: &V)
        requires
            i < self.entries().len(),
        ensures
            *v == self.entries()[i as int].1,
    {
        &self.entries[i].1
    }

    /// How many keys come before `key`.
    fn rank(&self, key: &ContractKey) -> (n: usize)
        ensures
            n <= self.entries().len(),
            forall|i: int|
                0 <= i < n ==> key_less((#[trigger] self.entries()[i]).0@, key@),
            forall|i: int|
                n <= i < self.entries().len() ==> !key_less(
                    (#[trigger] self.entries()[i]).0@,
                    key@,
                ),
    {
        proof {
            use_type_invariant(self);
        }
        let ghost s = self.entries();
        let mut lo: usize = 0;
        let mut hi: usize = self.entries.len();
        while lo < hi
            invariant
                increasing(s),
                s == self.entries@,
                lo <= hi <= s.len(),
                forall|i: int| 0 <= i < lo ==> key_less((#[trigger] s[i]).0@, key@),
                forall|i: int| hi <= i < s.len() ==> !key_less((#[trigger] s[i]).0@, key@),
            decreases hi - lo,
        {
            let mid: usize = lo + (hi - lo) / 2;
            let ghost m = s[mid as int].0@;
            if self.entries[mid].0.comes_before(key) {
                assert forall|i: int| 0 <= i <= mid implies key_less(
                    (#[trigger] s[i]).0@,
                    key@,
                ) by {
                    if i < mid {
                        assert(key_less(s[i].0@, s[mid as int].0@));
                        lemma_key_less_transitive(s[i].0@, m, key@);
                    }
                }
                lo = mid + 1;
            } else {
                assert forall|i: int| mid <= i < s.len() implies !key_less(
                    (#[trigger] s[i]).0@,
                    key@,
                ) by {
                    if mid < i && key_less(s[i].0@, key@) {
                        assert(key_less(s[mid as int].0@, s[i].0@));
                        lemma_key_less_transitive(m, s[i].0@, key@);
                    }
                }
                hi = mid;
            }
        }
        lo
    }

    /// What `key` maps to, if anything.
    pub fn get(&self, key: &ContractKey) -> (r: Option<&V>)
        ensures
            match r {
                Some(v) => self@.dom().contains(key@) && *v == self@[key@],
                None => !self@.dom().contains(key@),
            },
    {
        proof {
            use_type_invariant(self);
        }
        let ghost s = self.entries();
        let n: usize = self.rank(key);
        if n < self.entries.len() {
            if self.entries[n].0 == *key {
                proof {
                    lemma_entry_is_mapped(s, n as int);
                }
                return Some(&self.entries[n].1);
            }
        }
        proof {
            if has_key(s, key@) {
                let i = place_of(s, key@);
                assert(0 <= i < s.len() && s[i].0@ == key@);
                lemma_key_less_total(s[i].0@, key@);
                if i > n {
                    assert(key_less(s[n as int].0@, s[i].0@));
                }
                assert(false);
            }
        }
        None
    }

    /// Map `key` to `value`, in place of what it mapped to before.
    pub fn insert(&mut self, key: ContractKey, value: V)
        ensures
            final(self)@ == old(self)@.insert(key@, value),
    {
        proof {
            use_type_invariant(&*self);
        }
        let ghost before = self.entries();
        let n: usize = self.rank(&key);
        let mut entries: Vec<(ContractKey, V)> = Vec::new();
        core::mem::swap(&mut entries, &mut self.entries);
        if n < entries.len() {
            if entries[n].0 == key {
                let (kept, _) = entries.remove(n);
                entries.insert(n, (kept, value));
                proof {
                    let after = entries@;
                    assert(after =~= before.update(n as int, (before[n as int].0, value)));
                    lemma_replaced(before, after, n as int, key@, value);
                }
                self.entries = entries;
                return ;
            }
        }
        entries.insert(n, (key, value));
        proof {
            let after = entries@;
            assert(after =~= before.insert(n as int, (key, value)));
            assert forall|i: int| n <= i < before.len() implies key_less(
                key@,
                (#[trigger] before[i]).0@,
            ) by {
                lemma_key_less_total(before[n as int].0@, key@);
                if i > n {
                    assert(key_less(before[n as int].0@, before[i].0@));
                    lemma_key_less_transitive(key@, before[n as int].0@, before[i].0@);
                }
            }
            lemma_inserted(before, after, n as int, (key, value));
        }
        self.entries = entries;
    }
}

/// A new value under an old key changes that value and nothing else.
proof fn lemma_replaced<V>(
    before: Seq<(ContractKey, V)>,
    after: Seq<(ContractKey, V)>,
    n: int,
    k: KeyView,
    value: V,
)
    requires
        increasing(before),
        0 <= n < before.len(),
        before[n].0@ == k,
        after == before.update(n, (before[n].0, value)),
    ensures
        increasing(after),
        entries_map(after) == entries_map(before).insert(k, value),
{
    assert(increasing(after)) by {
        assert forall|i: int, j: int|
            #![trigger after[i], after[j]]
            0 <= i < j < after.len() implies key_less(after[i].0@, after[j].0@) by {
            assert(key_less(before[i].0@, before[j].0@));
        }
    }
    let a = entries_map(after);
    let b = entries_map(before).insert(k, value);
    assert forall|x: KeyView| a.dom().contains(x) == b.dom().contains(x) by {
        if has_key(after, x) {
            let i = place_of(after, x);
            assert(before[i].0@ == x);
        }
        if has_key(before, x) {
            let i = place_of(before, x);
            assert(after[i].0@ == x);
        }
        if x == k {
            assert(after[n].0@ == x);
        }
    }
    assert forall|x: KeyView| a.dom().contains(x) implies a[x] == b[x] by {
        let i = place_of(after, x);
        assert(0 <= i < after.len() && after[i].0@ == x);
        lemma_entry_is_mapped(after, i);
        if i != n {
            lemma_entry_is_mapped(before, i);
            if i < n {
                assert(key_less(before[i].0@, before[n].0@));
                lemma_key_less_total(before[i].0@, before[n].0@);
            } else {
                assert(key_less(before[n].0@, before[i].0@));
                lemma_key_less_total(before[n].0@, before[i].0@);
            }
        }
    }
    assert(a =~= b);
}

/// An entry in its place adds that entry and nothing else.
proof fn lemma_inserted<V>(
    before: Seq<(ContractKey, V)>,
    after: Seq<(ContractKey, V)>,
    n: int,
    entry: (ContractKey, V),
)
    requires
        increasing(before),
        0 <= n <= before.len(),
        after == before.insert(n, entry),
        forall|i: int| 0 <= i < n ==> key_less((#[trigger] before[i]).0@, entry.0@),
        forall|i: int| n <= i < before.len() ==> key_less(entry.0@, (#[trigger] before[i]).0@),
    ensures
        increasing(after),
        entries_map(after) == entries_map(before).insert(entry.0@, entry.1),
{
    assert(increasing(after)) by {
        assert forall|i: int, j: int|
            #![trigger after[i], after[j]]
            0 <= i < j < after.len() implies key_less(after[i].0@, after[j].0@) by {
            let x = if i < n {
                i
            } else {
                i - 1
            };
            let y = if j < n {
                j
            } else {
                j - 1
            };
            if i == n {
                assert(after[j] == before[y]);
            } else if j == n {
                assert(after[i] == before[x]);
            } else {
                assert(after[i] == before[x]);
                assert(after[j] == before[y]);
                assert(key_less(before[x].0@, before[y].0@));
            }
        }
    }
    let k = entry.0@;
    let a = entries_map(after);
    let b = entries_map(before).insert(k, entry.1);
    assert forall|x: KeyView| a.dom().contains(x) == b.dom().contains(x) by {
        if has_key(after, x) {
            let i = place_of(after, x);
            if i < n {
                assert(before[i].0@ == x);
            } else if i > n {
                assert(before[i - 1].0@ == x);
            }
        }
        if has_key(before, x) {
            let i = place_of(before, x);
            if i < n {
                assert(after[i].0@ == x);
            } else {
                assert(after[i + 1].0@ == x);
            }
        }
        if x == k {
            assert(after[n].0@ == x);
        }
    }
    assert forall|x: KeyView| a.dom().contains(x) implies a[x] == b[x] by {
        let i = place_of(after, x);
        assert(0 <= i < after.len() && after[i].0@ == x);
        lemma_entry_is_mapped(after, i);
        if i < n {
            lemma_entry_is_mapped(before, i);
            lemma_key_less_total(before[i].0@, k);
        } else if i > n {
            lemma_entry_is_mapped(before, i - 1);
            lemma_key_less_total(k, before[i - 1].0@);
        }
    }
    assert(a =~= b);
}

/// Where two lists of entries map contracts alike, the next entries have the
/// same key as soon as all entries before them do.
proof fn lemma_next_key<V>(a: Seq<(ContractKey, V)>, b: Seq<(ContractKey, V)>, n: int)
    requires
        increasing(a),
        increasing(b),
        entries_map(a) == entries_map(b),
        0 <= n < a.len(),
        n <= b.len(),
        forall|i: int| 0 <= i < n ==> (#[trigger] a[i]).0@ == b[i].0@,
    ensures
        n < b.len(),
        a[n].0@ == b[n].0@,
{
    let k = a[n].0@;
    lemma_entry_is_mapped(a, n);
    assert(has_key(b, k));
    let j = place_of(b, k);
    assert(0 <= j < b.len() && b[j].0@ == k);
    if j < n {
        assert(a[j].0@ == b[j].0@);
        assert(key_less(a[j].0@, a[n].0@));
        lemma_key_less_total(a[j].0@, a[n].0@);
    } else if j > n {
        let l = b[n].0@;
        lemma_entry_is_mapped(b, n);
        assert(has_key(a, l));
        let i = place_of(a, l);
        assert(0 <= i < a.len() && a[i].0@ == l);
        assert(key_less(b[n].0@, b[j].0@));
        lemma_key_less_total(l, k);
        if i < n {
            assert(a[i].0@ == b[i].0@);
            assert(key_less(b[i].0@, b[n].0@));
            lemma_key_less_total(b[i].0@, b[n].0@);
        } else if i > n {
            assert(key_less(a[n].0@, a[i].0@));
        }
    }
}

/// All keys of one list are the keys of the other, place by place.
proof fn lemma_same_keys<V>(a: Seq<(ContractKey, V)>, b: Seq<(ContractKey, V)>, n: int)
    requires
        increasing(a),
        increasing(b),
        entries_map(a) == entries_map(b),
        0 <= n <= a.len(),
    ensures
        n <= b.len(),
        forall|i: int| 0 <= i < n ==> (#[trigger] a[i]).0@ == b[i].0@,
    decreases n,
{
    if n > 0 {
        lemma_same_keys(a, b, n - 1);
        lemma_next_key(a, b, n - 1);
    }
}

/// The order in which a map is walked depends on what it holds and on nothing
/// else: not on the order in which the entries came in.
pub proof fn law_walk_order_is_canonical<V>(a: ContractMap<V>, b: ContractMap<V>)
    requires
        a.wf(),
        b.wf(),
        a@ == b@,
    ensures
        a.entries().len() == b.entries().len(),
        forall|i: int|
            0 <= i < a.entries().len() ==> (#[trigger] a.entries()[i]).0@ == b.entries()[i].0@
                && a.entries()[i].1 == b.entries()[i].1,
{
    let s = a.entries();
    let t = b.entries();
    lemma_same_keys(s, t, s.len() as int);
    lemma_same_keys(t, s, t.len() as int);
    assert forall|i: int| 0 <= i < s.len() implies (#[trigger] s[i]).0@ == t[i].0@ && s[i].1
        == t[i].1 by {
        lemma_entry_is_mapped(s, i);
        lemma_entry_is_mapped(t, i);
    }
}

/// A map holds what its entries say, each under its own contract, and nothing
/// else.
pub proof fn law_map_holds_its_entries<V>(map: ContractMap<V>, i: int, key: KeyView)
    requires
        map.wf(),
    ensures
        0 <= i < map.entries().len() ==> map@.dom().contains(map.entries()[i].0@)
            && map@[map.entries()[i].0@] == map.entries()[i].1,
        map@.dom().contains(key) ==> exists|k: int|
            0 <= k < map.entries().len() && (#[trigger] map.entries()[k]).0@ == key,
{
    if 0 <= i < map.entries().len() {
        lemma_entry_is_mapped(map.entries(), i);
    }
}

/// A map is walked upwards: within one chain by strike, lowest first, and at
/// one strike calls before puts.
pub proof fn law_map_is_walked_upwards<V>(map: ContractMap<V>, i: int, j: int)
    requires
        map.wf(),
        0 <= i < j < map.entries().len(),
    ensures
        ({
            let (a, b) = (map.entries()[i].0@, map.entries()[j].0@);
            let one_chain = a.underlying == b.underlying && a.expiration == b.expiration;
            &&& a != b
            &&& one_chain ==> a.strike <= b.strike
            &&& one_chain && a.strike == b.strike ==> a.style is Call && b.style is Put
        }),
{
    let (a, b) = (map.entries()[i].0@, map.entries()[j].0@);
    assert(key_less(a, b));
    lemma_key_less_total(a, b);
}

} // verus!
