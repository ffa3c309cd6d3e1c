use std::collections::HashMap;
use std::hash::Hash;
use vstd::pervasive::strictly_cloned;
use vstd::prelude::*;
use vstd::set_lib::lemma_subset_equality;
use vstd::std_specs::cmp::PartialEqSpec;
use vstd::std_specs::hash::{obeys_key_model, spec_hash_map_iter};
use vstd::std_specs::iter::IteratorSpec;

verus! {

/// What the key and value types must do for the comparer's contracts to hold:
/// keys hash consistently with their equality, clones equal their source, and
/// `==` on values is mathematical equality.
pub open spec fn obeys_comparer_laws<K: Clone + Eq + Hash, V: Clone + PartialEq>() -> bool {
    &&& obeys_key_model::<K>()
    &&& forall|a: K, b: K| #[trigger] strictly_cloned(a, b) ==> a == b
    &&& forall|a: V, b: V| #[trigger] strictly_cloned(a, b) ==> a == b
    &&& <V as PartialEqSpec>::obeys_eq_spec()
    &&& forall|x: V, y: V| #[trigger] x.eq_spec(&y) <==> x == y
}

/// The entries of `candidate` whose key is new to `last`, or whose value
/// differs from the one `last` holds. Keys that only `last` has are not
/// reported.
pub open spec fn changed<K, V>(last: Map<K, V>, candidate: Map<K, V>) -> Map<K, V> {
    Map::new(
        |k: K| candidate.contains_key(k) && (!last.contains_key(k) || last[k] != candidate[k]),
        |k: K| candidate[k],
    )
}

/// The entries of `candidate` that are new to `last` or hold another value
/// there: one pass over `candidate`, each key looked up in `last`.
fn changed_entries<K: Clone + Eq + Hash, V: Clone + PartialEq>(
    last: &HashMap<K, V>,
    candidate: &HashMap<K, V>,
) -> (r: HashMap<K, V>)
    requires
        obeys_comparer_laws::<K, V>(),
    ensures
        r@ == changed(last@, candidate@),
{
    let mut changed_values: HashMap<K, V> = HashMap::new();
    let ghost entries = spec_hash_map_iter(candidate).remaining();
    for (key, value) in it: candidate.iter()
        invariant
            obeys_comparer_laws::<K, V>(),
            it.seq() == entries,
            forall|k: K| #[trigger]
                changed_values@.contains_key(k) ==> changed(last@, candidate@).contains_key(k)
                    && changed_values@[k] == candidate@[k],
            forall|i: int|
                0 <= i < it.index() ==> #[trigger] changed(last@, candidate@).contains_key(
                    *entries[i].0,
                ) ==> changed_values@.contains_key(*entries[i].0),
    {
        proof {
            assert(entries[it.index() as int] == (key, value));
        }
        match last.get(key) {
            Some(old_value) => {
                if !value.eq(old_value) {
                    let k2 = key.clone();
                    let v2 = value.clone();
                    assert(strictly_cloned(*key, k2));
                    assert(strictly_cloned(*value, v2));
                    changed_values.insert(k2, v2);
                }
            },
            None => {
                let k2 = key.clone();
                let v2 = value.clone();
                assert(strictly_cloned(*key, k2));
                assert(strictly_cloned(*value, v2));
                changed_values.insert(k2, v2);
            },
        }
    }
    proof {
        assert forall|k: K| changed(last@, candidate@).contains_key(k) implies
            #[trigger] changed_values@.contains_key(k) by {
            assert(entries.contains((&k, &candidate@[k])));
            let i = choose|i: int| 0 <= i < entries.len() && entries[i] == (&k, &candidate@[k]);
            assert(changed(last@, candidate@).contains_key(*entries[i].0));
        }
        assert(changed_values@ =~= changed(last@, candidate@));
    }
    changed_values
}

/// Whether `m` maps the key of `entry` to its value.
spec fn matches_in<K, V>(entry: (&K, &V), m: Map<K, V>) -> bool {
    m.contains_key(*entry.0) && m[*entry.0] == *entry.1
}

/// Whether `a` and `b` hold the same keys with the same values.
fn same_entries<K: Clone + Eq + Hash, V: Clone + PartialEq>(
    a: &HashMap<K, V>,
    b: &HashMap<K, V>,
) -> (r: bool)
    requires
        obeys_comparer_laws::<K, V>(),
    ensures
        r == (a@ == b@),
{
    if a.len() != b.len() {
        return false;
    }
    let ghost entries = spec_hash_map_iter(a).remaining();
    let mut all_match = true;
    for (key, value) in it: a.iter()
        invariant
            obeys_comparer_laws::<K, V>(),
            it.seq() == entries,
            a@.len() == b@.len(),
            !all_match ==> a@ != b@,
            all_match ==> forall|i: int|
                0 <= i < it.index() ==> matches_in::<K, V>(#[trigger] entries[i], b@),
    {
        proof {
            assert(entries[it.index() as int] == (key, value));
        }
        match b.get(key) {
            Some(other) => {
                if !value.eq(other) {
                    all_match = false;
                }
            },
            None => {
                all_match = false;
            },
        }
    }
    proof {
        if all_match {
            assert forall|k: K| a@.contains_key(k) implies #[trigger] b@.contains_key(k) && b@[k]
                == a@[k] by {
                assert(entries.contains((&k, &a@[k])));
                let i = choose|i: int| 0 <= i < entries.len() && entries[i] == (&k, &a@[k]);
                assert(matches_in::<K, V>(entries[i], b@));
            }
            lemma_subset_equality(a@.dom(), b@.dom());
            assert(a@ =~= b@);
        }
    }
    all_match
}

/// Holds the last observed snapshot of a keyed dataset.
#[derive(Debug, Clone)]
pub struct HashMapComparer<K: Clone + Eq + Hash, V: Clone + PartialEq> {
    last_map: HashMap<K, V>,
}

impl<K: Clone + Eq + Hash, V: Clone + PartialEq> View for HashMapComparer<K, V> {
    type V = Map<K, V>;

    closed spec fn view(&self) -> Map<K, V> {
        self.last_map@
    }
}

impl<K: Clone + Eq + Hash, V: Clone + PartialEq> HashMapComparer<K, V> {
    /// A comparer whose snapshot is empty.
    pub fn new() -> (r: Self)
        ensures
            r@ == Map::<K, V>::empty(),
    {
        HashMapComparer { last_map: HashMap::new() }
    }

    /// A copy of the current snapshot.
    pub fn clone_last(&self) -> (r: HashMap<K, V>)
        ensures
            r@ == self@,
    {
        self.last_map.clone()
    }

    /// Replaces the snapshot with a copy of `new_map`.
    pub fn update(&mut self, new_map: &HashMap<K, V>)
        ensures
            final(self)@ == new_map@,
    {
        self.last_map = new_map.clone();
    }

    /// Whether the snapshot holds exactly the keys and values of `comparable`.
    pub fn is_same(&self, comparable: &HashMap<K, V>) -> (r: bool)
        requires
            obeys_comparer_laws::<K, V>(),
        ensures
            r == (self@ == comparable@),
    {
        same_entries(&self.last_map, comparable)
    }

    /// Whether the snapshot equals `new_map`, as it stood before the call; the
    /// snapshot is replaced with `new_map` in either case.
    pub fn is_same_update(&mut self, new_map: &HashMap<K, V>) -> (r: bool)
        requires
            obeys_comparer_laws::<K, V>(),
        ensures
            r == (old(self)@ == new_map@),
            final(self)@ == new_map@,
    {
        let is_same = self.is_same(new_map);
        self.update(new_map);
        is_same
    }

    /// The entries of `new_map` that were added or changed since the
    /// snapshot, which is then replaced with `new_map`.
    pub fn update_and_compare(&mut self, new_map: &HashMap<K, V>) -> (r: HashMap<K, V>)
        requires
            obeys_comparer_laws::<K, V>(),
        ensures
            r@ == changed(old(self)@, new_map@),
            final(self)@ == new_map@,
    {
        let changed_values = self.compare(new_map);
        self.update(new_map);
        changed_values
    }

    /// The entries of `new_map` that were added or changed since the
    /// snapshot; against an empty snapshot, all of `new_map`.
    pub fn compare(&self, new_map: &HashMap<K, V>) -> (r: HashMap<K, V>)
        requires
            obeys_comparer_laws::<K, V>(),
        ensures
            r@ == changed(self@, new_map@),
    {
        if self.last_map.is_empty() {
            proof {
                lemma_first_observation_reports_all(self@, new_map@);
            }
            return new_map.clone();
        }
        changed_entries(&self.last_map, new_map)
    }
}

impl<K: Clone + Eq + Hash, V: Clone + PartialEq> Default for HashMapComparer<K, V> {
    fn default() -> (r: Self)
        ensures
            r@ == Map::<K, V>::empty(),
    {
        HashMapComparer::new()
    }
}

/// Against an empty snapshot, every entry of the candidate is reported.
pub proof fn lemma_first_observation_reports_all<K, V>(last: Map<K, V>, candidate: Map<K, V>)
    requires
        last.is_empty(),
    ensures
        changed(last, candidate) == candidate,
{
    assert(changed(last, candidate) =~= candidate);
}

/// A candidate equal to the snapshot has nothing to report; against an empty
/// snapshot, a non-empty candidate always has something to report.
pub proof fn lemma_repeat_reports_nothing<K, V>(last: Map<K, V>, candidate: Map<K, V>)
    ensures
        changed(candidate, candidate).is_empty(),
        last.is_empty() && !candidate.is_empty() ==> !changed(last, candidate).is_empty(),
{
    assert(changed(candidate, candidate) =~= Map::empty());
    if last.is_empty() {
        lemma_first_observation_reports_all(last, candidate);
    }
}

/// A key the candidate lacks is never reported, whatever the snapshot held
/// for it; every reported entry is an entry of the candidate.
pub proof fn lemma_reports_only_candidate_entries<K, V>(last: Map<K, V>, candidate: Map<K, V>)
    ensures
        changed(last, candidate).submap_of(candidate),
        forall|k: K| !candidate.contains_key(k) ==> !#[trigger] changed(last, candidate).contains_key(k),
{
}

} // verus!
