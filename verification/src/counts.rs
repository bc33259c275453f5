//! The aggregator: how often each command name was seen, and the set of
//! names that are never counted.

use ahash::AHashMap;
use ahash::AHashSet;
use vstd::prelude::*;

verus! {

/// `ahash::RandomState`, the hasher of the tables below; nothing is said of it.
#[verifier::external_type_specification]
#[verifier::external_body]
pub struct ExRandomState(ahash::RandomState);

/// `ahash::AHashMap`, held as an opaque value.
#[verifier::external_type_specification]
#[verifier::external_body]
#[verifier::reject_recursive_types(K)]
#[verifier::reject_recursive_types(V)]
#[verifier::reject_recursive_types(S)]
pub struct ExAHashMap<K, V, S>(AHashMap<K, V, S>);

/// `ahash::AHashSet`, held as an opaque value.
#[verifier::external_type_specification]
#[verifier::external_body]
#[verifier::reject_recursive_types(T)]
#[verifier::reject_recursive_types(S)]
pub struct ExAHashSet<T, S>(AHashSet<T, S>);

/// The names that a filter set holds.
pub uninterp spec fn members(s: AHashSet<Vec<u8>>) -> Set<Seq<u8>>;

/// The count that a table holds for each of its keys.
pub uninterp spec fn tally(m: AHashMap<Vec<u8>, usize>) -> Map<Seq<u8>, usize>;

/// `AHashSet::new`: a set that holds nothing.
#[verifier::external_body]
pub(crate) fn empty_set() -> (out: AHashSet<Vec<u8>>)
    ensures
        members(out) == Set::<Seq<u8>>::empty(),
{
    AHashSet::new()
}

/// `HashSet::insert`, reached through `AHashSet`'s `DerefMut`: the set
/// holds one name more, or the same names when it held this one already.
#[verifier::external_body]
pub(crate) fn add_member(s: &mut AHashSet<Vec<u8>>, name: Vec<u8>)
    ensures
        members(*final(s)) == members(*old(s)).insert(name@),
{
    s.insert(name);
}

/// `HashSet::contains`, reached through `AHashSet`'s `Deref`.
#[verifier::external_body]
pub(crate) fn is_member(s: &AHashSet<Vec<u8>>, name: &[u8]) -> (r: bool)
    ensures
        r == members(*s).contains(name@),
{
    s.contains(name)
}

/// A table without keys.
pub open spec fn no_counts() -> Map<Seq<u8>, usize> {
    Map::empty()
}

/// `AHashMap::default`: a table without keys.
#[verifier::external_body]
fn empty_table() -> (out: AHashMap<Vec<u8>, usize>)
    ensures
        tally(out) == no_counts(),
{
    AHashMap::default()
}

/// `AHashMap::get`: the count stored under `name`, if `name` is a key.
#[verifier::external_body]
fn stored(m: &AHashMap<Vec<u8>, usize>, name: &[u8]) -> (r: Option<usize>)
    ensures
        r == (if tally(*m).contains_key(name@) {
            Some(tally(*m)[name@])
        } else {
            None
        }),
{
    m.get(name).copied()
}

/// `AHashMap::insert`: `name` is a key with count `count`; no other key
/// changes.
#[verifier::external_body]
fn store(m: &mut AHashMap<Vec<u8>, usize>, name: Vec<u8>, count: usize)
    ensures
        tally(*final(m)) == tally(*old(m)).insert(name@, count),
{
    m.insert(name, count);
}

/// Iteration over a borrowed `AHashMap`, which walks the underlying
/// `HashMap`: every key comes out once with its count, in no stated order.
#[verifier::external_body]
fn pairs(m: &AHashMap<Vec<u8>, usize>) -> (out: Vec<(Vec<u8>, usize)>)
    ensures
        forall|i: int|
            0 <= i < out@.len() ==> tally(*m).contains_key(#[trigger] out@[i].0@) && tally(
                *m,
            )[out@[i].0@] == out@[i].1,
        forall|k: Seq<u8>|
            tally(*m).contains_key(k) ==> exists|i: int|
                0 <= i < out@.len() && #[trigger] out@[i].0@ == k,
        forall|i: int, j: int|
            0 <= i < j < out@.len() ==> #[trigger] out@[i].0@ != #[trigger] out@[j].0@,
{
    m.into_iter().map(|(name, count)| (name.clone(), *count)).collect()
}

/// The wrapper names that history mode never counts: `sudo` and `doas`.
pub open spec fn wrapper_names() -> Set<Seq<u8>> {
    set![
        seq!['s' as u8, 'u' as u8, 'd' as u8, 'o' as u8],
        seq!['d' as u8, 'o' as u8, 'a' as u8, 's' as u8],
    ]
}

/// The names that a list holds.
pub open spec fn listed(names: Seq<Vec<u8>>) -> Set<Seq<u8>> {
    Set::new(|n: Seq<u8>| exists|i: int| 0 <= i < names.len() && #[trigger] names[i]@ == n)
}

/// The filter set of one run: the caller's ignore list, and in history
/// mode the wrapper names as well.
pub open spec fn filter_of(ignore: Seq<Vec<u8>>, no_hist: bool) -> Set<Seq<u8>> {
    if no_hist {
        listed(ignore)
    } else {
        wrapper_names().union(listed(ignore))
    }
}

/// Builds the filter set of one run.
pub fn build_filter(ignore: &[Vec<u8>], no_hist: bool) -> (out: AHashSet<Vec<u8>>)
    ensures
        members(out) == filter_of(ignore@, no_hist),
{
    let mut out = empty_set();
    if !no_hist {
        let sudo: [u8; 4] = ['s' as u8, 'u' as u8, 'd' as u8, 'o' as u8];
        let doas: [u8; 4] = ['d' as u8, 'o' as u8, 'a' as u8, 's' as u8];
        add_member(&mut out, vstd::slice::slice_to_vec(sudo.as_slice()));
        add_member(&mut out, vstd::slice::slice_to_vec(doas.as_slice()));
        assert(sudo@ =~= seq!['s' as u8, 'u' as u8, 'd' as u8, 'o' as u8]);
        assert(doas@ =~= seq!['d' as u8, 'o' as u8, 'a' as u8, 's' as u8]);
        assert(members(out) =~= wrapper_names());
    }
    let ghost seed = members(out);
    let mut i: usize = 0;
    while i < ignore.len()
        invariant
            i <= ignore.len(),
            members(out) == seed.union(listed(ignore@.take(i as int))),
        decreases ignore.len() - i,
    {
        let name = ignore[i].clone();
        add_member(&mut out, name);
        proof {
            let before = ignore@.take(i as int);
            let after = ignore@.take(i + 1);
            assert forall|n: Seq<u8>| listed(after).contains(n) <==> (listed(before).contains(n)
                || n == ignore@[i as int]@) by {
                if listed(after).contains(n) {
                    let j = choose|j: int| 0 <= j < after.len() && #[trigger] after[j]@ == n;
                    if j < i {
                        assert(before[j]@ == n);
                    }
                }
                if listed(before).contains(n) {
                    let j = choose|j: int| 0 <= j < before.len() && #[trigger] before[j]@ == n;
                    assert(after[j]@ == n);
                }
                if n == ignore@[i as int]@ {
                    assert(after[i as int]@ == n);
                }
            }
            assert(members(out) =~= seed.union(listed(after)));
        }
        i += 1;
    }
    proof {
        assert(ignore@.take(ignore.len() as int) =~= ignore@);
        assert(seed.union(listed(ignore@)) =~= filter_of(ignore@, no_hist));
    }
    out
}

/// The map after one more sighting of `name`.
pub open spec fn record(m: Map<Seq<u8>, nat>, name: Seq<u8>) -> Map<Seq<u8>, nat> {
    m.insert(
        name,
        if m.contains_key(name) {
            m[name] + 1
        } else {
            1
        },
    )
}

/// The map after the sightings `names`, one after the other.
pub open spec fn record_all(m: Map<Seq<u8>, nat>, names: Seq<Seq<u8>>) -> Map<Seq<u8>, nat>
    decreases names.len(),
{
    if names.len() == 0 {
        m
    } else {
        record(record_all(m, names.drop_last()), names.last())
    }
}

/// The count of `name` in `m`, where a name that is no key counts 0.
pub open spec fn count_in(m: Map<Seq<u8>, nat>, name: Seq<u8>) -> nat {
    if m.contains_key(name) {
        m[name]
    } else {
        0
    }
}

/// Whether no count in `m` is above `n`.
pub open spec fn peak_at_most(m: Map<Seq<u8>, nat>, n: nat) -> bool {
    forall|k: Seq<u8>| m.contains_key(k) ==> #[trigger] m[k] <= n
}

/// One more sighting at the end is one more call of `record`.
pub proof fn lemma_record_all_push(m: Map<Seq<u8>, nat>, names: Seq<Seq<u8>>, name: Seq<u8>)
    ensures
        record_all(m, names.push(name)) == record(record_all(m, names), name),
{
    assert(names.push(name).drop_last() =~= names);
}

/// Sightings can be recorded in two parts.
pub proof fn lemma_record_all_concat(m: Map<Seq<u8>, nat>, a: Seq<Seq<u8>>, b: Seq<Seq<u8>>)
    ensures
        record_all(m, a + b) == record_all(record_all(m, a), b),
    decreases b.len(),
{
    if b.len() == 0 {
        assert(a + b =~= a);
    } else {
        lemma_record_all_concat(m, a, b.drop_last());
        assert((a + b).drop_last() =~= a + b.drop_last());
    }
}

/// What `record_all` holds: a name is a key if it was one or was sighted,
/// and its count grew by the number of its sightings.
pub proof fn lemma_record_all_counts(m: Map<Seq<u8>, nat>, names: Seq<Seq<u8>>, k: Seq<u8>)
    ensures
        record_all(m, names).contains_key(k) <==> m.contains_key(k) || names.contains(k),
        count_in(record_all(m, names), k) == count_in(m, k) + names.to_multiset().count(k),
    decreases names.len(),
{
    broadcast use vstd::seq_lib::group_seq_properties;

    if names.len() == 0 {
        assert(names.to_multiset().count(k) == 0);
    } else {
        let front = names.drop_last();
        lemma_record_all_counts(m, front, k);
        assert(names =~= front.push(names.last()));
        vstd::seq_lib::to_multiset_build(front, names.last());
        if names.contains(k) {
            let i = choose|i: int| 0 <= i < names.len() && names[i] == k;
            if i < front.len() {
                assert(front[i] == k);
            }
        }
        if front.contains(k) {
            let i = choose|i: int| 0 <= i < front.len() && front[i] == k;
            assert(names[i] == k);
        }
        if names.last() == k {
            assert(names[names.len() - 1] == k);
        }
    }
}

/// Sightings raise no count by more than their number.
pub proof fn lemma_record_all_peak(m: Map<Seq<u8>, nat>, names: Seq<Seq<u8>>, n: nat)
    requires
        peak_at_most(m, n),
    ensures
        peak_at_most(record_all(m, names), n + names.len()),
    decreases names.len(),
{
    if names.len() > 0 {
        lemma_record_all_peak(m, names.drop_last(), n);
    }
}

/// Counting is commutative: two sequences of sightings that hold the same
/// names the same number of times, in whatever order, give the same map.
pub proof fn lemma_record_all_order(m: Map<Seq<u8>, nat>, a: Seq<Seq<u8>>, b: Seq<Seq<u8>>)
    requires
        a.to_multiset() == b.to_multiset(),
    ensures
        record_all(m, a) == record_all(m, b),
{
    broadcast use vstd::seq_lib::group_seq_properties;

    let x = record_all(m, a);
    let y = record_all(m, b);
    assert forall|k: Seq<u8>| #[trigger] x.dom().contains(k) == y.dom().contains(k) by {
        lemma_record_all_counts(m, a, k);
        lemma_record_all_counts(m, b, k);
        vstd::seq_lib::to_multiset_contains(a, k);
        vstd::seq_lib::to_multiset_contains(b, k);
    }
    assert forall|k: Seq<u8>| x.dom().contains(k) implies #[trigger] x[k] == y[k] by {
        lemma_record_all_counts(m, a, k);
        lemma_record_all_counts(m, b, k);
    }
    assert(x.dom() =~= y.dom());
    assert(x =~= y);
}

/// Two sightings in either order give the same map.
pub proof fn lemma_record_commutes(m: Map<Seq<u8>, nat>, a: Seq<u8>, b: Seq<u8>)
    ensures
        record(record(m, a), b) == record(record(m, b), a),
{
    assert(record(record(m, a), b) =~= record(record(m, b), a));
}

/// Sum of the counts that `m` holds for the names `names`.
pub open spec fn sum_counts(m: Map<Seq<u8>, nat>, names: Seq<Seq<u8>>) -> nat
    decreases names.len(),
{
    if names.len() == 0 {
        0
    } else {
        sum_counts(m, names.drop_last()) + count_in(m, names.last())
    }
}

/// A sighting of a name adds nothing to the counts of other names.
pub proof fn lemma_sum_counts_apart(m: Map<Seq<u8>, nat>, names: Seq<Seq<u8>>, seen: Seq<u8>)
    requires
        !names.contains(seen),
    ensures
        sum_counts(record(m, seen), names) == sum_counts(m, names),
    decreases names.len(),
{
    if names.len() > 0 {
        let front = names.drop_last();
        assert forall|i: int| 0 <= i < front.len() implies front[i] != seen by {
            assert(names[i] == front[i]);
            assert(names.contains(names[i]));
        }
        assert(names.contains(names.last()));
        if front.contains(seen) {
            let i = choose|i: int| 0 <= i < front.len() && front[i] == seen;
            assert(false);
        }
        lemma_sum_counts_apart(m, front, seen);
    }
}

/// A sighting adds at most one to the counts of names that differ from one
/// another.
pub proof fn lemma_sum_counts_step(m: Map<Seq<u8>, nat>, names: Seq<Seq<u8>>, seen: Seq<u8>)
    requires
        names.no_duplicates(),
    ensures
        sum_counts(record(m, seen), names) <= sum_counts(m, names) + 1,
    decreases names.len(),
{
    if names.len() > 0 {
        let front = names.drop_last();
        assert(front.no_duplicates()) by {
            assert forall|i: int, j: int|
                0 <= i < front.len() && 0 <= j < front.len() && i != j implies front[i]
                != front[j] by {
                assert(front[i] == names[i] && front[j] == names[j]);
            }
        }
        if names.last() == seen {
            if front.contains(seen) {
                let i = choose|i: int| 0 <= i < front.len() && front[i] == seen;
                assert(names[i] == names[names.len() - 1]);
                assert(false);
            }
            lemma_sum_counts_apart(m, front, seen);
        } else {
            lemma_sum_counts_step(m, front, seen);
        }
    }
}

/// The counts of names that differ from one another add up to no more than
/// the number of sightings.
pub proof fn lemma_sum_counts_fits(sightings: Seq<Seq<u8>>, names: Seq<Seq<u8>>)
    requires
        names.no_duplicates(),
    ensures
        sum_counts(record_all(Map::empty(), sightings), names) <= sightings.len(),
    decreases sightings.len(),
{
    if sightings.len() == 0 {
        lemma_sum_counts_nothing(names);
    } else {
        lemma_sum_counts_fits(sightings.drop_last(), names);
        lemma_sum_counts_step(
            record_all(Map::empty(), sightings.drop_last()),
            names,
            sightings.last(),
        );
    }
}

/// Without sightings every count is 0.
pub proof fn lemma_sum_counts_nothing(names: Seq<Seq<u8>>)
    ensures
        sum_counts(Map::empty(), names) == 0,
    decreases names.len(),
{
    if names.len() > 0 {
        lemma_sum_counts_nothing(names.drop_last());
    }
}

/// How often each command name was seen.
pub struct FrequencyMap {
    table: AHashMap<Vec<u8>, usize>,
}

impl View for FrequencyMap {
    type V = Map<Seq<u8>, nat>;

    closed spec fn view(&self) -> Map<Seq<u8>, nat> {
        Map::new(
            |k: Seq<u8>| tally(self.table).contains_key(k),
            |k: Seq<u8>| tally(self.table)[k] as nat,
        )
    }
}

impl FrequencyMap {
    /// A map in which no name has been seen.
    pub fn new() -> (out: Self)
        ensures
            out@ == Map::<Seq<u8>, nat>::empty(),
    {
        let out = FrequencyMap { table: empty_table() };
        assert(out@ =~= Map::<Seq<u8>, nat>::empty());
        out
    }

    /// The count of `name`, if it was seen.
    pub fn get(&self, name: &[u8]) -> (r: Option<usize>)
        ensures
            r == (if self@.contains_key(name@) {
                Some(self@[name@] as usize)
            } else {
                None
            }),
    {
        stored(&self.table, name)
    }

    /// Counts one more sighting of `name`.
    pub fn increment(&mut self, name: &[u8])
        requires
            count_in(old(self)@, name@) < usize::MAX,
        ensures
            final(self)@ == record(old(self)@, name@),
    {
        let ghost before = self@;
        let seen = stored(&self.table, name);
        let key = vstd::slice::slice_to_vec(name);
        match seen {
            Some(count) => {
                store(&mut self.table, key, count + 1);
            },
            None => {
                store(&mut self.table, key, 1);
            },
        }
        assert(self@ =~= record(before, name@));
    }

    /// Every name that was seen, once, with its count. The order is that of
    /// the underlying table and is not specified.
    pub fn entries(&self) -> (out: Vec<(Vec<u8>, usize)>)
        ensures
            forall|i: int|
                0 <= i < out@.len() ==> self@.contains_key(#[trigger] out@[i].0@)
                    && self@[out@[i].0@] == out@[i].1,
            forall|k: Seq<u8>|
                self@.contains_key(k) ==> exists|i: int|
                    0 <= i < out@.len() && #[trigger] out@[i].0@ == k,
            forall|i: int, j: int|
                0 <= i < j < out@.len() ==> #[trigger] out@[i].0@ != #[trigger] out@[j].0@,
    {
        pairs(&self.table)
    }
}

} // verus!
