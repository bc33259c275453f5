//! Ranking: the counted commands, the most used first.

use crate::counts::{sum_counts, FrequencyMap};
use vstd::prelude::*;

verus! {

/// Whether `a` stands before `b` in the order of a dictionary, byte by byte.
pub open spec fn bytes_before(a: Seq<u8>, b: Seq<u8>) -> bool
    decreases a.len(),
{
    if b.len() == 0 {
        false
    } else if a.len() == 0 {
        true
    } else if a[0] != b[0] {
        a[0] < b[0]
    } else {
        bytes_before(a.drop_first(), b.drop_first())
    }
}

/// Of two byte strings at most one stands before the other, and none before
/// itself.
pub proof fn lemma_bytes_before_asymmetric(a: Seq<u8>, b: Seq<u8>)
    ensures
        bytes_before(a, b) ==> !bytes_before(b, a),
        !bytes_before(a, a),
    decreases a.len(),
{
    if a.len() > 0 && b.len() > 0 && a[0] == b[0] {
        lemma_bytes_before_asymmetric(a.drop_first(), b.drop_first());
    }
    if a.len() > 0 {
        lemma_bytes_before_asymmetric(a.drop_first(), a.drop_first());
    }
}

/// Of two byte strings that differ one stands before the other.
pub proof fn lemma_bytes_before_total(a: Seq<u8>, b: Seq<u8>)
    ensures
        a != b ==> bytes_before(a, b) || bytes_before(b, a),
    decreases a.len(),
{
    if a.len() > 0 && b.len() > 0 && a[0] == b[0] {
        lemma_bytes_before_total(a.drop_first(), b.drop_first());
        if a.drop_first() == b.drop_first() {
            assert(a =~= seq![a[0]] + a.drop_first());
            assert(b =~= seq![b[0]] + b.drop_first());
        }
    } else if a.len() == 0 && b.len() == 0 {
        assert(a =~= b);
    }
}

/// What stands before a byte string stands before all that this one stands
/// before.
pub proof fn lemma_bytes_before_transitive(a: Seq<u8>, b: Seq<u8>, c: Seq<u8>)
    requires
        bytes_before(a, b),
        bytes_before(b, c),
    ensures
        bytes_before(a, c),
    decreases a.len(),
{
    if a.len() > 0 && b.len() > 0 && c.len() > 0 && a[0] == b[0] && b[0] == c[0] {
        lemma_bytes_before_transitive(a.drop_first(), b.drop_first(), c.drop_first());
    }
}

/// Whether `a` stands before `b` in the order of a dictionary.
pub fn name_before(a: &[u8], b: &[u8]) -> (r: bool)
    ensures
        r == bytes_before(a@, b@),
{
    let mut i: usize = 0;
    assert(a@.skip(0) =~= a@);
    assert(b@.skip(0) =~= b@);
    loop
        invariant
            i <= a@.len(),
            i <= b@.len(),
            bytes_before(a@, b@) == bytes_before(a@.skip(i as int), b@.skip(i as int)),
        decreases a@.len() - i,
    {
        if i >= b.len() {
            return false;
        }
        if i >= a.len() {
            return true;
        }
        if a[i] != b[i] {
            return a[i] < b[i];
        }
        assert(a@.skip(i as int).drop_first() =~= a@.skip(i + 1));
        assert(b@.skip(i as int).drop_first() =~= b@.skip(i + 1));
        i += 1;
    }
}

/// A command and how often it was used.
#[derive(Debug)]
pub struct RankedCommand {
    pub name: Vec<u8>,
    pub count: usize,
}

/// A command and its count, as values.
pub ghost struct Ranked {
    pub name: Seq<u8>,
    pub count: nat,
}

impl View for RankedCommand {
    type V = Ranked;

    open spec fn view(&self) -> Ranked {
        Ranked { name: self.name@, count: self.count as nat }
    }
}

/// Whether `a` ranks before `b`: it was used more often, or as often and
/// its name stands first in the dictionary.
pub open spec fn ranks_before(a: Ranked, b: Ranked) -> bool {
    a.count > b.count || (a.count == b.count && bytes_before(a.name, b.name))
}

/// Whether each command of `list` ranks before those behind it.
pub open spec fn is_ranked(list: Seq<RankedCommand>) -> bool {
    forall|i: int, j: int| 0 <= i < j < list.len() ==> ranks_before(list[i]@, list[j]@)
}

/// Whether `a` ranks before `b`.
pub fn ranked_before(a: &RankedCommand, b: &RankedCommand) -> (r: bool)
    ensures
        r == ranks_before(a@, b@),
{
    a.count > b.count || (a.count == b.count && name_before(a.name.as_slice(), b.name.as_slice()))
}

/// Puts `item` into the ranked list `out`, at its rank.
pub fn insert_ranked(out: &mut Vec<RankedCommand>, item: RankedCommand) -> (p: usize)
    requires
        is_ranked(old(out)@),
        forall|i: int| 0 <= i < old(out)@.len() ==> (#[trigger] old(out)@[i]).name@ != item.name@,
    ensures
        p <= old(out)@.len(),
        final(out)@ == old(out)@.insert(p as int, item),
        is_ranked(final(out)@),
{
    let ghost before = out@;
    let mut p: usize = 0;
    while p < out.len() && ranked_before(&out[p], &item)
        invariant
            p <= out@.len(),
            out@ == before,
            forall|i: int| 0 <= i < p ==> ranks_before(out@[i]@, item@),
        decreases out@.len() - p,
    {
        p += 1;
    }
    proof {
        assert forall|j: int| p <= j < before.len() implies ranks_before(item@, before[j]@) by {
            assert(before[p as int].name@ != item.name@);
            lemma_bytes_before_total(item@.name, before[p as int]@.name);
            assert(ranks_before(item@, before[p as int]@));
            if j > p {
                assert(ranks_before(before[p as int]@, before[j]@));
                if item@.count == before[p as int]@.count && before[p as int]@.count
                    == before[j]@.count {
                    lemma_bytes_before_transitive(
                        item@.name,
                        before[p as int]@.name,
                        before[j]@.name,
                    );
                }
            }
        }
    }
    out.insert(p, item);
    proof {
        let after = out@;
        assert forall|i: int, j: int| 0 <= i < j < after.len() implies ranks_before(
            after[i]@,
            after[j]@,
        ) by {
            if i < p && j == p {
                assert(after[i] == before[i]);
            } else if i < p && j > p {
                assert(after[i] == before[i]);
                assert(after[j] == before[j - 1]);
            } else if i == p {
                assert(after[j] == before[j - 1]);
            } else if i > p {
                assert(after[i] == before[i - 1]);
                assert(after[j] == before[j - 1]);
            } else {
                assert(after[i] == before[i]);
                assert(after[j] == before[j]);
            }
        }
    }
    p
}

/// Whether every command of `out` is one of the entries from `from` on, with
/// its count, and was used more than `more_than` times.
pub open spec fn drawn_from(
    out: Seq<RankedCommand>,
    entries: Seq<(Vec<u8>, usize)>,
    from: int,
    more_than: usize,
) -> bool {
    forall|i: int|
        0 <= i < out.len() ==> exists|j: int|
            from <= j < entries.len() && entries[j].0@ == (#[trigger] out[i]).name@ && entries[j].1
                == out[i].count && out[i].count > more_than
}

/// Whether `out` holds every entry from `from` on that was used more than
/// `more_than` times.
pub open spec fn holds_kept(
    out: Seq<RankedCommand>,
    entries: Seq<(Vec<u8>, usize)>,
    from: int,
    more_than: usize,
) -> bool {
    forall|j: int|
        from <= j < entries.len() && (#[trigger] entries[j]).1 > more_than ==> exists|i: int|
            0 <= i < out.len() && #[trigger] out[i].name@ == entries[j].0@
}

/// Whether `after` is `before` with `item` put in at `p`.
pub open spec fn is_insertion(
    before: Seq<RankedCommand>,
    after: Seq<RankedCommand>,
    p: int,
    item: RankedCommand,
) -> bool {
    &&& 0 <= p <= before.len()
    &&& after.len() == before.len() + 1
    &&& after[p] == item
    &&& forall|i: int| 0 <= i < p ==> #[trigger] after[i] == before[i]
    &&& forall|i: int| p <= i < before.len() ==> #[trigger] after[i + 1] == before[i]
}

proof fn lemma_drawn_after_insert(
    before: Seq<RankedCommand>,
    after: Seq<RankedCommand>,
    entries: Seq<(Vec<u8>, usize)>,
    m: int,
    more_than: usize,
    p: int,
    item: RankedCommand,
)
    requires
        1 <= m <= entries.len(),
        is_insertion(before, after, p, item),
        drawn_from(before, entries, m, more_than),
        item.name@ == entries[m - 1].0@,
        item.count == entries[m - 1].1,
        item.count > more_than,
    ensures
        drawn_from(after, entries, m - 1, more_than),
{
    assert forall|i: int| 0 <= i < after.len() implies exists|j: int|
        m - 1 <= j < entries.len() && entries[j].0@ == (#[trigger] after[i]).name@ && entries[j].1
            == after[i].count && after[i].count > more_than by {
        if i == p {
            assert(m - 1 <= m - 1 < entries.len() && entries[m - 1].0@ == after[i].name@);
        } else if i < p {
            assert(after[i] == before[i]);
            let j = choose|j: int|
                m <= j < entries.len() && entries[j].0@ == before[i].name@ && entries[j].1
                    == before[i].count && before[i].count > more_than;
            assert(m - 1 <= j < entries.len() && entries[j].0@ == after[i].name@);
        } else {
            assert(after[(i - 1) + 1] == before[i - 1]);
            let j = choose|j: int|
                m <= j < entries.len() && entries[j].0@ == before[i - 1].name@ && entries[j].1
                    == before[i - 1].count && before[i - 1].count > more_than;
            assert(m - 1 <= j < entries.len() && entries[j].0@ == after[i].name@);
        }
    }
}

proof fn lemma_kept_after_insert(
    before: Seq<RankedCommand>,
    after: Seq<RankedCommand>,
    entries: Seq<(Vec<u8>, usize)>,
    m: int,
    more_than: usize,
    p: int,
    item: RankedCommand,
)
    requires
        1 <= m <= entries.len(),
        is_insertion(before, after, p, item),
        holds_kept(before, entries, m, more_than),
        item.name@ == entries[m - 1].0@,
    ensures
        holds_kept(after, entries, m - 1, more_than),
{
    assert forall|j: int|
        m - 1 <= j < entries.len() && (#[trigger] entries[j]).1 > more_than implies exists|i: int|
        0 <= i < after.len() && #[trigger] after[i].name@ == entries[j].0@ by {
        if j == m - 1 {
            assert(0 <= p < after.len() && after[p].name@ == entries[j].0@);
        } else {
            let i = choose|i: int|
                0 <= i < before.len() && #[trigger] before[i].name@ == entries[j].0@;
            if i < p {
                assert(after[i] == before[i]);
                assert(0 <= i < after.len() && after[i].name@ == entries[j].0@);
            } else {
                assert(after[i + 1] == before[i]);
                assert(0 <= i + 1 < after.len() && after[i + 1].name@ == entries[j].0@);
            }
        }
    }
}

proof fn lemma_after_skip(
    out: Seq<RankedCommand>,
    entries: Seq<(Vec<u8>, usize)>,
    m: int,
    more_than: usize,
)
    requires
        1 <= m <= entries.len(),
        drawn_from(out, entries, m, more_than),
        holds_kept(out, entries, m, more_than),
        entries[m - 1].1 <= more_than,
    ensures
        drawn_from(out, entries, m - 1, more_than),
        holds_kept(out, entries, m - 1, more_than),
{
    assert forall|i: int| 0 <= i < out.len() implies exists|j: int|
        m - 1 <= j < entries.len() && entries[j].0@ == (#[trigger] out[i]).name@ && entries[j].1
            == out[i].count && out[i].count > more_than by {
        let j = choose|j: int|
            m <= j < entries.len() && entries[j].0@ == out[i].name@ && entries[j].1
                == out[i].count && out[i].count > more_than;
        assert(m - 1 <= j);
    }
}

/// The commands that were used more than `more_than` times, ranked.
pub fn filter_and_sort_commands(counts: &FrequencyMap, more_than: usize) -> (out: Vec<
    RankedCommand,
>)
    ensures
        is_ranking(out@, counts@, more_than),
{
    let mut entries = counts.entries();
    let ghost all = entries@;
    let mut out: Vec<RankedCommand> = Vec::new();
    loop
        invariant
            entries@ == all.take(entries@.len() as int),
            entries@.len() <= all.len(),
            forall|i: int|
                0 <= i < all.len() ==> counts@.contains_key(#[trigger] all[i].0@)
                    && counts@[all[i].0@] == all[i].1,
            forall|k: Seq<u8>|
                counts@.contains_key(k) ==> exists|i: int|
                    0 <= i < all.len() && #[trigger] all[i].0@ == k,
            forall|i: int, j: int|
                0 <= i < j < all.len() ==> #[trigger] all[i].0@ != #[trigger] all[j].0@,
            is_ranked(out@),
            drawn_from(out@, all, entries@.len() as int, more_than),
            holds_kept(out@, all, entries@.len() as int, more_than),
        decreases entries@.len(),
    {
        let ghost m = entries@.len() as int;
        let ghost before = out@;
        match entries.pop() {
            None => {
                proof {
                    assert forall|k: Seq<u8>|
                        counts@.contains_key(k) && counts@[k] > more_than implies exists|i: int|
                        0 <= i < out@.len() && #[trigger] out@[i].name@ == k by {
                        let j = choose|j: int| 0 <= j < all.len() && #[trigger] all[j].0@ == k;
                        assert(all[j].1 > more_than);
                    }
                    assert forall|i: int| 0 <= i < out@.len() implies counts@.contains_key(
                        #[trigger] out@[i].name@,
                    ) && counts@[out@[i].name@] == out@[i].count && out@[i].count > more_than by {
                        let j = choose|j: int|
                            0 <= j < all.len() && all[j].0@ == out@[i].name@ && all[j].1
                                == out@[i].count && out@[i].count > more_than;
                        assert(counts@.contains_key(all[j].0@));
                    }
                }
                return out;
            },
            Some(entry) => {
                assert(all[m - 1] == entry);
                assert(entries@ =~= all.take(m - 1));
                let (name, count) = entry;
                if count > more_than {
                    let item = RankedCommand { name, count };
                    proof {
                        assert forall|i: int| 0 <= i < before.len() implies (
                        #[trigger] before[i]).name@ != item.name@ by {
                            let j = choose|j: int|
                                m <= j < all.len() && all[j].0@ == before[i].name@ && all[j].1
                                    == before[i].count && before[i].count > more_than;
                            assert(all[m - 1].0@ != all[j].0@);
                        }
                    }
                    let p = insert_ranked(&mut out, item);
                    proof {
                        before.insert_ensures(p as int, item);
                        lemma_drawn_after_insert(before, out@, all, m, more_than, p as int, item);
                        lemma_kept_after_insert(before, out@, all, m, more_than, p as int, item);
                    }
                } else {
                    proof {
                        lemma_after_skip(before, all, m, more_than);
                    }
                }
            },
        }
    }
}

/// How many commands are written: all of them, or no more than `count`.
pub fn output_limit(total_commands: usize, all: bool, count: usize) -> (r: usize)
    ensures
        r == (if all || total_commands <= count {
            total_commands
        } else {
            count
        }),
{
    if all {
        total_commands
    } else if count < total_commands {
        count
    } else {
        total_commands
    }
}

/// Whether `list` is the ranking of the names that `m` counts more than
/// `more_than` times: it holds each of them once, with its count, and each
/// ranks before those behind it.
pub open spec fn is_ranking(list: Seq<RankedCommand>, m: Map<Seq<u8>, nat>, more_than: usize) -> bool {
    &&& is_ranked(list)
    &&& forall|i: int|
        0 <= i < list.len() ==> m.contains_key(#[trigger] list[i].name@) && m[list[i].name@]
            == list[i].count && list[i].count > more_than
    &&& forall|k: Seq<u8>|
        m.contains_key(k) && m[k] > more_than ==> exists|i: int|
            0 <= i < list.len() && #[trigger] list[i].name@ == k
}

/// The names of the commands.
pub open spec fn ranked_names(list: Seq<RankedCommand>) -> Seq<Seq<u8>> {
    Seq::new(list.len(), |i: int| list[i].name@)
}

/// Sum of the counts of the commands.
pub open spec fn total_count(list: Seq<RankedCommand>) -> nat
    decreases list.len(),
{
    if list.len() == 0 {
        0
    } else {
        total_count(list.drop_last()) + list.last().count as nat
    }
}

/// No name stands twice in a ranking.
pub proof fn lemma_ranking_names_differ(
    list: Seq<RankedCommand>,
    m: Map<Seq<u8>, nat>,
    more_than: usize,
)
    requires
        is_ranking(list, m, more_than),
    ensures
        ranked_names(list).no_duplicates(),
{
    let names = ranked_names(list);
    assert forall|i: int, j: int|
        0 <= i < names.len() && 0 <= j < names.len() && i != j implies names[i] != names[j] by {
        if names[i] == names[j] {
            assert(list[i].count == m[list[i].name@]);
            assert(list[j].count == m[list[j].name@]);
            lemma_bytes_before_asymmetric(list[i].name@, list[i].name@);
            if i < j {
                assert(ranks_before(list[i]@, list[j]@));
            } else {
                assert(ranks_before(list[j]@, list[i]@));
            }
        }
    }
}

/// The counts of a ranking are those of the map.
pub proof fn lemma_total_count_is_sum(
    list: Seq<RankedCommand>,
    m: Map<Seq<u8>, nat>,
    upto: int,
)
    requires
        0 <= upto <= list.len(),
        forall|i: int|
            0 <= i < list.len() ==> m.contains_key(#[trigger] list[i].name@) && m[list[i].name@]
                == list[i].count,
    ensures
        total_count(list.take(upto)) == sum_counts(m, ranked_names(list).take(upto)),
    decreases upto,
{
    if upto > 0 {
        lemma_total_count_is_sum(list, m, upto - 1);
        assert(list.take(upto).drop_last() =~= list.take(upto - 1));
        assert(ranked_names(list).take(upto).drop_last() =~= ranked_names(list).take(upto - 1));
        assert(list.take(upto).last() == list[upto - 1]);
        assert(ranked_names(list).take(upto).last() == list[upto - 1].name@);
    }
}

/// A part of the commands has no greater sum than all of them.
pub proof fn lemma_total_count_grows(list: Seq<RankedCommand>, upto: int)
    requires
        0 <= upto <= list.len(),
    ensures
        total_count(list.take(upto)) <= total_count(list),
    decreases list.len() - upto,
{
    if upto < list.len() {
        lemma_total_count_grows(list, upto + 1);
        assert(list.take(upto + 1).drop_last() =~= list.take(upto));
    } else {
        assert(list.take(upto) =~= list);
    }
}

/// The counts of a ranking add up to no more than the number of sightings
/// that the map counts.
pub proof fn lemma_ranking_fits(
    list: Seq<RankedCommand>,
    sightings: Seq<Seq<u8>>,
    more_than: usize,
)
    requires
        is_ranking(list, crate::counts::record_all(Map::empty(), sightings), more_than),
    ensures
        total_count(list) <= sightings.len(),
{
    let m = crate::counts::record_all(Map::empty(), sightings);
    lemma_ranking_names_differ(list, m, more_than);
    lemma_total_count_is_sum(list, m, list.len() as int);
    assert(list.take(list.len() as int) =~= list);
    assert(ranked_names(list).take(list.len() as int) =~= ranked_names(list));
    crate::counts::lemma_sum_counts_fits(sightings, ranked_names(list));
}

/// Of two commands at most one ranks before the other.
pub proof fn lemma_ranks_before_asymmetric(a: Ranked, b: Ranked)
    ensures
        ranks_before(a, b) ==> !ranks_before(b, a),
{
    lemma_bytes_before_asymmetric(a.name, b.name);
}

/// Where the command with the name `name` stands in `list`.
pub open spec fn place_in(list: Seq<RankedCommand>, name: Seq<u8>) -> int {
    choose|j: int| 0 <= j < list.len() && #[trigger] list[j].name@ == name
}

proof fn lemma_place(
    a: Seq<RankedCommand>,
    b: Seq<RankedCommand>,
    m: Map<Seq<u8>, nat>,
    more_than: usize,
    i: int,
)
    requires
        is_ranking(a, m, more_than),
        is_ranking(b, m, more_than),
        0 <= i < a.len(),
    ensures
        0 <= place_in(b, a[i].name@) < b.len(),
        b[place_in(b, a[i].name@)]@ == a[i]@,
{
    let name = a[i].name@;
    assert(m.contains_key(name) && m[name] > more_than);
    let j = choose|j: int| 0 <= j < b.len() && #[trigger] b[j].name@ == name;
    assert(m[b[j].name@] == b[j].count);
}

proof fn lemma_place_grows(
    a: Seq<RankedCommand>,
    b: Seq<RankedCommand>,
    m: Map<Seq<u8>, nat>,
    more_than: usize,
    i: int,
    k: int,
)
    requires
        is_ranking(a, m, more_than),
        is_ranking(b, m, more_than),
        0 <= i < k < a.len(),
    ensures
        place_in(b, a[i].name@) < place_in(b, a[k].name@),
{
    lemma_place(a, b, m, more_than, i);
    lemma_place(a, b, m, more_than, k);
    lemma_ranking_names_differ(a, m, more_than);
    let p = place_in(b, a[i].name@);
    let q = place_in(b, a[k].name@);
    assert(ranks_before(a[i]@, a[k]@));
    assert(ranked_names(a)[i] != ranked_names(a)[k]);
    if p > q {
        assert(ranks_before(b[q]@, b[p]@));
        lemma_ranks_before_asymmetric(a[i]@, a[k]@);
    }
}

proof fn lemma_place_at_least(
    a: Seq<RankedCommand>,
    b: Seq<RankedCommand>,
    m: Map<Seq<u8>, nat>,
    more_than: usize,
    i: int,
)
    requires
        is_ranking(a, m, more_than),
        is_ranking(b, m, more_than),
        0 <= i < a.len(),
    ensures
        i <= place_in(b, a[i].name@) < b.len(),
    decreases i,
{
    lemma_place(a, b, m, more_than, i);
    if i > 0 {
        lemma_place_at_least(a, b, m, more_than, i - 1);
        lemma_place_grows(a, b, m, more_than, i - 1, i);
    }
}

/// A map has one ranking only: two rankings of the same counts hold the
/// same commands with the same counts in the same places.
pub proof fn lemma_ranking_unique(
    a: Seq<RankedCommand>,
    b: Seq<RankedCommand>,
    m: Map<Seq<u8>, nat>,
    more_than: usize,
)
    requires
        is_ranking(a, m, more_than),
        is_ranking(b, m, more_than),
    ensures
        a.len() == b.len(),
        forall|i: int| 0 <= i < a.len() ==> (#[trigger] a[i])@ == b[i]@,
{
    if a.len() > 0 {
        lemma_place_at_least(a, b, m, more_than, a.len() - 1);
    }
    if b.len() > 0 {
        lemma_place_at_least(b, a, m, more_than, b.len() - 1);
    }
    lemma_ranking_names_differ(a, m, more_than);
    assert forall|i: int| 0 <= i < a.len() implies (#[trigger] a[i])@ == b[i]@ by {
        lemma_place_at_least(a, b, m, more_than, i);
        lemma_place(a, b, m, more_than, i);
        let p = place_in(b, a[i].name@);
        lemma_place_at_least(b, a, m, more_than, p);
        lemma_place(b, a, m, more_than, p);
        let q = place_in(a, b[p].name@);
        assert(ranked_names(a)[q] == ranked_names(a)[i]);
        assert(q == i);
    }
}

} // verus!
