//! Counting the outcomes of many races: how often each ranking came out and
//! how often each dango won.
use vstd::prelude::*;

use crate::dangos::DangoKind;

verus! {

broadcast use {vstd::seq_lib::group_to_multiset_ensures, vstd::multiset::group_multiset_axioms};

/// The counts of a table, added up.
pub open spec fn total<A>(t: Seq<(A, i64)>) -> int
    decreases t.len(),
{
    if t.len() == 0 {
        0
    } else {
        total(t.drop_last()) + t.last().1
    }
}

/// The table counts the rows: each key once, with the number of rows equal
/// to it, and every row has its key.
pub open spec fn tallied<A>(t: Seq<(A, i64)>, rows: Seq<A>) -> bool {
    &&& forall|i: int, j: int| 0 <= i < j < t.len() ==> (#[trigger] t[i]).0 != (#[trigger] t[j]).0
    &&& forall|i: int|
        0 <= i < t.len() ==> (#[trigger] t[i]).1 == rows.to_multiset().count(t[i].0) && t[i].1 >= 1
    &&& forall|r: int|
        0 <= r < rows.len() ==> exists|i: int| 0 <= i < t.len() && (#[trigger] t[i]).0 == #[trigger] rows[r]
}

/// The table runs from the largest count down.
pub open spec fn by_count_desc<A>(t: Seq<(A, i64)>) -> bool {
    forall|i: int, j: int| 0 <= i < j < t.len() ==> (#[trigger] t[i]).1 >= (#[trigger] t[j]).1
}

/// Adding an entry adds its count.
pub proof fn lemma_total_push<A>(t: Seq<(A, i64)>, e: (A, i64))
    ensures
        total(t.push(e)) == total(t) + e.1,
{
    assert(t.push(e).drop_last() =~= t);
}

/// Inserting an entry anywhere adds its count.
pub proof fn lemma_total_insert<A>(t: Seq<(A, i64)>, p: int, e: (A, i64))
    requires
        0 <= p <= t.len(),
    ensures
        total(t.insert(p, e)) == total(t) + e.1,
    decreases t.len(),
{
    if p == t.len() {
        assert(t.insert(p, e) =~= t.push(e));
        lemma_total_push(t, e);
    } else {
        lemma_total_insert(t.drop_last(), p, e);
        assert(t.insert(p, e) =~= t.drop_last().insert(p, e).push(t.last()));
        lemma_total_push(t.drop_last().insert(p, e), t.last());
    }
}

/// Replacing an entry exchanges its count.
pub proof fn lemma_total_update<A>(t: Seq<(A, i64)>, i: int, e: (A, i64))
    requires
        0 <= i < t.len(),
    ensures
        total(t.update(i, e)) == total(t) - t[i].1 + e.1,
{
    let r = t.remove(i);
    assert(t =~= r.insert(i, t[i]));
    assert(t.update(i, e) =~= r.insert(i, e));
    lemma_total_insert(r, i, t[i]);
    lemma_total_insert(r, i, e);
}

/// Rearranging a table keeps its total.
pub proof fn lemma_total_permuted<A>(t1: Seq<(A, i64)>, t2: Seq<(A, i64)>)
    requires
        t1.to_multiset() == t2.to_multiset(),
    ensures
        total(t1) == total(t2),
    decreases t1.len(),
{
    vstd::seq_lib::to_multiset_len(t1);
    vstd::seq_lib::to_multiset_len(t2);
    if t1.len() > 0 {
        let x = t1.last();
        assert(t1.contains(x)) by {
            assert(t1[t1.len() - 1] == x);
        }
        vstd::seq_lib::to_multiset_contains(t1, x);
        vstd::seq_lib::to_multiset_contains(t2, x);
        let k = choose|k: int| 0 <= k < t2.len() && t2[k] == x;
        let r1 = t1.drop_last();
        let r2 = t2.remove(k);
        assert(t1 =~= r1.push(x));
        assert(r1.to_multiset() =~= t2.to_multiset().remove(x)) by {
            assert(t1.to_multiset() == r1.to_multiset().insert(x));
        }
        assert(r2.to_multiset() == t2.to_multiset().remove(x));
        lemma_total_permuted(r1, r2);
        assert(t2 =~= r2.insert(k, x));
        lemma_total_insert(r2, k, x);
    }
}

/// Rearranging a table that counts the rows gives one that counts them too,
/// with the same total.
pub proof fn lemma_tallied_permuted<A>(t1: Seq<(A, i64)>, t2: Seq<(A, i64)>, rows: Seq<A>)
    requires
        tallied(t1, rows),
        t1.to_multiset() == t2.to_multiset(),
    ensures
        tallied(t2, rows),
        total(t2) == total(t1),
{
    lemma_total_permuted(t1, t2);
    crate::utils::lemma_members(t2, t1);
    crate::utils::lemma_members(t1, t2);
    assert forall|i: int| 0 <= i < t2.len() implies (#[trigger] t2[i]).1 == rows.to_multiset().count(t2[i].0)
        && t2[i].1 >= 1 by {
        assert(t1.contains(t2[i]));
    }
    assert forall|r: int| 0 <= r < rows.len() implies exists|i: int|
        0 <= i < t2.len() && (#[trigger] t2[i]).0 == #[trigger] rows[r] by {
        let i1 = choose|i: int| 0 <= i < t1.len() && (#[trigger] t1[i]).0 == rows[r];
        assert(t2.contains(t1[i1]));
    }
    assert(t1.no_duplicates()) by {
        assert forall|i: int, j: int| 0 <= i < t1.len() && 0 <= j < t1.len() && i != j implies t1[i]
            != t1[j] by {
            if i < j {
                assert(t1[i].0 != t1[j].0);
            } else {
                assert(t1[j].0 != t1[i].0);
            }
        }
    }
    crate::utils::lemma_no_duplicates_by_multiset(t2, t1);
    assert forall|i: int, j: int| 0 <= i < j < t2.len() implies (#[trigger] t2[i]).0 != (#[trigger] t2[j]).0 by {
        if t2[i].0 == t2[j].0 {
            assert(t1.contains(t2[i]));
            assert(t1.contains(t2[j]));
            let a = choose|a: int| 0 <= a < t1.len() && t1[a] == t2[i];
            let b = choose|b: int| 0 <= b < t1.len() && t1[b] == t2[j];
            if a < b {
                assert(t1[a].0 != t1[b].0);
            } else if b < a {
                assert(t1[b].0 != t1[a].0);
            }
        }
    }
}

/// Rearranging a sequence rearranges what a function makes of its items.
pub proof fn lemma_map_permuted<A, B>(s1: Seq<A>, s2: Seq<A>, f: spec_fn(A) -> B)
    requires
        s1.to_multiset() == s2.to_multiset(),
    ensures
        s1.map_values(f).to_multiset() == s2.map_values(f).to_multiset(),
    decreases s1.len(),
{
    vstd::seq_lib::to_multiset_len(s1);
    vstd::seq_lib::to_multiset_len(s2);
    if s1.len() == 0 {
        assert(s1.map_values(f) =~= s2.map_values(f));
    } else {
        let x = s1.last();
        assert(s1.contains(x)) by {
            assert(s1[s1.len() - 1] == x);
        }
        vstd::seq_lib::to_multiset_contains(s1, x);
        vstd::seq_lib::to_multiset_contains(s2, x);
        let j = choose|j: int| 0 <= j < s2.len() && s2[j] == x;
        let r1 = s1.drop_last();
        let r2 = s2.remove(j);
        assert(s1 =~= r1.push(x));
        assert(r1.to_multiset() =~= s2.to_multiset().remove(x)) by {
            assert(s1.to_multiset() == r1.to_multiset().insert(x));
        }
        assert(r2.to_multiset() == s2.to_multiset().remove(x));
        lemma_map_permuted(r1, r2, f);
        assert(s1.map_values(f) =~= r1.map_values(f).push(f(x)));
        assert(s2.map_values(f) =~= r2.map_values(f).insert(j, f(x)));
        vstd::seq_lib::to_multiset_insert(r2.map_values(f), j, f(x));
    }
}

/// Orders a table from the largest count down; entries with equal counts
/// keep no particular order.
pub fn by_count<K>(table: Vec<(K, i64)>) -> (sorted: Vec<(K, i64)>)
    ensures
        sorted@.to_multiset() == table@.to_multiset(),
        by_count_desc(sorted@),
{
    let mut rest = table;
    let ghost orig = rest@;
    let mut sorted: Vec<(K, i64)> = Vec::new();
    while rest.len() > 0
        invariant
            sorted@.to_multiset().add(rest@.to_multiset()) == orig.to_multiset(),
            by_count_desc(sorted@),
        decreases rest@.len(),
    {
        let ghost before_rest = rest@;
        match rest.pop() {
            Some(e) => {
                let mut p: usize = 0;
                while p < sorted.len() && sorted[p].1 >= e.1
                    invariant
                        p <= sorted@.len(),
                        forall|q: int| 0 <= q < p ==> (#[trigger] sorted@[q]).1 >= e.1,
                    decreases sorted@.len() - p,
                {
                    p = p + 1;
                }
                let ghost before = sorted@;
                sorted.insert(p, e);
                proof {
                    assert(before_rest =~= rest@.push(e));
                    vstd::seq_lib::to_multiset_insert(before, p as int, e);
                    assert forall|i: int, j: int| 0 <= i < j < sorted@.len() implies (#[trigger] sorted@[i]).1
                        >= (#[trigger] sorted@[j]).1 by {
                        if j == p {
                        } else if i == p {
                            assert(sorted@[j] == before[j - 1]);
                            assert(before[p as int].1 < e.1);
                            if j - 1 > p {
                                assert(before[p as int].1 >= before[j - 1].1);
                            }
                        } else if i < p && j > p {
                            assert(sorted@[j] == before[j - 1]);
                        } else if i > p {
                            assert(sorted@[i] == before[i - 1]);
                            assert(sorted@[j] == before[j - 1]);
                        }
                    }
                    assert(sorted@.to_multiset().add(rest@.to_multiset()) =~= orig.to_multiset());
                }
            },
            None => {},
        }
    }
    proof {
        assert(rest@.to_multiset() =~= vstd::multiset::Multiset::<(K, i64)>::empty()) by {
            vstd::seq_lib::to_multiset_len(rest@);
            vstd::multiset::lemma_multiset_empty_len(rest@.to_multiset());
        }
        assert(sorted@.to_multiset() =~= orig.to_multiset());
    }
    sorted
}

/// A table entry of a ranking, with the ranking as the kinds it lists.
pub open spec fn rank_entry() -> spec_fn((Vec<DangoKind>, i64)) -> (Seq<DangoKind>, i64) {
    |e: (Vec<DangoKind>, i64)| (e.0@, e.1)
}

/// A table of rankings, each ranking as the kinds it lists.
pub open spec fn rank_view(t: Seq<(Vec<DangoKind>, i64)>) -> Seq<(Seq<DangoKind>, i64)> {
    t.map_values(rank_entry())
}

/// The rankings as the kinds they list.
pub open spec fn rows_view(results: Seq<Vec<DangoKind>>) -> Seq<Seq<DangoKind>> {
    results.map_values(|r: Vec<DangoKind>| r@)
}

/// The winner of each ranking.
pub open spec fn winners(rows: Seq<Seq<DangoKind>>) -> Seq<DangoKind> {
    rows.map_values(|r: Seq<DangoKind>| r[0])
}

/// Whether two rankings list the same kinds in the same order.
fn same_ranking(a: &Vec<DangoKind>, b: &Vec<DangoKind>) -> (r: bool)
    ensures
        r == (a@ == b@),
{
    if a.len() != b.len() {
        return false;
    }
    let mut j: usize = 0;
    while j < a.len()
        invariant
            a@.len() == b@.len(),
            j <= a@.len(),
            forall|m: int| 0 <= m < j ==> a@[m] == b@[m],
        decreases a@.len() - j,
    {
        if a[j] != b[j] {
            return false;
        }
        j = j + 1;
    }
    assert(a@ =~= b@);
    true
}

/// A copy of a ranking.
fn copy_ranking(row: &Vec<DangoKind>) -> (r: Vec<DangoKind>)
    ensures
        r@ == row@,
{
    let mut r: Vec<DangoKind> = Vec::new();
    let mut j: usize = 0;
    while j < row.len()
        invariant
            j <= row@.len(),
            r@ == row@.take(j as int),
        decreases row@.len() - j,
    {
        r.push(row[j]);
        j = j + 1;
        assert(r@ =~= row@.take(j as int));
    }
    assert(row@.take(j as int) =~= row@);
    r
}

/// Counting one more row keeps a table that counts the rows: the row's key
/// gains one, or enters with count one.
pub proof fn lemma_tally_step<A>(t: Seq<(A, i64)>, rows: Seq<A>, x: A, nt: Seq<(A, i64)>, i: int)
    requires
        tallied(t, rows),
        rows.len() < i64::MAX,
        0 <= i <= t.len(),
        i < t.len() ==> t[i].0 == x && nt == t.update(i, (x, (t[i].1 + 1) as i64)),
        i == t.len() ==> (forall|q: int| 0 <= q < t.len() ==> (#[trigger] t[q]).0 != x) && nt == t.push(
            (x, 1i64),
        ),
    ensures
        tallied(nt, rows.push(x)),
        total(nt) == total(t) + 1,
{
    let nr = rows.push(x);
    vstd::seq_lib::to_multiset_build(rows, x);
    vstd::seq_lib::to_multiset_len(rows);
    if i < t.len() {
        lemma_total_update(t, i, (x, (t[i].1 + 1) as i64));
    } else {
        lemma_total_push(t, (x, 1i64));
        if rows.contains(x) {
            let r = choose|r: int| 0 <= r < rows.len() && rows[r] == x;
            assert(exists|q: int| 0 <= q < t.len() && (#[trigger] t[q]).0 == rows[r]);
        }
        vstd::seq_lib::to_multiset_contains(rows, x);
    }
    assert forall|q: int| 0 <= q < nt.len() implies (#[trigger] nt[q]).1 == nr.to_multiset().count(nt[q].0)
        && nt[q].1 >= 1 by {
        if q < t.len() && q != i {
            assert(nt[q] == t[q]);
        }
    }
    assert forall|r: int| 0 <= r < nr.len() implies exists|q: int|
        0 <= q < nt.len() && (#[trigger] nt[q]).0 == #[trigger] nr[r] by {
        if r == rows.len() {
            assert(nt[i].0 == x);
        } else {
            assert(nr[r] == rows[r]);
            let q = choose|q: int| 0 <= q < t.len() && (#[trigger] t[q]).0 == rows[r];
            assert(nt[q].0 == t[q].0);
        }
    }
    assert forall|p: int, q: int| 0 <= p < q < nt.len() implies (#[trigger] nt[p]).0 != (#[trigger] nt[q]).0 by {
        if q < t.len() {
            assert(nt[p].0 == t[p].0);
            assert(nt[q].0 == t[q].0);
        } else {
            assert(nt[p] == t[p]);
        }
    }
}

/// Counts one more ranking in the table of rankings.
fn count_ranking(
    table: &mut Vec<(Vec<DangoKind>, i64)>,
    row: &Vec<DangoKind>,
    Ghost(rows): Ghost<Seq<Seq<DangoKind>>>,
)
    requires
        tallied(rank_view(old(table)@), rows),
        rows.len() < i64::MAX,
    ensures
        tallied(rank_view(final(table)@), rows.push(row@)),
        total(rank_view(final(table)@)) == total(rank_view(old(table)@)) + 1,
{
    let ghost t0 = rank_view(table@);
    let mut i: usize = 0;
    while i < table.len()
        invariant
            t0 == rank_view(table@),
            t0 == rank_view(old(table)@),
            tallied(t0, rows),
            rows.len() < i64::MAX,
            i <= table@.len(),
            forall|q: int| 0 <= q < i ==> (#[trigger] table@[q]).0@ != row@,
        decreases table@.len() - i,
    {
        if same_ranking(&table[i].0, row) {
            let ghost before = table@;
            let (key, cnt) = table.remove(i);
            proof {
                assert(t0[i as int] == (key@, cnt));
                assert(cnt == rows.to_multiset().count(row@));
                vstd::seq_lib::to_multiset_len(rows);
            }
            table.insert(i, (key, cnt + 1));
            proof {
                assert(table@ =~= before.update(i as int, (key, (cnt + 1) as i64)));
                assert(rank_view(table@) =~= t0.update(i as int, (row@, (cnt + 1) as i64)));
                lemma_tally_step(t0, rows, row@, rank_view(table@), i as int);
            }
            return;
        }
        i = i + 1;
    }
    let ghost before = table@;
    table.push((copy_ranking(row), 1));
    proof {
        assert(rank_view(table@) =~= t0.push((row@, 1i64)));
        assert forall|q: int| 0 <= q < t0.len() implies (#[trigger] t0[q]).0 != row@ by {
            assert(t0[q].0 == before[q].0@);
        }
        lemma_tally_step(t0, rows, row@, rank_view(table@), t0.len() as int);
    }
}

/// Counts one more win in the table of winners.
fn count_winner(table: &mut Vec<(DangoKind, i64)>, k: DangoKind, Ghost(rows): Ghost<Seq<DangoKind>>)
    requires
        tallied(old(table)@, rows),
        rows.len() < i64::MAX,
    ensures
        tallied(final(table)@, rows.push(k)),
        total(final(table)@) == total(old(table)@) + 1,
{
    let ghost t0 = table@;
    let mut i: usize = 0;
    while i < table.len()
        invariant
            t0 == table@,
            t0 == old(table)@,
            tallied(t0, rows),
            rows.len() < i64::MAX,
            i <= table@.len(),
            forall|q: int| 0 <= q < i ==> (#[trigger] table@[q]).0 != k,
        decreases table@.len() - i,
    {
        if table[i].0 == k {
            let cnt = table[i].1;
            proof {
                assert(cnt == rows.to_multiset().count(k));
                vstd::seq_lib::to_multiset_len(rows);
            }
            table.set(i, (k, cnt + 1));
            proof {
                lemma_tally_step(t0, rows, k, table@, i as int);
            }
            return;
        }
        i = i + 1;
    }
    table.push((k, 1));
    proof {
        lemma_tally_step(t0, rows, k, table@, t0.len() as int);
    }
}

/// Counts the outcomes of many races: how often each ranking came out and
/// how often each dango won, each table from the largest count down. Both
/// tables add up to the number of races.
pub fn statistic_game_result(result: &Vec<Vec<DangoKind>>) -> (r: (
    Vec<(Vec<DangoKind>, i64)>,
    Vec<(DangoKind, i64)>,
))
    requires
        forall|i: int| 0 <= i < result@.len() ==> (#[trigger] result@[i])@.len() > 0,
        result@.len() <= i64::MAX,
    ensures
        tallied(rank_view(r.0@), rows_view(result@)),
        by_count_desc(rank_view(r.0@)),
        total(rank_view(r.0@)) == result@.len(),
        tallied(r.1@, winners(rows_view(result@))),
        by_count_desc(r.1@),
        total(r.1@) == result@.len(),
{
    let mut rank_stat: Vec<(Vec<DangoKind>, i64)> = Vec::new();
    let mut dango_stat: Vec<(DangoKind, i64)> = Vec::new();
    let ghost rows = rows_view(result@);
    let ghost wins = winners(rows);
    proof {
        assert(rank_view(rank_stat@) =~= Seq::<(Seq<DangoKind>, i64)>::empty());
        assert(rows.take(0) =~= Seq::<Seq<DangoKind>>::empty());
        assert(wins.take(0) =~= Seq::<DangoKind>::empty());
    }
    let mut k: usize = 0;
    while k < result.len()
        invariant
            k <= result@.len(),
            result@.len() <= i64::MAX,
            rows == rows_view(result@),
            wins == winners(rows),
            forall|i: int| 0 <= i < result@.len() ==> (#[trigger] result@[i])@.len() > 0,
            tallied(rank_view(rank_stat@), rows.take(k as int)),
            total(rank_view(rank_stat@)) == k,
            tallied(dango_stat@, wins.take(k as int)),
            total(dango_stat@) == k,
        decreases result@.len() - k,
    {
        let row = &result[k];
        count_ranking(&mut rank_stat, row, Ghost(rows.take(k as int)));
        count_winner(&mut dango_stat, row[0], Ghost(wins.take(k as int)));
        proof {
            assert(rows[k as int] == row@);
            assert(rows.take(k as int + 1) =~= rows.take(k as int).push(row@));
            assert(wins[k as int] == row@[0]);
            assert(wins.take(k as int + 1) =~= wins.take(k as int).push(row@[0]));
        }
        k = k + 1;
    }
    proof {
        assert(rows.take(k as int) =~= rows);
        assert(wins.take(k as int) =~= wins);
    }
    let ghost unsorted = rank_stat@;
    let rank_sorted = by_count(rank_stat);
    proof {
        lemma_map_permuted(rank_sorted@, unsorted, rank_entry());
        lemma_tallied_permuted(rank_view(unsorted), rank_view(rank_sorted@), rows);
        assert forall|i: int, j: int| 0 <= i < j < rank_view(rank_sorted@).len() implies (#[trigger] rank_view(
            rank_sorted@,
        )[i]).1 >= (#[trigger] rank_view(rank_sorted@)[j]).1 by {
            assert(rank_sorted@[i].1 >= rank_sorted@[j].1);
        }
    }
    let ghost unsorted_wins = dango_stat@;
    let dango_sorted = by_count(dango_stat);
    proof {
        lemma_tallied_permuted(unsorted_wins, dango_sorted@, wins);
    }
    (rank_sorted, dango_sorted)
}

} // verus!
