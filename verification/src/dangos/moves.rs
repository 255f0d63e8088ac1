//! How a dango moves: the roll, the bonus, the finish line, the cells that
//! push, pull or stir, and the dango it carries on its back.
use rand::rngs::StdRng;
use vstd::prelude::*;
use vstd::seq_lib::lemma_multiset_commutative;

use crate::dangos::{normalized, spec_accelerate_step, spec_decelerate_step, Dango, DangoKind, DangoState};
use crate::rng::shuffle;
use crate::track::{
    cells, field_wf, kinds, merge_cells, occupants, placed, point_contains, put_stack,
    reindex_all, take_stack, PointType, Point, Track, TrackMap, TRACK_LEN,
};

verus! {

broadcast use {vstd::seq_lib::group_to_multiset_ensures, vstd::multiset::group_multiset_axioms};

/// How many cells a dango moves for roll `n` and bonus `extra`: their sum,
/// held within `0..=usize::MAX`, and at least one.
pub open spec fn effective_step(n: usize, extra: isize) -> int {
    let raw = n + extra;
    let held = if raw < 0 {
        0
    } else if raw > usize::MAX {
        usize::MAX as int
    } else {
        raw
    };
    if held < 1 {
        1
    } else {
        held
    }
}

/// How often the dango still has to reach the finish line.
pub open spec fn remaining(s: DangoState) -> int {
    s.target_arrive_count - s.arrive_count
}

/// The cell the move reaches before wrapping around: a dango that has to
/// reach the finish only once more stops at the finish line.
pub open spec fn reach(s: DangoState) -> int {
    let r = s.pos.0 + effective_step(s.n, s.extra);
    if remaining(s) > 1 {
        r
    } else if r < TRACK_LEN - 1 {
        r
    } else {
        TRACK_LEN - 1
    }
}

/// The cell the dango lands on.
pub open spec fn landing(s: DangoState) -> int {
    reach(s) % (TRACK_LEN as int)
}

/// The cell the dango ends on after the effect of the landing cell.
pub open spec fn final_cell(s: DangoState, map: Seq<PointType>) -> int {
    cell_target(
        landing(s),
        map[landing(s)],
        spec_accelerate_step(s.kind) as int,
        spec_decelerate_step(s.kind) as int,
    )
}

/// How often the move crosses the finish line: once when landing beyond it,
/// once more when an accelerate cell pushes beyond it.
pub open spec fn crossings(s: DangoState, map: Seq<PointType>) -> int {
    let t = landing(s);
    (if reach(s) >= TRACK_LEN {
        1int
    } else {
        0int
    }) + (if map[t] == PointType::Accelerate && t + spec_accelerate_step(s.kind) >= TRACK_LEN {
        1int
    } else {
        0int
    })
}

/// The stack the dango carries: itself and everyone above it.
pub open spec fn carried(c: Seq<Seq<DangoKind>>, s: DangoState) -> Seq<DangoKind> {
    c[s.pos.0 as int].skip(s.pos.1 as int)
}

/// The track once the carried stack has landed on the landing cell.
pub open spec fn landed(c: Seq<Seq<DangoKind>>, s: DangoState) -> Seq<Seq<DangoKind>> {
    let lifted = c.update(s.pos.0 as int, c[s.pos.0 as int].take(s.pos.1 as int));
    lifted.update(landing(s), lifted[landing(s)] + carried(c, s))
}

/// The cell a dango that landed on cell `t` of type `ct` ends on.
pub open spec fn cell_target(t: int, ct: PointType, acc: int, dec: int) -> int {
    if ct == PointType::Accelerate {
        (t + acc) % (TRACK_LEN as int)
    } else if ct == PointType::Decelerate {
        if t >= dec {
            t - dec
        } else {
            0
        }
    } else {
        t
    }
}

/// What an accelerate or decelerate cell `t` does to the track: its whole
/// stack goes on top of cell `f`.
pub open spec fn sent_on(l: Seq<Seq<DangoKind>>, t: int, f: int, ct: PointType) -> Seq<Seq<DangoKind>> {
    if (ct == PointType::Accelerate || ct == PointType::Decelerate) && f != t {
        l.update(f, l[f] + l[t]).update(t, Seq::<DangoKind>::empty())
    } else {
        l
    }
}

/// The track after the move, the stirring of a hole aside.
pub open spec fn moved(c: Seq<Seq<DangoKind>>, s: DangoState, map: Seq<PointType>) -> Seq<Seq<DangoKind>> {
    sent_on(landed(c, s), landing(s), final_cell(s, map), map[landing(s)])
}

/// A hole rearranges its stack; a BuDaWang at the bottom stays there.
pub open spec fn stirred(before: Seq<DangoKind>, after: Seq<DangoKind>) -> bool {
    &&& after.to_multiset() == before.to_multiset()
    &&& after.len() == before.len()
    &&& before.len() <= 1 ==> after == before
    &&& before.len() > 1 && before[0] == DangoKind::BuDaWang ==> after[0] == DangoKind::BuDaWang
}

/// The track after the move, given what the hole (if any) made of its stack.
pub open spec fn track_after_step(
    c: Seq<Seq<DangoKind>>,
    s: DangoState,
    map: Seq<PointType>,
    after: Seq<Seq<DangoKind>>,
) -> bool {
    if map[landing(s)] == PointType::Hole {
        &&& after == landed(c, s).update(landing(s), after[landing(s)])
        &&& stirred(landed(c, s)[landing(s)], after[landing(s)])
    } else {
        after == moved(c, s, map)
    }
}

/// What a move makes of a dango, its position aside: the mover loses its
/// bonus, and the carried ones count the finish-line crossings.
pub open spec fn after_step(d: DangoState, is_mover: bool, is_carried: bool, times: int) -> DangoState {
    let e = if is_mover {
        0
    } else {
        d.extra
    };
    let a = if is_carried {
        d.arrive_count + times
    } else {
        d.arrive_count as int
    };
    normalized(DangoState { extra: e, arrive_count: a as usize, ..d })
}

/// Whether a move ends the race: the mover stops on the finish line with one
/// crossing left to make.
pub open spec fn finishes(s: DangoState, map: Seq<PointType>) -> bool {
    final_cell(s, map) == TRACK_LEN - 1 && s.arrive_count + crossings(s, map) + 1
        == s.target_arrive_count
}

/// The states of a list of dango.
pub open spec fn views(ds: Seq<Dango>) -> Seq<DangoState> {
    ds.map_values(|d: Dango| d@)
}

/// The move of the dango at index `i`, which starts its move in state `m`
/// (its roll and bonus already settled), takes the dango from `before` to
/// `after` and the track from `c` to `new_c`, and returns `arrived`.
pub open spec fn moved_by(
    before: Seq<DangoState>,
    i: int,
    m: DangoState,
    c: Seq<Seq<DangoKind>>,
    map: Seq<PointType>,
    after: Seq<DangoState>,
    new_c: Seq<Seq<DangoKind>>,
    arrived: bool,
) -> bool {
    &&& after.len() == before.len()
    &&& track_after_step(c, m, map, new_c)
    &&& forall|j: int|
        0 <= j < before.len() ==> #[trigger] after[j] == after_step(
            if j == i {
                m
            } else {
                before[j]
            },
            j == i,
            carried(c, m).contains(before[j].kind),
            crossings(m, map),
        ).with_pos(after[j].pos)
    &&& arrived == finishes(m, map)
}

/// The move of a dango in state `s` stays within the machine's numbers and
/// does not end on a decelerate cell at the start line.
pub open spec fn can_move(s: DangoState, map: Seq<PointType>) -> bool {
    &&& s.arrive_count <= s.target_arrive_count
    &&& s.pos.0 + effective_step(s.n, s.extra) <= usize::MAX
    &&& !(map[landing(s)] == PointType::Decelerate && landing(s) == 0)
}

/// The counters stay far from overflow.
pub open spec fn counters_bounded(ds: Seq<Dango>) -> bool {
    forall|j: int| 0 <= j < ds.len() ==> (#[trigger] ds[j]@).arrive_count + 2 <= usize::MAX
}

/// Every dango of the list stands on the track.
pub proof fn lemma_all_on_track(ds: Seq<Dango>, c: Seq<Seq<DangoKind>>)
    requires
        occupants(c) == kinds(ds).to_multiset(),
    ensures
        forall|j: int| 0 <= j < ds.len() ==> c.flatten().contains(#[trigger] ds[j]@.kind),
{
    assert forall|j: int| 0 <= j < ds.len() implies c.flatten().contains(#[trigger] ds[j]@.kind) by {
        assert(kinds(ds)[j] == ds[j]@.kind);
        assert(kinds(ds).contains(ds[j]@.kind));
        assert(kinds(ds).to_multiset().count(ds[j]@.kind) > 0);
        assert(c.flatten().to_multiset().count(ds[j]@.kind) > 0);
    }
}

/// `n` plus `extra`, held within `0..=usize::MAX`, and at least one.
pub fn step_length(n: usize, extra: isize) -> (r: usize)
    ensures
        r == effective_step(n, extra),
{
    let held: usize = if extra >= 0 {
        let e = extra as usize;
        if n <= usize::MAX - e {
            n + e
        } else {
            usize::MAX
        }
    } else {
        let e = (-(extra + 1)) as usize + 1;
        if n > e {
            n - e
        } else {
            0
        }
    };
    if held < 1 {
        1
    } else {
        held
    }
}

/// Counts `times` crossings of the finish line for every dango of the stack.
pub fn bump_arrivals(ds: &mut Vec<Dango>, stack: &Point, times: usize)
    requires
        times <= 2,
        counters_bounded(old(ds)@),
    ensures
        final(ds)@.len() == old(ds)@.len(),
        forall|j: int|
            0 <= j < old(ds)@.len() ==> (#[trigger] final(ds)@[j])@ == after_step(
                old(ds)@[j]@,
                false,
                stack@.contains(old(ds)@[j]@.kind),
                times as int,
            ),
{
    let ghost orig = ds@;
    proof {
        assert forall|j: int| 0 <= j < orig.len() implies after_step(orig[j]@, false, false, times as int)
            == orig[j]@ by {
            lemma_view_normalized(orig[j]);
        }
    }
    let mut j: usize = 0;
    while j < ds.len()
        invariant
            j <= ds@.len(),
            ds@.len() == orig.len(),
            times <= 2,
            counters_bounded(orig),
            forall|m: int| 0 <= m < orig.len() ==> after_step(orig[m]@, false, false, times as int) == orig[m]@,
            forall|m: int|
                0 <= m < j ==> (#[trigger] ds@[m])@ == after_step(
                    orig[m]@,
                    false,
                    stack@.contains(orig[m]@.kind),
                    times as int,
                ),
            forall|m: int| j <= m < orig.len() ==> #[trigger] ds@[m] == orig[m],
        decreases orig.len() - j,
    {
        if point_contains(stack, ds[j].kind()) {
            let mut s = ds[j].state();
            s.arrive_count = s.arrive_count + times;
            ds[j] = Dango::from_state(s);
        }
        j = j + 1;
    }
}

/// The stack of a hole is shuffled; a BuDaWang at its bottom stays there.
pub fn stir_cell(track: &mut Track, x: usize, rng: &mut StdRng)
    requires
        x < old(track)@.len(),
    ensures
        final(track)@.len() == old(track)@.len(),
        cells(final(track)@) == cells(old(track)@).update(x as int, cells(final(track)@)[x as int]),
        stirred(cells(old(track)@)[x as int], cells(final(track)@)[x as int]),
        occupants(cells(final(track)@)) == occupants(cells(old(track)@)),
{
    let ghost c = cells(track@);
    if track[x].len() > 1 {
        let keep: usize = if track[x][0] == DangoKind::BuDaWang {
            1
        } else {
            0
        };
        let mut rest = take_stack(track, x, keep);
        let ghost lifted = rest@;
        let ghost c1 = cells(track@);
        let ghost mid = track@;
        assert(c1[x as int] == mid[x as int]@);
        shuffle(&mut rest, rng);
        let ghost shuffled = rest@;
        put_stack(track, x, rest);
        proof {
            let cx = c[x as int];
            let base = cx.take(keep as int);
            assert(base + lifted =~= cx);
            lemma_multiset_commutative(base, lifted);
            lemma_multiset_commutative(base, shuffled);
            assert(c1 == c.update(x as int, base));
            assert(mid[x as int]@ == base);
            assert(cells(track@) == c1.update(x as int, base + shuffled));
            assert(cells(track@) =~= c.update(x as int, base + shuffled));
            assert(cells(track@)[x as int] == base + shuffled);
            assert((base + shuffled).to_multiset() =~= cx.to_multiset());
            assert forall|v: DangoKind| #[trigger] occupants(cells(track@)).count(v) == occupants(c).count(v) by {
                assert(occupants(c1).add(lifted.to_multiset()).count(v) == occupants(c).count(v));
            }
            assert(occupants(cells(track@)) =~= occupants(c));
            if keep == 1 {
                assert((base + shuffled)[0] == base[0]);
            }
        }
    } else {
        assert(cells(track@) =~= c.update(x as int, c[x as int]));
    }
}

/// The landing cell `t` of type `ct` acts on its stack; returns the cell the
/// mover ends on.
pub fn cell_effect(
    track: &mut Track,
    t: usize,
    ct: PointType,
    acc: usize,
    dec: usize,
    rng: &mut StdRng,
) -> (f: usize)
    requires
        old(track)@.len() == TRACK_LEN,
        t < TRACK_LEN,
        1 <= acc <= 4,
        1 <= dec <= 2,
        !(ct == PointType::Decelerate && t == 0),
    ensures
        f == cell_target(t as int, ct, acc as int, dec as int),
        f < TRACK_LEN,
        final(track)@.len() == TRACK_LEN,
        occupants(cells(final(track)@)) == occupants(cells(old(track)@)),
        ct == PointType::Hole ==> cells(final(track)@) == cells(old(track)@).update(
            t as int,
            cells(final(track)@)[t as int],
        ) && stirred(cells(old(track)@)[t as int], cells(final(track)@)[t as int]),
        ct != PointType::Hole ==> cells(final(track)@) == sent_on(cells(old(track)@), t as int, f as int, ct),
{
    match ct {
        PointType::Accelerate => {
            let f = (t + acc) % TRACK_LEN;
            if f != t {
                merge_cells(track, t, f);
            }
            f
        },
        PointType::Decelerate => {
            let f = if t >= dec {
                t - dec
            } else {
                0
            };
            merge_cells(track, t, f);
            f
        },
        PointType::Hole => {
            stir_cell(track, t, rng);
            t
        },
        PointType::Common => t,
    }
}

/// What the bookkeeping of a move makes of each dango.
pub proof fn lemma_step_views(
    orig: Seq<Dango>,
    ds1: Seq<Dango>,
    ds2: Seq<Dango>,
    dsf: Seq<Dango>,
    i: int,
    stack: Seq<DangoKind>,
    times: int,
)
    requires
        0 <= i < orig.len(),
        ds1.len() == orig.len(),
        ds2.len() == orig.len(),
        dsf.len() == orig.len(),
        orig[i]@.kind != DangoKind::BuDaWang,
        forall|j: int|
            0 <= j < orig.len() ==> (#[trigger] ds1[j])@ == after_step(
                orig[j]@,
                false,
                stack.contains(orig[j]@.kind),
                times,
            ),
        forall|j: int| 0 <= j < orig.len() && j != i ==> ds2[j] == ds1[j],
        ds2[i]@ == normalized(ds1[i]@.with_extra(0)),
        forall|j: int| 0 <= j < orig.len() ==> (#[trigger] dsf[j])@ == ds2[j]@.with_pos(dsf[j]@.pos),
    ensures
        forall|j: int|
            0 <= j < orig.len() ==> #[trigger] views(dsf)[j] == after_step(
                if j == i {
                    orig[i]@
                } else {
                    views(orig)[j]
                },
                j == i,
                stack.contains(views(orig)[j].kind),
                times,
            ).with_pos(views(dsf)[j].pos),
{
    assert forall|j: int| 0 <= j < orig.len() implies (#[trigger] dsf[j])@ == after_step(
        orig[j]@,
        j == i,
        stack.contains(orig[j]@.kind),
        times,
    ).with_pos(dsf[j]@.pos) by {
        assert(ds1[j]@ == after_step(orig[j]@, false, stack.contains(orig[j]@.kind), times));
        if j != i {
            assert(ds2[j] == ds1[j]);
        }
    }
    assert forall|j: int| 0 <= j < orig.len() implies #[trigger] views(dsf)[j] == after_step(
        if j == i {
            orig[i]@
        } else {
            views(orig)[j]
        },
        j == i,
        stack.contains(views(orig)[j].kind),
        times,
    ).with_pos(views(dsf)[j].pos) by {
        assert(views(dsf)[j] == dsf[j]@);
        assert(views(orig)[j] == orig[j]@);
    }
}

/// Moves the dango at index `i` of `ds` with everyone stacked on it: by its
/// roll plus its bonus (at least one cell), stopping on the finish line when
/// it has to reach it only once more, wrapping around otherwise; then the
/// landing cell acts (accelerate and decelerate cells send their whole stack
/// on, a hole stirs its stack). Returns whether the move ends the race.
#[verifier::rlimit(50)]
pub fn make_step(
    ds: &mut Vec<Dango>,
    i: usize,
    track: &mut Track,
    map: &TrackMap,
    rng: &mut StdRng,
) -> (arrived: bool)
    requires
        i < old(ds)@.len(),
        field_wf(old(ds)@, cells(old(track)@)),
        old(ds)@[i as int]@.kind != DangoKind::BuDaWang,
        can_move(old(ds)@[i as int]@, map@),
        counters_bounded(old(ds)@),
    ensures
        final(ds)@.len() == old(ds)@.len(),
        field_wf(final(ds)@, cells(final(track)@)),
        moved_by(
            views(old(ds)@),
            i as int,
            old(ds)@[i as int]@,
            cells(old(track)@),
            map@,
            views(final(ds)@),
            cells(final(track)@),
            arrived,
        ),
{
    let ghost c = cells(track@);
    let ghost orig = ds@;
    let s = ds[i].state();
    assert(placed(orig[i as int]@, c));
    let step = step_length(s.n, s.extra);
    let x = s.pos.0;
    let y = s.pos.1;
    let remain: usize = s.target_arrive_count - s.arrive_count;
    let r: usize = if remain > 1 {
        x + step
    } else if x + step < TRACK_LEN - 1 {
        x + step
    } else {
        TRACK_LEN - 1
    };
    let target = r % TRACK_LEN;
    let cell_type = map[target];
    let acc = ds[i].accelerate_step();
    let dec = ds[i].decelerate_step();
    let mut times: usize = 0;
    if r >= TRACK_LEN {
        times = times + 1;
    }
    if cell_type == PointType::Accelerate && target + acc >= TRACK_LEN {
        times = times + 1;
    }
    assert(times == crossings(s, map@));
    let tail = take_stack(track, x, y);
    let ghost c1 = cells(track@);
    assert(tail@ == carried(c, s));
    bump_arrivals(ds, &tail, times);
    put_stack(track, target, tail);
    let ghost c2 = cells(track@);
    assert(c2 == landed(c, s));
    let fin = cell_effect(track, target, cell_type, acc, dec, rng);
    assert(fin == final_cell(s, map@));
    assert(occupants(cells(track@)) == occupants(c));
    let ghost ds1 = ds@;
    ds[i].set_extra(0);
    let ghost ds2 = ds@;
    proof {
        assert(kinds(ds2) =~= kinds(orig));
        lemma_all_on_track(ds2, cells(track@));
    }
    reindex_all(ds, track);
    proof {
        let cf = cells(track@);
        assert(kinds(ds@) =~= kinds(orig));
        assert forall|j: int| 0 <= j < ds@.len() implies placed(#[trigger] ds@[j]@, cf) by {
            assert(ds2[j]@.kind == ds@[j]@.kind);
            assert(cf.flatten().contains(ds2[j]@.kind));
        }
        lemma_step_views(orig, ds1, ds2, ds@, i as int, carried(c, s), times as int);
        assert(carried(c, s)[0] == s.kind);
        assert(carried(c, s).contains(s.kind));
        assert(views(ds@).len() == views(orig).len());
    }
    let me = ds[i].state();
    fin == TRACK_LEN - 1 && me.arrive_count + 1 == me.target_arrive_count
}

/// Changing what dango hold, but not who or where they are, keeps the field
/// well formed.
pub proof fn lemma_wf_same_places(ds1: Seq<Dango>, ds2: Seq<Dango>, c: Seq<Seq<DangoKind>>)
    requires
        field_wf(ds1, c),
        ds2.len() == ds1.len(),
        forall|j: int|
            0 <= j < ds1.len() ==> (#[trigger] ds2[j])@.kind == ds1[j]@.kind && ds2[j]@.pos
                == ds1[j]@.pos,
    ensures
        field_wf(ds2, c),
{
    assert(kinds(ds2) =~= kinds(ds1));
    assert forall|j: int| 0 <= j < ds2.len() implies placed(#[trigger] ds2[j]@, c) by {
        assert(placed(ds1[j]@, c));
    }
}

/// A move only looks at the mover's state and at the kinds of the others.
pub proof fn lemma_moved_by_rebase(
    b1: Seq<DangoState>,
    b2: Seq<DangoState>,
    i: int,
    m: DangoState,
    c: Seq<Seq<DangoKind>>,
    map: Seq<PointType>,
    after: Seq<DangoState>,
    new_c: Seq<Seq<DangoKind>>,
    arrived: bool,
)
    requires
        moved_by(b1, i, m, c, map, after, new_c, arrived),
        b1.len() == b2.len(),
        0 <= i < b1.len(),
        b1[i].kind == b2[i].kind,
        forall|j: int| 0 <= j < b1.len() && j != i ==> b1[j] == b2[j],
    ensures
        moved_by(b2, i, m, c, map, after, new_c, arrived),
{
    assert forall|j: int| 0 <= j < b2.len() implies #[trigger] after[j] == after_step(
        if j == i {
            m
        } else {
            b2[j]
        },
        j == i,
        carried(c, m).contains(b2[j].kind),
        crossings(m, map),
    ).with_pos(after[j].pos) by {
        assert(after[j] == after_step(
            if j == i {
                m
            } else {
                b1[j]
            },
            j == i,
            carried(c, m).contains(b1[j].kind),
            crossings(m, map),
        ).with_pos(after[j].pos));
    }
}

/// The view of a dango already has the shape of its kind.
pub proof fn lemma_view_normalized(d: Dango)
    ensures
        normalized(d@) == d@,
{
}

} // verus!
