use rand::rngs::StdRng;
use vstd::prelude::*;

use crate::dangos::moves::{stir_cell, stirred};
use crate::dangos::{behind, Dango, DangoKind};
use crate::rng::choose_face;
use crate::track::{
    cells, field_wf, kinds, merge_cells, occupants, placed, put_stack, reindex_all, take_stack,
    PointType, Track, TrackMap, TRACK_LEN,
};
use vstd::seq_lib::lemma_multiset_commutative;

verus! {

broadcast use {vstd::seq_lib::group_to_multiset_ensures, vstd::multiset::group_multiset_axioms};

/// The faces of the BuDaWang's die.
pub fn budawang_dice() -> (r: [usize; 6])
    ensures
        r@ == seq![1usize, 2, 3, 4, 5, 6],
{
    let r = [1, 2, 3, 4, 5, 6];
    assert(r@ =~= seq![1usize, 2, 3, 4, 5, 6]);
    r
}

/// The BuDaWang throws its own die, numbered 1 to 6.
pub fn roll(d: &mut Dango, rng: &mut StdRng)
    requires
        old(d)@.kind == DangoKind::BuDaWang,
    ensures
        final(d)@ == old(d)@.with_n(final(d)@.n),
        1 <= final(d)@.n <= 6,
{
    let dice = budawang_dice();
    let face = choose_face(&dice, rng);
    match face {
        Some(n) => {
            d.set_n(n);
        },
        None => {},
    }
}

/// The big king: enters at the finish line in round 3, walks backward,
/// stays at the bottom of every stack and carries whoever it passes.
#[derive(Debug, Clone, Copy)]
pub struct BuDaWang {
    /// the number rolled for the current turn
    pub n: usize,
    /// (track cell, height in the stack)
    pub pos: (usize, usize),
}

impl BuDaWang {
    /// A BuDaWang waiting at the finish line.
    pub fn new() -> (r: Self)
        ensures
            r.n == 0,
            r.pos == ((TRACK_LEN - 1) as usize, 0usize),
    {
        BuDaWang { n: 0, pos: (TRACK_LEN - 1, 0) }
    }
}

impl Default for BuDaWang {
    fn default() -> (r: Self)
        ensures
            r.n == 0,
            r.pos == ((TRACK_LEN - 1) as usize, 0usize),
    {
        BuDaWang::new()
    }
}

/// A BuDaWang with the given roll and position.
pub fn new_budawang(n: usize, pos: (usize, usize)) -> (r: BuDaWang)
    ensures
        r.n == n,
        r.pos == pos,
{
    BuDaWang { n, pos }
}

/// A BuDaWang waiting at the finish line.
pub fn default_budawang() -> (r: BuDaWang)
    ensures
        r.n == 0,
        r.pos == ((TRACK_LEN - 1) as usize, 0usize),
{
    BuDaWang::default()
}

/// The dango with index `j` is one of the last ones among those that are not
/// the BuDaWang.
pub open spec fn lowest(ds: Seq<Dango>, j: int) -> bool {
    &&& 0 <= j < ds.len()
    &&& ds[j]@.kind != DangoKind::BuDaWang
    &&& forall|m: int|
        0 <= m < ds.len() && ds[m]@.kind != DangoKind::BuDaWang ==> !behind(#[trigger] ds[m]@, ds[j]@)
}

impl BuDaWang {
    /// Whether the last dango (the BuDaWang aside) is on a later cell than the
    /// BuDaWang, that is, the BuDaWang has left the field behind it.
    pub fn leave_last_dango(&self, dangos: &[Dango]) -> (r: bool)
        requires
            exists|j: int| 0 <= j < dangos@.len() && dangos@[j]@.kind != DangoKind::BuDaWang,
        ensures
            r <==> exists|j: int| #[trigger] lowest(dangos@, j) && dangos@[j]@.pos.0 > self.pos.0,
    {
        let mut best: usize = 0;
        let mut found = false;
        let mut j: usize = 0;
        while j < dangos.len()
            invariant
                j <= dangos@.len(),
                found ==> best < j && dangos@[best as int]@.kind != DangoKind::BuDaWang,
                found ==> forall|m: int|
                    0 <= m < j && dangos@[m]@.kind != DangoKind::BuDaWang ==> !behind(
                        #[trigger] dangos@[m]@,
                        dangos@[best as int]@,
                    ),
                !found ==> forall|m: int| 0 <= m < j ==> (#[trigger] dangos@[m])@.kind == DangoKind::BuDaWang,
            decreases dangos@.len() - j,
        {
            let d = dangos[j];
            if !crate::dangos::is_budawang(&d) {
                if !found || crate::dangos::is_behind(&d, &dangos[best]) {
                    best = j;
                    found = true;
                }
            }
            j = j + 1;
        }
        if !found {
            assert(false);
            return false;
        }
        let last = dangos[best].get_pos();
        proof {
            assert(lowest(dangos@, best as int));
            assert forall|m: int| #[trigger] lowest(dangos@, m) implies dangos@[m]@.pos.0 == last.0 by {
                assert(!behind(dangos@[m]@, dangos@[best as int]@));
                assert(!behind(dangos@[best as int]@, dangos@[m]@));
            }
        }
        last.0 > self.pos.0
    }
}

/// The cell the BuDaWang walks back to from cell `x` with roll `n`.
pub open spec fn walk_target(x: int, n: int) -> int {
    if x >= n {
        x - n
    } else {
        0
    }
}

/// The first and the last (excluded) cell whose stacks the BuDaWang sweeps
/// up when it walks from cell `x` back to cell `t`: the cells `t` up to
/// `x - 1`; from the start line, where the walk wraps around, every other
/// cell of the track.
pub open spec fn sweep_range(t: int, x: int) -> (int, int) {
    if x == 0 {
        (1, TRACK_LEN as int)
    } else {
        (t, x)
    }
}

/// The stack the BuDaWang drives to cell `t` from cell `x`: itself at the
/// bottom, then the stacks of the cells it sweeps up, then whoever stood on
/// it.
pub open spec fn swept(c: Seq<Seq<DangoKind>>, t: int, x: int) -> Seq<DangoKind> {
    seq![DangoKind::BuDaWang] + c.subrange(sweep_range(t, x).0, sweep_range(t, x).1).flatten() + c[x].skip(1)
}

/// The track once the BuDaWang has walked from cell `x` back to cell `t`.
pub open spec fn gathered(c: Seq<Seq<DangoKind>>, t: int, x: int) -> Seq<Seq<DangoKind>> {
    Seq::new(
        c.len(),
        |k: int|
            if k == t {
                swept(c, t, x)
            } else if t < k <= x || sweep_range(t, x).0 <= k < sweep_range(t, x).1 {
                Seq::<DangoKind>::empty()
            } else {
                c[k]
            },
    )
}

/// The cell the BuDaWang ends on after landing on cell `t` of type `ct`.
pub open spec fn walk_end(t: int, ct: PointType) -> int {
    if ct == PointType::Accelerate {
        t + 1
    } else if ct == PointType::Decelerate {
        t - 1
    } else {
        t
    }
}

/// The track after the BuDaWang's walk, given what a hole made of its stack.
pub open spec fn track_after_walk(
    c: Seq<Seq<DangoKind>>,
    t: int,
    x: int,
    ct: PointType,
    after: Seq<Seq<DangoKind>>,
) -> bool {
    let g = gathered(c, t, x);
    if ct == PointType::Accelerate {
        after == g.update(t + 1, g[t + 1] + g[t]).update(t, Seq::<DangoKind>::empty())
    } else if ct == PointType::Decelerate {
        after == g.update(t - 1, seq![DangoKind::BuDaWang] + g[t - 1] + g[t].skip(1)).update(
            t,
            Seq::<DangoKind>::empty(),
        )
    } else if ct == PointType::Hole {
        &&& after == g.update(t, after[t])
        &&& stirred(g[t], after[t])
    } else {
        after == g
    }
}

/// Where the BuDaWang's walk from cell `x` (not the start line) leaves the
/// dango, for a walk as `step` carries it out. It lands on `t = x - n`
/// (the start line at the furthest) with a stack made of itself at the
/// bottom, then whoever stood on `t` already, then the stacks of the cells
/// `t + 1` up to `x - 1` in that order, then whoever stood on it on `x`.
/// The cells it passed are left empty, the others are untouched, and the
/// landing cell then acts: on an ordinary cell the stack stays; an
/// accelerate cell moves it whole to `t + 1`; a decelerate cell puts the
/// BuDaWang at the bottom of `t - 1`, under the dango already there, with
/// the rest of its stack on top of them; a hole keeps the BuDaWang at the
/// bottom and only reorders the others.
pub proof fn law_walk_back(c: Seq<Seq<DangoKind>>, x: int, n: int, map: Seq<PointType>, nc: Seq<Seq<DangoKind>>)
    requires
        c.len() == TRACK_LEN,
        map.len() == TRACK_LEN,
        0 < x < TRACK_LEN,
        n >= 1,
        c[x].len() >= 1,
        c[x][0] == DangoKind::BuDaWang,
        !(map[walk_target(x, n)] == PointType::Decelerate && walk_target(x, n) == 0),
        map[walk_target(x, n)] == PointType::Accelerate ==> walk_target(x, n) + 1 < TRACK_LEN,
        track_after_walk(c, walk_target(x, n), x, map[walk_target(x, n)], nc),
    ensures
        ({
            let t = if x >= n { x - n } else { 0 };
            let load = seq![DangoKind::BuDaWang] + c[t] + c.subrange(t + 1, x).flatten() + c[x].skip(1);
            &&& nc.len() == TRACK_LEN
            &&& forall|k: int| 0 <= k < TRACK_LEN && (k < t - 1 || x < k) ==> #[trigger] nc[k] == c[k]
            &&& forall|k: int| t + 1 < k <= x ==> #[trigger] nc[k] == Seq::<DangoKind>::empty()
            &&& map[t] == PointType::Common ==> nc[t] == load && (t + 1 <= x ==> nc[t + 1]
                == Seq::<DangoKind>::empty()) && (t >= 1 ==> nc[t - 1] == c[t - 1])
            &&& map[t] == PointType::Accelerate ==> nc[t + 1] == load && nc[t] == Seq::<DangoKind>::empty()
                && (t >= 1 ==> nc[t - 1] == c[t - 1])
            &&& map[t] == PointType::Decelerate ==> nc[t - 1] == seq![DangoKind::BuDaWang] + c[t - 1]
                + c[t] + c.subrange(t + 1, x).flatten() + c[x].skip(1) && nc[t] == Seq::<DangoKind>::empty()
                && (t + 1 <= x ==> nc[t + 1] == Seq::<DangoKind>::empty())
            &&& map[t] == PointType::Hole ==> nc[t].to_multiset() == load.to_multiset() && nc[t].len()
                == load.len() && nc[t][0] == DangoKind::BuDaWang && (t + 1 <= x ==> nc[t + 1]
                == Seq::<DangoKind>::empty()) && (t >= 1 ==> nc[t - 1] == c[t - 1])
        }),
{
    let t = walk_target(x, n);
    let g = gathered(c, t, x);
    assert(0 <= t < x);
    assert(c.subrange(t, x).drop_first() =~= c.subrange(t + 1, x));
    assert(c.subrange(t, x).flatten() == c[t] + c.subrange(t + 1, x).flatten());
    let load = seq![DangoKind::BuDaWang] + c[t] + c.subrange(t + 1, x).flatten() + c[x].skip(1);
    assert(g[t] == swept(c, t, x));
    assert(swept(c, t, x) =~= load);
    if map[t] == PointType::Decelerate {
        assert(g[t - 1] == c[t - 1]);
        assert(load.skip(1) =~= c[t] + c.subrange(t + 1, x).flatten() + c[x].skip(1));
        assert(seq![DangoKind::BuDaWang] + g[t - 1] + g[t].skip(1) =~= seq![DangoKind::BuDaWang] + c[t - 1]
            + c[t] + c.subrange(t + 1, x).flatten() + c[x].skip(1));
    }
    if map[t] == PointType::Accelerate {
        assert(g[t + 1] == Seq::<DangoKind>::empty());
        assert(g[t + 1] + g[t] =~= load);
    }
    if map[t] == PointType::Hole {
        assert(stirred(g[t], nc[t]));
        assert(load.len() > 1 ==> load[0] == DangoKind::BuDaWang);
    }
}

/// The BuDaWang's walk from the start line, as `step` carries it out: it
/// stays on the start line and gathers there, above itself, the stacks of
/// every other cell in the order of the track, then whoever stood on it; all
/// the other cells are left empty. An ordinary start line keeps that stack,
/// a hole only reorders the dango above the BuDaWang.
pub proof fn law_walk_from_start_line(c: Seq<Seq<DangoKind>>, n: int, map: Seq<PointType>, nc: Seq<Seq<DangoKind>>)
    requires
        c.len() == TRACK_LEN,
        map.len() == TRACK_LEN,
        n >= 1,
        c[0].len() >= 1,
        c[0][0] == DangoKind::BuDaWang,
        map[0] == PointType::Common || map[0] == PointType::Hole,
        track_after_walk(c, walk_target(0, n), 0, map[walk_target(0, n)], nc),
    ensures
        ({
            let load = seq![DangoKind::BuDaWang] + c.subrange(1, TRACK_LEN as int).flatten() + c[0].skip(1);
            &&& nc.len() == TRACK_LEN
            &&& forall|k: int| 0 < k < TRACK_LEN ==> #[trigger] nc[k] == Seq::<DangoKind>::empty()
            &&& map[0] == PointType::Common ==> nc[0] == load
            &&& map[0] == PointType::Hole ==> nc[0].to_multiset() == load.to_multiset() && nc[0].len()
                == load.len() && nc[0][0] == DangoKind::BuDaWang
        }),
{
    let g = gathered(c, 0, 0);
    assert(walk_target(0, n) == 0);
    assert(g[0] == swept(c, 0, 0));
    if map[0] == PointType::Hole {
        assert(stirred(g[0], nc[0]));
    }
}

/// The BuDaWang at index `i` walks `n` cells back toward the start (no
/// further than the start line), sweeping up the stacks of every cell it
/// passes and carrying whoever stood on it; it stays at the bottom. From the
/// start line itself the walk wraps around the track: it sweeps up the
/// stacks of every other cell. The cell it lands on then acts: an accelerate
/// cell sends the stack one cell on (back where it came from), a decelerate
/// cell one cell back, a hole stirs everyone above the BuDaWang. It never ends
/// the race.
pub fn step(ds: &mut Vec<Dango>, i: usize, track: &mut Track, map: &TrackMap, rng: &mut StdRng) -> (arrived: bool)
    requires
        i < old(ds)@.len(),
        field_wf(old(ds)@, cells(old(track)@)),
        old(ds)@[i as int]@.kind == DangoKind::BuDaWang,
        old(ds)@[i as int]@.pos.1 == 0,
        old(ds)@[i as int]@.n >= 1,
        !(map@[walk_target(old(ds)@[i as int]@.pos.0 as int, old(ds)@[i as int]@.n as int)]
            == PointType::Decelerate && walk_target(
            old(ds)@[i as int]@.pos.0 as int,
            old(ds)@[i as int]@.n as int,
        ) == 0),
    ensures
        !arrived,
        final(ds)@.len() == old(ds)@.len(),
        field_wf(final(ds)@, cells(final(track)@)),
        track_after_walk(
            cells(old(track)@),
            walk_target(old(ds)@[i as int]@.pos.0 as int, old(ds)@[i as int]@.n as int),
            old(ds)@[i as int]@.pos.0 as int,
            map@[walk_target(old(ds)@[i as int]@.pos.0 as int, old(ds)@[i as int]@.n as int)],
            cells(final(track)@),
        ),
        forall|j: int|
            0 <= j < old(ds)@.len() ==> (#[trigger] final(ds)@[j])@ == old(ds)@[j]@.with_pos(
                final(ds)@[j]@.pos,
            ),
{
    let ghost c = cells(track@);
    let ghost orig = ds@;
    let s = ds[i].state();
    assert(placed(orig[i as int]@, c));
    let x = s.pos.0;
    let t = if x >= s.n {
        x - s.n
    } else {
        0
    };
    assert(c[x as int][0] == DangoKind::BuDaWang);
    let tail = take_stack(track, x, 1);
    let ghost mid = cells(track@);
    assert(mid[x as int] == c[x as int].take(1));
    let mut stack = take_stack(track, x, 0);
    assert(stack@ =~= seq![DangoKind::BuDaWang]);
    assert(forall|m: int| 0 <= m < c.len() && m != x ==> cells(track@)[m] == c[m]);
    assert(cells(track@)[x as int] =~= Seq::<DangoKind>::empty());
    let (lo, hi) = if x == 0 {
        (1, TRACK_LEN)
    } else {
        (t, x)
    };
    let mut k = lo;
    while k < hi
        invariant
            lo <= k <= hi,
            (lo as int, hi as int) == sweep_range(t as int, x as int),
            hi <= c.len(),
            x < c.len(),
            x != 0 ==> hi == x,
            c.len() == TRACK_LEN,
            cells(track@).len() == c.len(),
            forall|m: int|
                0 <= m < c.len() ==> #[trigger] cells(track@)[m] == if (lo <= m < k || m == x) {
                    Seq::<DangoKind>::empty()
                } else {
                    c[m]
                },
            stack@ == seq![DangoKind::BuDaWang] + c.subrange(lo as int, k as int).flatten(),
            occupants(cells(track@)).add(stack@.to_multiset()).add(tail@.to_multiset()) == occupants(c),
        decreases hi - k,
    {
        let ghost before = cells(track@);
        let ghost st = stack@;
        assert(before[k as int] == c[k as int]);
        let mut part = take_stack(track, k, 0);
        let ghost got = part@;
        stack.append(&mut part);
        proof {
            assert(got =~= c[k as int]);
            assert(c.subrange(lo as int, k as int + 1) =~= c.subrange(lo as int, k as int).push(c[k as int]));
            c.subrange(lo as int, k as int).lemma_flatten_push(c[k as int]);
            assert(stack@ =~= seq![DangoKind::BuDaWang] + c.subrange(lo as int, k as int + 1).flatten());
            lemma_multiset_commutative(st, got);
            assert forall|v: DangoKind| #[trigger] occupants(cells(track@)).add(stack@.to_multiset()).add(
                tail@.to_multiset(),
            ).count(v) == occupants(c).count(v) by {
                assert(occupants(cells(track@)).add(got.to_multiset()).count(v) == occupants(before).count(v));
                assert(occupants(before).add(st.to_multiset()).add(tail@.to_multiset()).count(v) == occupants(c).count(v));
            }
            assert(occupants(cells(track@)).add(stack@.to_multiset()).add(tail@.to_multiset()) =~= occupants(c));
            assert forall|m: int| 0 <= m < c.len() implies #[trigger] cells(track@)[m] == if (lo <= m < k + 1 || m == x) {
                Seq::<DangoKind>::empty()
            } else {
                c[m]
            } by {
                if m == k {
                    assert(c[k as int].take(0) =~= Seq::<DangoKind>::empty());
                } else {
                    assert(cells(track@)[m] == before[m]);
                }
            }
        }
        k = k + 1;
    }
    let ghost st = stack@;
    let mut tail = tail;
    stack.append(&mut tail);
    let ghost before_put = cells(track@);
    put_stack(track, t, stack);
    proof {
        assert(stack@ == st + c[x as int].skip(1));
        assert(before_put[t as int] =~= Seq::<DangoKind>::empty());
        assert(cells(track@) =~= gathered(c, t as int, x as int));
        lemma_multiset_commutative(st, c[x as int].skip(1));
        assert(occupants(cells(track@)) =~= occupants(c));
    }
    let ghost g = cells(track@);
    let ct = map[t];
    match ct {
        PointType::Accelerate => {
            merge_cells(track, t, t + 1);
        },
        PointType::Decelerate => {
            assert(g[t as int].len() >= 1);
            assert(g[t as int][0] == DangoKind::BuDaWang);
            let rest = take_stack(track, t, 1);
            let ghost c1 = cells(track@);
            assert(c1[t as int] == g[t as int].take(1));
            assert(c1[t - 1] == g[t - 1]);
            let mut base = take_stack(track, t, 0);
            let ghost c2 = cells(track@);
            assert(c2[t - 1] == g[t - 1]);
            let mut below = take_stack(track, t - 1, 0);
            let ghost c3 = cells(track@);
            let ghost b0 = base@;
            let ghost bl = below@;
            let ghost rs = rest@;
            assert(b0 =~= seq![DangoKind::BuDaWang]);
            assert(bl =~= g[t - 1]);
            let mut rest = rest;
            base.append(&mut below);
            base.append(&mut rest);
            let ghost built = base@;
            put_stack(track, t - 1, base);
            proof {
                assert(c3[t - 1] =~= Seq::<DangoKind>::empty());
                assert(c2[t as int] =~= Seq::<DangoKind>::empty());
                assert(c3[t as int] == c2[t as int]);
                assert(rs == g[t as int].skip(1));
                assert(built == b0 + bl + rs);
                assert(built =~= seq![DangoKind::BuDaWang] + g[t - 1] + g[t as int].skip(1));
                assert(cells(track@)[t - 1] =~= built);
                assert(cells(track@)[t as int] =~= Seq::<DangoKind>::empty());
                assert(forall|m: int| 0 <= m < g.len() && m != t && m != t - 1 ==> cells(track@)[m] == g[m]);
                assert(cells(track@) =~= g.update(
                    t - 1,
                    seq![DangoKind::BuDaWang] + g[t - 1] + g[t as int].skip(1),
                ).update(t as int, Seq::<DangoKind>::empty()));
                lemma_multiset_commutative(b0 + bl, rs);
                lemma_multiset_commutative(b0, bl);
                assert forall|v: DangoKind| #[trigger] occupants(cells(track@)).count(v) == occupants(g).count(v) by {
                    assert(occupants(c1).add(rs.to_multiset()).count(v) == occupants(g).count(v));
                    assert(occupants(c2).add(b0.to_multiset()).count(v) == occupants(c1).count(v));
                    assert(occupants(c3).add(bl.to_multiset()).count(v) == occupants(c2).count(v));
                }
                assert(occupants(cells(track@)) =~= occupants(g));
            }
        },
        PointType::Hole => {
            stir_cell(track, t, rng);
        },
        PointType::Common => {},
    }
    assert(occupants(cells(track@)) == occupants(g));
    proof {
        assert(kinds(ds@) =~= kinds(orig));
    }
    reindex_all(ds, track);
    proof {
        let cf = cells(track@);
        assert(kinds(ds@) =~= kinds(orig));
        crate::dangos::moves::lemma_all_on_track(orig, cf);
        assert forall|j: int| 0 <= j < ds@.len() implies placed(#[trigger] ds@[j]@, cf) by {
            assert(cf.flatten().contains(orig[j]@.kind));
        }
    }
    false
}

/// The track once the BuDaWang has gone from the bottom of cell `x` back to
/// the bottom of the finish line.
pub open spec fn sent_back(c: Seq<Seq<DangoKind>>, x: int) -> Seq<Seq<DangoKind>> {
    let c1 = c.update(x, c[x].drop_first());
    c1.update(TRACK_LEN - 1, seq![DangoKind::BuDaWang] + c1[TRACK_LEN - 1])
}

/// At the end of each round: when the BuDaWang (index `i`) has left the last
/// dango behind, it goes back to the bottom of the finish line.
pub fn after_run(ds: &mut Vec<Dango>, i: usize, track: &mut Track)
    requires
        i < old(ds)@.len(),
        field_wf(old(ds)@, cells(old(track)@)),
        old(ds)@[i as int]@.kind == DangoKind::BuDaWang,
        old(ds)@[i as int]@.pos.1 == 0,
        exists|j: int| 0 <= j < old(ds)@.len() && old(ds)@[j]@.kind != DangoKind::BuDaWang,
    ensures
        final(ds)@.len() == old(ds)@.len(),
        field_wf(final(ds)@, cells(final(track)@)),
        forall|j: int|
            0 <= j < old(ds)@.len() ==> (#[trigger] final(ds)@[j])@ == old(ds)@[j]@.with_pos(
                final(ds)@[j]@.pos,
            ),
        (exists|j: int| #[trigger] lowest(old(ds)@, j) && old(ds)@[j]@.pos.0 > old(ds)@[i as int]@.pos.0)
            ==> cells(final(track)@) == sent_back(cells(old(track)@), old(ds)@[i as int]@.pos.0 as int),
        !(exists|j: int| #[trigger] lowest(old(ds)@, j) && old(ds)@[j]@.pos.0 > old(ds)@[i as int]@.pos.0)
            ==> cells(final(track)@) == cells(old(track)@) && final(ds)@ == old(ds)@,
{
    let ghost c = cells(track@);
    let ghost orig = ds@;
    let s = ds[i].state();
    let me = BuDaWang { n: s.n, pos: s.pos };
    if me.leave_last_dango(ds.as_slice()) {
        assert(placed(orig[i as int]@, c));
        let x = s.pos.0;
        assert(c[x as int][0] == DangoKind::BuDaWang);
        let rest = take_stack(track, x, 1);
        let ghost c1 = cells(track@);
        assert(c1[x as int] == c[x as int].take(1));
        let mut bud = take_stack(track, x, 0);
        let ghost c2 = cells(track@);
        let ghost b0 = bud@;
        let ghost rs = rest@;
        assert(b0 =~= seq![DangoKind::BuDaWang]);
        put_stack(track, x, rest);
        let ghost c3 = cells(track@);
        let mut top = take_stack(track, TRACK_LEN - 1, 0);
        let ghost c4 = cells(track@);
        let ghost tp = top@;
        bud.append(&mut top);
        put_stack(track, TRACK_LEN - 1, bud);
        proof {
            assert(c2[x as int] =~= Seq::<DangoKind>::empty());
            assert(c3[x as int] =~= c[x as int].drop_first());
            assert(tp == c3[TRACK_LEN - 1]);
            assert(c4[TRACK_LEN - 1] =~= Seq::<DangoKind>::empty());
            assert(cells(track@) =~= sent_back(c, x as int));
            lemma_multiset_commutative(b0, tp);
            assert forall|v: DangoKind| #[trigger] occupants(cells(track@)).count(v) == occupants(c).count(v) by {
                assert(occupants(c1).add(rs.to_multiset()).count(v) == occupants(c).count(v));
                assert(occupants(c2).add(b0.to_multiset()).count(v) == occupants(c1).count(v));
                assert(occupants(c4).add(tp.to_multiset()).count(v) == occupants(c3).count(v));
            }
            assert(occupants(cells(track@)) =~= occupants(c));
            assert(kinds(ds@) =~= kinds(orig));
        }
        reindex_all(ds, track);
        proof {
            let cf = cells(track@);
            assert(kinds(ds@) =~= kinds(orig));
            crate::dangos::moves::lemma_all_on_track(orig, cf);
            assert forall|j: int| 0 <= j < ds@.len() implies placed(#[trigger] ds@[j]@, cf) by {
                assert(cf.flatten().contains(orig[j]@.kind));
            }
        }
    } else {
        proof {
            assert forall|j: int| 0 <= j < orig.len() implies (#[trigger] ds@[j])@ == orig[j]@.with_pos(
                ds@[j]@.pos,
            ) by {
                assert(orig[j]@.with_pos(orig[j]@.pos) == orig[j]@);
            }
        }
    }
}

} // verus!
