use rand::rngs::StdRng;
use vstd::prelude::*;

use crate::dangos::moves::{
    can_move, counters_bounded, lemma_moved_by_rebase, lemma_wf_same_places, make_step, moved_by,
    views,
};
use crate::dangos::{Dango, DangoKind, DangoState};
use crate::track::{cells, field_wf, PointType, Track, TrackMap};

verus! {

/// Rolling the same number as on its previous turn moves 2 cells further.
#[derive(Debug, Clone, Copy)]
pub struct Denia {
    /// the number rolled for the current turn
    pub n: usize,
    /// (track cell, height in the stack)
    pub pos: (usize, usize),
    /// bonus or malus added to the next move
    pub extra: isize,
    /// how often it has crossed the finish line
    pub arrive_count: usize,
    /// how often it must reach the finish line
    pub target_arrive_count: usize,
    /// the number it rolled on its previous turn
    pub last_dice: usize,
}

impl Denia {
    /// A Denia at the start line that must reach the finish once.
    pub fn new() -> (r: Self)
        ensures
            r.n == 0,
            r.pos == (0usize, 0usize),
            r.extra == 0,
            r.arrive_count == 0,
            r.target_arrive_count == 1,
            r.last_dice == 0,
    {
        Denia {
            n: 0,
            pos: (0, 0),
            extra: 0,
            arrive_count: 0,
            target_arrive_count: 1,
            last_dice: 0,
        }
    }
}

impl Default for Denia {
    fn default() -> (r: Self)
        ensures
            r.n == 0,
            r.pos == (0usize, 0usize),
            r.extra == 0,
            r.arrive_count == 0,
            r.target_arrive_count == 1,
            r.last_dice == 0,
    {
        Denia::new()
    }
}

/// A Denia with every field given.
pub fn new_denia(
    n: usize,
    pos: (usize, usize),
    extra: isize,
    arrive_count: usize,
    target_arrive_count: usize,
    last_dice: usize,
) -> (r: Denia)
    ensures
        r.n == n,
        r.pos == pos,
        r.extra == extra,
        r.arrive_count == arrive_count,
        r.target_arrive_count == target_arrive_count,
        r.last_dice == last_dice,
{
    Denia {
        n,
        pos,
        extra,
        arrive_count,
        target_arrive_count,
        last_dice,
    }
}

/// A Denia at the start line that must reach the finish once.
pub fn default_denia() -> (r: Denia)
    ensures
            r.n == 0,
            r.pos == (0usize, 0usize),
            r.extra == 0,
            r.arrive_count == 0,
            r.target_arrive_count == 1,
            r.last_dice == 0,
{
    Denia::default()
}

/// Denia before her move: two cells more when she rolled what she rolled
/// last time; she remembers the roll.
pub open spec fn denia_turn(s: DangoState) -> DangoState {
    s.with_extra(
        if s.n == s.last_dice {
            (s.extra + 2) as isize
        } else {
            s.extra
        },
    ).with_last_dice(s.n)
}

/// Denia's turn: the bonus for a repeated roll, then the move.
pub fn step(ds: &mut Vec<Dango>, i: usize, track: &mut Track, map: &TrackMap, rng: &mut StdRng) -> (arrived: bool)
    requires
        i < old(ds)@.len(),
        field_wf(old(ds)@, cells(old(track)@)),
        old(ds)@[i as int]@.kind == DangoKind::Denia,
        counters_bounded(old(ds)@),
        old(ds)@[i as int]@.extra <= isize::MAX - 2,
        can_move(denia_turn(old(ds)@[i as int]@), map@),
    ensures
        final(ds)@.len() == old(ds)@.len(),
        field_wf(final(ds)@, cells(final(track)@)),
        moved_by(
            views(old(ds)@),
            i as int,
            denia_turn(old(ds)@[i as int]@),
            cells(old(track)@),
            map@,
            views(final(ds)@),
            cells(final(track)@),
            arrived,
        ),
{
    let ghost orig = ds@;
    let ghost c = cells(track@);
    let mut st = ds[i].state();
    if st.n == st.last_dice {
        st.extra = st.extra + 2;
    }
    st.last_dice = st.n;
    ds[i] = Dango::from_state(st);
    let ghost ds1 = ds@;
    proof {
        lemma_wf_same_places(orig, ds1, c);
        assert(ds1[i as int]@ == denia_turn(orig[i as int]@));
    }
    let arrived = make_step(ds, i, track, map, rng);
    proof {
        lemma_moved_by_rebase(views(ds1), views(orig), i as int, ds1[i as int]@, c, map@, views(ds@), cells(track@), arrived);
    }
    arrived
}

/// Denia's bonus, for a turn as `step` carries it out: she moves as with two
/// more cells of bonus exactly when she rolled what she rolled last time,
/// with her bonus as it was otherwise; either way she then remembers this
/// roll.
pub proof fn law_repeated_roll_moves_two_further(
    b: Seq<Dango>,
    i: int,
    c: Seq<Seq<DangoKind>>,
    map: Seq<PointType>,
    after: Seq<DangoState>,
    nc: Seq<Seq<DangoKind>>,
    arrived: bool,
)
    requires
        0 <= i < b.len(),
        b[i]@.kind == DangoKind::Denia,
        moved_by(views(b), i, denia_turn(b[i]@), c, map, after, nc, arrived),
    ensures
        b[i]@.n == b[i]@.last_dice ==> moved_by(
            views(b),
            i,
            (DangoState { extra: (b[i]@.extra + 2) as isize, ..b[i]@ }),
            c,
            map,
            after,
            nc,
            arrived,
        ),
        b[i]@.n != b[i]@.last_dice ==> moved_by(
            views(b),
            i,
            (DangoState { last_dice: b[i]@.n, ..b[i]@ }),
            c,
            map,
            after,
            nc,
            arrived,
        ),
{
    let s = b[i]@;
    if s.n == s.last_dice {
        assert(denia_turn(s) == DangoState { extra: (s.extra + 2) as isize, ..s });
    } else {
        assert(denia_turn(s) == DangoState { last_dice: s.n, ..s });
    }
}

} // verus!
