use rand::rngs::StdRng;
use vstd::prelude::*;

use crate::dangos::moves::{
    can_move, counters_bounded, lemma_moved_by_rebase, lemma_wf_same_places, make_step, moved_by,
    views,
};
use crate::dangos::{Dango, DangoKind, DangoState};
use crate::rng::draw_u64;
use crate::track::{cells, field_wf, Track, TrackMap};

verus! {

/// Three turns in five it moves twice as far; one in five it stays.
#[derive(Debug, Clone, Copy)]
pub struct Lynae {
    /// the number rolled for the current turn
    pub n: usize,
    /// (track cell, height in the stack)
    pub pos: (usize, usize),
    /// bonus or malus added to the next move
    pub extra: isize,
    /// how often it has crossed the finish line
    pub arrive_count: usize,
    /// how often it must reach the finish line
    pub target_arrive_count: usize,
}

impl Lynae {
    /// A Lynae at the start line that must reach the finish once.
    pub fn new() -> (r: Self)
        ensures
            r.n == 0,
            r.pos == (0usize, 0usize),
            r.extra == 0,
            r.arrive_count == 0,
            r.target_arrive_count == 1,
    {
        Lynae {
            n: 0,
            pos: (0, 0),
            extra: 0,
            arrive_count: 0,
            target_arrive_count: 1,
        }
    }
}

impl Default for Lynae {
    fn default() -> (r: Self)
        ensures
            r.n == 0,
            r.pos == (0usize, 0usize),
            r.extra == 0,
            r.arrive_count == 0,
            r.target_arrive_count == 1,
    {
        Lynae::new()
    }
}

/// A Lynae with every field given.
pub fn new_lynae(
    n: usize,
    pos: (usize, usize),
    extra: isize,
    arrive_count: usize,
    target_arrive_count: usize,
) -> (r: Lynae)
    ensures
        r.n == n,
        r.pos == pos,
        r.extra == extra,
        r.arrive_count == arrive_count,
        r.target_arrive_count == target_arrive_count,
{
    Lynae {
        n,
        pos,
        extra,
        arrive_count,
        target_arrive_count,
    }
}

/// A Lynae at the start line that must reach the finish once.
pub fn default_lynae() -> (r: Lynae)
    ensures
            r.n == 0,
            r.pos == (0usize, 0usize),
            r.extra == 0,
            r.arrive_count == 0,
            r.target_arrive_count == 1,
{
    Lynae::default()
}

/// A draw of 53 random bits, read as a fraction of `2^53`, is below 3/5
/// exactly when it is below this number (the fraction 0.6 rounded to the
/// nearest double, times `2^53`).
pub const DOUBLE_BELOW: u64 = 5404319552844595;

/// Likewise for 4/5: a draw below this number lets Lynae move at all.
pub const MOVE_BELOW: u64 = 7205759403792794;

/// Lynae either stayed where she was with nothing changed, or moved her
/// roll, or moved twice her roll.
pub open spec fn lynae_took_turn(
    before: Seq<DangoState>,
    i: int,
    c: Seq<Seq<DangoKind>>,
    map: Seq<crate::track::PointType>,
    after: Seq<DangoState>,
    new_c: Seq<Seq<DangoKind>>,
    arrived: bool,
) -> bool {
    ||| after == before && new_c == c && !arrived
    ||| moved_by(before, i, before[i], c, map, after, new_c, arrived)
    ||| moved_by(before, i, before[i].with_n((2 * before[i].n) as usize), c, map, after, new_c, arrived)
}

/// Lynae's turn: one draw decides it. Three times in five she moves twice
/// her roll, one time in five she moves her roll, one time in five she stays
/// where she is and nothing changes.
pub fn step(ds: &mut Vec<Dango>, i: usize, track: &mut Track, map: &TrackMap, rng: &mut StdRng) -> (arrived: bool)
    requires
        i < old(ds)@.len(),
        field_wf(old(ds)@, cells(old(track)@)),
        old(ds)@[i as int]@.kind == DangoKind::Lynae,
        counters_bounded(old(ds)@),
        old(ds)@[i as int]@.n <= usize::MAX / 2,
        can_move(old(ds)@[i as int]@, map@),
        can_move(old(ds)@[i as int]@.with_n((2 * old(ds)@[i as int]@.n) as usize), map@),
    ensures
        final(ds)@.len() == old(ds)@.len(),
        field_wf(final(ds)@, cells(final(track)@)),
        lynae_took_turn(
            views(old(ds)@),
            i as int,
            cells(old(track)@),
            map@,
            views(final(ds)@),
            cells(final(track)@),
            arrived,
        ),
{
    let draw = draw_u64(rng);
    step_with_draw(ds, i, track, map, rng, draw)
}

/// Lynae's turn once the draw is made: the top 53 of its 64 bits, read as a
/// fraction of `2^53`, decide. Below 3/5 she moves twice her roll, below 4/5
/// she moves her roll, otherwise she stays and nothing changes.
pub fn step_with_draw(
    ds: &mut Vec<Dango>,
    i: usize,
    track: &mut Track,
    map: &TrackMap,
    rng: &mut StdRng,
    draw: u64,
) -> (arrived: bool)
    requires
        i < old(ds)@.len(),
        field_wf(old(ds)@, cells(old(track)@)),
        old(ds)@[i as int]@.kind == DangoKind::Lynae,
        counters_bounded(old(ds)@),
        old(ds)@[i as int]@.n <= usize::MAX / 2,
        can_move(old(ds)@[i as int]@, map@),
        can_move(old(ds)@[i as int]@.with_n((2 * old(ds)@[i as int]@.n) as usize), map@),
    ensures
        final(ds)@.len() == old(ds)@.len(),
        field_wf(final(ds)@, cells(final(track)@)),
        draw >> 11u64 >= MOVE_BELOW ==> final(ds)@ == old(ds)@ && cells(final(track)@) == cells(old(track)@)
            && !arrived,
        draw >> 11u64 < DOUBLE_BELOW ==> moved_by(
            views(old(ds)@),
            i as int,
            old(ds)@[i as int]@.with_n((2 * old(ds)@[i as int]@.n) as usize),
            cells(old(track)@),
            map@,
            views(final(ds)@),
            cells(final(track)@),
            arrived,
        ),
        DOUBLE_BELOW <= draw >> 11u64 < MOVE_BELOW ==> moved_by(
            views(old(ds)@),
            i as int,
            old(ds)@[i as int]@,
            cells(old(track)@),
            map@,
            views(final(ds)@),
            cells(final(track)@),
            arrived,
        ),
{
    let ghost orig = ds@;
    let ghost c = cells(track@);
    let bits = draw >> 11u64;
    if bits >= MOVE_BELOW {
        return false;
    }
    let ghost m = if bits < DOUBLE_BELOW {
        orig[i as int]@.with_n((2 * orig[i as int]@.n) as usize)
    } else {
        orig[i as int]@
    };
    if bits < DOUBLE_BELOW {
        let n = ds[i].get_n();
        ds[i].set_n(2 * n);
    }
    let ghost ds1 = ds@;
    proof {
        lemma_wf_same_places(orig, ds1, c);
    }
    let arrived = make_step(ds, i, track, map, rng);
    proof {
        lemma_moved_by_rebase(views(ds1), views(orig), i as int, ds1[i as int]@, c, map@, views(ds@), cells(track@), arrived);
        assert(ds1[i as int]@ == m);
        assert(views(orig)[i as int] == orig[i as int]@);
    }
    arrived
}

} // verus!
