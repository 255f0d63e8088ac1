use rand::rngs::StdRng;
use vstd::prelude::*;

use crate::dangos::moves::{
    can_move, counters_bounded, lemma_moved_by_rebase, lemma_wf_same_places, make_step, moved_by,
    views,
};
use crate::dangos::{Dango, DangoKind};
use crate::rng::coin;
use crate::track::{cells, field_wf, Track, TrackMap};

verus! {

/// Half of its turns move 1 cell further.
#[derive(Debug, Clone, Copy)]
pub struct Phoebe {
    /// the number rolled for the current turn
    pub n: usize,
    /// (track cell, height in the stack)
    pub pos: (usize, usize),
    /// bonus or malus added to the next move
    pub extra: isize,
    /// how often it has crossed the finish line
    pub arrive_count: usize,
    /// how often it must reach the finish line
    pub target_arrive_count: usize,
}

impl Phoebe {
    /// A Phoebe at the start line that must reach the finish once.
    pub fn new() -> (r: Self)
        ensures
            r.n == 0,
            r.pos == (0usize, 0usize),
            r.extra == 0,
            r.arrive_count == 0,
            r.target_arrive_count == 1,
    {
        Phoebe {
            n: 0,
            pos: (0, 0),
            extra: 0,
            arrive_count: 0,
            target_arrive_count: 1,
        }
    }
}

impl Default for Phoebe {
    fn default() -> (r: Self)
        ensures
            r.n == 0,
            r.pos == (0usize, 0usize),
            r.extra == 0,
            r.arrive_count == 0,
            r.target_arrive_count == 1,
    {
        Phoebe::new()
    }
}

/// A Phoebe with every field given.
pub fn new_phoebe(
    n: usize,
    pos: (usize, usize),
    extra: isize,
    arrive_count: usize,
    target_arrive_count: usize,
) -> (r: Phoebe)
    ensures
        r.n == n,
        r.pos == pos,
        r.extra == extra,
        r.arrive_count == arrive_count,
        r.target_arrive_count == target_arrive_count,
{
    Phoebe {
        n,
        pos,
        extra,
        arrive_count,
        target_arrive_count,
    }
}

/// A Phoebe at the start line that must reach the finish once.
pub fn default_phoebe() -> (r: Phoebe)
    ensures
            r.n == 0,
            r.pos == (0usize, 0usize),
            r.extra == 0,
            r.arrive_count == 0,
            r.target_arrive_count == 1,
{
    Phoebe::default()
}

/// Phoebe's turn: half of the time one cell more, then the move.
pub fn step(ds: &mut Vec<Dango>, i: usize, track: &mut Track, map: &TrackMap, rng: &mut StdRng) -> (arrived: bool)
    requires
        i < old(ds)@.len(),
        field_wf(old(ds)@, cells(old(track)@)),
        old(ds)@[i as int]@.kind == DangoKind::Phoebe,
        counters_bounded(old(ds)@),
        old(ds)@[i as int]@.extra < isize::MAX,
        can_move(old(ds)@[i as int]@, map@),
        can_move(old(ds)@[i as int]@.with_extra((old(ds)@[i as int]@.extra + 1) as isize), map@),
    ensures
        final(ds)@.len() == old(ds)@.len(),
        field_wf(final(ds)@, cells(final(track)@)),
        exists|b: int|
            (b == 0 || b == 1) && #[trigger] moved_by(
                views(old(ds)@),
                i as int,
                old(ds)@[i as int]@.with_extra((old(ds)@[i as int]@.extra + b) as isize),
                cells(old(track)@),
                map@,
                views(final(ds)@),
                cells(final(track)@),
                arrived,
            ),
{
    let ghost orig = ds@;
    let ghost c = cells(track@);
    let mut bonus: isize = 0;
    if coin(rng, 1, 2) {
        bonus = 1;
    }
    let e = ds[i].get_extra();
    ds[i].set_extra(e + bonus);
    let ghost ds1 = ds@;
    proof {
        lemma_wf_same_places(orig, ds1, c);
        assert(ds1[i as int]@ == orig[i as int]@.with_extra((orig[i as int]@.extra + bonus) as isize));
    }
    let arrived = make_step(ds, i, track, map, rng);
    proof {
        lemma_moved_by_rebase(
            views(ds1),
            views(orig),
            i as int,
            ds1[i as int]@,
            c,
            map@,
            views(ds@),
            cells(track@),
            arrived,
        );
        assert(moved_by(
            views(orig),
            i as int,
            orig[i as int]@.with_extra((orig[i as int]@.extra + bonus) as isize),
            c,
            map@,
            views(ds@),
            cells(track@),
            arrived,
        ));
    }
    arrived
}

} // verus!
