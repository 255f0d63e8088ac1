use rand::rngs::StdRng;
use vstd::prelude::*;

use crate::dangos::moves::{
    can_move, counters_bounded, lemma_moved_by_rebase, lemma_wf_same_places, make_step, moved_by,
    views,
};
use crate::dangos::{behind, is_behind, Dango, DangoKind, DangoState};
use crate::rng::coin;
use crate::track::{cells, field_wf, Track, TrackMap};

verus! {

/// Sharply behind: once it has been last, 3 in 5 of its later turns move 2 cells further.
#[derive(Debug, Clone, Copy)]
pub struct Cartethyia {
    /// the number rolled for the current turn
    pub n: usize,
    /// (track cell, height in the stack)
    pub pos: (usize, usize),
    /// bonus or malus added to the next move
    pub extra: isize,
    /// how often it has crossed the finish line
    pub arrive_count: usize,
    /// how often it must reach the finish line
    pub target_arrive_count: usize,
    /// whether it has been the last one in the race
    pub has_been_last: bool,
}

impl Cartethyia {
    /// A Cartethyia at the start line that must reach the finish once.
    pub fn new() -> (r: Self)
        ensures
            r.n == 0,
            r.pos == (0usize, 0usize),
            r.extra == 0,
            r.arrive_count == 0,
            r.target_arrive_count == 1,
            r.has_been_last == false,
    {
        Cartethyia {
            n: 0,
            pos: (0, 0),
            extra: 0,
            arrive_count: 0,
            target_arrive_count: 1,
            has_been_last: false,
        }
    }
}

impl Default for Cartethyia {
    fn default() -> (r: Self)
        ensures
            r.n == 0,
            r.pos == (0usize, 0usize),
            r.extra == 0,
            r.arrive_count == 0,
            r.target_arrive_count == 1,
            r.has_been_last == false,
    {
        Cartethyia::new()
    }
}

/// A Cartethyia with every field given.
pub fn new_cartethyia(
    n: usize,
    pos: (usize, usize),
    extra: isize,
    arrive_count: usize,
    target_arrive_count: usize,
    has_been_last: bool,
) -> (r: Cartethyia)
    ensures
        r.n == n,
        r.pos == pos,
        r.extra == extra,
        r.arrive_count == arrive_count,
        r.target_arrive_count == target_arrive_count,
        r.has_been_last == has_been_last,
{
    Cartethyia {
        n,
        pos,
        extra,
        arrive_count,
        target_arrive_count,
        has_been_last,
    }
}

/// A Cartethyia at the start line that must reach the finish once.
pub fn default_cartethyia() -> (r: Cartethyia)
    ensures
            r.n == 0,
            r.pos == (0usize, 0usize),
            r.extra == 0,
            r.arrive_count == 0,
            r.target_arrive_count == 1,
            r.has_been_last == false,
{
    Cartethyia::default()
}

/// Nobody but the BuDaWang and Cartethyia herself is behind `me`.
pub open spec fn field_last(ds: Seq<Dango>, me: DangoState) -> bool {
    forall|j: int|
        0 <= j < ds.len() && ds[j]@.kind != DangoKind::BuDaWang && ds[j]@.kind
            != DangoKind::Cartethyia ==> !behind(#[trigger] ds[j]@, me)
}

impl Cartethyia {
    /// Whether every dango of the list other than the BuDaWang and Cartethyia
    /// is ahead of her, that is, she is the last one.
    pub fn is_last(&self, dangos: &[Dango]) -> (r: bool)
        ensures
            r == field_last(dangos@, Dango::Cartethyia(*self)@),
    {
        let me = Dango::Cartethyia(*self);
        let mut j: usize = 0;
        while j < dangos.len()
            invariant
                j <= dangos@.len(),
                me@ == Dango::Cartethyia(*self)@,
                forall|m: int|
                    0 <= m < j && dangos@[m]@.kind != DangoKind::BuDaWang && dangos@[m]@.kind
                        != DangoKind::Cartethyia ==> !behind(#[trigger] dangos@[m]@, me@),
            decreases dangos@.len() - j,
        {
            let k = dangos[j].kind();
            if k != DangoKind::BuDaWang && k != DangoKind::Cartethyia && is_behind(&dangos[j], &me) {
                return false;
            }
            j = j + 1;
        }
        true
    }
}

/// Cartethyia's turn: once she has been the last one, three times in five
/// she moves two cells more; after a move that does not end the race she
/// notes whether she is the last one.
pub fn step(ds: &mut Vec<Dango>, i: usize, track: &mut Track, map: &TrackMap, rng: &mut StdRng) -> (arrived: bool)
    requires
        i < old(ds)@.len(),
        field_wf(old(ds)@, cells(old(track)@)),
        old(ds)@[i as int]@.kind == DangoKind::Cartethyia,
        counters_bounded(old(ds)@),
        old(ds)@[i as int]@.extra <= isize::MAX - 2,
        can_move(old(ds)@[i as int]@, map@),
        old(ds)@[i as int]@.has_been_last ==> can_move(
            old(ds)@[i as int]@.with_extra((old(ds)@[i as int]@.extra + 2) as isize),
            map@,
        ),
    ensures
        final(ds)@.len() == old(ds)@.len(),
        field_wf(final(ds)@, cells(final(track)@)),
        exists|b: int|
            (b == 0 || (b == 2 && old(ds)@[i as int]@.has_been_last)) && #[trigger] moved_by(
                views(old(ds)@),
                i as int,
                old(ds)@[i as int]@.with_extra((old(ds)@[i as int]@.extra + b) as isize),
                cells(old(track)@),
                map@,
                views(final(ds)@).update(
                    i as int,
                    final(ds)@[i as int]@.with_has_been_last(old(ds)@[i as int]@.has_been_last),
                ),
                cells(final(track)@),
                arrived,
            ),
        final(ds)@[i as int]@.has_been_last == if !arrived && !old(ds)@[i as int]@.has_been_last {
            field_last(final(ds)@, final(ds)@[i as int]@)
        } else {
            old(ds)@[i as int]@.has_been_last
        },
{
    let ghost orig = ds@;
    let ghost c = cells(track@);
    let mut st = ds[i].state();
    let was_last = st.has_been_last;
    let ghost mut bonus: int = 0;
    if was_last && coin(rng, 3, 5) {
        st.extra = st.extra + 2;
        proof {
            bonus = 2;
        }
    }
    let ghost m = st;
    ds[i] = Dango::from_state(st);
    let ghost ds1 = ds@;
    proof {
        lemma_wf_same_places(orig, ds1, c);
    }
    let arrived = make_step(ds, i, track, map, rng);
    let ghost ds2 = ds@;
    proof {
        lemma_moved_by_rebase(views(ds1), views(orig), i as int, ds1[i as int]@, c, map@, views(ds2), cells(track@), arrived);
        assert(ds1[i as int]@ == orig[i as int]@.with_extra((orig[i as int]@.extra + bonus) as isize));
        assert(views(ds2)[i as int] == ds2[i as int]@);
        assert(ds2[i as int]@.kind == DangoKind::Cartethyia);
        assert(ds2[i as int]@.has_been_last == was_last);
    }
    if !arrived && !was_last {
        let now = ds[i].state();
        let me = Cartethyia {
            n: now.n,
            pos: now.pos,
            extra: now.extra,
            arrive_count: now.arrive_count,
            target_arrive_count: now.target_arrive_count,
            has_been_last: now.has_been_last,
        };
        let last = me.is_last(ds.as_slice());
        let mut st2 = now;
        st2.has_been_last = last;
        ds[i] = Dango::from_state(st2);
        proof {
            assert(Dango::Cartethyia(me)@ == ds2[i as int]@);
            lemma_wf_same_places(ds2, ds@, cells(track@));
            assert forall|j: int| 0 <= j < ds@.len() && j != i implies ds@[j] == ds2[j] by {}
            assert(field_last(ds@, ds@[i as int]@) == field_last(ds2, ds2[i as int]@));
        }
    }
    proof {
        assert(views(ds@).update(i as int, ds@[i as int]@.with_has_been_last(was_last)) =~= views(ds2));
        assert(moved_by(
            views(orig),
            i as int,
            orig[i as int]@.with_extra((orig[i as int]@.extra + bonus) as isize),
            c,
            map@,
            views(ds@).update(i as int, ds@[i as int]@.with_has_been_last(was_last)),
            cells(track@),
            arrived,
        ));
    }
    arrived
}

} // verus!
