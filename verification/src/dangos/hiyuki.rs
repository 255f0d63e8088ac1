use rand::rngs::StdRng;
use vstd::prelude::*;

use crate::dangos::moves::{
    can_move, counters_bounded, lemma_moved_by_rebase, lemma_wf_same_places, make_step, moved_by,
    views,
};
use crate::dangos::{bud_at, bud_within, has_budawang, Dango, DangoKind, DangoState};
use crate::track::{cells, field_wf, placed, PointType, Track, TrackMap, TRACK_LEN};

verus! {

/// After meeting the BuDaWang it moves 1 cell further.
#[derive(Debug, Clone, Copy)]
pub struct Hiyuki {
    /// the number rolled for the current turn
    pub n: usize,
    /// (track cell, height in the stack)
    pub pos: (usize, usize),
    /// bonus or malus added to the next move
    pub extra: isize,
    /// how often it has crossed the finish line
    pub arrive_count: usize,
    /// how often it must reach the finish line
    pub target_arrive_count: usize,
    /// whether it has met the BuDaWang
    pub meeted: bool,
}

impl Hiyuki {
    /// A Hiyuki at the start line that must reach the finish once.
    pub fn new() -> (r: Self)
        ensures
            r.n == 0,
            r.pos == (0usize, 0usize),
            r.extra == 0,
            r.arrive_count == 0,
            r.target_arrive_count == 1,
            r.meeted == false,
    {
        Hiyuki {
            n: 0,
            pos: (0, 0),
            extra: 0,
            arrive_count: 0,
            target_arrive_count: 1,
            meeted: false,
        }
    }
}

impl Default for Hiyuki {
    fn default() -> (r: Self)
        ensures
            r.n == 0,
            r.pos == (0usize, 0usize),
            r.extra == 0,
            r.arrive_count == 0,
            r.target_arrive_count == 1,
            r.meeted == false,
    {
        Hiyuki::new()
    }
}

/// A Hiyuki with every field given.
pub fn new_hiyuki(
    n: usize,
    pos: (usize, usize),
    extra: isize,
    arrive_count: usize,
    target_arrive_count: usize,
    meeted: bool,
) -> (r: Hiyuki)
    ensures
        r.n == n,
        r.pos == pos,
        r.extra == extra,
        r.arrive_count == arrive_count,
        r.target_arrive_count == target_arrive_count,
        r.meeted == meeted,
{
    Hiyuki {
        n,
        pos,
        extra,
        arrive_count,
        target_arrive_count,
        meeted,
    }
}

/// A Hiyuki at the start line that must reach the finish once.
pub fn default_hiyuki() -> (r: Hiyuki)
    ensures
            r.n == 0,
            r.pos == (0usize, 0usize),
            r.extra == 0,
            r.arrive_count == 0,
            r.target_arrive_count == 1,
            r.meeted == false,
{
    Hiyuki::default()
}

/// Hiyuki before her move: once she has met the BuDaWang (before, or now
/// that it stands at the bottom of her cell) she moves one cell more, each
/// turn; otherwise she has no bonus.
pub open spec fn hiyuki_turn(c: Seq<Seq<DangoKind>>, s: DangoState) -> DangoState {
    let met = s.meeted || bud_at(c, s.pos.0 as int);
    s.with_meeted(met).with_extra(
        if met {
            1
        } else {
            0
        },
    )
}

/// The BuDaWang stands on a cell Hiyuki went past going from cell `a` to
/// cell `b` (around the finish line when `b` is not beyond `a`).
pub open spec fn spotted(c: Seq<Seq<DangoKind>>, a: int, b: int) -> bool {
    if b > a {
        bud_within(c, a + 1, b + 1)
    } else {
        bud_within(c, a + 1, TRACK_LEN as int) || bud_within(c, 0, b + 1)
    }
}

/// Hiyuki's turn: the bonus after meeting the BuDaWang, the move, and then
/// whether she passed the BuDaWang on the way.
pub fn step(ds: &mut Vec<Dango>, i: usize, track: &mut Track, map: &TrackMap, rng: &mut StdRng) -> (arrived: bool)
    requires
        i < old(ds)@.len(),
        field_wf(old(ds)@, cells(old(track)@)),
        old(ds)@[i as int]@.kind == DangoKind::Hiyuki,
        counters_bounded(old(ds)@),
        can_move(hiyuki_turn(cells(old(track)@), old(ds)@[i as int]@), map@),
    ensures
        final(ds)@.len() == old(ds)@.len(),
        field_wf(final(ds)@, cells(final(track)@)),
        moved_by(
            views(old(ds)@),
            i as int,
            hiyuki_turn(cells(old(track)@), old(ds)@[i as int]@),
            cells(old(track)@),
            map@,
            views(final(ds)@).update(
                i as int,
                final(ds)@[i as int]@.with_meeted(
                    hiyuki_turn(cells(old(track)@), old(ds)@[i as int]@).meeted,
                ),
            ),
            cells(final(track)@),
            arrived,
        ),
        final(ds)@[i as int]@.meeted == if !arrived && !hiyuki_turn(
            cells(old(track)@),
            old(ds)@[i as int]@,
        ).meeted {
            spotted(
                cells(final(track)@),
                old(ds)@[i as int]@.pos.0 as int,
                final(ds)@[i as int]@.pos.0 as int,
            )
        } else {
            hiyuki_turn(cells(old(track)@), old(ds)@[i as int]@).meeted
        },
{
    let ghost orig = ds@;
    let ghost c = cells(track@);
    assert(placed(orig[i as int]@, c));
    let mut st = ds[i].state();
    let old_x = st.pos.0;
    assert(c[old_x as int] == track@[old_x as int]@);
    let met = st.meeted || track[old_x][0] == DangoKind::BuDaWang;
    st.meeted = met;
    st.extra = if met {
        1
    } else {
        0
    };
    ds[i] = Dango::from_state(st);
    let ghost ds1 = ds@;
    proof {
        lemma_wf_same_places(orig, ds1, c);
        assert(ds1[i as int]@ == hiyuki_turn(c, orig[i as int]@));
    }
    let arrived = make_step(ds, i, track, map, rng);
    let ghost ds2 = ds@;
    proof {
        lemma_moved_by_rebase(views(ds1), views(orig), i as int, ds1[i as int]@, c, map@, views(ds2), cells(track@), arrived);
        assert(views(ds2)[i as int] == ds2[i as int]@);
        assert(ds2[i as int]@.meeted == met);
    }
    if !arrived && !met {
        let new_x = ds[i].get_pos().0;
        assert(placed(ds2[i as int]@, cells(track@)));
        let seen = if new_x > old_x {
            has_budawang(track, old_x + 1, new_x + 1)
        } else {
            has_budawang(track, old_x + 1, TRACK_LEN) || has_budawang(track, 0, new_x + 1)
        };
        let mut st2 = ds[i].state();
        st2.meeted = seen;
        ds[i] = Dango::from_state(st2);
        proof {
            lemma_wf_same_places(ds2, ds@, cells(track@));
        }
    }
    proof {
        assert(views(ds@).update(i as int, ds@[i as int]@.with_meeted(met)) =~= views(ds2));
    }
    arrived
}

/// Hiyuki's bonus, for a turn as `step` carries it out: once she has met
/// the BuDaWang (before, or now because it stands at the bottom of her
/// cell) she moves with a bonus of exactly one cell and remembers the
/// meeting; before that she moves with no bonus at all.
pub proof fn law_met_budawang_moves_one_further(
    b: Seq<Dango>,
    i: int,
    c: Seq<Seq<DangoKind>>,
    map: Seq<PointType>,
    after: Seq<DangoState>,
    nc: Seq<Seq<DangoKind>>,
    arrived: bool,
)
    requires
        0 <= i < b.len(),
        b[i]@.kind == DangoKind::Hiyuki,
        moved_by(views(b), i, hiyuki_turn(c, b[i]@), c, map, after, nc, arrived),
    ensures
        ({
            let x = b[i]@.pos.0 as int;
            b[i]@.meeted || (c[x].len() > 0 && c[x][0] == DangoKind::BuDaWang)
        }) ==> moved_by(
            views(b),
            i,
            (DangoState { meeted: true, extra: 1, ..b[i]@ }),
            c,
            map,
            after,
            nc,
            arrived,
        ),
        !({
            let x = b[i]@.pos.0 as int;
            b[i]@.meeted || (c[x].len() > 0 && c[x][0] == DangoKind::BuDaWang)
        }) ==> moved_by(
            views(b),
            i,
            (DangoState { extra: 0, ..b[i]@ }),
            c,
            map,
            after,
            nc,
            arrived,
        ),
{
    let s = b[i]@;
    let x = s.pos.0 as int;
    if s.meeted || (c[x].len() > 0 && c[x][0] == DangoKind::BuDaWang) {
        assert(hiyuki_turn(c, s) == DangoState { meeted: true, extra: 1, ..s });
    } else {
        assert(hiyuki_turn(c, s) == DangoState { extra: 0, ..s });
    }
}

} // verus!
