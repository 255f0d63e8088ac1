//! A dango's throw and turn, whatever its kind, and what happens before and
//! after each round.
use rand::rngs::StdRng;
use vstd::prelude::*;

use crate::dangos::budawang::{self, lowest, sent_back, track_after_walk, walk_target};
use crate::dangos::cartethyia::{self, field_last};
use crate::dangos::chisa::{self, chisa_turn};
use crate::dangos::denia::{self, denia_turn};
use crate::dangos::hiyuki::{self, hiyuki_turn, spotted};
use crate::dangos::lynae::{self, lynae_took_turn};
use crate::dangos::moves::{can_move, counters_bounded, make_step, moved_by, views};
use crate::dangos::mornye;
use crate::dangos::phoebe;
use crate::dangos::sigrika::{self, marks};
use crate::dangos::{Dango, DangoKind, DangoState};
use crate::rng::choose_face;
use crate::track::{cells, field_wf, PointType, Track, TrackMap};

verus! {

/// The faces of the common die.
pub fn common_dice() -> (r: [usize; 6])
    ensures
        r@ == seq![1usize, 1, 2, 2, 3, 3],
{
    let r = [1, 1, 2, 2, 3, 3];
    assert(r@ =~= seq![1usize, 1, 2, 2, 3, 3]);
    r
}

/// What a throw makes of a dango: the BuDaWang throws 1 to 6, Mornye the
/// next number of her cycle 3, 2, 1, everyone else the common die (1 to 3).
pub open spec fn rolled(before: DangoState, after: DangoState) -> bool {
    if before.kind == DangoKind::BuDaWang {
        after == before.with_n(after.n) && 1 <= after.n <= 6
    } else if before.kind == DangoKind::Mornye {
        after == before.with_n(seq![3usize, 2, 1, 3, 2, 1][before.next_dice_index as int]).with_next_dice_index(
            ((before.next_dice_index + 1) % 6) as usize,
        )
    } else {
        after == before.with_n(after.n) && 1 <= after.n <= 3
    }
}

impl Dango {
    /// The dango throws its die for the coming turn.
    pub fn roll(&mut self, rng: &mut StdRng)
        requires
            old(self)@.kind == DangoKind::Mornye ==> old(self)@.next_dice_index < 6,
        ensures
            rolled(old(self)@, final(self)@),
    {
        match self.kind() {
            DangoKind::BuDaWang => budawang::roll(self, rng),
            DangoKind::Mornye => mornye::roll(self),
            _ => {
                let dice = common_dice();
                match choose_face(&dice, rng) {
                    Some(n) => self.set_n(n),
                    None => {},
                }
            },
        }
    }
}

/// The turn of the dango at index `i` can be taken: its skill's bonus keeps
/// the move within the machine's numbers, no move ends on a decelerate cell
/// at the start line, and the BuDaWang, at the bottom of its stack, has
/// thrown.
pub open spec fn turn_ready(ds: Seq<Dango>, i: int, c: Seq<Seq<DangoKind>>, map: Seq<PointType>) -> bool {
    let s = ds[i]@;
    match s.kind {
        DangoKind::BuDaWang => {
            &&& s.pos.1 == 0
            &&& s.n >= 1
            &&& !(map[walk_target(s.pos.0 as int, s.n as int)] == PointType::Decelerate && walk_target(
                s.pos.0 as int,
                s.n as int,
            ) == 0)
        },
        DangoKind::Cartethyia => {
            &&& s.extra <= isize::MAX - 2
            &&& can_move(s, map)
            &&& s.has_been_last ==> can_move(s.with_extra((s.extra + 2) as isize), map)
        },
        DangoKind::Chisa => s.extra <= isize::MAX - 2 && can_move(chisa_turn(ds, s), map),
        DangoKind::Denia => s.extra <= isize::MAX - 2 && can_move(denia_turn(s), map),
        DangoKind::Hiyuki => can_move(hiyuki_turn(c, s), map),
        DangoKind::Lynae => {
            &&& s.n <= usize::MAX / 2
            &&& can_move(s, map)
            &&& can_move(s.with_n((2 * s.n) as usize), map)
        },
        DangoKind::Phoebe => {
            &&& s.extra < isize::MAX
            &&& can_move(s, map)
            &&& can_move(s.with_extra((s.extra + 1) as isize), map)
        },
        _ => can_move(s, map),
    }
}

/// What the turn of the dango at index `i` did, by its kind: the BuDaWang
/// walks back; Cartethyia, Chisa, Denia, Hiyuki, Lynae and Phoebe use their
/// skills around their move; the others just move.
pub open spec fn turn_taken(
    b: Seq<Dango>,
    i: int,
    c: Seq<Seq<DangoKind>>,
    map: Seq<PointType>,
    a: Seq<Dango>,
    nc: Seq<Seq<DangoKind>>,
    arrived: bool,
) -> bool {
    let s = b[i]@;
    match s.kind {
        DangoKind::BuDaWang => {
            &&& !arrived
            &&& a.len() == b.len()
            &&& track_after_walk(
                c,
                walk_target(s.pos.0 as int, s.n as int),
                s.pos.0 as int,
                map[walk_target(s.pos.0 as int, s.n as int)],
                nc,
            )
            &&& forall|j: int| 0 <= j < b.len() ==> (#[trigger] a[j])@ == b[j]@.with_pos(a[j]@.pos)
        },
        DangoKind::Cartethyia => {
            &&& exists|e: int|
                (e == 0 || (e == 2 && s.has_been_last)) && #[trigger] moved_by(
                    views(b),
                    i,
                    s.with_extra((s.extra + e) as isize),
                    c,
                    map,
                    views(a).update(i, a[i]@.with_has_been_last(s.has_been_last)),
                    nc,
                    arrived,
                )
            &&& a[i]@.has_been_last == if !arrived && !s.has_been_last {
                field_last(a, a[i]@)
            } else {
                s.has_been_last
            }
        },
        DangoKind::Chisa => moved_by(views(b), i, chisa_turn(b, s), c, map, views(a), nc, arrived),
        DangoKind::Denia => moved_by(views(b), i, denia_turn(s), c, map, views(a), nc, arrived),
        DangoKind::Hiyuki => {
            &&& moved_by(
                views(b),
                i,
                hiyuki_turn(c, s),
                c,
                map,
                views(a).update(i, a[i]@.with_meeted(hiyuki_turn(c, s).meeted)),
                nc,
                arrived,
            )
            &&& a[i]@.meeted == if !arrived && !hiyuki_turn(c, s).meeted {
                spotted(nc, s.pos.0 as int, a[i]@.pos.0 as int)
            } else {
                hiyuki_turn(c, s).meeted
            }
        },
        DangoKind::Lynae => lynae_took_turn(views(b), i, c, map, views(a), nc, arrived),
        DangoKind::Phoebe => exists|e: int|
            (e == 0 || e == 1) && #[trigger] moved_by(
                views(b),
                i,
                s.with_extra((s.extra + e) as isize),
                c,
                map,
                views(a),
                nc,
                arrived,
            ),
        _ => moved_by(views(b), i, s, c, map, views(a), nc, arrived),
    }
}

/// The turn of the dango at index `i`: its skill and its move. Returns
/// whether the turn ends the race.
pub fn step(ds: &mut Vec<Dango>, i: usize, track: &mut Track, map: &TrackMap, rng: &mut StdRng) -> (arrived: bool)
    requires
        i < old(ds)@.len(),
        field_wf(old(ds)@, cells(old(track)@)),
        counters_bounded(old(ds)@),
        turn_ready(old(ds)@, i as int, cells(old(track)@), map@),
    ensures
        final(ds)@.len() == old(ds)@.len(),
        field_wf(final(ds)@, cells(final(track)@)),
        turn_taken(old(ds)@, i as int, cells(old(track)@), map@, final(ds)@, cells(final(track)@), arrived),
{
    match ds[i].kind() {
        DangoKind::BuDaWang => budawang::step(ds, i, track, map, rng),
        DangoKind::Cartethyia => cartethyia::step(ds, i, track, map, rng),
        DangoKind::Chisa => chisa::step(ds, i, track, map, rng),
        DangoKind::Denia => denia::step(ds, i, track, map, rng),
        DangoKind::Hiyuki => hiyuki::step(ds, i, track, map, rng),
        DangoKind::Lynae => lynae::step(ds, i, track, map, rng),
        DangoKind::Phoebe => phoebe::step(ds, i, track, map, rng),
        _ => make_step(ds, i, track, map, rng),
    }
}

/// What happens before a round for the dango at index `i`: Sigrika marks the
/// two nearest dango ahead of her; nobody else does anything.
pub fn before_run(ds: &mut Vec<Dango>, i: usize)
    requires
        i < old(ds)@.len(),
        forall|j: int| 0 <= j < old(ds)@.len() ==> (#[trigger] old(ds)@[j])@.extra > isize::MIN,
    ensures
        final(ds)@.len() == old(ds)@.len(),
        old(ds)@[i as int]@.kind == DangoKind::Sigrika ==> exists|a: int, b: int|
            #[trigger] marks(old(ds)@, i as int, a, b) && forall|j: int|
                0 <= j < old(ds)@.len() ==> (#[trigger] final(ds)@[j])@ == if j == a || j == b {
                    old(ds)@[j]@.with_extra((old(ds)@[j]@.extra - 1) as isize)
                } else {
                    old(ds)@[j]@
                },
        old(ds)@[i as int]@.kind != DangoKind::Sigrika ==> final(ds)@ == old(ds)@,
{
    if ds[i].kind() == DangoKind::Sigrika {
        sigrika::before_run(ds, i);
    }
}

/// What happens after a round for the dango at index `i`: the BuDaWang goes
/// back to the finish line when it has left the last dango behind; nobody
/// else does anything.
pub fn after_run(ds: &mut Vec<Dango>, i: usize, track: &mut Track)
    requires
        i < old(ds)@.len(),
        field_wf(old(ds)@, cells(old(track)@)),
        old(ds)@[i as int]@.kind == DangoKind::BuDaWang ==> old(ds)@[i as int]@.pos.1 == 0,
        exists|j: int| 0 <= j < old(ds)@.len() && old(ds)@[j]@.kind != DangoKind::BuDaWang,
    ensures
        final(ds)@.len() == old(ds)@.len(),
        field_wf(final(ds)@, cells(final(track)@)),
        forall|j: int|
            0 <= j < old(ds)@.len() ==> (#[trigger] final(ds)@[j])@ == old(ds)@[j]@.with_pos(
                final(ds)@[j]@.pos,
            ),
        old(ds)@[i as int]@.kind == DangoKind::BuDaWang && (exists|j: int|
            #[trigger] lowest(old(ds)@, j) && old(ds)@[j]@.pos.0 > old(ds)@[i as int]@.pos.0) ==> cells(
            final(track)@,
        ) == sent_back(cells(old(track)@), old(ds)@[i as int]@.pos.0 as int),
        !(old(ds)@[i as int]@.kind == DangoKind::BuDaWang && (exists|j: int|
            #[trigger] lowest(old(ds)@, j) && old(ds)@[j]@.pos.0 > old(ds)@[i as int]@.pos.0)) ==> cells(
            final(track)@,
        ) == cells(old(track)@) && final(ds)@ == old(ds)@,
{
    if ds[i].kind() == DangoKind::BuDaWang {
        budawang::after_run(ds, i, track);
    }
}

} // verus!
