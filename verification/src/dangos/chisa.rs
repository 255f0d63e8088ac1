use rand::rngs::StdRng;
use vstd::prelude::*;

use crate::dangos::moves::{
    can_move, counters_bounded, lemma_moved_by_rebase, lemma_wf_same_places, make_step, moved_by,
    views,
};
use crate::dangos::{Dango, DangoKind, DangoState};
use crate::track::{cells, field_wf, PointType, Track, TrackMap};

verus! {

/// Rolling the lowest number of the round moves 2 cells further.
#[derive(Debug, Clone, Copy)]
pub struct Chisa {
    /// the number rolled for the current turn
    pub n: usize,
    /// (track cell, height in the stack)
    pub pos: (usize, usize),
    /// bonus or malus added to the next move
    pub extra: isize,
    /// how often it has crossed the finish line
    pub arrive_count: usize,
    /// how often it must reach the finish line
    pub target_arrive_count: usize,
}

impl Chisa {
    /// A Chisa at the start line that must reach the finish once.
    pub fn new() -> (r: Self)
        ensures
            r.n == 0,
            r.pos == (0usize, 0usize),
            r.extra == 0,
            r.arrive_count == 0,
            r.target_arrive_count == 1,
    {
        Chisa {
            n: 0,
            pos: (0, 0),
            extra: 0,
            arrive_count: 0,
            target_arrive_count: 1,
        }
    }
}

impl Default for Chisa {
    fn default() -> (r: Self)
        ensures
            r.n == 0,
            r.pos == (0usize, 0usize),
            r.extra == 0,
            r.arrive_count == 0,
            r.target_arrive_count == 1,
    {
        Chisa::new()
    }
}

/// A Chisa with every field given.
pub fn new_chisa(
    n: usize,
    pos: (usize, usize),
    extra: isize,
    arrive_count: usize,
    target_arrive_count: usize,
) -> (r: Chisa)
    ensures
        r.n == n,
        r.pos == pos,
        r.extra == extra,
        r.arrive_count == arrive_count,
        r.target_arrive_count == target_arrive_count,
{
    Chisa {
        n,
        pos,
        extra,
        arrive_count,
        target_arrive_count,
    }
}

/// A Chisa at the start line that must reach the finish once.
pub fn default_chisa() -> (r: Chisa)
    ensures
            r.n == 0,
            r.pos == (0usize, 0usize),
            r.extra == 0,
            r.arrive_count == 0,
            r.target_arrive_count == 1,
{
    Chisa::default()
}

/// No dango of the list rolled less than `n`.
pub open spec fn lowest_roll(ds: Seq<Dango>, n: usize) -> bool {
    forall|j: int| 0 <= j < ds.len() ==> (#[trigger] ds[j])@.n >= n
}

/// Chisa before her move: two cells more when nobody rolled less.
pub open spec fn chisa_turn(ds: Seq<Dango>, s: DangoState) -> DangoState {
    s.with_extra(
        if lowest_roll(ds, s.n) {
            (s.extra + 2) as isize
        } else {
            s.extra
        },
    )
}

/// Chisa's turn: the bonus for the lowest roll of the round, then the move.
pub fn step(ds: &mut Vec<Dango>, i: usize, track: &mut Track, map: &TrackMap, rng: &mut StdRng) -> (arrived: bool)
    requires
        i < old(ds)@.len(),
        field_wf(old(ds)@, cells(old(track)@)),
        old(ds)@[i as int]@.kind == DangoKind::Chisa,
        counters_bounded(old(ds)@),
        old(ds)@[i as int]@.extra <= isize::MAX - 2,
        can_move(chisa_turn(old(ds)@, old(ds)@[i as int]@), map@),
    ensures
        final(ds)@.len() == old(ds)@.len(),
        field_wf(final(ds)@, cells(final(track)@)),
        moved_by(
            views(old(ds)@),
            i as int,
            chisa_turn(old(ds)@, old(ds)@[i as int]@),
            cells(old(track)@),
            map@,
            views(final(ds)@),
            cells(final(track)@),
            arrived,
        ),
{
    let ghost orig = ds@;
    let ghost c = cells(track@);
    let n = ds[i].get_n();
    let mut lowest = true;
    let mut j: usize = 0;
    while j < ds.len()
        invariant
            j <= ds@.len(),
            ds@ == orig,
            n == orig[i as int]@.n,
            lowest == (forall|m: int| 0 <= m < j ==> (#[trigger] orig[m])@.n >= n),
        decreases ds@.len() - j,
    {
        if ds[j].get_n() < n {
            lowest = false;
        }
        j = j + 1;
    }
    let mut st = ds[i].state();
    if lowest {
        st.extra = st.extra + 2;
    }
    ds[i] = Dango::from_state(st);
    let ghost ds1 = ds@;
    proof {
        lemma_wf_same_places(orig, ds1, c);
        assert(ds1[i as int]@ == chisa_turn(orig, orig[i as int]@));
    }
    let arrived = make_step(ds, i, track, map, rng);
    proof {
        lemma_moved_by_rebase(views(ds1), views(orig), i as int, ds1[i as int]@, c, map@, views(ds@), cells(track@), arrived);
    }
    arrived
}

/// Chisa's bonus, for a turn as `step` carries it out: when no dango of the
/// round rolled less than she did (ties with others included), she moves as
/// with two more cells of bonus; when someone rolled less, she moves with
/// her bonus as it was.
pub proof fn law_lowest_roll_moves_two_further(
    b: Seq<Dango>,
    i: int,
    c: Seq<Seq<DangoKind>>,
    map: Seq<PointType>,
    after: Seq<DangoState>,
    nc: Seq<Seq<DangoKind>>,
    arrived: bool,
)
    requires
        0 <= i < b.len(),
        b[i]@.kind == DangoKind::Chisa,
        moved_by(views(b), i, chisa_turn(b, b[i]@), c, map, after, nc, arrived),
    ensures
        (forall|j: int| 0 <= j < b.len() ==> b[i]@.n <= (#[trigger] b[j])@.n) ==> moved_by(
            views(b),
            i,
            b[i]@.with_extra((b[i]@.extra + 2) as isize),
            c,
            map,
            after,
            nc,
            arrived,
        ),
        (exists|j: int| 0 <= j < b.len() && (#[trigger] b[j])@.n < b[i]@.n) ==> moved_by(
            views(b),
            i,
            b[i]@,
            c,
            map,
            after,
            nc,
            arrived,
        ),
{
    let s = b[i]@;
    if forall|j: int| 0 <= j < b.len() ==> s.n <= (#[trigger] b[j])@.n {
        assert(chisa_turn(b, s) == s.with_extra((s.extra + 2) as isize));
    }
    if exists|j: int| 0 <= j < b.len() && (#[trigger] b[j])@.n < s.n {
        let j = choose|j: int| 0 <= j < b.len() && (#[trigger] b[j])@.n < s.n;
        assert(!lowest_roll(b, s.n));
        assert(s.with_extra(s.extra) == s);
    }
}

/// The same for a turn as `turns::step` carries it out: a Chisa with the
/// lowest roll of the round (ties included) moves as with two more cells of
/// bonus, one with someone below her moves with her bonus as it was.
pub proof fn law_turn_lowest_roll_moves_two_further(
    b: Seq<Dango>,
    i: int,
    c: Seq<Seq<DangoKind>>,
    map: Seq<PointType>,
    a: Seq<Dango>,
    nc: Seq<Seq<DangoKind>>,
    arrived: bool,
)
    requires
        0 <= i < b.len(),
        b[i]@.kind == DangoKind::Chisa,
        crate::dangos::turns::turn_taken(b, i, c, map, a, nc, arrived),
    ensures
        (forall|j: int| 0 <= j < b.len() ==> b[i]@.n <= (#[trigger] b[j])@.n) ==> moved_by(
            views(b),
            i,
            b[i]@.with_extra((b[i]@.extra + 2) as isize),
            c,
            map,
            views(a),
            nc,
            arrived,
        ),
        (exists|j: int| 0 <= j < b.len() && (#[trigger] b[j])@.n < b[i]@.n) ==> moved_by(
            views(b),
            i,
            b[i]@,
            c,
            map,
            views(a),
            nc,
            arrived,
        ),
{
    law_lowest_roll_moves_two_further(b, i, c, map, views(a), nc, arrived);
}

} // verus!
