//! What stays true while a race runs: whatever the dango do in their turns,
//! the track and the dango agree, nobody changes kind or target, the
//! BuDaWang stays at the bottom of a cell that neither pushes nor pulls, and
//! a turn that ends the race leaves its dango on the finish line.
use vstd::prelude::*;

use crate::dangos::budawang::{gathered, swept, track_after_walk, walk_end, walk_target};
use crate::dangos::chisa::chisa_turn;
use crate::dangos::denia::denia_turn;
use crate::dangos::hiyuki::hiyuki_turn;
use crate::dangos::lynae::lynae_took_turn;
use crate::dangos::moves::{
    after_step, carried, crossings, final_cell, landed, landing, moved_by, stirred, track_after_step,
    views,
};
use crate::dangos::moves::{can_move, effective_step};
use crate::dangos::turns::{rolled, turn_ready, turn_taken};
use crate::dangos::{bud_at, Dango, DangoKind, DangoState};
use crate::track::{
    field_wf, kinds, lemma_single_place, lemma_wf_no_duplicates, placed, plain, valid_map, PointType,
    TRACK_LEN,
};

verus! {

broadcast use {vstd::seq_lib::group_to_multiset_ensures, vstd::multiset::group_multiset_axioms};

/// A stack that a hole stirred still holds whoever it held.
pub proof fn lemma_stirred_contains(before: Seq<DangoKind>, after: Seq<DangoKind>, k: DangoKind)
    requires
        stirred(before, after),
        before.contains(k),
    ensures
        after.contains(k),
{
    vstd::seq_lib::to_multiset_contains(before, k);
    vstd::seq_lib::to_multiset_contains(after, k);
}

/// A move by anyone but the BuDaWang leaves a BuDaWang at the bottom of a
/// plain cell or hole where it is.
pub proof fn lemma_move_keeps_bud(
    c: Seq<Seq<DangoKind>>,
    m: DangoState,
    map: Seq<PointType>,
    nc: Seq<Seq<DangoKind>>,
    x: int,
)
    requires
        track_after_step(c, m, map, nc),
        placed(m, c),
        m.kind != DangoKind::BuDaWang,
        c.len() == TRACK_LEN,
        map.len() == TRACK_LEN,
        0 <= x < TRACK_LEN,
        bud_at(c, x),
        plain(map[x]),
    ensures
        bud_at(nc, x),
{
    let t = landing(m);
    let px = m.pos.0 as int;
    let py = m.pos.1 as int;
    let lifted = c.update(px, c[px].take(py));
    let l = landed(c, m);
    if px == x {
        assert(py != 0);
    }
    assert(bud_at(lifted, x));
    assert(l == lifted.update(t, lifted[t] + carried(c, m)));
    if t == x {
        assert((lifted[t] + carried(c, m))[0] == lifted[t][0]);
    }
    assert(bud_at(l, x));
    if map[t] == PointType::Hole {
        if t == x {
            assert(stirred(l[t], nc[t]));
        } else {
            assert(nc[x] == l[x]);
        }
    } else {
        let f = final_cell(m, map);
        if (map[t] == PointType::Accelerate || map[t] == PointType::Decelerate) && f != t {
            assert(t != x);
            if f == x {
                assert(nc[x] == l[x] + l[t]);
                assert((l[x] + l[t])[0] == l[x][0]);
            } else {
                assert(nc[x] == l[x]);
            }
        } else {
            assert(nc == l);
        }
    }
}

/// After a move the mover stands on the cell its move ends on.
pub proof fn lemma_mover_lands(c: Seq<Seq<DangoKind>>, m: DangoState, map: Seq<PointType>, nc: Seq<Seq<DangoKind>>)
    requires
        track_after_step(c, m, map, nc),
        placed(m, c),
        c.len() == TRACK_LEN,
        map.len() == TRACK_LEN,
    ensures
        0 <= final_cell(m, map) < TRACK_LEN,
        nc[final_cell(m, map)].contains(m.kind),
{
    let t = landing(m);
    let px = m.pos.0 as int;
    let py = m.pos.1 as int;
    let lifted = c.update(px, c[px].take(py));
    let l = landed(c, m);
    let cr = carried(c, m);
    assert(cr[0] == m.kind);
    assert(l[t] == lifted[t] + cr);
    assert(l[t][lifted[t].len() as int] == m.kind);
    assert(l[t].contains(m.kind));
    let f = final_cell(m, map);
    if map[t] == PointType::Hole {
        assert(f == t);
        lemma_stirred_contains(l[t], nc[t], m.kind);
    } else if (map[t] == PointType::Accelerate || map[t] == PointType::Decelerate) && f != t {
        assert(nc[f] == l[f] + l[t]);
        assert((l[f] + l[t])[(l[f].len() + lifted[t].len()) as int] == m.kind);
    } else {
        assert(f == t);
        assert(nc == l);
    }
}

/// What a move does to everyone's record, whatever the skill around it:
/// kinds and targets stay, Mornye keeps her place in her cycle, the others
/// keep their rolls, the mover keeps the roll it moved with, a BuDaWang at
/// the bottom of a plain cell or hole stays there, and a move that ends the
/// race leaves the mover on the finish line with one crossing to make.
pub proof fn lemma_move_effects(
    b: Seq<DangoState>,
    i: int,
    m: DangoState,
    c: Seq<Seq<DangoKind>>,
    map: Seq<PointType>,
    after: Seq<DangoState>,
    nc: Seq<Seq<DangoKind>>,
    arrived: bool,
)
    requires
        moved_by(b, i, m, c, map, after, nc, arrived),
        0 <= i < b.len(),
        m.kind == b[i].kind,
        m.kind != DangoKind::BuDaWang,
        m.target_arrive_count == b[i].target_arrive_count,
        m.next_dice_index == b[i].next_dice_index,
        placed(m, c),
        c.len() == TRACK_LEN,
        map.len() == TRACK_LEN,
    ensures
        after.len() == b.len(),
        forall|j: int|
            0 <= j < b.len() ==> (#[trigger] after[j]).kind == b[j].kind && (b[j].kind
                != DangoKind::BuDaWang ==> after[j].target_arrive_count == b[j].target_arrive_count)
                && (b[j].kind == DangoKind::Mornye ==> after[j].next_dice_index
                == b[j].next_dice_index) && (j != i ==> after[j].n == b[j].n),
        after[i].n == m.n,
        forall|x: int|
            0 <= x < TRACK_LEN && #[trigger] bud_at(c, x) && plain(map[x]) ==> bud_at(nc, x),
        arrived ==> nc[TRACK_LEN - 1].contains(m.kind) && after[i].arrive_count + 1
            == after[i].target_arrive_count,
{
    assert forall|j: int| 0 <= j < b.len() implies (#[trigger] after[j]).kind == b[j].kind && (b[j].kind
        != DangoKind::BuDaWang ==> after[j].target_arrive_count == b[j].target_arrive_count) && (b[j].kind
        == DangoKind::Mornye ==> after[j].next_dice_index == b[j].next_dice_index) && (j != i
        ==> after[j].n == b[j].n) by {
        assert(after[j] == after_step(
            if j == i {
                m
            } else {
                b[j]
            },
            j == i,
            carried(c, m).contains(b[j].kind),
            crossings(m, map),
        ).with_pos(after[j].pos));
    }
    assert(after[i] == after_step(m, true, carried(c, m).contains(b[i].kind), crossings(m, map)).with_pos(
        after[i].pos,
    ));
    assert forall|x: int| 0 <= x < TRACK_LEN && #[trigger] bud_at(c, x) && plain(map[x]) implies bud_at(
        nc,
        x,
    ) by {
        lemma_move_keeps_bud(c, m, map, nc, x);
    }
    if arrived {
        lemma_mover_lands(c, m, map, nc);
        assert(carried(c, m)[0] == m.kind);
        assert(carried(c, m).contains(m.kind));
    }
}

/// The BuDaWang's own walk leaves it at the bottom of a plain cell or a
/// hole, on the cell its walk ends on.
pub proof fn lemma_walk_keeps_bud(c: Seq<Seq<DangoKind>>, x: int, n: int, map: Seq<PointType>, nc: Seq<Seq<DangoKind>>)
    requires
        c.len() == TRACK_LEN,
        valid_map(map),
        0 <= x < TRACK_LEN,
        n >= 1,
        bud_at(c, x),
        track_after_walk(c, walk_target(x, n), x, map[walk_target(x, n)], nc),
    ensures
        0 <= walk_end(walk_target(x, n), map[walk_target(x, n)]) < TRACK_LEN,
        bud_at(nc, walk_end(walk_target(x, n), map[walk_target(x, n)])),
        plain(map[walk_end(walk_target(x, n), map[walk_target(x, n)])]),
{
    let t = walk_target(x, n);
    let g = gathered(c, t, x);
    let ct = map[t];
    assert(0 <= t <= x);
    assert(x > 0 ==> t < x);
    assert(g[t] == swept(c, t, x));
    assert(g[t][0] == DangoKind::BuDaWang);
    if ct == PointType::Accelerate {
        assert(map[t + 1] == map[t + 1]);
        assert(t + 1 < TRACK_LEN && plain(map[t + 1]));
        assert(g[t + 1].len() == 0);
        assert(nc[t + 1] == g[t + 1] + g[t]);
        assert((g[t + 1] + g[t])[0] == g[t][0]);
    } else if ct == PointType::Decelerate {
        assert(map[t - 1] == map[t - 1]);
        assert(0 <= t - 1 && plain(map[t - 1]));
        assert(nc[t - 1] == seq![DangoKind::BuDaWang] + g[t - 1] + g[t].skip(1));
    } else if ct == PointType::Hole {
        assert(stirred(g[t], nc[t]));
    } else {
        assert(nc == g);
    }
}

/// The BuDaWang stands at the bottom of a cell that neither pushes nor pulls.
pub open spec fn bud_home(s: DangoState, map: Seq<PointType>) -> bool {
    &&& s.pos.1 == 0
    &&& s.pos.0 < TRACK_LEN
    &&& plain(map[s.pos.0 as int])
}

/// Two records agree on everything a turn's bookkeeping looks at.
pub open spec fn same_record(p: DangoState, q: DangoState) -> bool {
    &&& p.kind == q.kind
    &&& p.n == q.n
    &&& p.pos == q.pos
    &&& p.arrive_count == q.arrive_count
    &&& p.target_arrive_count == q.target_arrive_count
    &&& p.next_dice_index == q.next_dice_index
}

/// What a turn leaves true, whatever the dango and its skill: nobody changes
/// kind or target, Mornye keeps her place in her cycle, the others keep
/// their rolls (the mover keeps its own, or Lynae doubles hers), the
/// BuDaWang stays at the bottom of a plain cell or hole, and a turn that ends
/// the race leaves its dango on the finish line with one crossing to make.
pub open spec fn turn_facts(b: Seq<Dango>, i: int, map: Seq<PointType>, a: Seq<Dango>, arrived: bool) -> bool {
    &&& a.len() == b.len()
    &&& forall|j: int|
        0 <= j < b.len() ==> (#[trigger] a[j])@.kind == b[j]@.kind && (b[j]@.kind != DangoKind::BuDaWang
            ==> a[j]@.target_arrive_count == b[j]@.target_arrive_count) && (b[j]@.kind
            == DangoKind::Mornye ==> a[j]@.next_dice_index == b[j]@.next_dice_index) && (j != i
            ==> a[j]@.n == b[j]@.n) && (b[j]@.kind == DangoKind::BuDaWang && bud_home(b[j]@, map)
            ==> bud_home(a[j]@, map))
    &&& a[i]@.n == b[i]@.n || (b[i]@.kind == DangoKind::Lynae && a[i]@.n == 2 * b[i]@.n)
    &&& arrived ==> {
        &&& a[i]@.kind != DangoKind::BuDaWang
        &&& a[i]@.pos.0 == TRACK_LEN - 1
        &&& a[i]@.arrive_count + 1 == a[i]@.target_arrive_count
    }
}

/// In a well-formed field, a dango found in the stack of cell `x` stands on
/// cell `x`.
pub proof fn lemma_pos_of(ds: Seq<Dango>, c: Seq<Seq<DangoKind>>, j: int, x: int)
    requires
        field_wf(ds, c),
        0 <= j < ds.len(),
        0 <= x < c.len(),
        c[x].contains(ds[j]@.kind),
    ensures
        ds[j]@.pos.0 == x,
{
    lemma_wf_no_duplicates(ds, c);
    let y = choose|y: int| 0 <= y < c[x].len() && c[x][y] == ds[j]@.kind;
    assert(placed(ds[j]@, c));
    lemma_single_place(c, x, y, ds[j]@.pos.0 as int, ds[j]@.pos.1 as int);
}

/// In a well-formed field, the BuDaWang found at the bottom of cell `x`
/// stands there.
pub proof fn lemma_bud_pos(ds: Seq<Dango>, c: Seq<Seq<DangoKind>>, j: int, x: int)
    requires
        field_wf(ds, c),
        0 <= j < ds.len(),
        0 <= x < c.len(),
        ds[j]@.kind == DangoKind::BuDaWang,
        bud_at(c, x),
    ensures
        ds[j]@.pos == (x as usize, 0usize),
{
    lemma_wf_no_duplicates(ds, c);
    assert(placed(ds[j]@, c));
    lemma_single_place(c, x, 0, ds[j]@.pos.0 as int, ds[j]@.pos.1 as int);
}

/// A turn made of a move (whatever the skill adjusted before it) leaves
/// the facts of `turn_facts`.
pub proof fn lemma_turn_via_move(
    b: Seq<Dango>,
    i: int,
    m: DangoState,
    c: Seq<Seq<DangoKind>>,
    map: Seq<PointType>,
    after: Seq<DangoState>,
    a: Seq<Dango>,
    nc: Seq<Seq<DangoKind>>,
    arrived: bool,
)
    requires
        0 <= i < b.len(),
        moved_by(views(b), i, m, c, map, after, nc, arrived),
        m.kind == b[i]@.kind,
        m.kind != DangoKind::BuDaWang,
        m.pos == b[i]@.pos,
        m.target_arrive_count == b[i]@.target_arrive_count,
        m.next_dice_index == b[i]@.next_dice_index,
        m.n == b[i]@.n || (b[i]@.kind == DangoKind::Lynae && m.n == 2 * b[i]@.n),
        field_wf(b, c),
        field_wf(a, nc),
        a.len() == b.len(),
        forall|j: int| 0 <= j < a.len() ==> same_record(#[trigger] after[j], a[j]@),
        valid_map(map),
    ensures
        turn_facts(b, i, map, a, arrived),
{
    assert(views(b)[i] == b[i]@);
    assert(placed(b[i]@, c));
    assert(placed(m, c));
    lemma_move_effects(views(b), i, m, c, map, after, nc, arrived);
    assert forall|j: int| 0 <= j < b.len() implies (#[trigger] a[j])@.kind == b[j]@.kind && (b[j]@.kind
        != DangoKind::BuDaWang ==> a[j]@.target_arrive_count == b[j]@.target_arrive_count) && (b[j]@.kind
        == DangoKind::Mornye ==> a[j]@.next_dice_index == b[j]@.next_dice_index) && (j != i
        ==> a[j]@.n == b[j]@.n) && (b[j]@.kind == DangoKind::BuDaWang && bud_home(b[j]@, map)
        ==> bud_home(a[j]@, map)) by {
        assert(views(b)[j] == b[j]@);
        assert(same_record(after[j], a[j]@));
        if b[j]@.kind == DangoKind::BuDaWang && bud_home(b[j]@, map) {
            let x = b[j]@.pos.0 as int;
            assert(placed(b[j]@, c));
            assert(bud_at(c, x));
            assert(bud_at(nc, x));
            lemma_bud_pos(a, nc, j, x);
        }
    }
    assert(same_record(after[i], a[i]@));
    if arrived {
        lemma_pos_of(a, nc, i, TRACK_LEN - 1);
    }
}

/// What any turn leaves true: the facts of `turn_facts`.
pub proof fn lemma_turn_effects(
    b: Seq<Dango>,
    i: int,
    c: Seq<Seq<DangoKind>>,
    map: Seq<PointType>,
    a: Seq<Dango>,
    nc: Seq<Seq<DangoKind>>,
    arrived: bool,
)
    requires
        0 <= i < b.len(),
        field_wf(b, c),
        field_wf(a, nc),
        a.len() == b.len(),
        valid_map(map),
        turn_taken(b, i, c, map, a, nc, arrived),
        b[i]@.kind == DangoKind::BuDaWang ==> b[i]@.pos.1 == 0 && b[i]@.n >= 1,
        b[i]@.n <= 6,
    ensures
        turn_facts(b, i, map, a, arrived),
{
    let s = b[i]@;
    assert(views(a).len() == a.len());
    assert forall|j: int| 0 <= j < a.len() implies same_record(#[trigger] views(a)[j], a[j]@) by {
    }
    match s.kind {
        DangoKind::BuDaWang => {
            let x = s.pos.0 as int;
            let n = s.n as int;
            assert(placed(s, c));
            assert(bud_at(c, x));
            lemma_walk_keeps_bud(c, x, n, map, nc);
            let e = walk_end(walk_target(x, n), map[walk_target(x, n)]);
            lemma_bud_pos(a, nc, i, e);
            lemma_wf_no_duplicates(b, c);
            assert forall|j: int| 0 <= j < b.len() implies (#[trigger] a[j])@.kind == b[j]@.kind && (b[j]@.kind
                != DangoKind::BuDaWang ==> a[j]@.target_arrive_count == b[j]@.target_arrive_count)
                && (b[j]@.kind == DangoKind::Mornye ==> a[j]@.next_dice_index == b[j]@.next_dice_index)
                && (j != i ==> a[j]@.n == b[j]@.n) && (b[j]@.kind == DangoKind::BuDaWang && bud_home(
                b[j]@,
                map,
            ) ==> bud_home(a[j]@, map)) by {
                assert(a[j]@ == b[j]@.with_pos(a[j]@.pos));
                if b[j]@.kind == DangoKind::BuDaWang && j != i {
                    assert(placed(b[j]@, c));
                    lemma_single_place(
                        c,
                        b[j]@.pos.0 as int,
                        b[j]@.pos.1 as int,
                        s.pos.0 as int,
                        s.pos.1 as int,
                    );
                    assert(crate::track::kinds(b)[j] == crate::track::kinds(b)[i]);
                }
            }
        },
        DangoKind::Cartethyia => {
            let e = choose|e: int|
                (e == 0 || (e == 2 && s.has_been_last)) && #[trigger] moved_by(
                    views(b),
                    i,
                    s.with_extra((s.extra + e) as isize),
                    c,
                    map,
                    views(a).update(i, a[i]@.with_has_been_last(s.has_been_last)),
                    nc,
                    arrived,
                );
            let after = views(a).update(i, a[i]@.with_has_been_last(s.has_been_last));
            assert forall|j: int| 0 <= j < a.len() implies same_record(#[trigger] after[j], a[j]@) by {
            }
            lemma_turn_via_move(b, i, s.with_extra((s.extra + e) as isize), c, map, after, a, nc, arrived);
        },
        DangoKind::Chisa => {
            lemma_turn_via_move(b, i, chisa_turn(b, s), c, map, views(a), a, nc, arrived);
        },
        DangoKind::Denia => {
            lemma_turn_via_move(b, i, denia_turn(s), c, map, views(a), a, nc, arrived);
        },
        DangoKind::Hiyuki => {
            let after = views(a).update(i, a[i]@.with_meeted(hiyuki_turn(c, s).meeted));
            assert forall|j: int| 0 <= j < a.len() implies same_record(#[trigger] after[j], a[j]@) by {
            }
            lemma_turn_via_move(b, i, hiyuki_turn(c, s), c, map, after, a, nc, arrived);
        },
        DangoKind::Lynae => {
            if views(a) == views(b) && nc == c && !arrived {
                assert forall|j: int| 0 <= j < b.len() implies (#[trigger] a[j])@ == b[j]@ by {
                    assert(views(a)[j] == views(b)[j]);
                }
            } else if moved_by(views(b), i, s, c, map, views(a), nc, arrived) {
                lemma_turn_via_move(b, i, s, c, map, views(a), a, nc, arrived);
            } else {
                assert(lynae_took_turn(views(b), i, c, map, views(a), nc, arrived));
                assert(views(b)[i] == s);
                lemma_turn_via_move(b, i, s.with_n((2 * s.n) as usize), c, map, views(a), a, nc, arrived);
            }
        },
        DangoKind::Phoebe => {
            let e = choose|e: int|
                (e == 0 || e == 1) && #[trigger] moved_by(
                    views(b),
                    i,
                    s.with_extra((s.extra + e) as isize),
                    c,
                    map,
                    views(a),
                    nc,
                    arrived,
                );
            lemma_turn_via_move(b, i, s.with_extra((s.extra + e) as isize), c, map, views(a), a, nc, arrived);
        },
        _ => {
            lemma_turn_via_move(b, i, s, c, map, views(a), a, nc, arrived);
        },
    }
}

/// Every dango's counters stay within bounds: nobody has crossed the finish
/// line more often than it must (the laps still to run are never
/// negative), and a few more crossings and a few more bonus or malus cells
/// still fit in the machine's numbers.
pub open spec fn within_limits(ds: Seq<Dango>) -> bool {
    forall|j: int|
        0 <= j < ds.len() ==> (#[trigger] ds[j]@).arrive_count + 2 <= usize::MAX && isize::MIN + 2
            <= ds[j]@.extra && ds[j]@.extra <= isize::MAX - 2 && ds[j]@.arrive_count
            <= ds[j]@.target_arrive_count
}

/// A move of `s` that stays within the machine's numbers when its cell, roll
/// and bonus are small enough.
pub proof fn lemma_can_move(s: DangoState, map: Seq<PointType>)
    requires
        s.pos.0 < TRACK_LEN,
        s.n <= 12,
        s.extra <= isize::MAX,
        s.arrive_count <= s.target_arrive_count,
        valid_map(map),
    ensures
        can_move(s, map),
{
    assert(effective_step(s.n, s.extra) <= s.n + isize::MAX + 1);
    assert(isize::MAX + 13 + TRACK_LEN <= usize::MAX) by {
        assert(usize::MAX == 2 * isize::MAX + 1);
    }
}

/// The turn of the dango at index `i` can be taken when the field is well
/// formed on a map the BuDaWang can walk, the counters are within limits,
/// the roll is a die's, and a BuDaWang is at the bottom of its cell.
pub proof fn lemma_turn_ready(ds: Seq<Dango>, i: int, c: Seq<Seq<DangoKind>>, map: Seq<PointType>)
    requires
        0 <= i < ds.len(),
        field_wf(ds, c),
        valid_map(map),
        within_limits(ds),
        1 <= ds[i]@.n <= 6,
        ds[i]@.kind == DangoKind::BuDaWang ==> ds[i]@.pos.1 == 0,
    ensures
        turn_ready(ds, i, c, map),
{
    let s = ds[i]@;
    assert(placed(s, c));
    assert(within_limits(ds) ==> s.arrive_count + 2 <= usize::MAX && isize::MIN + 2 <= s.extra && s.extra
        <= isize::MAX - 2 && s.arrive_count <= s.target_arrive_count);
    lemma_can_move(s, map);
    lemma_can_move(s.with_extra((s.extra + 2) as isize), map);
    lemma_can_move(s.with_extra((s.extra + 1) as isize), map);
    lemma_can_move(s.with_n((2 * s.n) as usize), map);
    lemma_can_move(chisa_turn(ds, s), map);
    lemma_can_move(denia_turn(s), map);
    lemma_can_move(hiyuki_turn(c, s), map);
}

/// Mornye's place in her cycle is one of her six throws.
pub open spec fn cycles_ok(ds: Seq<Dango>) -> bool {
    forall|j: int|
        0 <= j < ds.len() && (#[trigger] ds[j])@.kind == DangoKind::Mornye ==> ds[j]@.next_dice_index < 6
}

/// A race between two turns: the track and the dango agree on a map the
/// BuDaWang can walk, Mornye's cycle is in range, a BuDaWang in the race
/// stands at the bottom of a plain cell or hole, and somebody other than the
/// BuDaWang runs.
pub open spec fn race_inv(ds: Seq<Dango>, c: Seq<Seq<DangoKind>>, map: Seq<PointType>) -> bool {
    &&& field_wf(ds, c)
    &&& valid_map(map)
    &&& cycles_ok(ds)
    &&& forall|j: int|
        0 <= j < ds.len() && (#[trigger] ds[j])@.kind == DangoKind::BuDaWang ==> bud_home(ds[j]@, map)
    &&& exists|j: int| 0 <= j < ds.len() && (#[trigger] ds[j])@.kind != DangoKind::BuDaWang
}

/// The same dango in the same order, with the same targets.
pub open spec fn same_roster(a: Seq<Dango>, b: Seq<Dango>) -> bool {
    &&& a.len() == b.len()
    &&& forall|j: int|
        0 <= j < a.len() ==> (#[trigger] a[j])@.kind == b[j]@.kind && a[j]@.target_arrive_count
            == b[j]@.target_arrive_count
}

/// Somebody stands on the finish line with its last crossing made: the race
/// is won.
pub open spec fn finished(ds: Seq<Dango>) -> bool {
    exists|j: int|
        0 <= j < ds.len() && (#[trigger] ds[j])@.pos.0 == TRACK_LEN - 1 && ds[j]@.arrive_count + 1
            == ds[j]@.target_arrive_count
}

/// The BuDaWang has no bonus, crosses no finish line and has no target.
pub proof fn lemma_bud_view(d: Dango)
    ensures
        d@.kind == DangoKind::BuDaWang ==> d@.extra == 0 && d@.arrive_count == 0 && d@.target_arrive_count
            == 0,
{
}

/// Changing only records, never kinds or places, keeps the race going:
/// what the throws of a round leave.
pub proof fn lemma_rolled_inv(b: Seq<Dango>, a: Seq<Dango>, c: Seq<Seq<DangoKind>>, map: Seq<PointType>)
    requires
        race_inv(b, c, map),
        a.len() == b.len(),
        forall|j: int| 0 <= j < b.len() ==> rolled(#[trigger] b[j]@, a[j]@),
    ensures
        race_inv(a, c, map),
        same_roster(a, b),
        forall|j: int|
            0 <= j < a.len() ==> 1 <= (#[trigger] a[j])@.n <= 6 && (a[j]@.kind != DangoKind::BuDaWang
                ==> a[j]@.n <= 3),
{
    assert forall|j: int| 0 <= j < a.len() implies (#[trigger] a[j])@.kind == b[j]@.kind && a[j]@.pos
        == b[j]@.pos && a[j]@.target_arrive_count == b[j]@.target_arrive_count && 1 <= a[j]@.n <= 6 && (
    a[j]@.kind != DangoKind::BuDaWang ==> a[j]@.n <= 3) && (a[j]@.kind == DangoKind::Mornye
        ==> a[j]@.next_dice_index < 6) by {
        assert(rolled(b[j]@, a[j]@));
        if b[j]@.kind == DangoKind::Mornye {
            let k = b[j]@.next_dice_index;
            assert(b[j]@.next_dice_index < 6);
            assert(seq![3usize, 2, 1, 3, 2, 1][k as int] >= 1);
            assert(seq![3usize, 2, 1, 3, 2, 1][k as int] <= 3);
        }
    }
    crate::dangos::moves::lemma_wf_same_places(b, a, c);
    let w = choose|w: int| 0 <= w < b.len() && (#[trigger] b[w])@.kind != DangoKind::BuDaWang;
    assert(a[w]@.kind != DangoKind::BuDaWang);
}

/// A rearranged race is still a race, with the same dango.
pub proof fn lemma_shuffled_inv(b: Seq<Dango>, a: Seq<Dango>, c: Seq<Seq<DangoKind>>, map: Seq<PointType>)
    requires
        race_inv(b, c, map),
        a.to_multiset() == b.to_multiset(),
    ensures
        race_inv(a, c, map),
        kinds(a).to_multiset() == kinds(b).to_multiset(),
        a.len() == b.len(),
        forall|j: int| 0 <= j < a.len() ==> b.contains(#[trigger] a[j]),
{
    crate::track::lemma_wf_permuted(b, a, c);
    crate::utils::lemma_members(a, b);
    crate::utils::lemma_members(b, a);
    vstd::seq_lib::to_multiset_len(a);
    vstd::seq_lib::to_multiset_len(b);
    assert forall|j: int| 0 <= j < a.len() implies ((#[trigger] a[j])@.kind == DangoKind::Mornye
        ==> a[j]@.next_dice_index < 6) && (a[j]@.kind == DangoKind::BuDaWang ==> bud_home(a[j]@, map)) by {
        assert(b.contains(a[j]));
        let k = choose|k: int| 0 <= k < b.len() && b[k] == a[j];
        assert(b[k] == a[j]);
    }
    let w = choose|w: int| 0 <= w < b.len() && (#[trigger] b[w])@.kind != DangoKind::BuDaWang;
    assert(a.contains(b[w]));
    let v = choose|v: int| 0 <= v < a.len() && a[v] == b[w];
    assert(a[v]@.kind != DangoKind::BuDaWang);
}

} // verus!
