//! A whole race: setting it up, running it round by round until a dango
//! reaches the finish line, and playing many group-stage matches.
use rand::rngs::StdRng;
use vstd::prelude::*;
use vstd::multiset::Multiset;

use crate::dangos::{normalized, Dango, DangoKind, DangoState};
use crate::dangos::budawang::{lowest, sent_back};
use crate::dangos::turns::{self, rolled};
use crate::race::{
    bud_home, cycles_ok, finished, lemma_bud_view, lemma_turn_effects, lemma_turn_ready, race_inv,
    same_roster, within_limits,
};
use crate::rng::{fresh_rng, shuffle};
use crate::track::{
    cells, field_wf, find_kind, init_map, init_track, kinds, lemma_start_wf, occupants, placed,
    put_stack, reindex_all, take_stack, valid_map, Point, Track, TrackMap, TRACK_LEN,
};

verus! {

/// Everything a race carries from one round (or one half) to the next.
pub struct GameState {
    pub rng: StdRng,
    pub map: TrackMap,
    /// the dango in the race, in the order in which they act
    pub dangos: Vec<Dango>,
    pub track: Track,
    /// the kinds whose skill acts before each round
    pub before_run_dangos: Vec<DangoKind>,
    /// the kinds whose skill acts after each round
    pub after_run_dangos: Vec<DangoKind>,
    /// the BuDaWang while it is not in the race
    pub budawang: Dango,
    /// the number of rounds played
    pub round: usize,
}

impl GameState {
    /// Gathers the parts of a race.
    pub fn new(
        rng: StdRng,
        map: TrackMap,
        dangos: Vec<Dango>,
        track: Track,
        before_run_dangos: Vec<DangoKind>,
        after_run_dangos: Vec<DangoKind>,
        budawang: Dango,
        round: usize,
    ) -> (r: Self)
        ensures
            r.rng == rng,
            r.map == map,
            r.dangos == dangos,
            r.track == track,
            r.before_run_dangos == before_run_dangos,
            r.after_run_dangos == after_run_dangos,
            r.budawang == budawang,
            r.round == round,
    {
        GameState { rng, map, dangos, track, before_run_dangos, after_run_dangos, budawang, round }
    }
}

/// A race that can be run: the track and the dango agree, the map is one the
/// BuDaWang can walk, the BuDaWang waits outside the race, and there is at
/// least one dango.
pub open spec fn game_ready(st: GameState) -> bool {
    &&& field_wf(st.dangos@, cells(st.track@))
    &&& valid_map(st.map@)
    &&& !kinds(st.dangos@).contains(DangoKind::BuDaWang)
    &&& st.budawang@.kind == DangoKind::BuDaWang
    &&& st.dangos@.len() > 0
    &&& cycles_ok(st.dangos@)
}

/// The dango of the group-stage match.
#[verifier::opaque]
pub open spec fn group_a() -> Seq<DangoKind> {
    seq![
        DangoKind::Denia,
        DangoKind::Sigrika,
        DangoKind::Hiyuki,
        DangoKind::Cartethyia,
        DangoKind::Phoebe,
        DangoKind::LuukHerssen,
    ]
}

/// A dango as it enters the group-stage match: no roll, no bonus, nothing
/// crossed, nothing remembered by its skill, one crossing to make; neither
/// the BuDaWang nor Mornye.
#[verifier::opaque]
pub open spec fn fresh_member(s: DangoState) -> bool {
    &&& s.n == 0
    &&& s.extra == 0
    &&& s.arrive_count == 0
    &&& s.target_arrive_count == 1
    &&& s.last_dice == 0
    &&& !s.meeted
    &&& !s.has_been_last
    &&& s.next_dice_index == 0
    &&& s.kind != DangoKind::BuDaWang
    &&& s.kind != DangoKind::Mornye
}

/// The dango of group A, each as it enters the match, in the order of the
/// group's list.
fn group_a_dangos() -> (v: Vec<Dango>)
    ensures
        kinds(v@) == group_a(),
        forall|k: int| 0 <= k < v@.len() ==> fresh_member(#[trigger] v@[k]@),
{
    let mut v: Vec<Dango> = Vec::new();
    v.push(Dango::default_denia());
    v.push(Dango::default_sigrika());
    v.push(Dango::default_hiyuki());
    v.push(Dango::default_cartethyia());
    v.push(Dango::default_phoebe());
    v.push(Dango::default_luukherssen());
    reveal(group_a);
    assert(kinds(v@) =~= group_a());
    reveal(fresh_member);
    v
}

/// A rearrangement of group A: its kinds are group A's, each once, and
/// every member enters fresh.
proof fn lemma_shuffled_group(shuffled: Seq<Dango>, listed: Seq<Dango>)
    requires
        shuffled.to_multiset() == listed.to_multiset(),
        kinds(listed) == group_a(),
        forall|k: int| 0 <= k < listed.len() ==> fresh_member(#[trigger] listed[k]@),
    ensures
        kinds(shuffled).to_multiset() == group_a().to_multiset(),
        kinds(shuffled).no_duplicates(),
        forall|m: int| 0 <= m < shuffled.len() ==> fresh_member(#[trigger] shuffled[m]@),
{
    crate::track::lemma_kinds_permuted(shuffled, listed);
    crate::utils::lemma_members(shuffled, listed);
    assert forall|m: int| 0 <= m < shuffled.len() implies fresh_member(#[trigger] shuffled[m]@) by {
        assert(listed.contains(shuffled[m]));
        let k = choose|k: int| 0 <= k < listed.len() && listed[k] == shuffled[m];
        assert(fresh_member(listed[k]@));
    }
    assert(group_a().no_duplicates()) by {
        reveal(group_a);
    }
    crate::utils::lemma_no_duplicates_by_multiset(kinds(shuffled), group_a());
}

/// Stacks the dango on the start cell: the last of the list at the bottom,
/// the first on top.
fn stack_on_start(dangos: &mut Vec<Dango>)
    ensures
        final(dangos)@.len() == old(dangos)@.len(),
        forall|m: int|
            0 <= m < old(dangos)@.len() ==> (#[trigger] final(dangos)@[m])@ == old(dangos)@[m]@.with_pos(
                (0usize, (old(dangos)@.len() - 1 - m) as usize),
            ),
{
    let ghost orig = dangos@;
    let len = dangos.len();
    let mut j: usize = 0;
    while j < len
        invariant
            len == dangos@.len(),
            len == orig.len(),
            j <= len,
            forall|m: int|
                0 <= m < len ==> (#[trigger] dangos@[m])@ == if m >= len - j {
                    orig[m]@.with_pos((0usize, (len - 1 - m) as usize))
                } else {
                    orig[m]@
                },
        decreases len - j,
    {
        dangos[len - 1 - j].set_pos((0, j));
        j = j + 1;
    }
}

/// Sets up the group-stage match: the six dango of group A in a random order,
/// stacked on the start cell (the first to act on top), Sigrika acting
/// before each round, the BuDaWang waiting. Without a generator, one seeded
/// by the operating system is used.
#[verifier::rlimit(40)]
pub fn init_game(init_rng: Option<StdRng>) -> (st: GameState)
    ensures
        fresh_start(st),
{
    let mut rng = match init_rng {
        Some(r) => r,
        None => fresh_rng(),
    };
    let map = init_map();
    let budawang = Dango::default_budawang();
    let mut dangos = group_a_dangos();
    let ghost listed = dangos@;
    let mut before_run_dangos: Vec<DangoKind> = Vec::new();
    before_run_dangos.push(DangoKind::Sigrika);
    let after_run_dangos: Vec<DangoKind> = Vec::new();
    shuffle(&mut dangos, &mut rng);
    let ghost shuffled = dangos@;
    proof {
        lemma_shuffled_group(shuffled, listed);
    }
    stack_on_start(&mut dangos);
    let track = init_track(&dangos);
    proof {
        assert(kinds(dangos@) =~= kinds(shuffled));
        let n = dangos@.len();
        assert forall|m: int| 0 <= m < n implies {
            let s = (#[trigger] dangos@[m])@;
            &&& s.n == 0
            &&& s.extra == 0
            &&& s.arrive_count == 0
            &&& s.target_arrive_count == 1
            &&& s.last_dice == 0
            &&& !s.meeted
            &&& !s.has_been_last
            &&& s.next_dice_index == 0
            &&& s.kind != DangoKind::BuDaWang
            &&& s.kind != DangoKind::Mornye
            &&& s.pos == (0usize, (n - 1 - m) as usize)
        } by {
            assert(fresh_member(shuffled[m]@));
            reveal(fresh_member);
        }
        assert(!kinds(dangos@).contains(DangoKind::BuDaWang)) by {
            if kinds(dangos@).contains(DangoKind::BuDaWang) {
                let m = choose|m: int| 0 <= m < kinds(dangos@).len() && kinds(dangos@)[m] == DangoKind::BuDaWang;
                assert(dangos@[m]@.kind != DangoKind::BuDaWang);
            }
        }
        assert(dangos@.len() == 6) by {
            reveal(group_a);
            vstd::seq_lib::to_multiset_len(kinds(dangos@));
            vstd::seq_lib::to_multiset_len(group_a());
        }
        lemma_start_wf(dangos@, cells(track@));
        assert(cycles_ok(dangos@));
    }
    GameState::new(rng, map, dangos, track, before_run_dangos, after_run_dangos, budawang, 0)
}

/// Whether every dango's counters are within limits.
fn check_limits(ds: &Vec<Dango>) -> (r: bool)
    ensures
        r == within_limits(ds@),
{
    let mut j: usize = 0;
    while j < ds.len()
        invariant
            j <= ds@.len(),
            forall|m: int|
                0 <= m < j ==> (#[trigger] ds@[m]@).arrive_count + 2 <= usize::MAX && isize::MIN + 2
                    <= ds@[m]@.extra && ds@[m]@.extra <= isize::MAX - 2 && ds@[m]@.arrive_count
                    <= ds@[m]@.target_arrive_count,
        decreases ds@.len() - j,
    {
        let s = ds[j].state();
        if !(s.arrive_count <= usize::MAX - 2 && s.extra >= isize::MIN + 2 && s.extra <= isize::MAX - 2
            && s.arrive_count <= s.target_arrive_count) {
            return false;
        }
        j = j + 1;
    }
    true
}

/// Every dango throws its die, in the order of the list.
fn roll_all(ds: &mut Vec<Dango>, rng: &mut StdRng)
    requires
        cycles_ok(old(ds)@),
    ensures
        final(ds)@.len() == old(ds)@.len(),
        forall|j: int| 0 <= j < old(ds)@.len() ==> rolled(#[trigger] old(ds)@[j]@, final(ds)@[j]@),
{
    let ghost orig = ds@;
    let mut j: usize = 0;
    while j < ds.len()
        invariant
            j <= ds@.len(),
            ds@.len() == orig.len(),
            cycles_ok(orig),
            forall|m: int| 0 <= m < j ==> rolled(#[trigger] orig[m]@, ds@[m]@),
            forall|m: int| j <= m < orig.len() ==> #[trigger] ds@[m] == orig[m],
        decreases ds@.len() - j,
    {
        ds[j].roll(rng);
        j = j + 1;
    }
}

/// The turns of a round, in the order of the list. Returns whether a turn
/// won the race, and whether the race had to stop because a counter left its
/// bounds (`within_limits`).
/// The states the round went through are told by `round_outcome`.
#[verifier::spinoff_prover]
fn run_turns(ds: &mut Vec<Dango>, track: &mut Track, map: &TrackMap, rng: &mut StdRng) -> (r: (bool, bool))
    requires
        race_inv(old(ds)@, cells(old(track)@), map@),
        forall|j: int|
            0 <= j < old(ds)@.len() ==> 1 <= (#[trigger] old(ds)@[j])@.n <= 6 && (old(ds)@[j]@.kind
                != DangoKind::BuDaWang ==> old(ds)@[j]@.n <= 3),
    ensures
        race_inv(final(ds)@, cells(final(track)@), map@),
        same_roster(final(ds)@, old(ds)@),
        r.0 ==> finished(final(ds)@),
        r.1 ==> !within_limits(final(ds)@),
        !(r.0 && r.1),
        exists|hs: Seq<Seq<Dango>>, cs: Seq<Seq<Seq<DangoKind>>>, arr: Seq<bool>|
            #[trigger] round_outcome(
                hs,
                cs,
                arr,
                map@,
                old(ds)@,
                cells(old(track)@),
                final(ds)@,
                cells(final(track)@),
                r,
            ),
{
    let ghost orig = ds@;
    let ghost c0 = cells(track@);
    let ghost mut hs: Seq<Seq<Dango>> = seq![orig];
    let ghost mut cs: Seq<Seq<Seq<DangoKind>>> = seq![c0];
    let ghost mut arr: Seq<bool> = Seq::empty();
    let mut i: usize = 0;
    while i < ds.len()
        invariant
            i <= ds@.len(),
            orig == old(ds)@,
            c0 == cells(old(track)@),
            race_inv(ds@, cells(track@), map@),
            same_roster(ds@, orig),
            forall|j: int| 0 <= j < ds@.len() ==> 1 <= (#[trigger] ds@[j])@.n <= 6,
            forall|j: int|
                i <= j < ds@.len() && (#[trigger] ds@[j])@.kind != DangoKind::BuDaWang ==> ds@[j]@.n <= 3,
            arr.len() == i,
            turns_played(hs, cs, arr, map@),
            forall|k: int| 0 <= k < arr.len() ==> !#[trigger] arr[k],
            hs[0] == orig,
            cs[0] == c0,
            hs.last() == ds@,
            cs.last() == cells(track@),
        decreases ds@.len() - i,
    {
        if !check_limits(ds) {
            proof {
                assert(round_outcome(hs, cs, arr, map@, orig, c0, ds@, cells(track@), (false, true)));
            }
            return (false, true);
        }
        let ghost b = ds@;
        let ghost c = cells(track@);
        let s = ds[i].state();
        let mut arrived = false;
        {
            proof {
                if s.kind == DangoKind::BuDaWang {
                    assert(bud_home(b[i as int]@, map@));
                }
                lemma_turn_ready(b, i as int, c, map@);
                assert(crate::dangos::moves::counters_bounded(b));
            }
            arrived = turns::step(ds, i, track, map, rng);
            proof {
                lemma_turn_effects(b, i as int, c, map@, ds@, cells(track@), arrived);
                let a = ds@;
                assert forall|j: int| 0 <= j < a.len() && (#[trigger] a[j])@.kind == DangoKind::Mornye
                    implies a[j]@.next_dice_index < 6 by {
                    assert(b[j]@.kind == DangoKind::Mornye);
                }
                assert forall|j: int| 0 <= j < a.len() && (#[trigger] a[j])@.kind == DangoKind::BuDaWang
                    implies bud_home(a[j]@, map@) by {
                    assert(b[j]@.kind == DangoKind::BuDaWang);
                }
                let w = choose|w: int| 0 <= w < b.len() && (#[trigger] b[w])@.kind != DangoKind::BuDaWang;
                assert(a[w]@.kind != DangoKind::BuDaWang);
                assert forall|j: int| 0 <= j < a.len() implies (#[trigger] a[j])@.kind == orig[j]@.kind
                    && a[j]@.target_arrive_count == orig[j]@.target_arrive_count by {
                    lemma_bud_view(a[j]);
                    lemma_bud_view(b[j]);
                }
                if arrived {
                    assert(a[i as int]@.pos.0 == TRACK_LEN - 1);
                    assert(finished(a));
                }
            }
        }
        proof {
            let hs0 = hs;
            let cs0 = cs;
            let arr0 = arr;
            hs = hs.push(ds@);
            cs = cs.push(cells(track@));
            arr = arr.push(arrived);
            assert(within_limits(b));
            assert(hs[i as int] == b && cs[i as int] == c);
            assert(hs[i as int + 1] == ds@ && cs[i as int + 1] == cells(track@) && arr[i as int] == arrived);
            assert(turns::turn_taken(b, i as int, c, map@, ds@, cells(track@), arrived));
            assert forall|k: int| 0 <= k < arr.len() implies #[trigger] turn_in_round(hs, cs, arr, map@, k) by {
                if k < arr0.len() {
                    assert(turn_in_round(hs0, cs0, arr0, map@, k));
                    assert(arr0[k] == arr[k]);
                    assert(hs0[k] == hs[k]);
                    assert(hs0[k + 1] == hs[k + 1]);
                    assert(cs0[k] == cs[k]);
                    assert(cs0[k + 1] == cs[k + 1]);
                } else {
                    assert(k == i);
                    assert(hs[k] == b);
                }
            }
            assert forall|k: int| 0 <= k < arr.len() - 1 implies !#[trigger] arr[k] by {
                assert(arr0[k] == arr[k]);
            }
            assert(turns_played(hs, cs, arr, map@));
        }
        if arrived {
            proof {
                assert(round_outcome(hs, cs, arr, map@, orig, c0, ds@, cells(track@), (true, false)));
            }
            return (true, false);
        }
        i = i + 1;
    }
    proof {
        assert(round_outcome(hs, cs, arr, map@, orig, c0, ds@, cells(track@), (false, false)));
    }
    (false, false)
}

/// The skills that act before a round, in the order of the list: each kind
/// listed acts when a dango of that kind runs. Returns whether the race had
/// to stop because a counter came near the machine's limits. The states the
/// list went through are told by `befores_done`.
fn run_before(ds: &mut Vec<Dango>, before: &Vec<DangoKind>, track: &Track, map: &TrackMap) -> (stopped: bool)
    requires
        race_inv(old(ds)@, cells(track@), map@),
    ensures
        race_inv(final(ds)@, cells(track@), map@),
        same_roster(final(ds)@, old(ds)@),
        forall|j: int|
            0 <= j < old(ds)@.len() ==> (#[trigger] final(ds)@[j])@ == old(ds)@[j]@.with_extra(
                final(ds)@[j]@.extra,
            ),
        stopped ==> !within_limits(final(ds)@),
        exists|hs: Seq<Seq<Dango>>| #[trigger] befores_done(hs, before@, old(ds)@, final(ds)@, stopped),
{
    let ghost orig = ds@;
    let ghost mut hs: Seq<Seq<Dango>> = seq![orig];
    let mut k: usize = 0;
    while k < before.len()
        invariant
            orig == old(ds)@,
            k <= before@.len(),
            race_inv(ds@, cells(track@), map@),
            ds@.len() == orig.len(),
            forall|j: int| 0 <= j < orig.len() ==> (#[trigger] ds@[j])@ == orig[j]@.with_extra(ds@[j]@.extra),
            hs.len() == k + 1,
            hs[0] == orig,
            hs.last() == ds@,
            forall|m: int| 0 <= m < k ==> #[trigger] before_in_list(hs, before@, m),
        decreases before@.len() - k,
    {
        if !check_limits(ds) {
            proof {
                assert forall|j: int| 0 <= j < ds@.len() implies (#[trigger] ds@[j])@.kind == orig[j]@.kind
                    && ds@[j]@.target_arrive_count == orig[j]@.target_arrive_count by {
                    assert(ds@[j]@ == orig[j]@.with_extra(ds@[j]@.extra));
                }
                assert(befores_done(hs, before@, orig, ds@, true));
            }
            return true;
        }
        let ghost b = ds@;
        match find_kind(ds, before[k]) {
            Some(idx) => {
                turns::before_run(ds, idx);
                proof {
                    let a = ds@;
                    assert forall|j: int| 0 <= j < b.len() implies (#[trigger] a[j])@ == b[j]@.with_extra(
                        a[j]@.extra,
                    ) by {
                        if b[idx as int]@.kind != DangoKind::Sigrika {
                            assert(a[j] == b[j]);
                        }
                    }
                    crate::dangos::moves::lemma_wf_same_places(b, a, cells(track@));
                    assert forall|j: int| 0 <= j < a.len() && (#[trigger] a[j])@.kind == DangoKind::BuDaWang
                        implies bud_home(a[j]@, map@) by {
                        assert(b[j]@.kind == DangoKind::BuDaWang);
                    }
                    let w = choose|w: int| 0 <= w < b.len() && (#[trigger] b[w])@.kind != DangoKind::BuDaWang;
                    assert(a[w]@.kind != DangoKind::BuDaWang);
                    if b[idx as int]@.kind == DangoKind::Sigrika {
                        assert(kinds(b)[idx as int] == DangoKind::Sigrika);
                        let (x, y) = choose|x: int, y: int|
                            #[trigger] crate::dangos::sigrika::marks(b, idx as int, x, y) && forall|j: int|
                                0 <= j < b.len() ==> (#[trigger] a[j])@ == if j == x || j == y {
                                    b[j]@.with_extra((b[j]@.extra - 1) as isize)
                                } else {
                                    b[j]@
                                };
                        assert(sigrika_marked(b, idx as int, x, y, a));
                    }
                    assert(before_done(b, before@[k as int], a));
                }
            },
            None => {},
        }
        proof {
            let hs0 = hs;
            hs = hs.push(ds@);
            assert forall|m: int| 0 <= m < k + 1 implies #[trigger] before_in_list(hs, before@, m) by {
                if m < k {
                    assert(before_in_list(hs0, before@, m));
                    assert(hs0[m] == hs[m]);
                    assert(hs0[m + 1] == hs[m + 1]);
                } else {
                    assert(hs[m] == b);
                }
            }
        }
        k = k + 1;
    }
    proof {
        assert forall|j: int| 0 <= j < ds@.len() implies (#[trigger] ds@[j])@.kind == orig[j]@.kind
            && ds@[j]@.target_arrive_count == orig[j]@.target_arrive_count by {
            assert(ds@[j]@ == orig[j]@.with_extra(ds@[j]@.extra));
        }
        assert(befores_done(hs, before@, orig, ds@, false));
    }
    false
}

/// The skills that act after a round, in the order of the list: each kind
/// listed acts when a dango of that kind runs. Only the BuDaWang does
/// anything: when it is listed and has left the last dango behind, it goes
/// back to the bottom of the finish line (once; back there, it has left
/// nobody behind); otherwise nothing changes.
fn run_after(ds: &mut Vec<Dango>, track: &mut Track, map: &TrackMap, after: &Vec<DangoKind>)
    requires
        race_inv(old(ds)@, cells(old(track)@), map@),
    ensures
        race_inv(final(ds)@, cells(final(track)@), map@),
        same_roster(final(ds)@, old(ds)@),
        forall|j: int|
            0 <= j < old(ds)@.len() ==> (#[trigger] final(ds)@[j])@ == old(ds)@[j]@.with_pos(
                final(ds)@[j]@.pos,
            ),
        forall|b: int|
            0 <= b < old(ds)@.len() && (#[trigger] old(ds)@[b])@.kind == DangoKind::BuDaWang ==> if after@.contains(
                DangoKind::BuDaWang,
            ) && left_behind(old(ds)@, b) {
                cells(final(track)@) == sent_back(cells(old(track)@), old(ds)@[b]@.pos.0 as int)
            } else {
                cells(final(track)@) == cells(old(track)@) && final(ds)@ == old(ds)@
            },
        !kinds(old(ds)@).contains(DangoKind::BuDaWang) ==> cells(final(track)@) == cells(old(track)@)
            && final(ds)@ == old(ds)@,
{
    let ghost orig = ds@;
    let ghost c0 = cells(track@);
    let ghost has_bud = kinds(orig).contains(DangoKind::BuDaWang);
    let ghost bi = bud_index(orig);
    proof {
        crate::track::lemma_wf_no_duplicates(orig, c0);
        assert(kinds(orig).no_duplicates());
        if has_bud {
            let m = choose|m: int| 0 <= m < kinds(orig).len() && kinds(orig)[m] == DangoKind::BuDaWang;
            assert(orig[m]@.kind == DangoKind::BuDaWang);
        }
        assert(after@.take(0) =~= Seq::<DangoKind>::empty());
    }
    let mut k: usize = 0;
    while k < after.len()
        invariant
            orig == old(ds)@,
            c0 == cells(old(track)@),
            kinds(orig).no_duplicates(),
            has_bud == kinds(orig).contains(DangoKind::BuDaWang),
            bi == bud_index(orig),
            has_bud ==> 0 <= bi < orig.len() && orig[bi]@.kind == DangoKind::BuDaWang,
            k <= after@.len(),
            race_inv(ds@, cells(track@), map@),
            ds@.len() == orig.len(),
            forall|j: int| 0 <= j < orig.len() ==> (#[trigger] ds@[j])@ == orig[j]@.with_pos(ds@[j]@.pos),
            if has_bud && after@.take(k as int).contains(DangoKind::BuDaWang) && left_behind(orig, bi) {
                cells(track@) == sent_back(c0, orig[bi]@.pos.0 as int) && ds@[bi]@.pos.0 == TRACK_LEN - 1
            } else {
                cells(track@) == c0 && ds@ == orig
            },
        decreases after@.len() - k,
    {
        let ghost before_take = after@.take(k as int);
        proof {
            assert(after@.take(k as int + 1) =~= before_take.push(after@[k as int]));
            vstd::seq_lib::lemma_seq_contains_after_push(before_take, after@[k as int], DangoKind::BuDaWang);
        }
        match find_kind(ds, after[k]) {
            Some(idx) => {
                let ghost b = ds@;
                let ghost c = cells(track@);
                proof {
                    if b[idx as int]@.kind == DangoKind::BuDaWang {
                        assert(bud_home(b[idx as int]@, map@));
                    }
                    let w = choose|w: int| 0 <= w < b.len() && (#[trigger] b[w])@.kind != DangoKind::BuDaWang;
                    assert(0 <= w < b.len() && b[w]@.kind != DangoKind::BuDaWang);
                }
                turns::after_run(ds, idx, track);
                proof {
                    let a = ds@;
                    let nc = cells(track@);
                    assert forall|j: int| 0 <= j < a.len() && (#[trigger] a[j])@.kind == DangoKind::BuDaWang
                        implies bud_home(a[j]@, map@) by {
                        assert(b[j]@.kind == DangoKind::BuDaWang);
                        if nc == c && a == b {
                        } else {
                            let x = b[idx as int]@.pos.0 as int;
                            assert(nc == crate::dangos::budawang::sent_back(c, x));
                            assert(crate::dangos::bud_at(nc, TRACK_LEN - 1));
                            crate::race::lemma_bud_pos(a, nc, j, TRACK_LEN - 1);
                        }
                    }
                    assert forall|j: int| 0 <= j < a.len() && (#[trigger] a[j])@.kind == DangoKind::Mornye
                        implies a[j]@.next_dice_index < 6 by {
                        assert(b[j]@.kind == DangoKind::Mornye);
                    }
                    let w = choose|w: int| 0 <= w < b.len() && (#[trigger] b[w])@.kind != DangoKind::BuDaWang;
                    assert(a[w]@.kind != DangoKind::BuDaWang);
                    if b[idx as int]@.kind == DangoKind::BuDaWang {
                        lemma_bud_unique(orig, b, idx as int, bi);
                        assert(idx == bi);
                        if before_take.contains(DangoKind::BuDaWang) && left_behind(orig, bi) {
                            // back on the finish line, nobody is on a later cell
                            assert forall|j: int| #[trigger] lowest(b, j) implies !(b[j]@.pos.0 > b[bi]@.pos.0) by {
                                assert(placed(b[j]@, c));
                            }
                            assert(!left_behind(b, idx as int));
                            assert(nc == c && a == b);
                        } else {
                            assert(b == orig);
                            if left_behind(orig, bi) {
                                assert(left_behind(b, idx as int));
                                assert(nc == sent_back(c, b[idx as int]@.pos.0 as int));
                                assert(crate::dangos::bud_at(nc, TRACK_LEN - 1));
                                crate::race::lemma_bud_pos(a, nc, bi, TRACK_LEN - 1);
                            } else {
                                assert(!left_behind(b, idx as int));
                                assert(nc == c && a == b);
                            }
                        }
                    } else {
                        assert(after@[k as int] != DangoKind::BuDaWang);
                        assert(nc == c && a == b);
                    }
                }
            },
            None => {
                proof {
                    if after@[k as int] == DangoKind::BuDaWang && has_bud {
                        assert(ds@[bi]@ == orig[bi]@.with_pos(ds@[bi]@.pos));
                        assert(kinds(ds@)[bi] == DangoKind::BuDaWang);
                    }
                }
            },
        }
        k = k + 1;
    }
    proof {
        assert(after@.take(k as int) =~= after@);
        assert forall|j: int| 0 <= j < ds@.len() implies (#[trigger] ds@[j])@.kind == orig[j]@.kind
            && ds@[j]@.target_arrive_count == orig[j]@.target_arrive_count by {
            assert(ds@[j]@ == orig[j]@.with_pos(ds@[j]@.pos));
        }
        assert forall|b: int| 0 <= b < orig.len() && (#[trigger] orig[b])@.kind == DangoKind::BuDaWang implies if after@.contains(
            DangoKind::BuDaWang,
        ) && left_behind(orig, b) {
            cells(track@) == sent_back(c0, orig[b]@.pos.0 as int)
        } else {
            cells(track@) == c0 && ds@ == orig
        } by {
            assert(kinds(orig)[b] == DangoKind::BuDaWang);
            assert(has_bud);
            assert(kinds(orig)[b] == kinds(orig)[bi]);
            assert(b == bi);
        }
    }
}

/// `hs[k]` and `cs[k]` are the dango and the cells before the turn of the
/// dango at index `k`, `arr[k]` whether that turn won the race: the turns
/// came in the order of the list, each after the counters were found within
/// limits, and only the last one may have won.
pub open spec fn turns_played(
    hs: Seq<Seq<Dango>>,
    cs: Seq<Seq<Seq<DangoKind>>>,
    arr: Seq<bool>,
    map: Seq<crate::track::PointType>,
) -> bool {
    &&& hs.len() == arr.len() + 1
    &&& cs.len() == arr.len() + 1
    &&& forall|k: int| 0 <= k < arr.len() ==> #[trigger] turn_in_round(hs, cs, arr, map, k)
    &&& forall|k: int| 0 <= k < arr.len() - 1 ==> !#[trigger] arr[k]
}

/// The turn of index `k` in the states `hs`, `cs`, `arr` (see
/// `turns_played`): taken with the counters within limits.
pub open spec fn turn_in_round(
    hs: Seq<Seq<Dango>>,
    cs: Seq<Seq<Seq<DangoKind>>>,
    arr: Seq<bool>,
    map: Seq<crate::track::PointType>,
    k: int,
) -> bool {
    &&& within_limits(hs[k])
    &&& turns::turn_taken(hs[k], k, cs[k], map, hs[k + 1], cs[k + 1], arr[k])
}

/// A round's turns that began with `b0` on the cells `c0` and left `a` on
/// `nc`, through the states `hs`, `cs`: won by the last turn taken exactly
/// when `r.0`; stopped before a turn with a counter out of limits exactly
/// when `r.1`; otherwise every dango of the list had its turn.
pub open spec fn round_outcome(
    hs: Seq<Seq<Dango>>,
    cs: Seq<Seq<Seq<DangoKind>>>,
    arr: Seq<bool>,
    map: Seq<crate::track::PointType>,
    b0: Seq<Dango>,
    c0: Seq<Seq<DangoKind>>,
    a: Seq<Dango>,
    nc: Seq<Seq<DangoKind>>,
    r: (bool, bool),
) -> bool {
    &&& turns_played(hs, cs, arr, map)
    &&& hs[0] == b0
    &&& cs[0] == c0
    &&& hs.last() == a
    &&& cs.last() == nc
    &&& r.0 == (arr.len() > 0 && arr.last())
    &&& r.1 ==> !within_limits(a) && arr.len() < b0.len()
    &&& !r.0 && !r.1 ==> arr.len() == b0.len()
}

/// The Sigrika at index `i` of `b` marked the dango `x` and `y` (`-1` for
/// none) with a malus of one, which gave `a`.
pub open spec fn sigrika_marked(b: Seq<Dango>, i: int, x: int, y: int, a: Seq<Dango>) -> bool {
    &&& crate::dangos::sigrika::marks(b, i, x, y)
    &&& a.len() == b.len()
    &&& forall|j: int|
        0 <= j < b.len() ==> (#[trigger] a[j])@ == if j == x || j == y {
            b[j]@.with_extra((b[j]@.extra - 1) as isize)
        } else {
            b[j]@
        }
}

/// What the entry `kind` of the list of skills before a round did to `b`,
/// giving `a`: when it names the Sigrika and she runs, she marked the two
/// nearest dango ahead of her; otherwise nothing changed.
pub open spec fn before_done(b: Seq<Dango>, kind: DangoKind, a: Seq<Dango>) -> bool {
    if kind == DangoKind::Sigrika && kinds(b).contains(kind) {
        exists|i: int, x: int, y: int|
            0 <= i < b.len() && b[i]@.kind == DangoKind::Sigrika && #[trigger] sigrika_marked(b, i, x, y, a)
    } else {
        a == b
    }
}

/// The entry of index `m` of the list, done on `hs[m]` with the counters
/// within limits, gave `hs[m + 1]`.
pub open spec fn before_in_list(hs: Seq<Seq<Dango>>, list: Seq<DangoKind>, m: int) -> bool {
    &&& within_limits(hs[m])
    &&& before_done(hs[m], list[m], hs[m + 1])
}

/// The list of skills before a round, begun on `b0` and ending on `a`,
/// went through the states `hs`: one entry after the other, each after the
/// counters were found within limits; stopped before an entry with a
/// counter out of limits exactly when `stopped`, else through to the end.
pub open spec fn befores_done(
    hs: Seq<Seq<Dango>>,
    list: Seq<DangoKind>,
    b0: Seq<Dango>,
    a: Seq<Dango>,
    stopped: bool,
) -> bool {
    &&& 1 <= hs.len() <= list.len() + 1
    &&& hs[0] == b0
    &&& hs.last() == a
    &&& forall|m: int| 0 <= m < hs.len() - 1 ==> #[trigger] before_in_list(hs, list, m)
    &&& stopped ==> !within_limits(a) && hs.len() <= list.len()
    &&& !stopped ==> hs.len() == list.len() + 1
}

/// The BuDaWang at index `b` has left the last dango (the BuDaWang aside)
/// behind it: that one stands on a later cell.
pub open spec fn left_behind(ds: Seq<Dango>, b: int) -> bool {
    exists|j: int| #[trigger] lowest(ds, j) && ds[j]@.pos.0 > ds[b]@.pos.0
}

/// Where the BuDaWang is in the list.
pub open spec fn bud_index(ds: Seq<Dango>) -> int {
    choose|b: int| 0 <= b < ds.len() && (#[trigger] ds[b])@.kind == DangoKind::BuDaWang
}

/// With no kind twice in the list, the BuDaWang found at `idx` of a list
/// that differs from `orig` by positions alone is the one at `bi`.
proof fn lemma_bud_unique(orig: Seq<Dango>, b: Seq<Dango>, idx: int, bi: int)
    requires
        kinds(orig).no_duplicates(),
        b.len() == orig.len(),
        forall|j: int| 0 <= j < orig.len() ==> (#[trigger] b[j])@ == orig[j]@.with_pos(b[j]@.pos),
        0 <= idx < b.len(),
        b[idx]@.kind == DangoKind::BuDaWang,
        0 <= bi < orig.len(),
        orig[bi]@.kind == DangoKind::BuDaWang,
    ensures
        idx == bi,
{
    assert(b[idx]@ == orig[idx]@.with_pos(b[idx]@.pos));
    assert(kinds(orig)[idx] == DangoKind::BuDaWang);
    assert(kinds(orig)[bi] == DangoKind::BuDaWang);
}

/// The BuDaWang joins the race at the bottom of the finish line and acts
/// after every round from now on.
fn enter_budawang(
    ds: &mut Vec<Dango>,
    track: &mut Track,
    map: &TrackMap,
    after: &mut Vec<DangoKind>,
    bud: &Dango,
)
    requires
        race_inv(old(ds)@, cells(old(track)@), map@),
        !kinds(old(ds)@).contains(DangoKind::BuDaWang),
        bud@.kind == DangoKind::BuDaWang,
    ensures
        race_inv(final(ds)@, cells(final(track)@), map@),
        final(ds)@.len() == old(ds)@.len() + 1,
        kinds(final(ds)@) == kinds(old(ds)@).push(DangoKind::BuDaWang),
        forall|j: int|
            0 <= j < old(ds)@.len() ==> (#[trigger] final(ds)@[j])@ == old(ds)@[j]@.with_pos(
                final(ds)@[j]@.pos,
            ),
        final(ds)@[old(ds)@.len() as int]@ == bud@.with_pos(((TRACK_LEN - 1) as usize, 0usize)),
        final(after)@ == old(after)@.push(DangoKind::BuDaWang),
        cells(final(track)@) == cells(old(track)@).update(
            TRACK_LEN - 1,
            seq![DangoKind::BuDaWang] + cells(old(track)@)[TRACK_LEN - 1],
        ),
{
    let ghost orig = ds@;
    let ghost c = cells(track@);
    let mut b = *bud;
    b.set_pos((TRACK_LEN - 1, 0));
    ds.push(b);
    after.push(DangoKind::BuDaWang);
    let rest = take_stack(track, TRACK_LEN - 1, 0);
    let ghost c1 = cells(track@);
    let ghost t1 = track@;
    let mut bottom: Point = Vec::new();
    bottom.push(DangoKind::BuDaWang);
    let ghost b0 = bottom@;
    put_stack(track, TRACK_LEN - 1, bottom);
    let ghost c2 = cells(track@);
    let ghost t2 = track@;
    let ghost rs = rest@;
    put_stack(track, TRACK_LEN - 1, rest);
    let ghost pushed = ds@;
    proof {
        let nc = cells(track@);
        assert(rs =~= c[TRACK_LEN - 1]);
        assert(c[TRACK_LEN - 1].take(0) =~= Seq::<DangoKind>::empty());
        assert(c1 == c.update(TRACK_LEN - 1, Seq::<DangoKind>::empty()));
        assert(b0 =~= seq![DangoKind::BuDaWang]);
        assert(c1[TRACK_LEN - 1] == t1[TRACK_LEN - 1]@);
        assert(c2[TRACK_LEN - 1] == t2[TRACK_LEN - 1]@);
        assert(c2 =~= c.update(TRACK_LEN - 1, seq![DangoKind::BuDaWang]));
        assert(nc =~= c.update(TRACK_LEN - 1, seq![DangoKind::BuDaWang] + c[TRACK_LEN - 1]));
        assert(kinds(pushed) =~= kinds(orig).push(DangoKind::BuDaWang));
        vstd::seq_lib::to_multiset_build(kinds(orig), DangoKind::BuDaWang);
        assert(kinds(pushed).to_multiset() =~= kinds(orig).to_multiset().insert(DangoKind::BuDaWang));
        assert(b0.to_multiset() =~= Multiset::<DangoKind>::empty().insert(DangoKind::BuDaWang)) by {
            assert(b0 =~= Seq::<DangoKind>::empty().push(DangoKind::BuDaWang));
            vstd::seq_lib::to_multiset_build(Seq::<DangoKind>::empty(), DangoKind::BuDaWang);
            vstd::seq_lib::to_multiset_len(Seq::<DangoKind>::empty());
            vstd::multiset::lemma_multiset_empty_len(Seq::<DangoKind>::empty().to_multiset());
        }
        assert forall|v: DangoKind| #[trigger] occupants(nc).count(v) == kinds(pushed).to_multiset().count(v) by {
            assert(occupants(c1).add(rs.to_multiset()).count(v) == occupants(c).count(v));
            assert(occupants(c2).count(v) == occupants(c1).add(b0.to_multiset()).count(v));
            assert(occupants(nc).count(v) == occupants(c2).add(rs.to_multiset()).count(v));
        }
        assert(occupants(nc) =~= kinds(pushed).to_multiset());
        assert(kinds(pushed).no_duplicates()) by {
            assert forall|p: int, q: int| 0 <= p < q < kinds(pushed).len() implies kinds(pushed)[p]
                != kinds(pushed)[q] by {
                if q == orig.len() {
                    assert(kinds(orig).contains(kinds(orig)[p]));
                }
            }
        }
    }
    reindex_all(ds, track);
    proof {
        let a = ds@;
        let nc = cells(track@);
        assert(kinds(a) =~= kinds(pushed));
        crate::dangos::moves::lemma_all_on_track(pushed, nc);
        assert forall|j: int| 0 <= j < a.len() implies placed(#[trigger] a[j]@, nc) by {
            assert(nc.flatten().contains(pushed[j]@.kind));
        }
        assert(field_wf(a, nc));
        assert(crate::dangos::bud_at(nc, TRACK_LEN - 1));
        crate::race::lemma_bud_pos(a, nc, orig.len() as int, TRACK_LEN - 1);
        assert forall|j: int| 0 <= j < a.len() && (#[trigger] a[j])@.kind == DangoKind::BuDaWang
            implies bud_home(a[j]@, map@) by {
            if j < orig.len() {
                assert(kinds(orig)[j] == DangoKind::BuDaWang);
            }
        }
        assert forall|j: int| 0 <= j < a.len() && (#[trigger] a[j])@.kind == DangoKind::Mornye
            implies a[j]@.next_dice_index < 6 by {
            if j < orig.len() {
                assert(orig[j]@.kind == DangoKind::Mornye);
            }
        }
        let w = choose|w: int| 0 <= w < orig.len() && (#[trigger] orig[w])@.kind != DangoKind::BuDaWang;
        assert(a[w]@.kind != DangoKind::BuDaWang);
    }
}

/// The BuDaWang at index `idx` leaves the race and its cell; whoever stood
/// on it comes down by one.
fn drop_budawang(ds: &mut Vec<Dango>, track: &mut Track, idx: usize) -> (bud: Dango)
    requires
        field_wf(old(ds)@, cells(old(track)@)),
        idx < old(ds)@.len(),
        old(ds)@[idx as int]@.kind == DangoKind::BuDaWang,
        old(ds)@[idx as int]@.pos.1 == 0,
    ensures
        bud == old(ds)@[idx as int],
        final(ds)@.len() == old(ds)@.len() - 1,
        forall|j: int|
            0 <= j < final(ds)@.len() ==> (#[trigger] final(ds)@[j])@ == old(ds)@.remove(idx as int)[j]@.with_pos(
                final(ds)@[j]@.pos,
            ),
        field_wf(final(ds)@, cells(final(track)@)),
        cells(final(track)@) == cells(old(track)@).update(
            bud@.pos.0 as int,
            cells(old(track)@)[bud@.pos.0 as int].drop_first(),
        ),
{
    let ghost orig = ds@;
    let ghost c = cells(track@);
    let bud = ds.remove(idx);
    let ghost removed = ds@;
    let x = bud.get_pos().0;
    proof {
        assert(placed(orig[idx as int]@, c));
    }
    let rest = take_stack(track, x, 1);
    let ghost c1 = cells(track@);
    let ghost t1 = track@;
    let gone = take_stack(track, x, 0);
    let ghost c2 = cells(track@);
    let ghost t2 = track@;
    let ghost g = gone@;
    let ghost rs = rest@;
    put_stack(track, x, rest);
    proof {
        let nc = cells(track@);
        let xi = x as int;
        assert(c1[xi] == t1[xi]@);
        assert(c2[xi] == t2[xi]@);
        assert(rs =~= c[xi].drop_first());
        assert(g =~= seq![DangoKind::BuDaWang]);
        assert(c1[xi].take(0) =~= Seq::<DangoKind>::empty());
        assert(c2 =~= c.update(xi, Seq::<DangoKind>::empty()));
        assert(nc =~= c.update(xi, c[xi].drop_first()));
        assert(kinds(removed) =~= kinds(orig).remove(idx as int));
        vstd::seq_lib::to_multiset_remove(kinds(orig), idx as int);
        assert(g.to_multiset() =~= Multiset::<DangoKind>::empty().insert(DangoKind::BuDaWang)) by {
            assert(g =~= Seq::<DangoKind>::empty().push(DangoKind::BuDaWang));
            vstd::seq_lib::to_multiset_build(Seq::<DangoKind>::empty(), DangoKind::BuDaWang);
            vstd::seq_lib::to_multiset_len(Seq::<DangoKind>::empty());
            vstd::multiset::lemma_multiset_empty_len(Seq::<DangoKind>::empty().to_multiset());
        }
        assert forall|v: DangoKind| #[trigger] occupants(nc).count(v) == kinds(removed).to_multiset().count(v) by {
            assert(occupants(c1).add(rs.to_multiset()).count(v) == occupants(c).count(v));
            assert(occupants(c2).add(g.to_multiset()).count(v) == occupants(c1).count(v));
            assert(occupants(nc).count(v) == occupants(c2).add(rs.to_multiset()).count(v));
        }
        assert(occupants(nc) =~= kinds(removed).to_multiset());
        assert(kinds(removed).no_duplicates()) by {
            assert forall|p: int, q: int| 0 <= p < q < kinds(removed).len() implies kinds(removed)[p]
                != kinds(removed)[q] by {
                let p0 = if p < idx { p } else { p + 1 };
                let q0 = if q < idx { q } else { q + 1 };
                assert(kinds(removed)[p] == kinds(orig)[p0]);
                assert(kinds(removed)[q] == kinds(orig)[q0]);
            }
        }
    }
    reindex_all(ds, track);
    proof {
        let a = ds@;
        let nc = cells(track@);
        assert(kinds(a) =~= kinds(removed));
        crate::dangos::moves::lemma_all_on_track(removed, nc);
        assert forall|j: int| 0 <= j < a.len() implies placed(#[trigger] a[j]@, nc) by {
            assert(nc.flatten().contains(removed[j]@.kind));
        }
    }
    bud
}

/// Keeps every kind but the BuDaWang.
pub open spec fn runner() -> spec_fn(DangoKind) -> bool {
    |k: DangoKind| k != DangoKind::BuDaWang
}

/// The list without the BuDaWang, in the same order.
fn without_budawang(list: &Vec<DangoKind>) -> (r: Vec<DangoKind>)
    ensures
        r@ == list@.filter(runner()),
{
    let mut r: Vec<DangoKind> = Vec::new();
    let mut k: usize = 0;
    while k < list.len()
        invariant
            k <= list@.len(),
            r@ == list@.take(k as int).filter(runner()),
        decreases list@.len() - k,
    {
        proof {
            reveal(Seq::filter);
            assert(list@.take(k as int + 1).drop_last() =~= list@.take(k as int));
            assert(list@.take(k as int + 1).last() == list@[k as int]);
        }
        if list[k] != DangoKind::BuDaWang {
            r.push(list[k]);
        }
        k = k + 1;
    }
    proof {
        assert(list@.take(k as int) =~= list@);
    }
    r
}

/// Gets every dango ready for the second half: roll, bonus and what the
/// skill remembers cleared, one more finish-line crossing to make.
fn next_half(ds: &mut Vec<Dango>)
    requires
        forall|j: int| 0 <= j < old(ds)@.len() ==> (#[trigger] old(ds)@[j])@.target_arrive_count < usize::MAX,
    ensures
        final(ds)@.len() == old(ds)@.len(),
        forall|j: int|
            0 <= j < old(ds)@.len() ==> (#[trigger] final(ds)@[j])@ == normalized(
                normalized(old(ds)@[j]@.cleared()).with_target_arrive_count(
                    (old(ds)@[j]@.target_arrive_count + 1) as usize,
                ),
            ),
{
    let ghost orig = ds@;
    let mut j: usize = 0;
    while j < ds.len()
        invariant
            j <= ds@.len(),
            ds@.len() == orig.len(),
            orig == old(ds)@,
            forall|m: int| 0 <= m < orig.len() ==> (#[trigger] orig[m])@.target_arrive_count < usize::MAX,
            forall|m: int|
                0 <= m < j ==> (#[trigger] ds@[m])@ == normalized(
                    normalized(orig[m]@.cleared()).with_target_arrive_count(
                        (orig[m]@.target_arrive_count + 1) as usize,
                    ),
                ),
            forall|m: int| j <= m < orig.len() ==> #[trigger] ds@[m] == orig[m],
        decreases ds@.len() - j,
    {
        ds[j].reset();
        ds[j].increase_target_arrive_count();
        j = j + 1;
    }
}

/// Everyone of kind other than the BuDaWang has the target that `first`
/// gives its kind.
pub open spec fn targets_kept(ds: Seq<Dango>, first: Seq<Dango>) -> bool {
    forall|j: int|
        0 <= j < ds.len() && (#[trigger] ds[j])@.kind != DangoKind::BuDaWang ==> ds[j]@.target_arrive_count
            == target_of(first, ds[j]@.kind)
}

/// A half about to be played is a race; its dango have distinct kinds, the
/// BuDaWang is not among them, and everyone's target is that of `first`.
proof fn lemma_half_ready(s0: GameState, first: Seq<Dango>, from_beginning: bool)
    requires
        game_ready(s0),
        first.len() == s0.dangos@.len(),
        from_beginning ==> first == s0.dangos@,
        !from_beginning ==> forall|j: int|
            0 <= j < first.len() ==> (#[trigger] s0.dangos@[j])@.target_arrive_count < usize::MAX,
        !from_beginning ==> forall|j: int|
            0 <= j < first.len() ==> (#[trigger] first[j])@ == normalized(
                normalized(s0.dangos@[j]@.cleared()).with_target_arrive_count(
                    (s0.dangos@[j]@.target_arrive_count + 1) as usize,
                ),
            ),
    ensures
        race_inv(first, cells(s0.track@), s0.map@),
        kinds(first) == kinds(s0.dangos@),
        kinds(first).no_duplicates(),
        !kinds(first).contains(DangoKind::BuDaWang),
        first.len() > 0,
        targets_kept(first, first),
        forall|j: int|
            0 <= j < first.len() ==> (#[trigger] first[j])@.target_arrive_count == s0.dangos@[j]@.target_arrive_count
                + if from_beginning {
                0int
            } else {
                1int
            },
{
    let d = s0.dangos@;
    let c = cells(s0.track@);
    assert forall|j: int| 0 <= j < first.len() implies (#[trigger] first[j])@.kind == d[j]@.kind && first[j]@.pos
        == d[j]@.pos && (first[j]@.kind == DangoKind::Mornye ==> first[j]@.next_dice_index < 6) && first[j]@.target_arrive_count
        == d[j]@.target_arrive_count + if from_beginning {
        0int
    } else {
        1int
    } by {
        assert(kinds(d)[j] == d[j]@.kind);
        assert(d[j]@.kind != DangoKind::BuDaWang);
        if !from_beginning {
            assert(d[j]@.target_arrive_count < usize::MAX);
        }
    }
    assert(kinds(first) =~= kinds(d));
    assert(kinds(d)[0] == d[0]@.kind);
    crate::dangos::moves::lemma_wf_same_places(d, first, c);
    assert(first[0]@.kind != DangoKind::BuDaWang);
    assert forall|j: int| 0 <= j < first.len() implies (#[trigger] first[j])@.kind != DangoKind::BuDaWang by {
        assert(kinds(d)[j] == d[j]@.kind);
    }
    assert(cycles_ok(first));
    assert(exists|j: int| 0 <= j < first.len() && (#[trigger] first[j])@.kind != DangoKind::BuDaWang);
    lemma_wf_no_duplicates_kinds(first, c);
    assert forall|j: int| 0 <= j < first.len() && (#[trigger] first[j])@.kind != DangoKind::BuDaWang implies first[j]@.target_arrive_count
        == target_of(first, first[j]@.kind) by {
        let k = choose|k: int| 0 <= k < first.len() && (#[trigger] first[k])@.kind == first[j]@.kind;
        assert(kinds(first)[k] == kinds(first)[j]);
    }
}

/// In a well-formed field no two dango share a kind.
proof fn lemma_wf_no_duplicates_kinds(ds: Seq<Dango>, c: Seq<Seq<DangoKind>>)
    requires
        field_wf(ds, c),
    ensures
        kinds(ds).no_duplicates(),
{
}

/// A list with the kinds of `first`, which holds no BuDaWang, holds none.
proof fn lemma_no_budawang(b: Seq<Dango>, first: Seq<Dango>)
    requires
        kinds(b).to_multiset() == kinds(first).to_multiset(),
        !kinds(first).contains(DangoKind::BuDaWang),
    ensures
        !kinds(b).contains(DangoKind::BuDaWang),
{
    vstd::seq_lib::to_multiset_contains(kinds(b), DangoKind::BuDaWang);
    vstd::seq_lib::to_multiset_contains(kinds(first), DangoKind::BuDaWang);
}

/// The BuDaWang's entry adds it to the kinds and keeps everyone's target.
proof fn lemma_entered(b: Seq<Dango>, a: Seq<Dango>, first: Seq<Dango>)
    requires
        kinds(b).to_multiset() == kinds(first).to_multiset(),
        targets_kept(b, first),
        a.len() == b.len() + 1,
        kinds(a) == kinds(b).push(DangoKind::BuDaWang),
        forall|j: int| 0 <= j < b.len() ==> (#[trigger] a[j])@ == b[j]@.with_pos(a[j]@.pos),
    ensures
        kinds(a).to_multiset() == kinds(first).to_multiset().insert(DangoKind::BuDaWang),
        targets_kept(a, first),
{
    vstd::seq_lib::to_multiset_build(kinds(b), DangoKind::BuDaWang);
    assert forall|j: int| 0 <= j < a.len() && (#[trigger] a[j])@.kind != DangoKind::BuDaWang implies a[j]@.target_arrive_count
        == target_of(first, a[j]@.kind) by {
        if j == b.len() {
            assert(kinds(a)[j] == DangoKind::BuDaWang);
        } else {
            assert(a[j]@ == b[j]@.with_pos(a[j]@.pos));
        }
    }
}

/// Drawing the order anew keeps the race, its kinds and everyone's target.
proof fn lemma_shuffle_keeps(b: Seq<Dango>, a: Seq<Dango>, first: Seq<Dango>, c: Seq<Seq<DangoKind>>, map: Seq<crate::track::PointType>)
    requires
        race_inv(b, c, map),
        a.to_multiset() == b.to_multiset(),
        targets_kept(b, first),
    ensures
        race_inv(a, c, map),
        kinds(a).to_multiset() == kinds(b).to_multiset(),
        targets_kept(a, first),
{
    crate::race::lemma_shuffled_inv(b, a, c, map);
    assert forall|j: int| 0 <= j < a.len() && (#[trigger] a[j])@.kind != DangoKind::BuDaWang implies a[j]@.target_arrive_count
        == target_of(first, a[j]@.kind) by {
        assert(b.contains(a[j]));
        let k = choose|k: int| 0 <= k < b.len() && b[k] == a[j];
        assert(b[k] == a[j]);
    }
}

/// Turns, throws and skills keep the kinds and everyone's target.
proof fn lemma_roster_keeps(b: Seq<Dango>, a: Seq<Dango>, first: Seq<Dango>)
    requires
        same_roster(a, b),
        targets_kept(b, first),
    ensures
        kinds(a) == kinds(b),
        targets_kept(a, first),
{
    assert(kinds(a) =~= kinds(b));
    assert forall|j: int| 0 <= j < a.len() && (#[trigger] a[j])@.kind != DangoKind::BuDaWang implies a[j]@.target_arrive_count
        == target_of(first, a[j]@.kind) by {
        assert(b[j]@.kind == a[j]@.kind);
    }
}

/// Once the BuDaWang has left, the kinds are those of `first` again, every
/// target is kept, a winner still stands on the finish line and counters
/// past the limits stay past them.
proof fn lemma_left(
    ended: Seq<Dango>,
    now: Seq<Dango>,
    idx: int,
    ended_c: Seq<Seq<DangoKind>>,
    now_c: Seq<Seq<DangoKind>>,
    first: Seq<Dango>,
)
    requires
        0 <= idx < ended.len(),
        field_wf(ended, ended_c),
        cycles_ok(ended),
        ended[idx]@.kind == DangoKind::BuDaWang,
        ended[idx]@.pos.1 == 0,
        kinds(ended).to_multiset() == kinds(first).to_multiset().insert(DangoKind::BuDaWang),
        targets_kept(ended, first),
        now.len() == ended.len() - 1,
        forall|j: int| 0 <= j < now.len() ==> (#[trigger] now[j])@ == ended.remove(idx)[j]@.with_pos(now[j]@.pos),
        field_wf(now, now_c),
        now_c == ended_c.update(ended[idx]@.pos.0 as int, ended_c[ended[idx]@.pos.0 as int].drop_first()),
    ensures
        kinds(now).to_multiset() == kinds(first).to_multiset(),
        targets_kept(now, first),
        cycles_ok(now),
        finished(ended) ==> finished(now),
        !within_limits(ended) ==> !within_limits(now),
{
    let r = ended.remove(idx);
    assert forall|j: int| 0 <= j < now.len() implies (#[trigger] now[j])@.kind == r[j]@.kind && now[j]@ == r[j]@.with_pos(now[j]@.pos) by {
    }
    assert(kinds(now) =~= kinds(ended).remove(idx));
    vstd::seq_lib::to_multiset_remove(kinds(ended), idx);
    assert(kinds(ended)[idx] == DangoKind::BuDaWang);
    assert(kinds(now).to_multiset() =~= kinds(first).to_multiset());
    assert forall|j: int| 0 <= j < now.len() && (#[trigger] now[j])@.kind != DangoKind::BuDaWang implies now[j]@.target_arrive_count
        == target_of(first, now[j]@.kind) by {
        let j0 = if j < idx { j } else { j + 1 };
        assert(r[j] == ended[j0]);
    }
    assert forall|j: int| 0 <= j < now.len() && (#[trigger] now[j])@.kind == DangoKind::Mornye implies now[j]@.next_dice_index
        < 6 by {
        let j0 = if j < idx { j } else { j + 1 };
        assert(r[j] == ended[j0]);
    }
    if finished(ended) {
        let w = choose|w: int|
            0 <= w < ended.len() && (#[trigger] ended[w])@.pos.0 == TRACK_LEN - 1 && ended[w]@.arrive_count + 1
                == ended[w]@.target_arrive_count;
        crate::race::lemma_bud_view(ended[w]);
        assert(w != idx);
        let w1 = if w < idx { w } else { w - 1 };
        assert(r[w1] == ended[w]);
        let x = ended[idx]@.pos.0 as int;
        let y = ended[w]@.pos.1 as int;
        assert(placed(ended[w]@, ended_c));
        assert(placed(ended[idx]@, ended_c));
        if x == TRACK_LEN - 1 {
            assert(y != 0);
            assert(now_c[x][y - 1] == ended_c[x][y]);
            assert(now_c[TRACK_LEN - 1].contains(ended[w]@.kind));
        } else {
            assert(now_c[TRACK_LEN - 1][y] == ended_c[TRACK_LEN - 1][y]);
            assert(now_c[TRACK_LEN - 1].contains(ended[w]@.kind));
        }
        crate::race::lemma_pos_of(now, now_c, w1, TRACK_LEN - 1);
        assert(now[w1]@.pos.0 == TRACK_LEN - 1);
    }
    if !within_limits(ended) {
        let w = choose|w: int|
            0 <= w < ended.len() && !((#[trigger] ended[w]@).arrive_count + 2 <= usize::MAX && isize::MIN + 2
                <= ended[w]@.extra && ended[w]@.extra <= isize::MAX - 2 && ended[w]@.arrive_count
                <= ended[w]@.target_arrive_count);
        crate::race::lemma_bud_view(ended[w]);
        assert(w != idx);
        let w1 = if w < idx { w } else { w - 1 };
        assert(r[w1] == ended[w]);
        assert(now[w1]@ == ended[w]@.with_pos(now[w1]@.pos));
    }
}

/// A race the BuDaWang never joined has the kinds of `first`.
proof fn lemma_stayed_out(ended: Seq<Dango>, first: Seq<Dango>, round: usize)
    requires
        kinds(ended).to_multiset() == if round >= 3 {
            kinds(first).to_multiset().insert(DangoKind::BuDaWang)
        } else {
            kinds(first).to_multiset()
        },
        !kinds(ended).contains(DangoKind::BuDaWang),
    ensures
        kinds(ended).to_multiset() == kinds(first).to_multiset(),
{
    vstd::seq_lib::to_multiset_contains(kinds(ended), DangoKind::BuDaWang);
}

/// Every dango of a list with the kinds of `first` has the target that
/// `first` gives its kind: that of the dango of the same kind in `h`, plus
/// `inc`.
proof fn lemma_targets_final(ds: Seq<Dango>, first: Seq<Dango>, h: Seq<Dango>, inc: int)
    requires
        targets_kept(ds, first),
        kinds(ds).to_multiset() == kinds(first).to_multiset(),
        kinds(first) == kinds(h),
        kinds(first).no_duplicates(),
        !kinds(first).contains(DangoKind::BuDaWang),
        forall|j: int| 0 <= j < first.len() ==> (#[trigger] first[j])@.target_arrive_count == h[j]@.target_arrive_count + inc,
    ensures
        forall|j: int, k: int|
            0 <= j < ds.len() && 0 <= k < h.len() && (#[trigger] ds[j])@.kind == (#[trigger] h[k])@.kind
                ==> ds[j]@.target_arrive_count == h[k]@.target_arrive_count + inc,
        forall|j: int|
            0 <= j < ds.len() ==> exists|k: int|
                0 <= k < h.len() && (#[trigger] ds[j])@.kind == (#[trigger] h[k])@.kind,
{
    assert(first.len() == h.len()) by {
        assert(kinds(first).len() == first.len());
        assert(kinds(h).len() == h.len());
    }
    assert forall|j: int| 0 <= j < ds.len() implies exists|k: int|
        0 <= k < h.len() && (#[trigger] ds[j])@.kind == (#[trigger] h[k])@.kind by {
        assert(kinds(ds)[j] == ds[j]@.kind);
        assert(kinds(ds).contains(ds[j]@.kind));
        vstd::seq_lib::to_multiset_contains(kinds(ds), ds[j]@.kind);
        vstd::seq_lib::to_multiset_contains(kinds(first), ds[j]@.kind);
        let k = choose|k: int| 0 <= k < kinds(first).len() && kinds(first)[k] == ds[j]@.kind;
        assert(kinds(h)[k] == h[k]@.kind);
    }
    assert forall|j: int, k: int|
        0 <= j < ds.len() && 0 <= k < h.len() && (#[trigger] ds[j])@.kind == (#[trigger] h[k])@.kind
            implies ds[j]@.target_arrive_count == h[k]@.target_arrive_count + inc by {
        assert(kinds(h)[k] == h[k]@.kind);
        assert(kinds(first)[k] == first[k]@.kind);
        assert(first[k]@.kind != DangoKind::BuDaWang);
        let m = choose|m: int| 0 <= m < first.len() && (#[trigger] first[m])@.kind == ds[j]@.kind;
        assert(kinds(first)[m] == kinds(first)[k]);
    }
}

/// Adding the BuDaWang to a list does not change what remains without it.
proof fn lemma_filter_push_bud(s: Seq<DangoKind>)
    ensures
        s.push(DangoKind::BuDaWang).filter(runner()) == s.filter(runner()),
{
    reveal(Seq::filter);
    assert(s.push(DangoKind::BuDaWang).drop_last() =~= s);
}

/// The target of the dango of kind `k` in the list.
pub open spec fn target_of(ds: Seq<Dango>, k: DangoKind) -> usize {
    ds[choose|j: int| 0 <= j < ds.len() && (#[trigger] ds[j])@.kind == k]@.target_arrive_count
}

/// The BuDaWang `bud` joined the field `b` on the cells `c` at the bottom
/// of the finish line, which gave `a` on the cells `nc`.
pub open spec fn bud_entered(
    b: Seq<Dango>,
    c: Seq<Seq<DangoKind>>,
    bud: DangoState,
    a: Seq<Dango>,
    nc: Seq<Seq<DangoKind>>,
) -> bool {
    &&& a.len() == b.len() + 1
    &&& forall|j: int| 0 <= j < b.len() ==> (#[trigger] a[j])@ == b[j]@.with_pos(a[j]@.pos)
    &&& a[b.len() as int]@ == bud.with_pos(((TRACK_LEN - 1) as usize, 0usize))
    &&& nc == c.update(TRACK_LEN - 1, seq![DangoKind::BuDaWang] + c[TRACK_LEN - 1])
    &&& field_wf(a, nc)
}

/// What the skills after a round, listed in `list`, made of `b` on `c`,
/// giving `a` on `nc`: the BuDaWang, when listed and when it has left the
/// last dango behind, went back to the bottom of the finish line; otherwise
/// nothing changed.
pub open spec fn afters_done(
    b: Seq<Dango>,
    c: Seq<Seq<DangoKind>>,
    list: Seq<DangoKind>,
    a: Seq<Dango>,
    nc: Seq<Seq<DangoKind>>,
) -> bool {
    &&& a.len() == b.len()
    &&& forall|j: int| 0 <= j < b.len() ==> (#[trigger] a[j])@ == b[j]@.with_pos(a[j]@.pos)
    &&& forall|i: int|
        0 <= i < b.len() && (#[trigger] b[i])@.kind == DangoKind::BuDaWang ==> if list.contains(
            DangoKind::BuDaWang,
        ) && left_behind(b, i) {
            nc == sent_back(c, b[i]@.pos.0 as int)
        } else {
            nc == c && a == b
        }
    &&& !kinds(b).contains(DangoKind::BuDaWang) ==> nc == c && a == b
}

/// The turns of a round on `e4`, `c1`, which gave `e5`, `c5`, then (when no
/// turn won and nothing stopped) the skills after the round, which gave
/// `a`, `nc`.
pub open spec fn turns_and_after(
    map: Seq<crate::track::PointType>,
    list: Seq<DangoKind>,
    e4: Seq<Dango>,
    c1: Seq<Seq<DangoKind>>,
    e5: Seq<Dango>,
    c5: Seq<Seq<DangoKind>>,
    a: Seq<Dango>,
    nc: Seq<Seq<DangoKind>>,
    arrived: bool,
    stopped: bool,
) -> bool {
    &&& exists|hs: Seq<Seq<Dango>>, cs: Seq<Seq<Seq<DangoKind>>>, arr: Seq<bool>|
        #[trigger] round_outcome(hs, cs, arr, map, e4, c1, e5, c5, (arrived, stopped))
    &&& if !arrived && !stopped {
        afters_done(e5, c5, list, a, nc)
    } else {
        a == e5 && nc == c5
    }
}

/// Round number `k` of a half (`fresh` when the half begins a new match),
/// through its stages: the BuDaWang's entry in round 3 (`e1`, `c1`); from
/// the second round of a new match, or any round of a second half, a new
/// order (`e2`) and the skills before the round (`e3`, stopped early when
/// `stop1`); then, unless stopped, the throws (`e4`), the turns and the
/// skills after the round, which end on `a`, `nc`.
pub open spec fn round_parts(
    k: int,
    fresh: bool,
    map: Seq<crate::track::PointType>,
    before: Seq<DangoKind>,
    list: Seq<DangoKind>,
    bud: DangoState,
    b: Seq<Dango>,
    c: Seq<Seq<DangoKind>>,
    e1: Seq<Dango>,
    c1: Seq<Seq<DangoKind>>,
    e2: Seq<Dango>,
    e3: Seq<Dango>,
    stop1: bool,
    e4: Seq<Dango>,
    e5: Seq<Dango>,
    c5: Seq<Seq<DangoKind>>,
    a: Seq<Dango>,
    nc: Seq<Seq<DangoKind>>,
    arrived: bool,
    stopped: bool,
) -> bool {
    &&& if k == 3 {
        bud_entered(b, c, bud, e1, c1)
    } else {
        e1 == b && c1 == c
    }
    &&& if k != 1 || !fresh {
        &&& e2.to_multiset() == e1.to_multiset()
        &&& exists|hs: Seq<Seq<Dango>>| #[trigger] befores_done(hs, before, e2, e3, stop1)
    } else {
        e2 == e1 && e3 == e1 && !stop1
    }
    &&& if stop1 {
        a == e3 && nc == c1 && !arrived && stopped
    } else {
        &&& e4.len() == e3.len()
        &&& forall|j: int| 0 <= j < e3.len() ==> rolled(#[trigger] e3[j]@, e4[j]@)
        &&& turns_and_after(map, list, e4, c1, e5, c5, a, nc, arrived, stopped)
    }
}

/// Round number `k` of a half took the field `b` on `c` to `a` on `nc`;
/// `arrived` tells whether a turn won the race, `stopped` whether it stopped
/// with a counter near the machine's limits.
pub open spec fn round_played(
    k: int,
    fresh: bool,
    map: Seq<crate::track::PointType>,
    before: Seq<DangoKind>,
    list: Seq<DangoKind>,
    bud: DangoState,
    b: Seq<Dango>,
    c: Seq<Seq<DangoKind>>,
    a: Seq<Dango>,
    nc: Seq<Seq<DangoKind>>,
    arrived: bool,
    stopped: bool,
) -> bool {
    exists|
        e1: Seq<Dango>,
        c1: Seq<Seq<DangoKind>>,
        e2: Seq<Dango>,
        e3: Seq<Dango>,
        stop1: bool,
        e4: Seq<Dango>,
        e5: Seq<Dango>,
        c5: Seq<Seq<DangoKind>>,
    |
        #[trigger] round_parts(
            k,
            fresh,
            map,
            before,
            list,
            bud,
            b,
            c,
            e1,
            c1,
            e2,
            e3,
            stop1,
            e4,
            e5,
            c5,
            a,
            nc,
            arrived,
            stopped,
        )
}

/// The skills after round `k`: those of the half's list, and from round 3
/// on the BuDaWang's as well.
pub open spec fn list_at(after0: Seq<DangoKind>, k: int) -> Seq<DangoKind> {
    if k >= 3 {
        after0.push(DangoKind::BuDaWang)
    } else {
        after0
    }
}

/// Round `k + 1` of a half, as recorded in `hs`, `cs`, `outs`.
pub open spec fn round_in_half(
    hs: Seq<Seq<Dango>>,
    cs: Seq<Seq<Seq<DangoKind>>>,
    outs: Seq<(bool, bool)>,
    fresh: bool,
    map: Seq<crate::track::PointType>,
    before: Seq<DangoKind>,
    after0: Seq<DangoKind>,
    bud: DangoState,
    k: int,
) -> bool {
    round_played(
        k + 1,
        fresh,
        map,
        before,
        list_at(after0, k + 1),
        bud,
        hs[k],
        cs[k],
        hs[k + 1],
        cs[k + 1],
        outs[k].0,
        outs[k].1,
    )
}

/// The rounds of a half, one after the other: `hs[k]`, `cs[k]` are the
/// field and the cells before round `k + 1`, `outs[k]` whether that round
/// was won or stopped; only the last round may be either.
pub open spec fn rounds_played(
    hs: Seq<Seq<Dango>>,
    cs: Seq<Seq<Seq<DangoKind>>>,
    outs: Seq<(bool, bool)>,
    fresh: bool,
    map: Seq<crate::track::PointType>,
    before: Seq<DangoKind>,
    after0: Seq<DangoKind>,
    bud: DangoState,
) -> bool {
    &&& hs.len() == outs.len() + 1
    &&& cs.len() == outs.len() + 1
    &&& forall|k: int|
        0 <= k < outs.len() ==> #[trigger] round_in_half(hs, cs, outs, fresh, map, before, after0, bud, k)
    &&& forall|k: int| 0 <= k < outs.len() - 1 ==> !(#[trigger] outs[k]).0 && !outs[k].1
}

/// The BuDaWang at index `idx` left the field `ended` on `ec`, which gave
/// `now` on `nc`; whoever stood on it came down by one.
pub open spec fn bud_removed(
    ended: Seq<Dango>,
    ec: Seq<Seq<DangoKind>>,
    idx: int,
    now: Seq<Dango>,
    nc: Seq<Seq<DangoKind>>,
) -> bool {
    &&& 0 <= idx < ended.len()
    &&& ended[idx]@.kind == DangoKind::BuDaWang
    &&& now.len() == ended.len() - 1
    &&& forall|j: int|
        0 <= j < now.len() ==> (#[trigger] now[j])@ == ended.remove(idx)[j]@.with_pos(now[j]@.pos)
    &&& nc == ec.update(ended[idx]@.pos.0 as int, ec[ended[idx]@.pos.0 as int].drop_first())
    &&& field_wf(now, nc)
}

/// After the last round the BuDaWang, if it is in the race, leaves it.
pub open spec fn bud_gone(
    ended: Seq<Dango>,
    ec: Seq<Seq<DangoKind>>,
    now: Seq<Dango>,
    nc: Seq<Seq<DangoKind>>,
) -> bool {
    if kinds(ended).contains(DangoKind::BuDaWang) {
        exists|idx: int| #[trigger] bud_removed(ended, ec, idx, now, nc)
    } else {
        now == ended && nc == ec
    }
}

/// A new group-stage match as `init_game` sets it up: the six dango of group
/// A in some order, each with no roll, no bonus, nothing crossed, nothing
/// remembered by its skill and one crossing to make, stacked on the start
/// cell (the first to act on top); Sigrika acting before each round and
/// nobody after; the BuDaWang waiting; the map of the match; no round played.
pub open spec fn fresh_start(st: GameState) -> bool {
    &&& game_ready(st)
    &&& st.round == 0
    &&& kinds(st.dangos@).to_multiset() == group_a().to_multiset()
    &&& forall|j: int|
        0 <= j < st.dangos@.len() ==> {
            let s = (#[trigger] st.dangos@[j])@;
            &&& s.n == 0
            &&& s.extra == 0
            &&& s.arrive_count == 0
            &&& s.target_arrive_count == 1
            &&& s.last_dice == 0
            &&& !s.meeted
            &&& !s.has_been_last
            &&& s.next_dice_index == 0
            &&& s.pos == (0usize, (st.dangos@.len() - 1 - j) as usize)
        }
    &&& st.before_run_dangos@ == seq![DangoKind::Sigrika]
    &&& st.after_run_dangos@ == Seq::<DangoKind>::empty()
    &&& st.budawang@.pos == ((TRACK_LEN - 1) as usize, 0usize)
    &&& st.budawang@.n == 0
    &&& forall|i: int| 0 <= i < TRACK_LEN ==> st.map@[i] == crate::track::spec_init_map(i)
}

/// A dango made ready for the second half: cleared, one more crossing to
/// make.
pub open spec fn readied(s: DangoState) -> DangoState {
    normalized(normalized(s.cleared()).with_target_arrive_count((s.target_arrive_count + 1) as usize))
}

/// The half `st` played from `s0` (the state handed in as `h`, or a fresh
/// start without one): its field `first` as the half begins (the dango of
/// `s0`, readied for a second half), the rounds `hs`, `cs`, `outs` played
/// until one was won or stopped or the round counter reached `usize::MAX`,
/// the BuDaWang gone at the end.
pub open spec fn half_parts(
    h: Option<GameState>,
    st: GameState,
    s0: GameState,
    first: Seq<Dango>,
    hs: Seq<Seq<Dango>>,
    cs: Seq<Seq<Seq<DangoKind>>>,
    outs: Seq<(bool, bool)>,
) -> bool {
    &&& match h {
        Some(h0) => s0 == h0,
        None => fresh_start(s0),
    }
    &&& first.len() == s0.dangos@.len()
    &&& h is None ==> first == s0.dangos@
    &&& h is Some ==> forall|j: int|
        0 <= j < first.len() ==> (#[trigger] first[j])@ == readied(s0.dangos@[j]@)
    &&& hs[0] == first
    &&& cs[0] == cells(s0.track@)
    &&& rounds_played(
        hs,
        cs,
        outs,
        h is None,
        s0.map@,
        s0.before_run_dangos@,
        s0.after_run_dangos@,
        s0.budawang@,
    )
    &&& outs.len() == st.round
    &&& outs.len() >= 1
    &&& outs.last().0 || outs.last().1 || st.round == usize::MAX
    &&& bud_gone(hs.last(), cs.last(), st.dangos@, cells(st.track@))
}

/// `st` is what one half played from `h` (or from a fresh start) left.
pub open spec fn half_played(h: Option<GameState>, st: GameState) -> bool {
    exists|
        s0: GameState,
        first: Seq<Dango>,
        hs: Seq<Seq<Dango>>,
        cs: Seq<Seq<Seq<DangoKind>>>,
        outs: Seq<(bool, bool)>,
    | #[trigger] half_parts(h, st, s0, first, hs, cs, outs)
}

/// One more round, played on the field and cells the last one left, after
/// a last one that was neither won nor stopped, extends the rounds of a half.
proof fn lemma_rounds_push(
    hs: Seq<Seq<Dango>>,
    cs: Seq<Seq<Seq<DangoKind>>>,
    outs: Seq<(bool, bool)>,
    fresh: bool,
    map: Seq<crate::track::PointType>,
    before: Seq<DangoKind>,
    after0: Seq<DangoKind>,
    bud: DangoState,
    a: Seq<Dango>,
    nc: Seq<Seq<DangoKind>>,
    arrived: bool,
    stopped: bool,
)
    requires
        rounds_played(hs, cs, outs, fresh, map, before, after0, bud),
        outs.len() > 0 ==> !outs.last().0 && !outs.last().1,
        round_played(
            outs.len() + 1 as int,
            fresh,
            map,
            before,
            list_at(after0, outs.len() + 1 as int),
            bud,
            hs.last(),
            cs.last(),
            a,
            nc,
            arrived,
            stopped,
        ),
    ensures
        rounds_played(
            hs.push(a),
            cs.push(nc),
            outs.push((arrived, stopped)),
            fresh,
            map,
            before,
            after0,
            bud,
        ),
{
    let hs1 = hs.push(a);
    let cs1 = cs.push(nc);
    let outs1 = outs.push((arrived, stopped));
    assert forall|k: int| 0 <= k < outs1.len() implies #[trigger] round_in_half(
        hs1,
        cs1,
        outs1,
        fresh,
        map,
        before,
        after0,
        bud,
        k,
    ) by {
        if k < outs.len() {
            assert(round_in_half(hs, cs, outs, fresh, map, before, after0, bud, k));
            assert(hs1[k] == hs[k] && hs1[k + 1] == hs[k + 1]);
            assert(cs1[k] == cs[k] && cs1[k + 1] == cs[k + 1]);
            assert(outs1[k] == outs[k]);
        } else {
            assert(hs1[k] == hs.last() && cs1[k] == cs.last());
            assert(hs1[k + 1] == a && cs1[k + 1] == nc && outs1[k] == (arrived, stopped));
        }
    }
    assert forall|k: int| 0 <= k < outs1.len() - 1 implies !(#[trigger] outs1[k]).0 && !outs1[k].1 by {
        assert(outs1[k] == outs[k]);
    }
}

/// One half of the match. Without a first half, a new group-stage match is
/// set up (with `init_rng`, or a generator seeded by the operating system);
/// with one, every dango is cleared and must cross the finish line once
/// more. Then rounds are played until a dango wins: the BuDaWang joins at
/// the bottom of the finish line in round 3; from the second round of a new
/// match (from the first of a second half) the order is drawn anew and the
/// skills that act before a round act; every dango throws, then takes its
/// turn in order until one wins; the skills that act after a round act.
/// The BuDaWang then leaves the race. A race whose round counter reaches
/// `usize::MAX`, or whose counters leave their bounds (`within_limits`),
/// stops there. The rounds
/// played, from the start to the state returned, are told by `half_played`.
#[verifier::rlimit(60)]
pub fn one_game(first_half_finish_state: Option<GameState>, init_rng: Option<StdRng>) -> (st: GameState)
    requires
        first_half_finish_state matches Some(h) ==> game_ready(h) && forall|j: int|
            0 <= j < h.dangos@.len() ==> (#[trigger] h.dangos@[j])@.target_arrive_count < usize::MAX,
    ensures
        game_ready(st),
        st.round >= 1,
        st.round < usize::MAX && within_limits(st.dangos@) ==> finished(st.dangos@),
        half_played(first_half_finish_state, st),
        first_half_finish_state matches Some(h) ==> {
            &&& st.map == h.map
            &&& kinds(st.dangos@).to_multiset() == kinds(h.dangos@).to_multiset()
            &&& forall|j: int, k: int|
                0 <= j < st.dangos@.len() && 0 <= k < h.dangos@.len() && (#[trigger] st.dangos@[j])@.kind
                    == (#[trigger] h.dangos@[k])@.kind ==> st.dangos@[j]@.target_arrive_count
                    == h.dangos@[k]@.target_arrive_count + 1
            &&& st.before_run_dangos == h.before_run_dangos
            &&& st.after_run_dangos@ == h.after_run_dangos@.filter(runner())
        },
        first_half_finish_state is None ==> {
            &&& forall|i: int| 0 <= i < TRACK_LEN ==> st.map@[i] == crate::track::spec_init_map(i)
            &&& kinds(st.dangos@).to_multiset() == group_a().to_multiset()
            &&& forall|j: int| 0 <= j < st.dangos@.len() ==> (#[trigger] st.dangos@[j])@.target_arrive_count == 1
            &&& st.before_run_dangos@ == seq![DangoKind::Sigrika]
            &&& st.after_run_dangos@ == Seq::<DangoKind>::empty()
        },
{
    let from_beginning = first_half_finish_state.is_none();
    let start = match first_half_finish_state {
        Some(h) => h,
        None => init_game(init_rng),
    };
    let ghost s0 = start;
    let GameState {
        mut rng,
        map,
        mut dangos,
        mut track,
        before_run_dangos,
        mut after_run_dangos,
        budawang,
        round: _,
    } = start;
    let mut budawang = budawang;
    if !from_beginning {
        next_half(&mut dangos);
    }
    let ghost first = dangos@;
    proof {
        lemma_half_ready(s0, first, from_beginning);
    }
    let mut round: usize = 0;
    let mut arrived = false;
    let mut stopped = false;
    let ghost mut hs: Seq<Seq<Dango>> = seq![first];
    let ghost mut cs: Seq<Seq<Seq<DangoKind>>> = seq![cells(track@)];
    let ghost mut outs: Seq<(bool, bool)> = Seq::empty();
    while !arrived && !stopped && round < usize::MAX
        invariant
            race_inv(dangos@, cells(track@), map@),
            map == s0.map,
            before_run_dangos == s0.before_run_dangos,
            budawang == s0.budawang,
            budawang@.kind == DangoKind::BuDaWang,
            kinds(first).no_duplicates(),
            !kinds(first).contains(DangoKind::BuDaWang),
            first.len() > 0,
            kinds(dangos@).to_multiset() == if round >= 3 {
                kinds(first).to_multiset().insert(DangoKind::BuDaWang)
            } else {
                kinds(first).to_multiset()
            },
            forall|j: int|
                0 <= j < dangos@.len() && (#[trigger] dangos@[j])@.kind != DangoKind::BuDaWang
                    ==> dangos@[j]@.target_arrive_count == target_of(first, dangos@[j]@.kind),
            after_run_dangos@ == if round >= 3 {
                s0.after_run_dangos@.push(DangoKind::BuDaWang)
            } else {
                s0.after_run_dangos@
            },
            arrived ==> finished(dangos@),
            stopped ==> !within_limits(dangos@),
            arrived || stopped ==> round >= 1,
            rounds_played(
                hs,
                cs,
                outs,
                from_beginning,
                s0.map@,
                s0.before_run_dangos@,
                s0.after_run_dangos@,
                s0.budawang@,
            ),
            hs[0] == first,
            cs[0] == cells(s0.track@),
            hs.last() == dangos@,
            cs.last() == cells(track@),
            outs.len() == round,
            outs.len() > 0 ==> outs.last() == (arrived, stopped),
        decreases usize::MAX - round,
    {
        let ghost b = dangos@;
        let ghost c = cells(track@);
        round = round + 1;
        if round == 3 {
            proof {
                lemma_no_budawang(b, first);
            }
            enter_budawang(&mut dangos, &mut track, &map, &mut after_run_dangos, &budawang);
            proof {
                lemma_entered(b, dangos@, first);
            }
        }
        let ghost e1 = dangos@;
        let ghost c1 = cells(track@);
        let ghost mut e2 = e1;
        if round != 1 || !from_beginning {
            shuffle(&mut dangos, &mut rng);
            proof {
                lemma_shuffle_keeps(e1, dangos@, first, cells(track@), map@);
                e2 = dangos@;
            }
            stopped = run_before(&mut dangos, &before_run_dangos, &track, &map);
            proof {
                lemma_roster_keeps(e2, dangos@, first);
            }
        }
        let ghost e3 = dangos@;
        let ghost stop1 = stopped;
        let ghost mut e4 = e3;
        let ghost mut e5 = e3;
        let ghost mut c5 = c1;
        if !stopped {
            roll_all(&mut dangos, &mut rng);
            proof {
                crate::race::lemma_rolled_inv(e3, dangos@, cells(track@), map@);
                lemma_roster_keeps(e3, dangos@, first);
                e4 = dangos@;
            }
            let (a, s) = run_turns(&mut dangos, &mut track, &map, &mut rng);
            arrived = a;
            stopped = s;
            proof {
                lemma_roster_keeps(e4, dangos@, first);
                e5 = dangos@;
                c5 = cells(track@);
            }
            if !arrived && !stopped {
                run_after(&mut dangos, &mut track, &map, &after_run_dangos);
                proof {
                    lemma_roster_keeps(e5, dangos@, first);
                    assert(afters_done(e5, c5, after_run_dangos@, dangos@, cells(track@)));
                }
            }
            proof {
                assert(turns_and_after(
                    map@,
                    after_run_dangos@,
                    e4,
                    c1,
                    e5,
                    c5,
                    dangos@,
                    cells(track@),
                    arrived,
                    stopped,
                ));
            }
        }
        proof {
            assert(after_run_dangos@ == list_at(s0.after_run_dangos@, round as int));
            assert(round_parts(
                round as int,
                from_beginning,
                map@,
                before_run_dangos@,
                after_run_dangos@,
                s0.budawang@,
                b,
                c,
                e1,
                c1,
                e2,
                e3,
                stop1,
                e4,
                e5,
                c5,
                dangos@,
                cells(track@),
                arrived,
                stopped,
            ));
            lemma_rounds_push(
                hs,
                cs,
                outs,
                from_beginning,
                s0.map@,
                s0.before_run_dangos@,
                s0.after_run_dangos@,
                s0.budawang@,
                dangos@,
                cells(track@),
                arrived,
                stopped,
            );
            hs = hs.push(dangos@);
            cs = cs.push(cells(track@));
            outs = outs.push((arrived, stopped));
        }
    }
    let after_final = without_budawang(&after_run_dangos);
    let ghost ended = dangos@;
    let ghost ended_c = cells(track@);
    match find_kind(&dangos, DangoKind::BuDaWang) {
        Some(idx) => {
            proof {
                assert(bud_home(ended[idx as int]@, map@));
                if round < 3 {
                    lemma_no_budawang(ended, first);
                    assert(kinds(ended)[idx as int] == DangoKind::BuDaWang);
                }
            }
            budawang = drop_budawang(&mut dangos, &mut track, idx);
            proof {
                lemma_left(ended, dangos@, idx as int, ended_c, cells(track@), first);
                assert(kinds(ended)[idx as int] == DangoKind::BuDaWang);
                assert(bud_removed(ended, ended_c, idx as int, dangos@, cells(track@)));
            }
        },
        None => {
            proof {
                lemma_stayed_out(ended, first, round);
            }
        },
    }
    proof {
        assert(bud_gone(ended, ended_c, dangos@, cells(track@)));
    }
    proof {
        lemma_filter_push_bud(s0.after_run_dangos@);
        let ds = dangos@;
        lemma_no_budawang(ds, first);
        vstd::seq_lib::to_multiset_len(kinds(ds));
        vstd::seq_lib::to_multiset_len(kinds(first));
        assert(ds.len() > 0);
        lemma_targets_final(ds, first, s0.dangos@, if from_beginning { 0 } else { 1 });
    }
    let st = GameState::new(rng, map, dangos, track, before_run_dangos, after_final, budawang, round);
    proof {
        assert(half_parts(first_half_finish_state, st, s0, first, hs, cs, outs));
    }
    st
}

/// Orders the dango from the leader down and lists their kinds in that
/// order.
pub fn rank_kinds(dangos: &mut Vec<Dango>) -> (r: Vec<DangoKind>)
    ensures
        final(dangos)@.to_multiset() == old(dangos)@.to_multiset(),
        final(dangos)@.len() == old(dangos)@.len(),
        crate::dangos::ranked(final(dangos)@),
        r@ == kinds(final(dangos)@),
{
    crate::dangos::sort_dangos(dangos);
    let mut r: Vec<DangoKind> = Vec::new();
    let mut j: usize = 0;
    while j < dangos.len()
        invariant
            j <= dangos@.len(),
            r@ == kinds(dangos@).take(j as int),
        decreases dangos@.len() - j,
    {
        r.push(dangos[j].kind());
        j = j + 1;
        assert(r@ =~= kinds(dangos@).take(j as int));
    }
    assert(kinds(dangos@).take(j as int) =~= kinds(dangos@));
    r
}

/// Plays the first half of a new group-stage match, with `init_rng` or else
/// a generator seeded by the operating system, and lists the dango from the
/// leader down.
pub fn play_group_match(init_rng: Option<StdRng>) -> (r: Vec<DangoKind>)
    ensures
        r@.to_multiset() == group_a().to_multiset(),
        r@.len() == group_a().len(),
        group_ranking(r@),
{
    let mut st = one_game(None, init_rng);
    let ghost st0 = st;
    let ghost played = st.dangos@;
    let r = rank_kinds(&mut st.dangos);
    proof {
        crate::track::lemma_kinds_permuted(st.dangos@, played);
        vstd::seq_lib::to_multiset_len(r@);
        vstd::seq_lib::to_multiset_len(group_a());
        assert(ranking_of(st0, st.dangos@, r@));
    }
    r
}

/// `r` lists the kinds of `ds`, the field that the first half `st` of a new
/// group-stage match left, ordered from the leader down.
pub open spec fn ranking_of(st: GameState, ds: Seq<Dango>, r: Seq<DangoKind>) -> bool {
    &&& half_played(None, st)
    &&& ds.to_multiset() == st.dangos@.to_multiset()
    &&& crate::dangos::ranked(ds)
    &&& r == kinds(ds)
}

/// `r` is the finishing order, leader first, of the first half of some new
/// group-stage match.
pub open spec fn group_ranking(r: Seq<DangoKind>) -> bool {
    exists|st: GameState, ds: Seq<Dango>| #[trigger] ranking_of(st, ds, r)
}

/// Plays `n` first halves of new group-stage matches and lists, for each,
/// the dango from the leader down.
pub fn simulate_game(n: usize) -> (results: Vec<Vec<DangoKind>>)
    ensures
        results@.len() == n,
        forall|i: int|
            0 <= i < n ==> (#[trigger] results@[i])@.to_multiset() == group_a().to_multiset() && results@[i]@.len()
                == group_a().len() && group_ranking(results@[i]@),
{
    let mut results: Vec<Vec<DangoKind>> = Vec::new();
    let mut i: usize = 0;
    while i < n
        invariant
            i <= n,
            results@.len() == i,
            forall|m: int|
                0 <= m < i ==> (#[trigger] results@[m])@.to_multiset() == group_a().to_multiset()
                    && results@[m]@.len() == group_a().len() && group_ranking(results@[m]@),
        decreases n - i,
    {
        results.push(play_group_match(None));
        i = i + 1;
    }
    results
}

} // verus!
