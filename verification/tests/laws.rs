use rand::rngs::StdRng;
use rand::SeedableRng;

use wuwa_dango_2026::dangos::budawang::{self, BuDaWang};
use wuwa_dango_2026::dangos::{hiyuki, lynae, phoebe, sigrika, turns};
use wuwa_dango_2026::dangos::{is_behind, is_budawang, sort_dangos, Dango, DangoKind};
use wuwa_dango_2026::game::{init_game, one_game, play_group_match, rank_kinds, simulate_game};
use wuwa_dango_2026::stats::{by_count, statistic_game_result};
use wuwa_dango_2026::track::{init_map, init_track, sort_by_track, PointType, Track, TRACK_LEN};
use wuwa_dango_2026::utils::split_first;

fn plain_map() -> [PointType; TRACK_LEN] {
    [PointType::Common; TRACK_LEN]
}

fn empty_track() -> Track {
    vec![Vec::new(); TRACK_LEN]
}

fn group_a_sorted() -> Vec<DangoKind> {
    let mut v = vec![
        DangoKind::Denia,
        DangoKind::Sigrika,
        DangoKind::Hiyuki,
        DangoKind::Cartethyia,
        DangoKind::Phoebe,
        DangoKind::LuukHerssen,
    ];
    v.sort_by_key(|k| *k as u8);
    v
}

fn kinds_sorted(ds: &[Dango]) -> Vec<DangoKind> {
    let mut v: Vec<DangoKind> = ds.iter().map(|d| d.kind()).collect();
    v.sort_by_key(|k| *k as u8);
    v
}

// ────────── the map and the start ──────────

#[test]
fn init_map_has_the_event_cells() {
    let map = init_map();
    let letters: String = map.iter().map(|p| p.shortname()).collect();
    assert_eq!(letters, "CCACCHCCCDACCCCACCCHCCACCCCDCCCC");
}

#[test]
fn init_track_stacks_the_first_to_act_on_top() {
    let ds = vec![Dango::default_denia(), Dango::default_sigrika(), Dango::default_hiyuki()];
    let track = init_track(&ds);
    assert_eq!(track.len(), TRACK_LEN);
    assert_eq!(track[0], vec![DangoKind::Hiyuki, DangoKind::Sigrika, DangoKind::Denia]);
    assert!(track[1..].iter().all(|c| c.is_empty()));
}

#[test]
fn init_game_agrees_with_its_track() {
    let st = init_game(Some(StdRng::seed_from_u64(7)));
    assert_eq!(st.round, 0);
    assert_eq!(kinds_sorted(&st.dangos), group_a_sorted());
    let n = st.dangos.len();
    for (j, d) in st.dangos.iter().enumerate() {
        assert_eq!(d.get_pos(), (0, n - 1 - j));
        assert_eq!(st.track[0][n - 1 - j], d.kind());
        assert_eq!(d.get_target_arrive_count(), 1);
    }
    assert_eq!(st.before_run_dangos, vec![DangoKind::Sigrika]);
    assert!(st.after_run_dangos.is_empty());
    assert_eq!(st.budawang.get_pos(), (TRACK_LEN - 1, 0));
}

#[test]
fn init_game_draws_the_order() {
    // the order of the list is drawn: some seed gives another order than the listed one
    let listed = vec![
        DangoKind::Denia,
        DangoKind::Sigrika,
        DangoKind::Hiyuki,
        DangoKind::Cartethyia,
        DangoKind::Phoebe,
        DangoKind::LuukHerssen,
    ];
    let differs = (0..10u64).any(|seed| {
        let st = init_game(Some(StdRng::seed_from_u64(seed)));
        st.dangos.iter().map(|d| d.kind()).collect::<Vec<_>>() != listed
    });
    assert!(differs);
}

// ────────── a whole race ──────────

fn winner(ds: &[Dango]) -> Option<DangoKind> {
    ds.iter()
        .find(|d| d.get_pos().0 == TRACK_LEN - 1 && d.get_arrive_count() + 1 == d.get_target_arrive_count())
        .map(|d| d.kind())
}

#[test]
fn a_race_ends_with_a_dango_on_the_finish_line() {
    for seed in 10..20u64 {
        let st = one_game(None, Some(StdRng::seed_from_u64(seed)));
        assert!(st.round >= 1);
        assert!(winner(&st.dangos).is_some(), "seed {seed}");
        assert!(st.dangos.iter().all(|d| !is_budawang(d)));
        assert_eq!(kinds_sorted(&st.dangos), group_a_sorted());
        assert!(st.after_run_dangos.is_empty());
        assert_eq!(st.budawang.kind(), DangoKind::BuDaWang);
        // the track holds exactly the dango, where they believe they stand
        let on_track: usize = st.track.iter().map(|c| c.len()).sum();
        assert_eq!(on_track, st.dangos.len());
        for d in &st.dangos {
            let (x, y) = d.get_pos();
            assert_eq!(st.track[x][y], d.kind());
        }
    }
}

#[test]
fn second_half_asks_for_one_more_lap() {
    let half = one_game(None, Some(StdRng::seed_from_u64(5)));
    let targets: Vec<(DangoKind, usize)> =
        half.dangos.iter().map(|d| (d.kind(), d.get_target_arrive_count())).collect();
    let finish = one_game(Some(half), None);
    for d in &finish.dangos {
        let before = targets.iter().find(|(k, _)| *k == d.kind()).unwrap().1;
        assert_eq!(d.get_target_arrive_count(), before + 1);
    }
    assert!(winner(&finish.dangos).is_some());
    assert_eq!(finish.before_run_dangos, vec![DangoKind::Sigrika]);
}

#[test]
fn the_same_seed_gives_the_same_race() {
    let a = one_game(None, Some(StdRng::seed_from_u64(99)));
    let b = one_game(None, Some(StdRng::seed_from_u64(99)));
    assert_eq!(a.round, b.round);
    assert_eq!(a.dangos, b.dangos);
}

#[test]
fn a_match_ranks_every_dango_of_group_a_once() {
    let mut r = play_group_match(None);
    r.sort_by_key(|k| *k as u8);
    assert_eq!(r, group_a_sorted());
}

#[test]
fn a_seeded_match_gives_the_finishing_order_of_its_first_half() {
    let r = play_group_match(Some(StdRng::seed_from_u64(5)));
    let again = play_group_match(Some(StdRng::seed_from_u64(5)));
    assert_eq!(r, again);
    let mut st = one_game(None, Some(StdRng::seed_from_u64(5)));
    sort_dangos(&mut st.dangos);
    let kinds: Vec<DangoKind> = st.dangos.iter().map(|d| d.kind()).collect();
    assert_eq!(r, kinds);
    let leader = st.dangos[0];
    assert_eq!(leader.get_pos().0, TRACK_LEN - 1);
    assert_eq!(leader.get_arrive_count() + 1, leader.get_target_arrive_count());
}

#[test]
fn init_game_starts_every_skill_afresh() {
    for seed in 0..20u64 {
        let st = init_game(Some(StdRng::seed_from_u64(seed)));
        assert_eq!(st.round, 0);
        for d in &st.dangos {
            let s = d.state();
            assert_eq!(s.n, 0);
            assert_eq!(s.extra, 0);
            assert_eq!(s.last_dice, 0);
            assert!(!s.meeted);
            assert!(!s.has_been_last);
            assert_eq!(s.next_dice_index, 0);
        }
    }
}

#[test]
fn simulate_game_plays_each_match() {
    let results = simulate_game(3);
    assert_eq!(results.len(), 3);
    for r in results {
        let mut r = r;
        r.sort_by_key(|k| *k as u8);
        assert_eq!(r, group_a_sorted());
    }
    assert!(simulate_game(0).is_empty());
}

#[test]
fn rank_kinds_lists_the_leader_first() {
    let mut ds = vec![
        Dango::new_sigrika(1, (25, 0), 0, 0, 1),
        Dango::new_denia(1, (31, 0), 0, 0, 1, 1),
        Dango::new_hiyuki(1, (24, 0), 0, 1, 2, false),
    ];
    let r = rank_kinds(&mut ds);
    assert_eq!(r, vec![DangoKind::Hiyuki, DangoKind::Denia, DangoKind::Sigrika]);
}

#[test]
fn sort_by_track_ranks_the_dango_on_the_track() {
    let st = init_game(Some(StdRng::seed_from_u64(3)));
    let ranked = sort_by_track(&st.track, &st.dangos);
    assert_eq!(ranked.len(), st.dangos.len());
    let kinds: Vec<DangoKind> = ranked.iter().map(|d| d.kind()).collect();
    // on the start cell the one on top leads
    let mut expected = st.track[0].clone();
    expected.reverse();
    assert_eq!(kinds, expected);
}

// ────────── ranking and equality ──────────

#[test]
fn behind_orders_by_crossings_then_cell_then_height() {
    let a = Dango::new_denia(0, (30, 0), 0, 0, 1, 0);
    let b = Dango::new_sigrika(0, (2, 0), 0, 1, 2);
    let c = Dango::new_phoebe(0, (30, 1), 0, 0, 1);
    assert!(is_behind(&a, &b));
    assert!(is_behind(&a, &c));
    assert!(!is_behind(&c, &a));
    assert!(!is_behind(&a, &a));
}

#[test]
fn sorted_list_never_puts_someone_behind_first() {
    let mut ds = vec![
        Dango::new_phoebe(0, (3, 0), 0, 0, 1),
        Dango::new_denia(0, (3, 1), 0, 0, 1, 0),
        Dango::new_sigrika(0, (0, 0), 0, 1, 2),
        Dango::new_hiyuki(0, (17, 2), 0, 0, 1, false),
    ];
    let before = kinds_sorted(&ds);
    sort_dangos(&mut ds);
    assert_eq!(kinds_sorted(&ds), before);
    for w in ds.windows(2) {
        assert!(!is_behind(&w[0], &w[1]));
    }
    assert_eq!(ds[0].kind(), DangoKind::Sigrika);
}

#[test]
fn equality_looks_at_kind_crossings_and_place_only() {
    let a = Dango::new_denia(3, (5, 1), 2, 0, 1, 3);
    let b = Dango::new_denia(1, (5, 1), 0, 0, 2, 1);
    let c = Dango::new_denia(3, (5, 2), 2, 0, 1, 3);
    let d = Dango::new_phoebe(3, (5, 1), 2, 0, 1);
    assert_eq!(a, b);
    assert_ne!(a, c);
    assert_ne!(a, d);
}

// ────────── records ──────────

#[test]
fn reset_clears_what_the_skill_remembers() {
    let mut c = Dango::new_cartethyia(3, (4, 0), 2, 1, 2, true);
    c.reset();
    let s = c.state();
    assert_eq!((s.n, s.extra, s.has_been_last), (0, 0, false));
    assert_eq!((s.pos, s.arrive_count, s.target_arrive_count), ((4, 0), 1, 2));

    let mut m = Dango::new_mornye(3, (4, 0), 2, 1, 2, 4);
    m.reset();
    assert_eq!(m.state().next_dice_index, 0);
}

#[test]
fn budawang_keeps_no_counters() {
    let mut b = Dango::default_budawang();
    b.increase_arrive_count();
    b.increase_target_arrive_count();
    assert_eq!(b.get_arrive_count(), 0);
    assert_eq!(b.get_target_arrive_count(), 0);
    assert_eq!(b.get_pos(), (TRACK_LEN - 1, 0));
}

#[test]
fn luukherssen_is_pushed_further() {
    let l = Dango::default_luukherssen();
    let d = Dango::default_denia();
    assert_eq!((l.accelerate_step(), l.decelerate_step()), (4, 2));
    assert_eq!((d.accelerate_step(), d.decelerate_step()), (1, 1));
}

#[test]
fn every_kind_has_its_names() {
    assert_eq!(DangoKind::Cartethyia.fullname(), "卡提希娅");
    assert_eq!(DangoKind::LuukHerssen.fullname(), "陆·赫斯");
    assert_eq!(DangoKind::Hiyuki.shortname(), "绯");
    assert_eq!(Dango::default_phoebe().fullname(), "菲比");
    assert_eq!(PointType::Hole.shortname(), "H");
}

#[test]
fn split_first_takes_the_head() {
    let (first, rest) = split_first(vec![3, 1, 4, 1]);
    assert_eq!(first, 3);
    assert_eq!(rest, vec![1, 4, 1]);
    let (only, none) = split_first(vec!["a"]);
    assert_eq!(only, "a");
    assert!(none.is_empty());
}

// ────────── throws ──────────

#[test]
fn throws_take_every_face() {
    let mut common = std::collections::BTreeSet::new();
    let mut bud = std::collections::BTreeSet::new();
    for seed in 0..200u64 {
        let mut rng = StdRng::seed_from_u64(seed);
        let mut d = Dango::default_denia();
        d.roll(&mut rng);
        common.insert(d.get_n());
        let mut b = Dango::default_budawang();
        b.roll(&mut rng);
        bud.insert(b.get_n());
    }
    assert_eq!(common.into_iter().collect::<Vec<_>>(), vec![1, 2, 3]);
    assert_eq!(bud.into_iter().collect::<Vec<_>>(), vec![1, 2, 3, 4, 5, 6]);
}

// ────────── skills ──────────

#[test]
fn phoebe_sometimes_moves_one_more() {
    let mut seen = std::collections::BTreeSet::new();
    for seed in 0..40u64 {
        let mut rng = StdRng::seed_from_u64(seed);
        let mut track = empty_track();
        let mut p = Dango::default_phoebe();
        p.set_n(2);
        track[0].push(DangoKind::Phoebe);
        let mut ds = vec![p];
        phoebe::step(&mut ds, 0, &mut track, &plain_map(), &mut rng);
        seen.insert(ds[0].get_pos().0);
        assert_eq!(ds[0].get_extra(), 0);
    }
    assert_eq!(seen.into_iter().collect::<Vec<_>>(), vec![2, 3]);
}

#[test]
fn lynae_stays_moves_or_moves_twice() {
    let mut seen = std::collections::BTreeSet::new();
    for seed in 0..60u64 {
        let mut rng = StdRng::seed_from_u64(seed);
        let mut track = empty_track();
        let mut l = Dango::default_lynae();
        l.set_n(3);
        track[0].push(DangoKind::Lynae);
        let mut ds = vec![l];
        lynae::step(&mut ds, 0, &mut track, &plain_map(), &mut rng);
        seen.insert(ds[0].get_pos().0);
    }
    assert_eq!(seen.into_iter().collect::<Vec<_>>(), vec![0, 3, 6]);
}

fn lynae_after_draw(draw: u64) -> ((usize, usize), bool, Track) {
    let mut rng = StdRng::seed_from_u64(7);
    let mut track = empty_track();
    let mut l = Dango::default_lynae();
    l.set_n(3);
    track[0].push(DangoKind::Lynae);
    let mut ds = vec![l];
    let arrived = lynae::step_with_draw(&mut ds, 0, &mut track, &plain_map(), &mut rng, draw);
    (ds[0].get_pos(), arrived, track)
}

#[test]
fn lynae_draw_below_three_fifths_moves_twice() {
    let (pos, arrived, track) = lynae_after_draw(0);
    assert_eq!(pos, (6, 0));
    assert!(!arrived);
    assert!(track[0].is_empty());
    assert_eq!(track[6], vec![DangoKind::Lynae]);
    let (pos, _, _) = lynae_after_draw((lynae::DOUBLE_BELOW - 1) << 11);
    assert_eq!(pos, (6, 0));
}

#[test]
fn lynae_draw_between_three_and_four_fifths_moves_once() {
    let (pos, arrived, track) = lynae_after_draw(lynae::DOUBLE_BELOW << 11);
    assert_eq!(pos, (3, 0));
    assert!(!arrived);
    assert_eq!(track[3], vec![DangoKind::Lynae]);
    let (pos, _, _) = lynae_after_draw(((lynae::MOVE_BELOW - 1) << 11) | 0x7ff);
    assert_eq!(pos, (3, 0));
}

#[test]
fn lynae_draw_from_four_fifths_stays() {
    for draw in [lynae::MOVE_BELOW << 11, u64::MAX] {
        let (pos, arrived, track) = lynae_after_draw(draw);
        assert_eq!(pos, (0, 0));
        assert!(!arrived);
        assert_eq!(track[0], vec![DangoKind::Lynae]);
    }
}

#[test]
fn hiyuki_moves_one_more_once_she_met_the_budawang() {
    let mut rng = StdRng::seed_from_u64(1);
    let mut track = empty_track();
    let mut b = Dango::default_budawang();
    b.set_pos((4, 0));
    let mut h = Dango::default_hiyuki();
    h.set_pos((4, 1));
    h.set_extra(-1);
    track[4] = vec![DangoKind::BuDaWang, DangoKind::Hiyuki];
    h.set_n(2);
    let mut ds = vec![b, h];
    hiyuki::step(&mut ds, 1, &mut track, &plain_map(), &mut rng);
    assert_eq!(ds[1].get_pos(), (7, 0));
    assert!(ds[1].state().meeted);
    // and on the next turn, far from the BuDaWang, again
    ds[1].set_n(1);
    hiyuki::step(&mut ds, 1, &mut track, &plain_map(), &mut rng);
    assert_eq!(ds[1].get_pos(), (9, 0));
}

#[test]
fn hiyuki_notes_passing_the_budawang() {
    let mut rng = StdRng::seed_from_u64(1);
    let mut track = empty_track();
    let mut b = Dango::default_budawang();
    b.set_pos((5, 0));
    let mut h = Dango::default_hiyuki();
    h.set_pos((3, 0));
    h.set_n(3);
    track[5] = vec![DangoKind::BuDaWang];
    track[3] = vec![DangoKind::Hiyuki];
    let mut ds = vec![b, h];
    hiyuki::step(&mut ds, 1, &mut track, &plain_map(), &mut rng);
    assert_eq!(ds[1].get_pos(), (6, 0));
    assert!(ds[1].state().meeted);
}

#[test]
fn chisa_has_no_bonus_when_someone_rolled_less() {
    let mut rng = StdRng::seed_from_u64(0);
    let mut track = empty_track();
    let mut d = Dango::default_denia();
    let mut c = Dango::default_chisa();
    d.set_pos((0, 0));
    c.set_pos((1, 0));
    track[0].push(DangoKind::Denia);
    track[1].push(DangoKind::Chisa);
    d.set_n(1);
    c.set_n(3);
    let mut ds = vec![d, c];
    wuwa_dango_2026::dangos::chisa::step(&mut ds, 1, &mut track, &plain_map(), &mut rng);
    assert_eq!(ds[1].get_pos().0, 4);
}

#[test]
fn denia_has_no_bonus_for_another_roll() {
    let mut rng = StdRng::seed_from_u64(0);
    let mut track = empty_track();
    let mut d = Dango::new_denia(2, (0, 0), 0, 0, 1, 3);
    d.set_pos((0, 0));
    track[0].push(DangoKind::Denia);
    let mut ds = vec![d];
    wuwa_dango_2026::dangos::denia::step(&mut ds, 0, &mut track, &plain_map(), &mut rng);
    assert_eq!(ds[0].get_pos().0, 2);
    assert_eq!(ds[0].state().last_dice, 2);
}

#[test]
fn sigrika_marks_the_only_one_ahead() {
    let mut sig = Dango::default_sigrika();
    let mut d = Dango::default_denia();
    let mut bud = Dango::default_budawang();
    sig.set_pos((3, 0));
    d.set_pos((8, 0));
    bud.set_pos((20, 0));
    let mut ds = vec![d, bud, sig];
    sigrika::before_run(&mut ds, 2);
    assert_eq!(ds[0].get_extra(), -1);
    assert_eq!(ds[1].get_extra(), 0);
    assert_eq!(ds[2].get_extra(), 0);
    // nobody else acts before the round
    let before = ds.clone();
    turns::before_run(&mut ds, 0);
    assert_eq!(ds, before);
}

#[test]
fn cartethyia_once_last_sometimes_moves_two_more() {
    let mut seen = std::collections::BTreeSet::new();
    for seed in 0..40u64 {
        let mut rng = StdRng::seed_from_u64(seed);
        let mut track = empty_track();
        let mut c = Dango::new_cartethyia(1, (0, 0), 0, 0, 1, true);
        c.set_pos((0, 0));
        track[0].push(DangoKind::Cartethyia);
        let mut ds = vec![c];
        wuwa_dango_2026::dangos::cartethyia::step(&mut ds, 0, &mut track, &plain_map(), &mut rng);
        seen.insert(ds[0].get_pos().0);
    }
    assert_eq!(seen.into_iter().collect::<Vec<_>>(), vec![1, 3]);
}

#[test]
fn the_finish_line_stops_the_last_lap() {
    let mut rng = StdRng::seed_from_u64(0);
    let mut track = empty_track();
    let mut d = Dango::new_denia(3, (30, 0), 0, 0, 1, 0);
    d.set_pos((30, 0));
    track[30].push(DangoKind::Denia);
    let mut ds = vec![d];
    let arrived = wuwa_dango_2026::dangos::moves::make_step(&mut ds, 0, &mut track, &plain_map(), &mut rng);
    assert!(arrived);
    assert_eq!(ds[0].get_pos(), (TRACK_LEN - 1, 0));
    assert_eq!(ds[0].get_arrive_count(), 0);
}

#[test]
fn a_mover_carries_the_ones_above_it() {
    let mut rng = StdRng::seed_from_u64(0);
    let mut track = empty_track();
    let a = Dango::new_denia(2, (3, 0), 0, 0, 1, 0);
    let b = Dango::new_phoebe(2, (3, 1), 0, 0, 1);
    let c = Dango::new_sigrika(1, (3, 2), 0, 0, 1);
    track[3] = vec![DangoKind::Denia, DangoKind::Phoebe, DangoKind::Sigrika];
    track[4] = vec![DangoKind::Hiyuki];
    let h = Dango::new_hiyuki(1, (4, 0), 0, 0, 1, false);
    let mut ds = vec![a, b, c, h];
    wuwa_dango_2026::dangos::moves::make_step(&mut ds, 1, &mut track, &plain_map(), &mut rng);
    assert_eq!(track[3], vec![DangoKind::Denia]);
    assert_eq!(track[5], vec![DangoKind::Phoebe, DangoKind::Sigrika]);
    assert_eq!(ds[1].get_pos(), (5, 0));
    assert_eq!(ds[2].get_pos(), (5, 1));
    assert_eq!(ds[0].get_pos(), (3, 0));
}

// ────────── the BuDaWang ──────────

#[test]
fn budawang_goes_back_when_it_left_the_last_one_behind() {
    let mut track = empty_track();
    let b = Dango::new_budawang(2, (4, 0));
    let d = Dango::new_denia(1, (6, 0), 0, 0, 1, 0);
    track[4] = vec![DangoKind::BuDaWang];
    track[6] = vec![DangoKind::Denia];
    track[TRACK_LEN - 1] = vec![DangoKind::Phoebe];
    let p = Dango::new_phoebe(1, (TRACK_LEN - 1, 0), 0, 0, 1);
    let mut ds = vec![b, d, p];
    budawang::after_run(&mut ds, 0, &mut track);
    assert!(track[4].is_empty());
    assert_eq!(track[TRACK_LEN - 1], vec![DangoKind::BuDaWang, DangoKind::Phoebe]);
    assert_eq!(ds[0].get_pos(), (TRACK_LEN - 1, 0));
    assert_eq!(ds[2].get_pos(), (TRACK_LEN - 1, 1));
}

#[test]
fn budawang_stays_while_the_last_one_is_with_it() {
    let mut track = empty_track();
    let b = Dango::new_budawang(2, (4, 0));
    let d = Dango::new_denia(1, (4, 1), 0, 0, 1, 0);
    track[4] = vec![DangoKind::BuDaWang, DangoKind::Denia];
    let bud = BuDaWang { n: 2, pos: (4, 0) };
    let mut ds = vec![b, d];
    assert!(!bud.leave_last_dango(&ds));
    let before = track.clone();
    turns::after_run(&mut ds, 0, &mut track);
    assert_eq!(track, before);
}

#[test]
fn budawang_sweeps_the_cells_it_walks_past() {
    let mut rng = StdRng::seed_from_u64(0);
    let mut track = empty_track();
    let b = Dango::new_budawang(4, (12, 0));
    let d = Dango::new_denia(1, (8, 0), 0, 0, 1, 0);
    let p = Dango::new_phoebe(1, (10, 0), 0, 0, 1);
    let s = Dango::new_sigrika(1, (12, 1), 0, 0, 1);
    track[12] = vec![DangoKind::BuDaWang, DangoKind::Sigrika];
    track[8] = vec![DangoKind::Denia];
    track[10] = vec![DangoKind::Phoebe];
    let mut ds = vec![b, d, p, s];
    let arrived = budawang::step(&mut ds, 0, &mut track, &plain_map(), &mut rng);
    assert!(!arrived);
    assert_eq!(
        track[8],
        vec![DangoKind::BuDaWang, DangoKind::Denia, DangoKind::Phoebe, DangoKind::Sigrika]
    );
    assert!(track[10].is_empty() && track[12].is_empty());
    assert_eq!(ds[3].get_pos(), (8, 3));
}

#[test]
fn budawang_on_the_start_line_gathers_the_whole_track() {
    let mut rng = StdRng::seed_from_u64(0);
    let mut track = empty_track();
    let b = Dango::new_budawang(3, (0, 0));
    let s = Dango::new_sigrika(1, (0, 1), 0, 0, 1);
    let d = Dango::new_denia(1, (5, 0), 0, 0, 1, 0);
    let p = Dango::new_phoebe(1, (20, 0), 0, 0, 1);
    let h = Dango::new_hiyuki(1, (20, 1), 0, 0, 1, false);
    track[0] = vec![DangoKind::BuDaWang, DangoKind::Sigrika];
    track[5] = vec![DangoKind::Denia];
    track[20] = vec![DangoKind::Phoebe, DangoKind::Hiyuki];
    let mut ds = vec![b, s, d, p, h];
    let arrived = budawang::step(&mut ds, 0, &mut track, &plain_map(), &mut rng);
    assert!(!arrived);
    assert_eq!(
        track[0],
        vec![
            DangoKind::BuDaWang,
            DangoKind::Denia,
            DangoKind::Phoebe,
            DangoKind::Hiyuki,
            DangoKind::Sigrika
        ]
    );
    assert!(track[1..].iter().all(|cell| cell.is_empty()));
    assert_eq!(ds[0].get_pos(), (0, 0));
    assert_eq!(ds[1].get_pos(), (0, 4));
    assert_eq!(ds[2].get_pos(), (0, 1));
    assert_eq!(ds[4].get_pos(), (0, 3));
}

#[test]
fn budawang_on_an_accelerate_cell_goes_one_back() {
    let mut rng = StdRng::seed_from_u64(0);
    let mut track = empty_track();
    let map = init_map();
    // from 13 with 3 the BuDaWang lands on the accelerate cell 10 and ends on 11
    let b = Dango::new_budawang(3, (13, 0));
    track[13] = vec![DangoKind::BuDaWang];
    let mut ds = vec![b];
    budawang::step(&mut ds, 0, &mut track, &map, &mut rng);
    assert_eq!(ds[0].get_pos(), (11, 0));
    assert_eq!(track[11], vec![DangoKind::BuDaWang]);
}

// ────────── statistics ──────────

#[test]
fn statistics_count_each_outcome() {
    let (denia, sigrika, hiyuki) = (DangoKind::Denia, DangoKind::Sigrika, DangoKind::Hiyuki);
    let results = vec![
        vec![denia, sigrika],
        vec![sigrika, denia],
        vec![denia, sigrika],
        vec![hiyuki, denia],
        vec![denia, sigrika],
    ];
    let (rank_stat, dango_stat) = statistic_game_result(&results);
    assert_eq!(rank_stat[0], (vec![denia, sigrika], 3));
    assert_eq!(rank_stat.len(), 3);
    let rank_total: i64 = rank_stat.iter().map(|(_, c)| c).sum();
    assert_eq!(rank_total, 5);
    assert_eq!(dango_stat[0], (denia, 3));
    assert_eq!(dango_stat.len(), 3);
    let dango_total: i64 = dango_stat.iter().map(|(_, c)| c).sum();
    assert_eq!(dango_total, 5);
    for w in rank_stat.windows(2) {
        assert!(w[0].1 >= w[1].1);
    }
}

#[test]
fn statistics_of_no_race_are_empty() {
    let (rank_stat, dango_stat) = statistic_game_result(&Vec::new());
    assert!(rank_stat.is_empty());
    assert!(dango_stat.is_empty());
}

#[test]
fn by_count_orders_from_the_largest() {
    let sorted = by_count(vec![('a', 1), ('b', 5), ('c', 3), ('d', 5)]);
    let counts: Vec<i64> = sorted.iter().map(|(_, c)| *c).collect();
    assert_eq!(counts, vec![5, 5, 3, 1]);
    assert_eq!(sorted[2], ('c', 3));
}
