use rand::rngs::StdRng;
use rand::SeedableRng;

use wuwa_dango_2026::dangos::budawang;
use wuwa_dango_2026::dangos::cartethyia::{self, default_cartethyia};
use wuwa_dango_2026::dangos::chisa::{self, default_chisa};
use wuwa_dango_2026::dangos::denia;
use wuwa_dango_2026::dangos::mornye::{default_mornye, mornye_dice};
use wuwa_dango_2026::dangos::moves::make_step;
use wuwa_dango_2026::dangos::sigrika::{self, default_sigrika};
use wuwa_dango_2026::dangos::{sort_dangos, Dango, DangoKind};
use wuwa_dango_2026::track::{PointType, Track, TrackMap, TRACK_LEN};

fn dummy_map() -> TrackMap {
    [PointType::Common; TRACK_LEN]
}

fn dummy_track_no_dangos() -> Track {
    vec![Vec::new(); TRACK_LEN]
}

// ────────── basics ──────────

#[test]
fn test_get_n() {
    let d = Dango::default_denia();
    assert_eq!(d.get_n(), 0);
}

#[test]
fn test_set_n() {
    let mut d = Dango::default_denia();
    d.set_n(3);
    assert_eq!(d.get_n(), 3);
}

#[test]
fn test_roll_in_range() {
    let mut rng = StdRng::seed_from_u64(42);
    let mut d = Dango::default_denia();
    d.roll(&mut rng);
    let n = d.get_n();
    assert!((1..=3).contains(&n), "common dice must be 1..=3, got {n}");
}

#[test]
fn test_budawang_roll_in_range() {
    let mut rng = StdRng::seed_from_u64(42);
    let mut d = Dango::default_budawang();
    d.roll(&mut rng);
    let n = d.get_n();
    assert!((1..=6).contains(&n), "budawang dice must be 1..=6, got {n}");
}

#[test]
fn test_reset() {
    let mut d = Dango::default_denia();
    d.set_n(3);
    d.set_extra(5);
    d.reset();
    assert_eq!(d.get_n(), 0);
    assert_eq!(d.get_extra(), 0);
}

#[test]
fn test_get_set_extra() {
    let mut d = Dango::default_denia();
    d.set_extra(3);
    assert_eq!(d.get_extra(), 3);
    d.set_extra(-2);
    assert_eq!(d.get_extra(), -2);
}

#[test]
fn test_budawang_extra_is_always_zero() {
    let mut d = Dango::default_budawang();
    assert_eq!(d.get_extra(), 0);
    d.set_extra(99);
    assert_eq!(d.get_extra(), 0);
}

#[test]
fn test_shortname_fullname() {
    assert_eq!(DangoKind::Denia.shortname(), "达");
    assert_eq!(DangoKind::Sigrika.fullname(), "西格莉卡");
    assert_eq!(DangoKind::BuDaWang.fullname(), "布大王");
}

// ────────── position and finish-line crossings ──────────

#[test]
fn test_set_pos() {
    let mut d = Dango::default_denia();
    d.set_pos((5, 2));
    assert_eq!(d.get_pos(), (5, 2));
}

#[test]
fn test_arrive_count() {
    let mut d = Dango::default_denia();
    assert_eq!(d.get_arrive_count(), 0);
    d.increase_arrive_count();
    assert_eq!(d.get_arrive_count(), 1);
    assert_eq!(d.get_target_arrive_count(), 1);
    d.increase_target_arrive_count();
    assert_eq!(d.get_target_arrive_count(), 2);
}

// ────────── moving ──────────

#[test]
fn test_make_step_basic_movement() {
    let mut rng = StdRng::seed_from_u64(42);

    let map = dummy_map();
    let mut track = dummy_track_no_dangos();

    let mut denia = Dango::default_denia();
    denia.set_pos((0, 0));
    track[0].push(DangoKind::Denia);
    denia.set_n(2);

    let mut dangos = vec![denia];
    let arrived = make_step(&mut dangos, 0, &mut track, &map, &mut rng);
    let (x, _) = dangos[0].get_pos();
    assert_eq!(x, 2, "should move to track[2]");
    assert!(!arrived, "should not arrive at finish");
    assert_eq!(dangos[0].get_extra(), 0, "extra should reset after move");
}

#[test]
fn test_make_step_wrap_around() {
    let mut rng = StdRng::seed_from_u64(42);
    let mut denia = Dango::default_denia();
    let map = dummy_map();
    let mut track = dummy_track_no_dangos();

    denia.set_pos((TRACK_LEN - 2, 0));
    denia.set_n(3);
    denia.set_extra(0);
    // only with more than one crossing left can the finish line be passed
    denia.increase_target_arrive_count();
    track[TRACK_LEN - 2].push(DangoKind::Denia);

    let mut dangos = vec![denia];
    let _ = make_step(&mut dangos, 0, &mut track, &map, &mut rng);
    assert!(
        dangos[0].get_arrive_count() >= 1,
        "should cross finish line when moving past track end"
    );
    let (x, _) = dangos[0].get_pos();
    assert_eq!(x, 1, "after wrapping, should land at track[1]");
}

// ────────── cell effects ──────────

#[test]
fn test_accelerate_step() {
    let mut denia = Dango::default_denia();
    let map = [PointType::Accelerate; TRACK_LEN];
    let mut track = dummy_track_no_dangos();
    let mut rng = StdRng::seed_from_u64(42);

    denia.set_pos((0, 0));
    denia.set_n(1);
    track[0].push(DangoKind::Denia);

    let mut dangos = vec![denia];
    let _ = make_step(&mut dangos, 0, &mut track, &map, &mut rng);
    let (x, _) = dangos[0].get_pos();
    assert_eq!(
        x, 2,
        "accelerate should push forward 1 extra step (base 1 + accelerate=1)"
    );
}

#[test]
fn test_decelerate_step() {
    let mut denia = Dango::default_denia();
    let map = [PointType::Decelerate; TRACK_LEN];
    let mut track = dummy_track_no_dangos();
    let mut rng = StdRng::seed_from_u64(42);

    denia.set_pos((2, 0));
    denia.set_n(1);
    track[2].push(DangoKind::Denia);

    let mut dangos = vec![denia];
    let _ = make_step(&mut dangos, 0, &mut track, &map, &mut rng);
    let (x, _) = dangos[0].get_pos();
    assert_eq!(
        x, 2,
        "decelerate should push backward 1 step (target_x=3 - decelerate=1)"
    );
}

#[test]
fn test_hole_shuffles() {
    let mut rng = StdRng::seed_from_u64(42);

    let map = [PointType::Hole; TRACK_LEN];
    let mut track = dummy_track_no_dangos();

    let mut denia = Dango::default_denia();
    let mut sigrika = Dango::default_sigrika();

    denia.set_pos((0, 0));
    sigrika.set_pos((0, 1));

    track[0].push(DangoKind::Denia);
    track[0].push(DangoKind::Sigrika);

    denia.set_n(1);
    let mut dangos = vec![denia, sigrika];
    make_step(&mut dangos, 0, &mut track, &map, &mut rng);

    let (x, _) = dangos[0].get_pos();
    assert_eq!(x, 1, "step 1");

    let (x, _) = dangos[1].get_pos();
    assert_eq!(x, 1, "moved by denia");

    assert_eq!(track[x].len(), 2, "both dangos should remain after hole");
}

// ────────── the BuDaWang ──────────

#[test]
fn test_budawang_reverse_movement() {
    let mut bud = Dango::default_budawang();
    let map = dummy_map();
    let mut track = dummy_track_no_dangos();

    bud.set_pos((10, 0));
    bud.set_n(3);
    track[10].push(DangoKind::BuDaWang);

    let mut rng = StdRng::seed_from_u64(42);
    let mut dangos = vec![bud];
    let _ = budawang::step(&mut dangos, 0, &mut track, &map, &mut rng);
    let (x, _) = dangos[0].get_pos();
    assert_eq!(x, 7, "budawang should move backward to track[7]");
}

#[test]
fn test_budawang_carry_dangos() {
    let mut bud = Dango::default_budawang();
    let mut denia = Dango::default_denia();
    let map = dummy_map();
    let mut track = dummy_track_no_dangos();

    bud.set_pos((20, 0));
    denia.set_pos((20, 1));
    bud.set_n(5);
    track[20].push(DangoKind::BuDaWang);
    track[20].push(DangoKind::Denia);

    let mut rng = StdRng::seed_from_u64(42);
    let mut dangos = vec![bud, denia];
    let _ = budawang::step(&mut dangos, 0, &mut track, &map, &mut rng);

    let (bdx, _bdy) = dangos[0].get_pos();
    assert_eq!(bdx, 15, "budawang moved to 15");
    assert!(
        track[bdx].len() >= 2,
        "denia should be carried to same track cell"
    );
}

// ────────── ranking ──────────

#[test]
fn test_sort_dangos_dummy_case() {
    let mut denia = Dango::default_denia();
    let mut sigrika = Dango::default_sigrika();
    let mut hiyuki = Dango::default_hiyuki();

    denia.set_pos((5, 0));
    sigrika.set_pos((3, 0));
    hiyuki.set_pos((1, 0));
    hiyuki.increase_arrive_count();

    let mut list = vec![denia, sigrika, hiyuki];
    sort_dangos(&mut list);

    let actual: Vec<DangoKind> = list.iter().map(|d| d.kind()).collect();
    let expected = vec![DangoKind::Hiyuki, DangoKind::Denia, DangoKind::Sigrika];
    assert_eq!(actual, expected);
}

#[test]
fn test_sort_dangos_real_case() {
    let mut src = vec![
        Dango::new_cartethyia(1, (30, 1), 0, 0, 1, false),
        Dango::new_phoebe(1, (28, 0), 0, 0, 1),
        Dango::new_luukherssen(1, (30, 0), 0, 0, 1),
        Dango::new_sigrika(1, (25, 0), 0, 0, 1),
        Dango::new_denia(1, (31, 0), 0, 0, 1, 1),
        Dango::new_hiyuki(1, (24, 0), 0, 0, 1, false),
    ];

    sort_dangos(&mut src);

    let target = vec![
        Dango::new_denia(1, (31, 0), 0, 0, 1, 1),
        Dango::new_cartethyia(1, (30, 1), 0, 0, 1, false),
        Dango::new_luukherssen(1, (30, 0), 0, 0, 1),
        Dango::new_phoebe(1, (28, 0), 0, 0, 1),
        Dango::new_sigrika(1, (25, 0), 0, 0, 1),
        Dango::new_hiyuki(1, (24, 0), 0, 0, 1, false),
    ];

    assert_eq!(src, target);
}

// ────────── skills ──────────

#[test]
fn test_is_last_true_when_behind_all() {
    let mut cart = default_cartethyia();
    let mut denia = Dango::default_denia();
    let mut hiyuki = Dango::default_hiyuki();
    hiyuki.set_pos((2, 0));
    denia.set_pos((1, 0));
    cart.pos = (0, 0);
    let dangos = [denia, hiyuki, Dango::Cartethyia(cart)];

    assert!(cart.is_last(&dangos), "should be last when behind all");
}

#[test]
fn test_is_last_false_when_not_last() {
    let mut cart = default_cartethyia();
    let mut denia = Dango::default_denia();
    let mut hiyuki = Dango::default_hiyuki();
    cart.pos = (2, 0);
    denia.set_pos((1, 0));
    hiyuki.set_pos((0, 0));
    let dangos = [denia, hiyuki, Dango::Cartethyia(cart)];

    assert!(!cart.is_last(&dangos), "should not be last");
}

#[test]
fn test_flag_gets_set_when_last() {
    let mut rng = StdRng::seed_from_u64(42);

    let map = dummy_map();
    let mut track = dummy_track_no_dangos();

    let mut cart = Dango::Cartethyia(default_cartethyia());
    let mut denia = Dango::default_denia();
    let mut hiyuki = Dango::default_hiyuki();

    hiyuki.set_pos((3, 0));
    denia.set_pos((2, 0));
    cart.set_pos((0, 0));

    track[3].push(DangoKind::Hiyuki);
    track[2].push(DangoKind::Denia);
    track[0].push(DangoKind::Cartethyia);

    cart.set_n(1);
    let mut dangos = vec![denia, hiyuki, cart];
    cartethyia::step(&mut dangos, 2, &mut track, &map, &mut rng);

    assert!(
        dangos[2].state().has_been_last,
        "flag should be set after being last"
    );
}

#[test]
fn chisa_test_denia_consecutive_dice_bonus() {
    let mut rng = StdRng::seed_from_u64(0);

    let map = dummy_map();
    let mut track = dummy_track_no_dangos();

    let mut denia = Dango::default_denia();
    let mut chisa = Dango::Chisa(default_chisa());

    denia.set_pos((0, 0));
    chisa.set_pos((1, 0));
    track[0].push(DangoKind::Denia);
    track[1].push(DangoKind::Chisa);

    denia.set_n(3);
    chisa.set_n(1);

    let mut dangos = vec![denia, chisa];
    chisa::step(&mut dangos, 1, &mut track, &map, &mut rng);

    let (x, _) = dangos[1].get_pos();
    assert_eq!(x, 1 + 1 + 2);
    assert_eq!(dangos[1].get_extra(), 0);
}

#[test]
fn denia_test_denia_consecutive_dice_bonus() {
    let mut rng = StdRng::seed_from_u64(0);

    let map = dummy_map();
    let mut track = dummy_track_no_dangos();

    let mut d = Dango::default_denia();
    d.set_pos((0, 0));
    track[0].push(DangoKind::Denia);

    // the first turn remembers the throw
    let target_n = 2;
    d.set_n(target_n);
    let mut dangos = vec![d];
    denia::step(&mut dangos, 0, &mut track, &map, &mut rng);

    // the same throw again
    dangos[0].set_n(target_n);
    denia::step(&mut dangos, 0, &mut track, &map, &mut rng);

    let (x, _) = dangos[0].get_pos();
    assert_eq!(x, target_n + target_n + 2);
    assert_eq!(dangos[0].get_extra(), 0);
}

#[test]
fn mornye_test_denia_consecutive_dice_bonus() {
    let mut rng = StdRng::seed_from_u64(0);
    let mut mornye = Dango::Mornye(default_mornye());
    let n_seq: Vec<usize> = (0..9)
        .map(|_| {
            mornye.roll(&mut rng);
            mornye.get_n()
        })
        .collect();
    let dice = mornye_dice();
    let tgt_n_seq: Vec<usize> = (0..9).map(|idx| dice[idx % dice.len()]).collect();
    assert_eq!(n_seq, tgt_n_seq);
}

#[test]
fn test_sigrika_debuffs_top_two_ahead() {
    const DENIA_POS: usize = 10;
    const HIYUKI_POS: usize = 7;
    const SIGRIKA_POS: usize = 3;
    const PHOEBE_POS: usize = 1;

    let mut sig = Dango::Sigrika(default_sigrika());
    let mut denia = Dango::default_denia();
    let mut hiyuki = Dango::default_hiyuki();
    let mut phoebe = Dango::default_phoebe();

    denia.set_pos((DENIA_POS, 0));
    hiyuki.set_pos((HIYUKI_POS, 0));
    sig.set_pos((SIGRIKA_POS, 0));
    phoebe.set_pos((PHOEBE_POS, 0));

    let mut dangos = vec![sig, denia, hiyuki, phoebe];
    sigrika::before_run(&mut dangos, 0);

    assert_eq!(dangos[1].get_extra(), -1, "top 1 ahead should be debuffed");
    assert_eq!(dangos[2].get_extra(), -1, "top 2 ahead should be debuffed");
    assert_eq!(dangos[3].get_extra(), 0, "behind dango should not be debuffed");
}

#[test]
fn test_make_step_with_no_lap_left_stops_on_the_finish_line() {
    let mut rng = StdRng::seed_from_u64(3);
    let map = dummy_map();
    let mut track = dummy_track_no_dangos();
    let mut denia = Dango::new_denia(3, (30, 0), 0, 1, 1, 0);
    denia.set_n(3);
    track[30].push(DangoKind::Denia);
    let mut dangos = vec![denia];
    make_step(&mut dangos, 0, &mut track, &map, &mut rng);
    assert_eq!(dangos[0].get_pos(), (TRACK_LEN - 1, 0));
    assert_eq!(dangos[0].get_arrive_count(), 1);
}
