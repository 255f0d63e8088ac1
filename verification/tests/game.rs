use rand::rngs::StdRng;
use rand::SeedableRng;

use wuwa_dango_2026::dangos::{sort_dangos, Dango};
use wuwa_dango_2026::game::one_game;

fn test_full_game(
    seed: u64,
    half_round_target: usize,
    half_dangos_target: &mut Vec<Dango>,
    finish_round_target: usize,
    finish_dangos_target: &mut Vec<Dango>,
) {
    let rng = StdRng::seed_from_u64(seed);

    // first half
    let mut half_state = one_game(None, Some(rng));

    assert_eq!(half_state.round, half_round_target);
    assert_eq!(&half_state.dangos, half_dangos_target);

    sort_dangos(&mut half_state.dangos);
    sort_dangos(half_dangos_target);
    assert_eq!(&half_state.dangos, half_dangos_target);

    // second half
    let mut finish_state = one_game(Some(half_state), None);

    assert_eq!(finish_state.round, finish_round_target);
    assert_eq!(&finish_state.dangos, finish_dangos_target);

    sort_dangos(&mut finish_state.dangos);
    sort_dangos(finish_dangos_target);
    assert_eq!(&finish_state.dangos, finish_dangos_target);
}

#[test]
fn test_full_game_seed_0() {
    let seed = 0;

    // first half
    let half_round_target = 9;
    let mut half_dangos_target = vec![
        Dango::new_cartethyia(1, (30, 1), 0, 0, 1, false),
        Dango::new_phoebe(1, (28, 0), 0, 0, 1),
        Dango::new_luukherssen(1, (30, 0), 0, 0, 1),
        Dango::new_sigrika(1, (25, 0), 0, 0, 1),
        Dango::new_denia(1, (31, 0), 0, 0, 1, 1),
        Dango::new_hiyuki(1, (24, 0), 0, 0, 1, false),
    ];

    // second half
    let finish_round_target = 12;
    let mut finish_dangos_target = vec![
        Dango::new_luukherssen(1, (28, 0), 0, 1, 2),
        Dango::new_cartethyia(1, (20, 0), 0, 1, 2, false),
        Dango::new_phoebe(1, (19, 0), 0, 1, 2),
        Dango::new_denia(1, (31, 0), 0, 1, 2, 1),
        Dango::new_sigrika(1, (0, 0), 0, 1, 2),
        Dango::new_hiyuki(1, (23, 0), 0, 1, 2, false),
    ];

    test_full_game(
        seed,
        half_round_target,
        &mut half_dangos_target,
        finish_round_target,
        &mut finish_dangos_target,
    );
}

#[test]
fn test_full_game_seed_1() {
    let seed = 1;

    // first half
    let half_round_target = 8;
    let mut half_dangos_target = vec![
        Dango::new_hiyuki(1, (26, 0), 0, 0, 1, false),
        Dango::new_luukherssen(1, (21, 1), 0, 0, 1),
        Dango::new_sigrika(1, (23, 0), 0, 0, 1),
        Dango::new_cartethyia(1, (23, 1), 0, 0, 1, false),
        Dango::new_phoebe(1, (31, 0), 0, 0, 1),
        Dango::new_denia(1, (21, 0), 0, 0, 1, 1),
    ];

    // second half
    let finish_round_target = 10;
    let mut finish_dangos_target = vec![
        Dango::new_hiyuki(1, (28, 0), 0, 1, 2, false),
        Dango::new_cartethyia(1, (18, 0), 0, 1, 2, false),
        Dango::new_sigrika(1, (31, 0), 0, 1, 2),
        Dango::new_phoebe(1, (31, 1), 0, 1, 2),
        Dango::new_luukherssen(1, (16, 0), 0, 1, 2),
        Dango::new_denia(1, (20, 0), 0, 1, 2, 1),
    ];

    test_full_game(
        seed,
        half_round_target,
        &mut half_dangos_target,
        finish_round_target,
        &mut finish_dangos_target,
    );
}

#[test]
fn test_full_game_seed_2() {
    let seed = 2;

    // first half
    let half_round_target = 9;
    let mut half_dangos_target = vec![
        Dango::new_denia(1, (29, 1), 0, 0, 1, 1),
        Dango::new_cartethyia(1, (29, 0), 0, 0, 1, false),
        Dango::new_sigrika(1, (26, 0), 0, 0, 1),
        Dango::new_phoebe(1, (31, 0), 0, 0, 1),
        Dango::new_luukherssen(1, (30, 0), 0, 0, 1),
        Dango::new_hiyuki(1, (29, 2), 0, 0, 1, false),
    ];

    // second half
    let finish_round_target = 10;
    let mut finish_dangos_target = vec![
        Dango::new_phoebe(1, (28, 0), 0, 1, 2),
        Dango::new_sigrika(1, (31, 0), 0, 1, 2),
        Dango::new_hiyuki(1, (28, 1), 0, 1, 2, false),
        Dango::new_denia(1, (16, 0), 0, 1, 2, 1),
        Dango::new_luukherssen(1, (26, 0), 0, 1, 2),
        Dango::new_cartethyia(1, (28, 2), 0, 1, 2, false),
    ];

    test_full_game(
        seed,
        half_round_target,
        &mut half_dangos_target,
        finish_round_target,
        &mut finish_dangos_target,
    );
}

#[test]
fn test_full_game_seed_3() {
    let seed = 3;

    // first half
    let half_round_target = 10;
    let mut half_dangos_target = vec![
        Dango::new_luukherssen(1, (31, 0), 0, 0, 1),
        Dango::new_denia(1, (16, 0), 0, 0, 1, 1),
        Dango::new_phoebe(1, (28, 0), 0, 0, 1),
        Dango::new_sigrika(1, (31, 1), 0, 0, 1),
        Dango::new_hiyuki(1, (26, 1), 0, 0, 1, false),
        Dango::new_cartethyia(1, (26, 0), 0, 0, 1, false),
    ];

    // second half
    let finish_round_target = 9;
    let mut finish_dangos_target = vec![
        Dango::new_luukherssen(1, (29, 0), 0, 1, 2),
        Dango::new_denia(1, (1, 0), 0, 1, 2, 1),
        Dango::new_hiyuki(1, (26, 1), 0, 1, 2, false),
        Dango::new_sigrika(1, (31, 0), 0, 1, 2),
        Dango::new_phoebe(1, (20, 0), 0, 1, 2),
        Dango::new_cartethyia(1, (26, 0), 0, 0, 2, false),
    ];

    test_full_game(
        seed,
        half_round_target,
        &mut half_dangos_target,
        finish_round_target,
        &mut finish_dangos_target,
    );
}

#[test]
fn test_full_game_seed_4() {
    let seed = 4;

    // first half
    let half_round_target = 9;
    let mut half_dangos_target = vec![
        Dango::new_luukherssen(1, (25, 0), 0, 0, 1),
        Dango::new_cartethyia(1, (25, 1), 0, 0, 1, false),
        Dango::new_sigrika(1, (31, 1), 0, 0, 1),
        Dango::new_denia(1, (23, 0), 0, 0, 1, 1),
        Dango::new_phoebe(1, (31, 0), 0, 0, 1),
        Dango::new_hiyuki(1, (26, 0), 0, 0, 1, false),
    ];

    // second half
    let finish_round_target = 12;
    let mut finish_dangos_target = vec![
        Dango::new_hiyuki(1, (26, 1), 0, 1, 2, false),
        Dango::new_luukherssen(1, (24, 0), 0, 1, 2),
        Dango::new_cartethyia(1, (21, 0), 0, 1, 2, false),
        Dango::new_phoebe(1, (26, 2), 0, 1, 2),
        Dango::new_denia(1, (31, 0), 0, 1, 2, 1),
        Dango::new_sigrika(1, (26, 0), 0, 1, 2),
    ];

    test_full_game(
        seed,
        half_round_target,
        &mut half_dangos_target,
        finish_round_target,
        &mut finish_dangos_target,
    );
}
