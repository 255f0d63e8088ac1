# wuwa_dango_2026

A race simulator for the *Dango Great Battle* event of Wuthering Waves,
written in Verus: the rules of the race are executable Rust whose behaviour
is stated in `requires` / `ensures` contracts and proved.

Dango race on a circular track of 32 cells, stack on each other, carry the
ones above them, and use their skills; the BuDaWang joins in round 3 and
walks backwards from the finish line, sweeping everyone it passes.

## Layout

- `src/track.rs` — the map, the track (a stack of kinds per cell), and the
  agreement between the track and the dango's own records (`field_wf`).
- `src/dangos.rs`, `src/dangos/` — the dango: their records, their skills,
  how a move carries a stack (`moves.rs`), and one turn of any kind
  (`turns.rs`).
- `src/race.rs` — what every turn keeps true: kinds and targets, the
  BuDaWang at the bottom of a plain cell or hole, the winner on the finish
  line.
- `src/game.rs` — setting up a group-stage match and playing a half until a
  dango wins.
- `src/stats.rs` — counting rankings and winners over many races.
- `src/rng.rs` — every draw of chance, through `rand`.
- `app/main.rs` — the command line: seeds, printing, and many matches in
  parallel with `rayon`.
