use vstd::prelude::*;

use crate::dangos::{Dango, DangoKind};

verus! {

/// Its throws follow the fixed cycle 3, 2, 1.
#[derive(Debug, Clone, Copy)]
pub struct Mornye {
    /// the number rolled for the current turn
    pub n: usize,
    /// (track cell, height in the stack)
    pub pos: (usize, usize),
    /// bonus or malus added to the next move
    pub extra: isize,
    /// how often it has crossed the finish line
    pub arrive_count: usize,
    /// how often it must reach the finish line
    pub target_arrive_count: usize,
    /// where it stands in its fixed cycle of throws
    pub next_dice_index: usize,
}

impl Mornye {
    /// A Mornye at the start line that must reach the finish once.
    pub fn new() -> (r: Self)
        ensures
            r.n == 0,
            r.pos == (0usize, 0usize),
            r.extra == 0,
            r.arrive_count == 0,
            r.target_arrive_count == 1,
            r.next_dice_index == 0,
    {
        Mornye {
            n: 0,
            pos: (0, 0),
            extra: 0,
            arrive_count: 0,
            target_arrive_count: 1,
            next_dice_index: 0,
        }
    }
}

impl Default for Mornye {
    fn default() -> (r: Self)
        ensures
            r.n == 0,
            r.pos == (0usize, 0usize),
            r.extra == 0,
            r.arrive_count == 0,
            r.target_arrive_count == 1,
            r.next_dice_index == 0,
    {
        Mornye::new()
    }
}

/// A Mornye with every field given.
pub fn new_mornye(
    n: usize,
    pos: (usize, usize),
    extra: isize,
    arrive_count: usize,
    target_arrive_count: usize,
    next_dice_index: usize,
) -> (r: Mornye)
    ensures
        r.n == n,
        r.pos == pos,
        r.extra == extra,
        r.arrive_count == arrive_count,
        r.target_arrive_count == target_arrive_count,
        r.next_dice_index == next_dice_index,
{
    Mornye {
        n,
        pos,
        extra,
        arrive_count,
        target_arrive_count,
        next_dice_index,
    }
}

/// A Mornye at the start line that must reach the finish once.
pub fn default_mornye() -> (r: Mornye)
    ensures
            r.n == 0,
            r.pos == (0usize, 0usize),
            r.extra == 0,
            r.arrive_count == 0,
            r.target_arrive_count == 1,
            r.next_dice_index == 0,
{
    Mornye::default()
}

/// Mornye's throws, in the order they come round.
pub fn mornye_dice() -> (r: [usize; 6])
    ensures
        r@ == seq![3usize, 2, 1, 3, 2, 1],
{
    let r = [3, 2, 1, 3, 2, 1];
    assert(r@ =~= seq![3usize, 2, 1, 3, 2, 1]);
    r
}

/// Mornye's throw: the next number of her cycle.
pub fn roll(d: &mut Dango)
    requires
        old(d)@.kind == DangoKind::Mornye,
        old(d)@.next_dice_index < 6,
    ensures
        final(d)@ == old(d)@.with_n(seq![3usize, 2, 1, 3, 2, 1][old(d)@.next_dice_index as int]).with_next_dice_index(
            ((old(d)@.next_dice_index + 1) % 6) as usize,
        ),
{
    let dice = mornye_dice();
    let mut st = d.state();
    st.n = dice[st.next_dice_index];
    st.next_dice_index = (st.next_dice_index + 1) % 6;
    *d = Dango::from_state(st);
}

} // verus!
