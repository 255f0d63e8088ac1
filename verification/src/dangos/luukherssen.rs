use vstd::prelude::*;

verus! {

/// Accelerate cells push it 4 cells on, decelerate cells pull it 2 back.
#[derive(Debug, Clone, Copy)]
pub struct LuukHerssen {
    /// the number rolled for the current turn
    pub n: usize,
    /// (track cell, height in the stack)
    pub pos: (usize, usize),
    /// bonus or malus added to the next move
    pub extra: isize,
    /// how often it has crossed the finish line
    pub arrive_count: usize,
    /// how often it must reach the finish line
    pub target_arrive_count: usize,
}

impl LuukHerssen {
    /// A LuukHerssen at the start line that must reach the finish once.
    pub fn new() -> (r: Self)
        ensures
            r.n == 0,
            r.pos == (0usize, 0usize),
            r.extra == 0,
            r.arrive_count == 0,
            r.target_arrive_count == 1,
    {
        LuukHerssen {
            n: 0,
            pos: (0, 0),
            extra: 0,
            arrive_count: 0,
            target_arrive_count: 1,
        }
    }
}

impl Default for LuukHerssen {
    fn default() -> (r: Self)
        ensures
            r.n == 0,
            r.pos == (0usize, 0usize),
            r.extra == 0,
            r.arrive_count == 0,
            r.target_arrive_count == 1,
    {
        LuukHerssen::new()
    }
}

/// A LuukHerssen with every field given.
pub fn new_luukherssen(
    n: usize,
    pos: (usize, usize),
    extra: isize,
    arrive_count: usize,
    target_arrive_count: usize,
) -> (r: LuukHerssen)
    ensures
        r.n == n,
        r.pos == pos,
        r.extra == extra,
        r.arrive_count == arrive_count,
        r.target_arrive_count == target_arrive_count,
{
    LuukHerssen {
        n,
        pos,
        extra,
        arrive_count,
        target_arrive_count,
    }
}

/// A LuukHerssen at the start line that must reach the finish once.
pub fn default_luukherssen() -> (r: LuukHerssen)
    ensures
            r.n == 0,
            r.pos == (0usize, 0usize),
            r.extra == 0,
            r.arrive_count == 0,
            r.target_arrive_count == 1,
{
    LuukHerssen::default()
}

} // verus!
