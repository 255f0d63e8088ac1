//! The dango: their state, their skills and how they move on the track.
use vstd::prelude::*;
use vstd::std_specs::cmp::PartialEqSpecImpl;

use crate::track::{cells, Track, TRACK_LEN};

pub mod budawang;
pub mod cartethyia;
pub mod chisa;
pub mod denia;
pub mod hiyuki;
pub mod luukherssen;
pub mod lynae;
pub mod mornye;
pub mod phoebe;
pub mod moves;
pub mod sigrika;
pub mod turns;

use budawang::BuDaWang;
use cartethyia::Cartethyia;
use chisa::Chisa;
use denia::Denia;
use hiyuki::Hiyuki;
use luukherssen::LuukHerssen;
use lynae::Lynae;
use mornye::Mornye;
use phoebe::Phoebe;
use sigrika::Sigrika;

verus! {

/// Which dango a value is; every dango of a race has its own kind.
#[derive(Debug, Clone, Copy, PartialEq, Eq, Hash, Structural)]
pub enum DangoKind {
    BuDaWang,
    Cartethyia,
    Chisa,
    Denia,
    Hiyuki,
    LuukHerssen,
    Lynae,
    Mornye,
    Phoebe,
    Sigrika,
}

impl DangoKind {
    /// Full name of the dango.
    pub fn fullname(self) -> (r: &'static str)
        ensures
            r@ == spec_fullname(self),
    {
        match self {
            DangoKind::BuDaWang => "布大王",
            DangoKind::Cartethyia => "卡提希娅",
            DangoKind::Chisa => "千咲",
            DangoKind::Denia => "达妮娅",
            DangoKind::Hiyuki => "绯雪",
            DangoKind::LuukHerssen => "陆·赫斯",
            DangoKind::Lynae => "琳奈",
            DangoKind::Mornye => "莫宁",
            DangoKind::Phoebe => "菲比",
            DangoKind::Sigrika => "西格莉卡",
        }
    }

    /// One-character name of the dango.
    pub fn shortname(self) -> (r: &'static str)
        ensures
            r@ == spec_shortname(self),
    {
        match self {
            DangoKind::BuDaWang => "布",
            DangoKind::Cartethyia => "卡",
            DangoKind::Chisa => "千",
            DangoKind::Denia => "达",
            DangoKind::Hiyuki => "绯",
            DangoKind::LuukHerssen => "陆",
            DangoKind::Lynae => "琳",
            DangoKind::Mornye => "莫",
            DangoKind::Phoebe => "菲",
            DangoKind::Sigrika => "西",
        }
    }
}

/// Full name of each kind.
pub open spec fn spec_fullname(k: DangoKind) -> Seq<char> {
    match k {
        DangoKind::BuDaWang => "布大王"@,
        DangoKind::Cartethyia => "卡提希娅"@,
        DangoKind::Chisa => "千咲"@,
        DangoKind::Denia => "达妮娅"@,
        DangoKind::Hiyuki => "绯雪"@,
        DangoKind::LuukHerssen => "陆·赫斯"@,
        DangoKind::Lynae => "琳奈"@,
        DangoKind::Mornye => "莫宁"@,
        DangoKind::Phoebe => "菲比"@,
        DangoKind::Sigrika => "西格莉卡"@,
    }
}

/// One-character name of each kind.
pub open spec fn spec_shortname(k: DangoKind) -> Seq<char> {
    match k {
        DangoKind::BuDaWang => "布"@,
        DangoKind::Cartethyia => "卡"@,
        DangoKind::Chisa => "千"@,
        DangoKind::Denia => "达"@,
        DangoKind::Hiyuki => "绯"@,
        DangoKind::LuukHerssen => "陆"@,
        DangoKind::Lynae => "琳"@,
        DangoKind::Mornye => "莫"@,
        DangoKind::Phoebe => "菲"@,
        DangoKind::Sigrika => "西"@,
    }
}

/// Everything a dango carries, as plain values. The fields a kind does not
/// have are `0` or `false` (see `normalized`).
#[derive(Debug, Clone, Copy)]
pub struct DangoState {
    pub kind: DangoKind,
    /// the number rolled for the current turn
    pub n: usize,
    /// (track cell, height in the stack)
    pub pos: (usize, usize),
    /// bonus or malus added to the next move
    pub extra: isize,
    /// how often it has crossed the finish line
    pub arrive_count: usize,
    /// how often it must reach the finish line
    pub target_arrive_count: usize,
    /// Denia: the number of its previous throw
    pub last_dice: usize,
    /// Hiyuki: whether it has met the BuDaWang
    pub meeted: bool,
    /// Cartethyia: whether it has been the last one
    pub has_been_last: bool,
    /// Mornye: where it stands in its cycle of throws
    pub next_dice_index: usize,
}

/// The state with the fields its kind does not have set to `0` / `false`.
/// The BuDaWang has no bonus and no finish-line counters.
pub open spec fn normalized(s: DangoState) -> DangoState {
    DangoState {
        extra: if s.kind == DangoKind::BuDaWang { 0 } else { s.extra },
        arrive_count: if s.kind == DangoKind::BuDaWang { 0 } else { s.arrive_count },
        target_arrive_count: if s.kind == DangoKind::BuDaWang { 0 } else { s.target_arrive_count },
        last_dice: if s.kind == DangoKind::Denia { s.last_dice } else { 0 },
        meeted: if s.kind == DangoKind::Hiyuki { s.meeted } else { false },
        has_been_last: if s.kind == DangoKind::Cartethyia { s.has_been_last } else { false },
        next_dice_index: if s.kind == DangoKind::Mornye { s.next_dice_index } else { 0 },
        ..s
    }
}

impl DangoState {
    pub open spec fn with_n(self, n: usize) -> DangoState {
        DangoState { n, ..self }
    }

    pub open spec fn with_pos(self, pos: (usize, usize)) -> DangoState {
        DangoState { pos, ..self }
    }

    pub open spec fn with_extra(self, extra: isize) -> DangoState {
        DangoState { extra, ..self }
    }

    pub open spec fn with_arrive_count(self, arrive_count: usize) -> DangoState {
        DangoState { arrive_count, ..self }
    }

    pub open spec fn with_target_arrive_count(self, target_arrive_count: usize) -> DangoState {
        DangoState { target_arrive_count, ..self }
    }

    pub open spec fn with_last_dice(self, last_dice: usize) -> DangoState {
        DangoState { last_dice, ..self }
    }

    pub open spec fn with_meeted(self, meeted: bool) -> DangoState {
        DangoState { meeted, ..self }
    }

    pub open spec fn with_has_been_last(self, has_been_last: bool) -> DangoState {
        DangoState { has_been_last, ..self }
    }

    pub open spec fn with_next_dice_index(self, next_dice_index: usize) -> DangoState {
        DangoState { next_dice_index, ..self }
    }

    /// The state with the roll, the bonus and the skill's memory cleared.
    pub open spec fn cleared(self) -> DangoState {
        DangoState {
            n: 0,
            extra: 0,
            last_dice: 0,
            meeted: false,
            has_been_last: false,
            next_dice_index: 0,
            ..self
        }
    }
}

/// One dango of the race, with its own skill.
#[derive(Debug, Clone, Copy)]
pub enum Dango {
    BuDaWang(BuDaWang),
    Cartethyia(Cartethyia),
    Chisa(Chisa),
    Denia(Denia),
    Hiyuki(Hiyuki),
    LuukHerssen(LuukHerssen),
    Lynae(Lynae),
    Mornye(Mornye),
    Phoebe(Phoebe),
    Sigrika(Sigrika),
}

impl View for Dango {
    type V = DangoState;

    open spec fn view(&self) -> DangoState {
        match *self {
            Dango::BuDaWang(d) => DangoState {
                kind: DangoKind::BuDaWang,
                n: d.n,
                pos: d.pos,
                extra: 0,
                arrive_count: 0,
                target_arrive_count: 0,
                last_dice: 0,
                meeted: false,
                has_been_last: false,
                next_dice_index: 0,
            },
            Dango::Cartethyia(d) => DangoState {
                kind: DangoKind::Cartethyia,
                n: d.n,
                pos: d.pos,
                extra: d.extra,
                arrive_count: d.arrive_count,
                target_arrive_count: d.target_arrive_count,
                last_dice: 0,
                meeted: false,
                has_been_last: d.has_been_last,
                next_dice_index: 0,
            },
            Dango::Chisa(d) => DangoState {
                kind: DangoKind::Chisa,
                n: d.n,
                pos: d.pos,
                extra: d.extra,
                arrive_count: d.arrive_count,
                target_arrive_count: d.target_arrive_count,
                last_dice: 0,
                meeted: false,
                has_been_last: false,
                next_dice_index: 0,
            },
            Dango::Denia(d) => DangoState {
                kind: DangoKind::Denia,
                n: d.n,
                pos: d.pos,
                extra: d.extra,
                arrive_count: d.arrive_count,
                target_arrive_count: d.target_arrive_count,
                last_dice: d.last_dice,
                meeted: false,
                has_been_last: false,
                next_dice_index: 0,
            },
            Dango::Hiyuki(d) => DangoState {
                kind: DangoKind::Hiyuki,
                n: d.n,
                pos: d.pos,
                extra: d.extra,
                arrive_count: d.arrive_count,
                target_arrive_count: d.target_arrive_count,
                last_dice: 0,
                meeted: d.meeted,
                has_been_last: false,
                next_dice_index: 0,
            },
            Dango::LuukHerssen(d) => DangoState {
                kind: DangoKind::LuukHerssen,
                n: d.n,
                pos: d.pos,
                extra: d.extra,
                arrive_count: d.arrive_count,
                target_arrive_count: d.target_arrive_count,
                last_dice: 0,
                meeted: false,
                has_been_last: false,
                next_dice_index: 0,
            },
            Dango::Lynae(d) => DangoState {
                kind: DangoKind::Lynae,
                n: d.n,
                pos: d.pos,
                extra: d.extra,
                arrive_count: d.arrive_count,
                target_arrive_count: d.target_arrive_count,
                last_dice: 0,
                meeted: false,
                has_been_last: false,
                next_dice_index: 0,
            },
            Dango::Mornye(d) => DangoState {
                kind: DangoKind::Mornye,
                n: d.n,
                pos: d.pos,
                extra: d.extra,
                arrive_count: d.arrive_count,
                target_arrive_count: d.target_arrive_count,
                last_dice: 0,
                meeted: false,
                has_been_last: false,
                next_dice_index: d.next_dice_index,
            },
            Dango::Phoebe(d) => DangoState {
                kind: DangoKind::Phoebe,
                n: d.n,
                pos: d.pos,
                extra: d.extra,
                arrive_count: d.arrive_count,
                target_arrive_count: d.target_arrive_count,
                last_dice: 0,
                meeted: false,
                has_been_last: false,
                next_dice_index: 0,
            },
            Dango::Sigrika(d) => DangoState {
                kind: DangoKind::Sigrika,
                n: d.n,
                pos: d.pos,
                extra: d.extra,
                arrive_count: d.arrive_count,
                target_arrive_count: d.target_arrive_count,
                last_dice: 0,
                meeted: false,
                has_been_last: false,
                next_dice_index: 0,
            },
        }
    }
}

/// How far an accelerate cell pushes a dango of this kind.
pub open spec fn spec_accelerate_step(k: DangoKind) -> usize {
    if k == DangoKind::LuukHerssen { 4 } else { 1 }
}

/// How far a decelerate cell pulls a dango of this kind back.
pub open spec fn spec_decelerate_step(k: DangoKind) -> usize {
    if k == DangoKind::LuukHerssen { 2 } else { 1 }
}

impl Dango {
    /// The state of the dango as plain values.
    pub fn state(&self) -> (r: DangoState)
        ensures
            r == self@,
            normalized(r) == r,
    {
        match *self {
            Dango::BuDaWang(d) => DangoState {
                kind: DangoKind::BuDaWang,
                n: d.n,
                pos: d.pos,
                extra: 0,
                arrive_count: 0,
                target_arrive_count: 0,
                last_dice: 0,
                meeted: false,
                has_been_last: false,
                next_dice_index: 0,
            },
            Dango::Cartethyia(d) => DangoState {
                kind: DangoKind::Cartethyia,
                n: d.n,
                pos: d.pos,
                extra: d.extra,
                arrive_count: d.arrive_count,
                target_arrive_count: d.target_arrive_count,
                last_dice: 0,
                meeted: false,
                has_been_last: d.has_been_last,
                next_dice_index: 0,
            },
            Dango::Chisa(d) => DangoState {
                kind: DangoKind::Chisa,
                n: d.n,
                pos: d.pos,
                extra: d.extra,
                arrive_count: d.arrive_count,
                target_arrive_count: d.target_arrive_count,
                last_dice: 0,
                meeted: false,
                has_been_last: false,
                next_dice_index: 0,
            },
            Dango::Denia(d) => DangoState {
                kind: DangoKind::Denia,
                n: d.n,
                pos: d.pos,
                extra: d.extra,
                arrive_count: d.arrive_count,
                target_arrive_count: d.target_arrive_count,
                last_dice: d.last_dice,
                meeted: false,
                has_been_last: false,
                next_dice_index: 0,
            },
            Dango::Hiyuki(d) => DangoState {
                kind: DangoKind::Hiyuki,
                n: d.n,
                pos: d.pos,
                extra: d.extra,
                arrive_count: d.arrive_count,
                target_arrive_count: d.target_arrive_count,
                last_dice: 0,
                meeted: d.meeted,
                has_been_last: false,
                next_dice_index: 0,
            },
            Dango::LuukHerssen(d) => DangoState {
                kind: DangoKind::LuukHerssen,
                n: d.n,
                pos: d.pos,
                extra: d.extra,
                arrive_count: d.arrive_count,
                target_arrive_count: d.target_arrive_count,
                last_dice: 0,
                meeted: false,
                has_been_last: false,
                next_dice_index: 0,
            },
            Dango::Lynae(d) => DangoState {
                kind: DangoKind::Lynae,
                n: d.n,
                pos: d.pos,
                extra: d.extra,
                arrive_count: d.arrive_count,
                target_arrive_count: d.target_arrive_count,
                last_dice: 0,
                meeted: false,
                has_been_last: false,
                next_dice_index: 0,
            },
            Dango::Mornye(d) => DangoState {
                kind: DangoKind::Mornye,
                n: d.n,
                pos: d.pos,
                extra: d.extra,
                arrive_count: d.arrive_count,
                target_arrive_count: d.target_arrive_count,
                last_dice: 0,
                meeted: false,
                has_been_last: false,
                next_dice_index: d.next_dice_index,
            },
            Dango::Phoebe(d) => DangoState {
                kind: DangoKind::Phoebe,
                n: d.n,
                pos: d.pos,
                extra: d.extra,
                arrive_count: d.arrive_count,
                target_arrive_count: d.target_arrive_count,
                last_dice: 0,
                meeted: false,
                has_been_last: false,
                next_dice_index: 0,
            },
            Dango::Sigrika(d) => DangoState {
                kind: DangoKind::Sigrika,
                n: d.n,
                pos: d.pos,
                extra: d.extra,
                arrive_count: d.arrive_count,
                target_arrive_count: d.target_arrive_count,
                last_dice: 0,
                meeted: false,
                has_been_last: false,
                next_dice_index: 0,
            },
        }
    }

    /// The dango of kind `s.kind` with the fields of `s` that its kind has.
    pub fn from_state(s: DangoState) -> (d: Dango)
        ensures
            d@ == normalized(s),
    {
        match s.kind {
            DangoKind::BuDaWang => Dango::BuDaWang(BuDaWang { n: s.n, pos: s.pos }),
            DangoKind::Cartethyia => Dango::Cartethyia(Cartethyia {
                n: s.n,
                pos: s.pos,
                extra: s.extra,
                arrive_count: s.arrive_count,
                target_arrive_count: s.target_arrive_count, has_been_last: s.has_been_last,
            }),
            DangoKind::Chisa => Dango::Chisa(Chisa {
                n: s.n,
                pos: s.pos,
                extra: s.extra,
                arrive_count: s.arrive_count,
                target_arrive_count: s.target_arrive_count,
            }),
            DangoKind::Denia => Dango::Denia(Denia {
                n: s.n,
                pos: s.pos,
                extra: s.extra,
                arrive_count: s.arrive_count,
                target_arrive_count: s.target_arrive_count, last_dice: s.last_dice,
            }),
            DangoKind::Hiyuki => Dango::Hiyuki(Hiyuki {
                n: s.n,
                pos: s.pos,
                extra: s.extra,
                arrive_count: s.arrive_count,
                target_arrive_count: s.target_arrive_count, meeted: s.meeted,
            }),
            DangoKind::LuukHerssen => Dango::LuukHerssen(LuukHerssen {
                n: s.n,
                pos: s.pos,
                extra: s.extra,
                arrive_count: s.arrive_count,
                target_arrive_count: s.target_arrive_count,
            }),
            DangoKind::Lynae => Dango::Lynae(Lynae {
                n: s.n,
                pos: s.pos,
                extra: s.extra,
                arrive_count: s.arrive_count,
                target_arrive_count: s.target_arrive_count,
            }),
            DangoKind::Mornye => Dango::Mornye(Mornye {
                n: s.n,
                pos: s.pos,
                extra: s.extra,
                arrive_count: s.arrive_count,
                target_arrive_count: s.target_arrive_count, next_dice_index: s.next_dice_index,
            }),
            DangoKind::Phoebe => Dango::Phoebe(Phoebe {
                n: s.n,
                pos: s.pos,
                extra: s.extra,
                arrive_count: s.arrive_count,
                target_arrive_count: s.target_arrive_count,
            }),
            DangoKind::Sigrika => Dango::Sigrika(Sigrika {
                n: s.n,
                pos: s.pos,
                extra: s.extra,
                arrive_count: s.arrive_count,
                target_arrive_count: s.target_arrive_count,
            }),
        }
    }

    /// Which dango this is.
    pub fn kind(&self) -> (r: DangoKind)
        ensures
            r == self@.kind,
    {
        self.state().kind
    }

    /// Full name of the dango.
    pub fn fullname(&self) -> (r: &'static str)
        ensures
            r@ == spec_fullname(self@.kind),
    {
        self.kind().fullname()
    }

    /// One-character name of the dango.
    pub fn shortname(&self) -> (r: &'static str)
        ensures
            r@ == spec_shortname(self@.kind),
    {
        self.kind().shortname()
    }

    /// The number rolled for the current turn.
    pub fn get_n(&self) -> (r: usize)
        ensures
            r == self@.n,
    {
        self.state().n
    }

    /// Sets the number of the current turn.
    pub fn set_n(&mut self, n: usize)
        ensures
            final(self)@ == old(self)@.with_n(n),
    {
        let mut s = self.state();
        s.n = n;
        *self = Dango::from_state(s);
    }

    /// The bonus or malus of the next move (always `0` for the BuDaWang).
    pub fn get_extra(&self) -> (r: isize)
        ensures
            r == self@.extra,
    {
        self.state().extra
    }

    /// Sets the bonus of the next move; the BuDaWang ignores it.
    pub fn set_extra(&mut self, extra: isize)
        ensures
            final(self)@ == normalized(old(self)@.with_extra(extra)),
            old(self)@.kind == DangoKind::BuDaWang ==> final(self)@ == old(self)@,
            old(self)@.kind != DangoKind::BuDaWang ==> final(self)@ == old(self)@.with_extra(extra),
    {
        let mut s = self.state();
        s.extra = extra;
        *self = Dango::from_state(s);
    }

    /// (track cell, height in the stack).
    pub fn get_pos(&self) -> (r: (usize, usize))
        ensures
            r == self@.pos,
    {
        self.state().pos
    }

    /// Moves the dango's own record of where it is.
    pub fn set_pos(&mut self, pos: (usize, usize))
        ensures
            final(self)@ == old(self)@.with_pos(pos),
    {
        let mut s = self.state();
        s.pos = pos;
        *self = Dango::from_state(s);
    }

    /// How often the dango has crossed the finish line (always `0` for the BuDaWang).
    pub fn get_arrive_count(&self) -> (r: usize)
        ensures
            r == self@.arrive_count,
    {
        self.state().arrive_count
    }

    /// Counts one more crossing of the finish line; the BuDaWang ignores it.
    pub fn increase_arrive_count(&mut self)
        requires
            old(self)@.arrive_count < usize::MAX,
        ensures
            final(self)@ == normalized(old(self)@.with_arrive_count((old(self)@.arrive_count + 1) as usize)),
            old(self)@.kind == DangoKind::BuDaWang ==> final(self)@ == old(self)@,
    {
        let mut s = self.state();
        s.arrive_count = s.arrive_count + 1;
        *self = Dango::from_state(s);
    }

    /// How often the dango must reach the finish line (always `0` for the BuDaWang).
    pub fn get_target_arrive_count(&self) -> (r: usize)
        ensures
            r == self@.target_arrive_count,
    {
        self.state().target_arrive_count
    }

    /// Asks for one more crossing of the finish line; the BuDaWang ignores it.
    pub fn increase_target_arrive_count(&mut self)
        requires
            old(self)@.target_arrive_count < usize::MAX,
        ensures
            final(self)@ == normalized(
                old(self)@.with_target_arrive_count((old(self)@.target_arrive_count + 1) as usize),
            ),
            old(self)@.kind == DangoKind::BuDaWang ==> final(self)@ == old(self)@,
    {
        let mut s = self.state();
        s.target_arrive_count = s.target_arrive_count + 1;
        *self = Dango::from_state(s);
    }

    /// Clears the roll, the bonus and what the skill remembers.
    pub fn reset(&mut self)
        ensures
            final(self)@ == normalized(old(self)@.cleared()),
    {
        let mut s = self.state();
        s.n = 0;
        s.extra = 0;
        s.last_dice = 0;
        s.meeted = false;
        s.has_been_last = false;
        s.next_dice_index = 0;
        *self = Dango::from_state(s);
    }

    /// How far an accelerate cell pushes this dango.
    pub fn accelerate_step(&self) -> (r: usize)
        ensures
            r == spec_accelerate_step(self@.kind),
    {
        match self {
            Dango::LuukHerssen(_) => 4,
            _ => 1,
        }
    }

    /// How far a decelerate cell pulls this dango back.
    pub fn decelerate_step(&self) -> (r: usize)
        ensures
            r == spec_decelerate_step(self@.kind),
    {
        match self {
            Dango::LuukHerssen(_) => 2,
            _ => 1,
        }
    }

    /// A fresh BuDaWang.
    pub fn default_budawang() -> (d: Dango)
        ensures
            d@.kind == DangoKind::BuDaWang,
            d@.n == 0,
            d@.pos == ((TRACK_LEN - 1) as usize, 0usize),
            normalized(d@) == d@,
    {
        Dango::BuDaWang(budawang::default_budawang())
    }

    /// A BuDaWang with every field given.
    pub fn new_budawang(n: usize, pos: (usize, usize)) -> (d: Dango)
        ensures
            d@.kind == DangoKind::BuDaWang,
            d@.n == n,
            d@.pos == pos,
            normalized(d@) == d@,
    {
        Dango::BuDaWang(budawang::new_budawang(n, pos))
    }

    /// A fresh Cartethyia.
    pub fn default_cartethyia() -> (d: Dango)
        ensures
            d@.kind == DangoKind::Cartethyia,
            d@.n == 0,
            d@.pos == (0usize, 0usize),
            d@.extra == 0,
            d@.arrive_count == 0,
            d@.target_arrive_count == 1,
            d@.has_been_last == false,
            normalized(d@) == d@,
    {
        Dango::Cartethyia(cartethyia::default_cartethyia())
    }

    /// A Cartethyia with every field given.
    pub fn new_cartethyia(n: usize, pos: (usize, usize), extra: isize, arrive_count: usize, target_arrive_count: usize, has_been_last: bool) -> (d: Dango)
        ensures
            d@.kind == DangoKind::Cartethyia,
            d@.n == n,
            d@.pos == pos,
            d@.extra == extra,
            d@.arrive_count == arrive_count,
            d@.target_arrive_count == target_arrive_count,
            d@.has_been_last == has_been_last,
            normalized(d@) == d@,
    {
        Dango::Cartethyia(cartethyia::new_cartethyia(n, pos, extra, arrive_count, target_arrive_count, has_been_last))
    }

    /// A fresh Chisa.
    pub fn default_chisa() -> (d: Dango)
        ensures
            d@.kind == DangoKind::Chisa,
            d@.n == 0,
            d@.pos == (0usize, 0usize),
            d@.extra == 0,
            d@.arrive_count == 0,
            d@.target_arrive_count == 1,
            normalized(d@) == d@,
    {
        Dango::Chisa(chisa::default_chisa())
    }

    /// A Chisa with every field given.
    pub fn new_chisa(n: usize, pos: (usize, usize), extra: isize, arrive_count: usize, target_arrive_count: usize) -> (d: Dango)
        ensures
            d@.kind == DangoKind::Chisa,
            d@.n == n,
            d@.pos == pos,
            d@.extra == extra,
            d@.arrive_count == arrive_count,
            d@.target_arrive_count == target_arrive_count,
            normalized(d@) == d@,
    {
        Dango::Chisa(chisa::new_chisa(n, pos, extra, arrive_count, target_arrive_count))
    }

    /// A fresh Denia.
    pub fn default_denia() -> (d: Dango)
        ensures
            d@.kind == DangoKind::Denia,
            d@.n == 0,
            d@.pos == (0usize, 0usize),
            d@.extra == 0,
            d@.arrive_count == 0,
            d@.target_arrive_count == 1,
            d@.last_dice == 0,
            normalized(d@) == d@,
    {
        Dango::Denia(denia::default_denia())
    }

    /// A Denia with every field given.
    pub fn new_denia(n: usize, pos: (usize, usize), extra: isize, arrive_count: usize, target_arrive_count: usize, last_dice: usize) -> (d: Dango)
        ensures
            d@.kind == DangoKind::Denia,
            d@.n == n,
            d@.pos == pos,
            d@.extra == extra,
            d@.arrive_count == arrive_count,
            d@.target_arrive_count == target_arrive_count,
            d@.last_dice == last_dice,
            normalized(d@) == d@,
    {
        Dango::Denia(denia::new_denia(n, pos, extra, arrive_count, target_arrive_count, last_dice))
    }

    /// A fresh Hiyuki.
    pub fn default_hiyuki() -> (d: Dango)
        ensures
            d@.kind == DangoKind::Hiyuki,
            d@.n == 0,
            d@.pos == (0usize, 0usize),
            d@.extra == 0,
            d@.arrive_count == 0,
            d@.target_arrive_count == 1,
            d@.meeted == false,
            normalized(d@) == d@,
    {
        Dango::Hiyuki(hiyuki::default_hiyuki())
    }

    /// A Hiyuki with every field given.
    pub fn new_hiyuki(n: usize, pos: (usize, usize), extra: isize, arrive_count: usize, target_arrive_count: usize, meeted: bool) -> (d: Dango)
        ensures
            d@.kind == DangoKind::Hiyuki,
            d@.n == n,
            d@.pos == pos,
            d@.extra == extra,
            d@.arrive_count == arrive_count,
            d@.target_arrive_count == target_arrive_count,
            d@.meeted == meeted,
            normalized(d@) == d@,
    {
        Dango::Hiyuki(hiyuki::new_hiyuki(n, pos, extra, arrive_count, target_arrive_count, meeted))
    }

    /// A fresh LuukHerssen.
    pub fn default_luukherssen() -> (d: Dango)
        ensures
            d@.kind == DangoKind::LuukHerssen,
            d@.n == 0,
            d@.pos == (0usize, 0usize),
            d@.extra == 0,
            d@.arrive_count == 0,
            d@.target_arrive_count == 1,
            normalized(d@) == d@,
    {
        Dango::LuukHerssen(luukherssen::default_luukherssen())
    }

    /// A LuukHerssen with every field given.
    pub fn new_luukherssen(n: usize, pos: (usize, usize), extra: isize, arrive_count: usize, target_arrive_count: usize) -> (d: Dango)
        ensures
            d@.kind == DangoKind::LuukHerssen,
            d@.n == n,
            d@.pos == pos,
            d@.extra == extra,
            d@.arrive_count == arrive_count,
            d@.target_arrive_count == target_arrive_count,
            normalized(d@) == d@,
    {
        Dango::LuukHerssen(luukherssen::new_luukherssen(n, pos, extra, arrive_count, target_arrive_count))
    }

    /// A fresh Lynae.
    pub fn default_lynae() -> (d: Dango)
        ensures
            d@.kind == DangoKind::Lynae,
            d@.n == 0,
            d@.pos == (0usize, 0usize),
            d@.extra == 0,
            d@.arrive_count == 0,
            d@.target_arrive_count == 1,
            normalized(d@) == d@,
    {
        Dango::Lynae(lynae::default_lynae())
    }

    /// A Lynae with every field given.
    pub fn new_lynae(n: usize, pos: (usize, usize), extra: isize, arrive_count: usize, target_arrive_count: usize) -> (d: Dango)
        ensures
            d@.kind == DangoKind::Lynae,
            d@.n == n,
            d@.pos == pos,
            d@.extra == extra,
            d@.arrive_count == arrive_count,
            d@.target_arrive_count == target_arrive_count,
            normalized(d@) == d@,
    {
        Dango::Lynae(lynae::new_lynae(n, pos, extra, arrive_count, target_arrive_count))
    }

    /// A fresh Mornye.
    pub fn default_mornye() -> (d: Dango)
        ensures
            d@.kind == DangoKind::Mornye,
            d@.n == 0,
            d@.pos == (0usize, 0usize),
            d@.extra == 0,
            d@.arrive_count == 0,
            d@.target_arrive_count == 1,
            d@.next_dice_index == 0,
            normalized(d@) == d@,
    {
        Dango::Mornye(mornye::default_mornye())
    }

    /// A Mornye with every field given.
    pub fn new_mornye(n: usize, pos: (usize, usize), extra: isize, arrive_count: usize, target_arrive_count: usize, next_dice_index: usize) -> (d: Dango)
        ensures
            d@.kind == DangoKind::Mornye,
            d@.n == n,
            d@.pos == pos,
            d@.extra == extra,
            d@.arrive_count == arrive_count,
            d@.target_arrive_count == target_arrive_count,
            d@.next_dice_index == next_dice_index,
            normalized(d@) == d@,
    {
        Dango::Mornye(mornye::new_mornye(n, pos, extra, arrive_count, target_arrive_count, next_dice_index))
    }

    /// A fresh Phoebe.
    pub fn default_phoebe() -> (d: Dango)
        ensures
            d@.kind == DangoKind::Phoebe,
            d@.n == 0,
            d@.pos == (0usize, 0usize),
            d@.extra == 0,
            d@.arrive_count == 0,
            d@.target_arrive_count == 1,
            normalized(d@) == d@,
    {
        Dango::Phoebe(phoebe::default_phoebe())
    }

    /// A Phoebe with every field given.
    pub fn new_phoebe(n: usize, pos: (usize, usize), extra: isize, arrive_count: usize, target_arrive_count: usize) -> (d: Dango)
        ensures
            d@.kind == DangoKind::Phoebe,
            d@.n == n,
            d@.pos == pos,
            d@.extra == extra,
            d@.arrive_count == arrive_count,
            d@.target_arrive_count == target_arrive_count,
            normalized(d@) == d@,
    {
        Dango::Phoebe(phoebe::new_phoebe(n, pos, extra, arrive_count, target_arrive_count))
    }

    /// A fresh Sigrika.
    pub fn default_sigrika() -> (d: Dango)
        ensures
            d@.kind == DangoKind::Sigrika,
            d@.n == 0,
            d@.pos == (0usize, 0usize),
            d@.extra == 0,
            d@.arrive_count == 0,
            d@.target_arrive_count == 1,
            normalized(d@) == d@,
    {
        Dango::Sigrika(sigrika::default_sigrika())
    }

    /// A Sigrika with every field given.
    pub fn new_sigrika(n: usize, pos: (usize, usize), extra: isize, arrive_count: usize, target_arrive_count: usize) -> (d: Dango)
        ensures
            d@.kind == DangoKind::Sigrika,
            d@.n == n,
            d@.pos == pos,
            d@.extra == extra,
            d@.arrive_count == arrive_count,
            d@.target_arrive_count == target_arrive_count,
            normalized(d@) == d@,
    {
        Dango::Sigrika(sigrika::new_sigrika(n, pos, extra, arrive_count, target_arrive_count))
    }
}

impl PartialEq for Dango {
    /// Two dango are equal when they are of the same kind, have crossed the
    /// finish line equally often and stand at the same place.
    fn eq(&self, other: &Self) -> (r: bool) {
        let a = self.state();
        let b = other.state();
        a.kind == b.kind && a.arrive_count == b.arrive_count && a.pos.0 == b.pos.0 && a.pos.1
            == b.pos.1
    }
}

impl PartialEqSpecImpl for Dango {
    open spec fn obeys_eq_spec() -> bool {
        true
    }

    open spec fn eq_spec(&self, other: &Dango) -> bool {
        self@.kind == other@.kind && self@.arrive_count == other@.arrive_count && self@.pos
            == other@.pos
    }
}

/// `a` is behind `b`: it has crossed the finish line less often, or as often
/// and stands on an earlier cell, or on the same cell lower in the stack.
pub open spec fn behind(a: DangoState, b: DangoState) -> bool {
    ||| a.arrive_count < b.arrive_count
    ||| a.arrive_count == b.arrive_count && a.pos.0 < b.pos.0
    ||| a.arrive_count == b.arrive_count && a.pos.0 == b.pos.0 && a.pos.1 < b.pos.1
}

/// Whether `a` is behind `b` in the race.
pub fn is_behind(a: &Dango, b: &Dango) -> (r: bool)
    ensures
        r == behind(a@, b@),
{
    let sa = a.state();
    let sb = b.state();
    sa.arrive_count < sb.arrive_count || (sa.arrive_count == sb.arrive_count && (sa.pos.0 < sb.pos.0
        || (sa.pos.0 == sb.pos.0 && sa.pos.1 < sb.pos.1)))
}

/// The list runs from the leader to the last one.
pub open spec fn ranked(ds: Seq<Dango>) -> bool {
    forall|a: int, b: int| 0 <= a < b < ds.len() ==> !behind(#[trigger] ds[a]@, #[trigger] ds[b]@)
}

/// Orders the dango from the leader to the last one: by finish-line
/// crossings, then cell, then height, all descending.
pub fn sort_dangos(dangos: &mut Vec<Dango>)
    ensures
        final(dangos)@.to_multiset() == old(dangos)@.to_multiset(),
        final(dangos)@.len() == old(dangos)@.len(),
        ranked(final(dangos)@),
{
    let mut sorted: Vec<Dango> = Vec::new();
    let mut idx: usize = 0;
    assert(dangos@.take(0) =~= Seq::<Dango>::empty());
    assert(sorted@ =~= Seq::<Dango>::empty());
    while idx < dangos.len()
        invariant
            idx <= dangos@.len(),
            sorted@.to_multiset() == dangos@.take(idx as int).to_multiset(),
            sorted@.len() == idx,
            ranked(sorted@),
        decreases dangos@.len() - idx,
    {
        let d = dangos[idx];
        let mut p: usize = 0;
        while p < sorted.len() && !is_behind(&sorted[p], &d)
            invariant
                p <= sorted@.len(),
                forall|q: int| 0 <= q < p ==> !behind(#[trigger] sorted@[q]@, d@),
            decreases sorted@.len() - p,
        {
            p = p + 1;
        }
        let ghost before = sorted@;
        sorted.insert(p, d);
        proof {
            assert(dangos@.take(idx as int + 1) =~= dangos@.take(idx as int).push(d));
            assert(sorted@.to_multiset() == before.insert(p as int, d).to_multiset());
            vstd::seq_lib::to_multiset_insert(before, p as int, d);
            vstd::seq_lib::to_multiset_build(dangos@.take(idx as int), d);
            assert forall|a: int, b: int| 0 <= a < b < sorted@.len() implies !behind(
                #[trigger] sorted@[a]@,
                #[trigger] sorted@[b]@,
            ) by {
                if a < p && b == p {
                } else if a == p && b > p {
                    assert(sorted@[b] == before[b - 1]);
                    if p < before.len() {
                        assert(behind(before[p as int]@, d@));
                        if b - 1 > p {
                            assert(!behind(before[p as int]@, before[b - 1]@));
                        }
                    }
                } else if a < p && b > p {
                    assert(sorted@[b] == before[b - 1]);
                } else if a > p {
                    assert(sorted@[a] == before[a - 1]);
                    assert(sorted@[b] == before[b - 1]);
                }
            }
        }
        idx = idx + 1;
    }
    assert(dangos@.take(idx as int) =~= dangos@);
    *dangos = sorted;
}

/// The BuDaWang stands at the bottom of cell `k`.
pub open spec fn bud_at(c: Seq<Seq<DangoKind>>, k: int) -> bool {
    c[k].len() > 0 && c[k][0] == DangoKind::BuDaWang
}

/// The BuDaWang stands on one of the cells `from .. to`.
pub open spec fn bud_within(c: Seq<Seq<DangoKind>>, from: int, to: int) -> bool {
    exists|k: int| from <= k < to && #[trigger] bud_at(c, k)
}

/// Whether the BuDaWang stands (at the bottom, where it always is) on one of
/// the cells `from .. to`.
pub fn has_budawang(track: &Track, from: usize, to: usize) -> (r: bool)
    requires
        from <= to <= track@.len(),
    ensures
        r == bud_within(cells(track@), from as int, to as int),
{
    let mut k = from;
    while k < to
        invariant
            from <= k <= to <= track@.len(),
            forall|m: int| from <= m < k ==> !#[trigger] bud_at(cells(track@), m),
        decreases to - k,
    {
        assert(cells(track@)[k as int] == track@[k as int]@);
        if track[k].len() > 0 && track[k][0] == DangoKind::BuDaWang {
            assert(bud_at(cells(track@), k as int));
            return true;
        }
        k = k + 1;
    }
    false
}

/// Cells `from .. to` hold nobody but, perhaps, the BuDaWang.
pub open spec fn only_bud_within(c: Seq<Seq<DangoKind>>, from: int, to: int) -> bool {
    forall|k: int|
        from <= k < to ==> (#[trigger] c[k]).len() == 0 || (c[k].len() == 1 && c[k][0]
            == DangoKind::BuDaWang)
}

/// Whether cells `from .. to` hold nobody but, perhaps, the BuDaWang.
pub fn no_dango(track: &Track, from: usize, to: usize) -> (r: bool)
    requires
        from <= to <= track@.len(),
    ensures
        r == only_bud_within(cells(track@), from as int, to as int),
{
    let mut k = from;
    while k < to
        invariant
            from <= k <= to <= track@.len(),
            only_bud_within(cells(track@), from as int, k as int),
        decreases to - k,
    {
        assert(cells(track@)[k as int] == track@[k as int]@);
        let n = track[k].len();
        if !(n == 0 || (n == 1 && track[k][0] == DangoKind::BuDaWang)) {
            return false;
        }
        k = k + 1;
    }
    true
}

/// Whether the dango is the BuDaWang.
pub fn is_budawang(dango: &Dango) -> (r: bool)
    ensures
        r == (dango@.kind == DangoKind::BuDaWang),
{
    match dango {
        Dango::BuDaWang(_) => true,
        _ => false,
    }
}

} // verus!
