use vstd::prelude::*;

use crate::dangos::{behind, is_behind, Dango, DangoKind};

verus! {

/// Before each round, the two dango just ahead of it move 1 cell less.
#[derive(Debug, Clone, Copy)]
pub struct Sigrika {
    /// the number rolled for the current turn
    pub n: usize,
    /// (track cell, height in the stack)
    pub pos: (usize, usize),
    /// bonus or malus added to the next move
    pub extra: isize,
    /// how often it has crossed the finish line
    pub arrive_count: usize,
    /// how often it must reach the finish line
    pub target_arrive_count: usize,
}

impl Sigrika {
    /// A Sigrika at the start line that must reach the finish once.
    pub fn new() -> (r: Self)
        ensures
            r.n == 0,
            r.pos == (0usize, 0usize),
            r.extra == 0,
            r.arrive_count == 0,
            r.target_arrive_count == 1,
    {
        Sigrika {
            n: 0,
            pos: (0, 0),
            extra: 0,
            arrive_count: 0,
            target_arrive_count: 1,
        }
    }
}

impl Default for Sigrika {
    fn default() -> (r: Self)
        ensures
            r.n == 0,
            r.pos == (0usize, 0usize),
            r.extra == 0,
            r.arrive_count == 0,
            r.target_arrive_count == 1,
    {
        Sigrika::new()
    }
}

/// A Sigrika with every field given.
pub fn new_sigrika(
    n: usize,
    pos: (usize, usize),
    extra: isize,
    arrive_count: usize,
    target_arrive_count: usize,
) -> (r: Sigrika)
    ensures
        r.n == n,
        r.pos == pos,
        r.extra == extra,
        r.arrive_count == arrive_count,
        r.target_arrive_count == target_arrive_count,
{
    Sigrika {
        n,
        pos,
        extra,
        arrive_count,
        target_arrive_count,
    }
}

/// A Sigrika at the start line that must reach the finish once.
pub fn default_sigrika() -> (r: Sigrika)
    ensures
            r.n == 0,
            r.pos == (0usize, 0usize),
            r.extra == 0,
            r.arrive_count == 0,
            r.target_arrive_count == 1,
{
    Sigrika::default()
}

/// Dango `j` is ahead of the Sigrika at index `i` and can be marked by her:
/// it is neither the BuDaWang nor a Sigrika.
pub open spec fn ahead(ds: Seq<Dango>, i: int, j: int) -> bool {
    &&& 0 <= j < ds.len()
    &&& ds[j]@.kind != DangoKind::BuDaWang
    &&& ds[j]@.kind != DangoKind::Sigrika
    &&& behind(ds[i]@, ds[j]@)
}

/// Dango `j` is, besides dango `skip`, the nearest one ahead of her.
pub open spec fn nearest_ahead(ds: Seq<Dango>, i: int, j: int, skip: int) -> bool {
    &&& ahead(ds, i, j)
    &&& j != skip
    &&& forall|k: int| #[trigger] ahead(ds, i, k) && k != skip ==> !behind(ds[k]@, ds[j]@)
}

/// `a` and `b` are the dango she marks (`-1` for none): the nearest one
/// ahead of her and the nearest one after it, as far as there are any.
pub open spec fn marks(ds: Seq<Dango>, i: int, a: int, b: int) -> bool {
    &&& a < 0 ==> forall|k: int| !#[trigger] ahead(ds, i, k)
    &&& a >= 0 ==> nearest_ahead(ds, i, a, -1)
    &&& b < 0 ==> forall|k: int| !(#[trigger] ahead(ds, i, k) && k != a)
    &&& b >= 0 ==> a >= 0 && nearest_ahead(ds, i, b, a)
}

/// The nearest dango ahead of the Sigrika at index `i`, besides `skip`.
fn nearest(ds: &Vec<Dango>, i: usize, skip: Option<usize>) -> (r: Option<usize>)
    requires
        i < ds@.len(),
    ensures
        r matches Some(j) ==> nearest_ahead(
            ds@,
            i as int,
            j as int,
            match skip {
                Some(s) => s as int,
                None => -1,
            },
        ),
        r is None ==> forall|k: int|
            !(#[trigger] ahead(ds@, i as int, k) && k != match skip {
                Some(s) => s as int,
                None => -1,
            }),
{
    let ghost sk: int = match skip {
        Some(s) => s as int,
        None => -1,
    };
    let mut best: Option<usize> = None;
    let mut j: usize = 0;
    while j < ds.len()
        invariant
            j <= ds@.len(),
            i < ds@.len(),
            sk == match skip {
                Some(s) => s as int,
                None => -1,
            },
            best matches Some(bb) ==> bb < j && ahead(ds@, i as int, bb as int) && bb != sk
                && forall|k: int|
                0 <= k < j && #[trigger] ahead(ds@, i as int, k) && k != sk ==> !behind(
                    ds@[k]@,
                    ds@[bb as int]@,
                ),
            best is None ==> forall|k: int| 0 <= k < j ==> !(#[trigger] ahead(ds@, i as int, k) && k != sk),
        decreases ds@.len() - j,
    {
        let k = ds[j].kind();
        let skipped = match skip {
            Some(s) => s == j,
            None => false,
        };
        if k != DangoKind::BuDaWang && k != DangoKind::Sigrika && !skipped && is_behind(&ds[i], &ds[j]) {
            let better = match best {
                Some(bb) => is_behind(&ds[j], &ds[bb]),
                None => true,
            };
            if better {
                best = Some(j);
            }
        }
        j = j + 1;
    }
    proof {
        if let Some(bb) = best {
            assert forall|k: int| #[trigger] ahead(ds@, i as int, k) && k != sk implies !behind(
                ds@[k]@,
                ds@[bb as int]@,
            ) by {}
        }
    }
    best
}

/// Before each round Sigrika (index `i`) marks the nearest two dango ahead of
/// her (the BuDaWang and Sigrika aside): each of them moves one cell less.
pub fn before_run(ds: &mut Vec<Dango>, i: usize)
    requires
        i < old(ds)@.len(),
        old(ds)@[i as int]@.kind == DangoKind::Sigrika,
        forall|j: int| 0 <= j < old(ds)@.len() ==> (#[trigger] old(ds)@[j])@.extra > isize::MIN,
    ensures
        final(ds)@.len() == old(ds)@.len(),
        exists|a: int, b: int|
            #[trigger] marks(old(ds)@, i as int, a, b) && forall|j: int|
                0 <= j < old(ds)@.len() ==> (#[trigger] final(ds)@[j])@ == if j == a || j == b {
                    old(ds)@[j]@.with_extra((old(ds)@[j]@.extra - 1) as isize)
                } else {
                    old(ds)@[j]@
                },
{
    let ghost orig = ds@;
    let first = nearest(ds, i, None);
    let ghost mut a: int = -1;
    let ghost mut b: int = -1;
    match first {
        Some(fa) => {
            let second = nearest(ds, i, Some(fa));
            proof {
                a = fa as int;
            }
            let e = ds[fa].get_extra();
            ds[fa].set_extra(e - 1);
            match second {
                Some(sb) => {
                    proof {
                        b = sb as int;
                    }
                    let e2 = ds[sb].get_extra();
                    ds[sb].set_extra(e2 - 1);
                },
                None => {},
            }
        },
        None => {},
    }
    assert(marks(orig, i as int, a, b));
}

} // verus!
