use vstd::prelude::*;
use vstd::multiset::Multiset;
use vstd::seq_lib::{lemma_flatten_concat, lemma_multiset_commutative};

use crate::dangos::{Dango, DangoKind, DangoState};

verus! {

broadcast use {vstd::multiset::group_multiset_axioms, vstd::seq_lib::group_to_multiset_ensures};

/// Number of cells on the circular track; cell `TRACK_LEN - 1` is the finish.
pub const TRACK_LEN: usize = 32;

/// The effect a cell has on whoever lands on it.
#[derive(Debug, Clone, Copy, PartialEq, Eq, Structural)]
pub enum PointType {
    Accelerate,
    Decelerate,
    Hole,
    Common,
}

/// What each cell of the track does.
pub type TrackMap = [PointType; TRACK_LEN];

impl PointType {
    /// One-letter label of the cell type.
    pub fn shortname(&self) -> (r: &'static str)
        ensures
            r@ == match *self {
                PointType::Accelerate => "A"@,
                PointType::Decelerate => "D"@,
                PointType::Hole => "H"@,
                PointType::Common => "C"@,
            },
    {
        match self {
            PointType::Accelerate => "A",
            PointType::Decelerate => "D",
            PointType::Hole => "H",
            PointType::Common => "C",
        }
    }
}

/// The map of the event: which cells accelerate, decelerate or are holes.
pub open spec fn spec_init_map(i: int) -> PointType {
    if i == 2 || i == 10 || i == 15 || i == 22 {
        PointType::Accelerate
    } else if i == 9 || i == 27 {
        PointType::Decelerate
    } else if i == 5 || i == 19 {
        PointType::Hole
    } else {
        PointType::Common
    }
}

/// A cell that neither pushes nor pulls.
pub open spec fn plain(t: PointType) -> bool {
    t == PointType::Common || t == PointType::Hole
}

/// A map the BuDaWang can walk: the start cell and the finish cell are plain
/// or holes, an accelerate cell is followed and a decelerate cell preceded by
/// a plain cell or a hole.
pub open spec fn valid_map(m: Seq<PointType>) -> bool {
    &&& m.len() == TRACK_LEN
    &&& plain(m[0])
    &&& plain(m[TRACK_LEN - 1])
    &&& forall|k: int, j: int|
        #![trigger m[k], m[j]]
        0 <= k < TRACK_LEN && j == k + 1 && m[k] == PointType::Accelerate ==> j < TRACK_LEN && plain(m[j])
    &&& forall|k: int, j: int|
        #![trigger m[k], m[j]]
        0 <= k < TRACK_LEN && j == k - 1 && m[k] == PointType::Decelerate ==> 0 <= j && plain(m[j])
}

/// Builds the event map.
pub fn init_map() -> (map: TrackMap)
    ensures
        forall|i: int| 0 <= i < TRACK_LEN ==> map@[i] == spec_init_map(i),
        valid_map(map@),
{
    let mut points = [PointType::Common; TRACK_LEN];
    points[2] = PointType::Accelerate;
    points[5] = PointType::Hole;
    points[9] = PointType::Decelerate;
    points[10] = PointType::Accelerate;
    points[15] = PointType::Accelerate;
    points[19] = PointType::Hole;
    points[22] = PointType::Accelerate;
    points[27] = PointType::Decelerate;
    assert(forall|i: int| 0 <= i < TRACK_LEN ==> points@[i] == spec_init_map(i));
    points
}


/// The dango standing on one cell, from the bottom of the stack upward.
pub type Point = Vec<DangoKind>;

/// The cells of the track, each with its stack.
pub type Track = Vec<Point>;

/// The track at the start: everyone stacked on the start cell, the first to
/// act on top.
pub open spec fn start_cells(ds: Seq<Dango>) -> Seq<Seq<DangoKind>> {
    Seq::new(
        TRACK_LEN as nat,
        |k: int|
            if k == 0 {
                kinds(ds).reverse()
            } else {
                Seq::<DangoKind>::empty()
            },
    )
}

/// The start track agrees with a list of dango of distinct kinds whose
/// heights run down from the first to the last.
pub proof fn lemma_start_wf(ds: Seq<Dango>, c: Seq<Seq<DangoKind>>)
    requires
        c == start_cells(ds),
        ds.len() <= usize::MAX,
        kinds(ds).no_duplicates(),
        forall|m: int| 0 <= m < ds.len() ==> (#[trigger] ds[m])@.pos == (0usize, (ds.len() - 1 - m) as usize),
    ensures
        field_wf(ds, c),
{
    lemma_flatten_split(c, 0);
    lemma_flatten_empties(c.skip(1));
    assert(c.take(0).flatten() =~= Seq::<DangoKind>::empty());
    assert(c.flatten() =~= kinds(ds).reverse());
    kinds(ds).lemma_reverse_to_multiset();
    assert forall|m: int| 0 <= m < ds.len() implies placed(#[trigger] ds[m]@, c) by {
        assert(c[0] == kinds(ds).reverse());
        assert(kinds(ds).reverse()[ds.len() - 1 - m] == kinds(ds)[m]);
        assert(kinds(ds)[m] == ds[m]@.kind);
    }
}

/// The track at the start: everyone on the start cell, stacked in the
/// reverse of the order in which they act.
pub fn init_track(dangos: &Vec<Dango>) -> (track: Track)
    ensures
        cells(track@) == start_cells(dangos@),
{
    let mut start: Point = Vec::new();
    let mut j = dangos.len();
    while j > 0
        invariant
            j <= dangos@.len(),
            start@ == kinds(dangos@).reverse().take((dangos@.len() - j) as int),
        decreases j,
    {
        j = j - 1;
        let ghost before = start@;
        start.push(dangos[j].kind());
        assert(kinds(dangos@).reverse().take((dangos@.len() - j) as int) =~= before.push(kinds(dangos@)[j as int]));
    }
    assert(kinds(dangos@).reverse().take(dangos@.len() as int) =~= kinds(dangos@).reverse());
    let mut track: Track = Vec::new();
    track.push(start);
    let mut k: usize = 1;
    while k < TRACK_LEN
        invariant
            1 <= k <= TRACK_LEN,
            track@.len() == k,
            track@[0]@ == kinds(dangos@).reverse(),
            forall|m: int| 1 <= m < k ==> (#[trigger] track@[m])@ == Seq::<DangoKind>::empty(),
        decreases TRACK_LEN - k,
    {
        track.push(Vec::new());
        k = k + 1;
    }
    assert(cells(track@) =~= start_cells(dangos@));
    track
}

/// The stacks of the track as sequences.
pub open spec fn cells(t: Seq<Point>) -> Seq<Seq<DangoKind>> {
    t.map_values(|c: Point| c@)
}

/// Everyone on the track, counted with multiplicity.
pub open spec fn occupants(c: Seq<Seq<DangoKind>>) -> Multiset<DangoKind> {
    c.flatten().to_multiset()
}

/// The kinds of a list of dango, in order.
pub open spec fn kinds(ds: Seq<Dango>) -> Seq<DangoKind> {
    ds.map_values(|d: Dango| d@.kind)
}

/// The dango stands where it believes it stands.
pub open spec fn placed(s: DangoState, c: Seq<Seq<DangoKind>>) -> bool {
    &&& s.pos.0 < c.len()
    &&& s.pos.1 < c[s.pos.0 as int].len()
    &&& c[s.pos.0 as int][s.pos.1 as int] == s.kind
}

/// The track and the dango agree: the track has `TRACK_LEN` cells, no two
/// dango share a kind, each of them stands on the track exactly once and
/// nothing else does, and each knows its own cell and height.
pub open spec fn field_wf(ds: Seq<Dango>, c: Seq<Seq<DangoKind>>) -> bool {
    &&& c.len() == TRACK_LEN
    &&& kinds(ds).no_duplicates()
    &&& occupants(c) == kinds(ds).to_multiset()
    &&& forall|i: int| 0 <= i < ds.len() ==> placed(#[trigger] ds[i]@, c)
}

/// Splitting the flattening of a track around one cell.
pub proof fn lemma_flatten_split<A>(t: Seq<Seq<A>>, i: int)
    requires
        0 <= i < t.len(),
    ensures
        t.flatten() == t.take(i).flatten() + t[i] + t.skip(i + 1).flatten(),
{
    let r = seq![t[i]] + t.skip(i + 1);
    assert(t =~= t.take(i) + r);
    lemma_flatten_concat(t.take(i), r);
    assert(r.drop_first() =~= t.skip(i + 1));
    assert(r.flatten() == r.first() + r.drop_first().flatten());
    assert(t.take(i).flatten() + (t[i] + t.skip(i + 1).flatten()) =~= t.take(i).flatten() + t[i]
        + t.skip(i + 1).flatten());
}

/// The flattening of the first `i + 1` cells extends that of the first `i` by cell `i`.
pub proof fn lemma_flatten_take_step<A>(t: Seq<Seq<A>>, i: int)
    requires
        0 <= i < t.len(),
    ensures
        t.take(i + 1).flatten() == t.take(i).flatten() + t[i],
{
    let s = t.take(i + 1);
    lemma_flatten_split(s, i);
    assert(s.take(i) =~= t.take(i));
    assert(s.skip(i + 1) =~= Seq::<Seq<A>>::empty());
    assert(s.skip(i + 1).flatten() =~= Seq::<A>::empty());
    assert(t.take(i).flatten() + t[i] + Seq::<A>::empty() =~= t.take(i).flatten() + t[i]);
}

/// Replacing one cell exchanges its occupants for the new ones.
pub proof fn lemma_occupants_update<A>(t: Seq<Seq<A>>, i: int, s: Seq<A>)
    requires
        0 <= i < t.len(),
    ensures
        t.flatten().to_multiset().add(s.to_multiset()) == t.update(i, s).flatten().to_multiset().add(
            t[i].to_multiset(),
        ),
{
    let u = t.update(i, s);
    lemma_flatten_split(t, i);
    lemma_flatten_split(u, i);
    assert(u.take(i) =~= t.take(i));
    assert(u.skip(i + 1) =~= t.skip(i + 1));
    let a = t.take(i).flatten();
    let b = t.skip(i + 1).flatten();
    lemma_multiset_commutative(a + t[i], b);
    lemma_multiset_commutative(a, t[i]);
    lemma_multiset_commutative(a + s, b);
    lemma_multiset_commutative(a, s);
    assert(t.flatten().to_multiset().add(s.to_multiset()) =~= u.flatten().to_multiset().add(
        t[i].to_multiset(),
    ));
}

/// Whatever the flattening holds stands in some cell.
pub proof fn lemma_flatten_contains<A>(t: Seq<Seq<A>>, a: A)
    requires
        t.flatten().contains(a),
    ensures
        exists|x: int, y: int| 0 <= x < t.len() && 0 <= y < t[x].len() && t[x][y] == a,
    decreases t.len(),
{
    if t.len() == 0 {
        assert(t.flatten() =~= Seq::<A>::empty());
    } else {
        let k = choose|k: int| 0 <= k < t.flatten().len() && t.flatten()[k] == a;
        assert(t.flatten() == t.first() + t.drop_first().flatten());
        if k < t.first().len() {
            assert(t[0][k] == a);
        } else {
            assert(t.drop_first().flatten()[k - t.first().len()] == a);
            lemma_flatten_contains(t.drop_first(), a);
            let (x, y) = choose|x: int, y: int|
                0 <= x < t.drop_first().len() && 0 <= y < t.drop_first()[x].len()
                    && t.drop_first()[x][y] == a;
            assert(t[x + 1][y] == a);
        }
    }
}

/// Whatever stands in a cell is in the flattening.
pub proof fn lemma_cell_in_flatten<A>(t: Seq<Seq<A>>, x: int, y: int)
    requires
        0 <= x < t.len(),
        0 <= y < t[x].len(),
    ensures
        t.flatten().contains(t[x][y]),
{
    lemma_flatten_split(t, x);
    let a = t.take(x).flatten();
    assert(t.flatten()[a.len() + y] == t[x][y]);
}

/// Where cell `x`, height `y` lands in the flattening.
pub proof fn lemma_flatten_index<A>(t: Seq<Seq<A>>, x: int, y: int)
    requires
        0 <= x < t.len(),
        0 <= y < t[x].len(),
    ensures
        t.take(x).flatten().len() + y < t.flatten().len(),
        t.flatten()[t.take(x).flatten().len() + y] == t[x][y],
{
    lemma_flatten_split(t, x);
}

/// Later cells start further on in the flattening.
pub proof fn lemma_flatten_offset_grows<A>(t: Seq<Seq<A>>, x1: int, x2: int)
    requires
        0 <= x1 < x2 <= t.len(),
    ensures
        t.take(x1).flatten().len() + t[x1].len() <= t.take(x2).flatten().len(),
    decreases x2 - x1,
{
    lemma_flatten_take_step(t, x1);
    if x2 > x1 + 1 {
        lemma_flatten_take_step(t, x2 - 1);
        lemma_flatten_offset_grows(t, x1, x2 - 1);
    }
}

/// When nobody stands twice on the track, one kind has one place.
pub proof fn lemma_single_place(c: Seq<Seq<DangoKind>>, x1: int, y1: int, x2: int, y2: int)
    requires
        c.flatten().no_duplicates(),
        0 <= x1 < c.len(),
        0 <= y1 < c[x1].len(),
        0 <= x2 < c.len(),
        0 <= y2 < c[x2].len(),
        c[x1][y1] == c[x2][y2],
    ensures
        x1 == x2 && y1 == y2,
{
    lemma_flatten_index(c, x1, y1);
    lemma_flatten_index(c, x2, y2);
    if x1 < x2 {
        lemma_flatten_offset_grows(c, x1, x2);
    } else if x2 < x1 {
        lemma_flatten_offset_grows(c, x2, x1);
    }
}

/// In a well-formed field nobody stands twice on the track.
pub proof fn lemma_wf_no_duplicates(ds: Seq<Dango>, c: Seq<Seq<DangoKind>>)
    requires
        field_wf(ds, c),
    ensures
        c.flatten().no_duplicates(),
{
    kinds(ds).lemma_multiset_has_no_duplicates();
    assert forall|x: DangoKind| c.flatten().to_multiset().contains(x) implies c.flatten().to_multiset().count(x)
        == 1 by {
        assert(kinds(ds).to_multiset().contains(x));
    }
    c.flatten().lemma_multiset_has_no_duplicates_conv();
}

/// A track of empty cells holds nobody.
pub proof fn lemma_flatten_empties<A>(t: Seq<Seq<A>>)
    requires
        forall|k: int| 0 <= k < t.len() ==> (#[trigger] t[k]).len() == 0,
    ensures
        t.flatten() == Seq::<A>::empty(),
    decreases t.len(),
{
    if t.len() > 0 {
        lemma_flatten_empties(t.drop_first());
        assert(t.flatten() =~= t.first() + t.drop_first().flatten());
    }
}

/// Rearranging the list of dango rearranges their kinds.
pub proof fn lemma_kinds_permuted(s1: Seq<Dango>, s2: Seq<Dango>)
    requires
        s1.to_multiset() == s2.to_multiset(),
    ensures
        kinds(s1).to_multiset() == kinds(s2).to_multiset(),
    decreases s1.len(),
{
    vstd::seq_lib::to_multiset_len(s1);
    vstd::seq_lib::to_multiset_len(s2);
    if s1.len() == 0 {
        assert(s2.len() == 0);
        assert(kinds(s1) =~= kinds(s2));
    } else {
        let x = s1.last();
        assert(s1.to_multiset().count(x) > 0) by {
            assert(s1.contains(x)) by {
                assert(s1[s1.len() - 1] == x);
            }
        }
        assert(s2.contains(x));
        let j = choose|j: int| 0 <= j < s2.len() && s2[j] == x;
        let r1 = s1.drop_last();
        let r2 = s2.remove(j);
        assert(s1 =~= r1.push(x));
        assert(r1.to_multiset() =~= s2.to_multiset().remove(x)) by {
            assert(s1.to_multiset() == r1.to_multiset().insert(x));
        }
        assert(r2.to_multiset() == s2.to_multiset().remove(x));
        lemma_kinds_permuted(r1, r2);
        assert(kinds(s1) =~= kinds(r1).push(x@.kind));
        assert(kinds(s2) =~= kinds(r2).insert(j, x@.kind));
        assert(kinds(s1).to_multiset() == kinds(r1).to_multiset().insert(x@.kind));
        assert(kinds(s2).to_multiset() == kinds(r2).to_multiset().insert(x@.kind));
    }
}

/// Rearranging the list of dango keeps the field well formed.
pub proof fn lemma_wf_permuted(ds1: Seq<Dango>, ds2: Seq<Dango>, c: Seq<Seq<DangoKind>>)
    requires
        field_wf(ds1, c),
        ds2.to_multiset() == ds1.to_multiset(),
    ensures
        field_wf(ds2, c),
        kinds(ds2).to_multiset() == kinds(ds1).to_multiset(),
{
    lemma_kinds_permuted(ds2, ds1);
    kinds(ds1).lemma_multiset_has_no_duplicates();
    assert forall|x: DangoKind| kinds(ds2).to_multiset().contains(x) implies kinds(ds2).to_multiset().count(x)
        == 1 by {
        assert(kinds(ds1).to_multiset().contains(x));
    }
    kinds(ds2).lemma_multiset_has_no_duplicates_conv();
    assert forall|j: int| 0 <= j < ds2.len() implies placed(#[trigger] ds2[j]@, c) by {
        assert(ds2.to_multiset().count(ds2[j]) > 0) by {
            assert(ds2.contains(ds2[j]));
        }
        assert(ds1.contains(ds2[j]));
        let k = choose|k: int| 0 <= k < ds1.len() && ds1[k] == ds2[j];
        assert(placed(ds1[k]@, c));
    }
}

/// Lifts the part of the stack on cell `x` from height `y` upward off the track.
pub fn take_stack(track: &mut Track, x: usize, y: usize) -> (tail: Point)
    requires
        x < old(track)@.len(),
        y <= old(track)@[x as int]@.len(),
    ensures
        cells(final(track)@) == cells(old(track)@).update(x as int, old(track)@[x as int]@.take(y as int)),
        tail@ == old(track)@[x as int]@.skip(y as int),
        occupants(cells(final(track)@)).add(tail@.to_multiset()) == occupants(cells(old(track)@)),
{
    let ghost c = cells(track@);
    let tail = track[x].split_off(y);
    assert(cells(track@) =~= c.update(x as int, c[x as int].take(y as int)));
    proof {
        let cx = c[x as int];
        lemma_occupants_update(c, x as int, cx.take(y as int));
        assert(cx.take(y as int) + cx.skip(y as int) =~= cx);
        lemma_multiset_commutative(cx.take(y as int), cx.skip(y as int));
        let c1 = cells(track@);
        let tk = cx.take(y as int).to_multiset();
        let sk = cx.skip(y as int).to_multiset();
        assert forall|v: DangoKind| #[trigger] occupants(c1).add(sk).count(v) == occupants(c).count(v) by {
            assert(occupants(c).add(tk).count(v) == occupants(c1).add(cx.to_multiset()).count(v));
            assert(cx.to_multiset().count(v) == tk.count(v) + sk.count(v));
        }
        assert(occupants(c1).add(sk) =~= occupants(c));
    }
    tail
}

/// Puts a stack on top of cell `x`.
pub fn put_stack(track: &mut Track, x: usize, stack: Point)
    requires
        x < old(track)@.len(),
    ensures
        cells(final(track)@) == cells(old(track)@).update(x as int, old(track)@[x as int]@ + stack@),
        occupants(cells(final(track)@)) == occupants(cells(old(track)@)).add(stack@.to_multiset()),
{
    let ghost c = cells(track@);
    let ghost added = stack@;
    let mut stack = stack;
    track[x].append(&mut stack);
    assert(cells(track@) =~= c.update(x as int, c[x as int] + added));
    proof {
        lemma_occupants_update(c, x as int, c[x as int] + added);
        lemma_multiset_commutative(c[x as int], added);
        let c1 = cells(track@);
        let old_ms = c[x as int].to_multiset();
        let add_ms = added.to_multiset();
        assert forall|v: DangoKind| #[trigger] occupants(c1).count(v) == occupants(c).add(add_ms).count(v) by {
            assert(occupants(c).add((c[x as int] + added).to_multiset()).count(v) == occupants(c1).add(
                old_ms,
            ).count(v));
            assert((c[x as int] + added).to_multiset().count(v) == old_ms.count(v) + add_ms.count(v));
        }
        assert(occupants(c1) =~= occupants(c).add(add_ms));
    }
}

/// Moves the whole stack of cell `from` on top of cell `to`.
pub fn merge_cells(track: &mut Track, from: usize, to: usize)
    requires
        from < old(track)@.len(),
        to < old(track)@.len(),
        from != to,
    ensures
        cells(final(track)@) == cells(old(track)@).update(
            to as int,
            old(track)@[to as int]@ + old(track)@[from as int]@,
        ).update(from as int, Seq::<DangoKind>::empty()),
        occupants(cells(final(track)@)) == occupants(cells(old(track)@)),
{
    let ghost c = cells(track@);
    let stack = take_stack(track, from, 0);
    assert(stack@ =~= c[from as int]);
    assert(c[from as int].take(0) =~= Seq::<DangoKind>::empty());
    let ghost c1 = cells(track@);
    assert(c1[to as int] == c[to as int]);
    put_stack(track, to, stack);
    assert(cells(track@) == c1.update(to as int, c[to as int] + c[from as int]));
    assert(cells(track@) =~= c.update(to as int, c[to as int] + c[from as int]).update(
        from as int,
        Seq::<DangoKind>::empty(),
    ));
    assert forall|v: DangoKind| #[trigger] occupants(cells(track@)).count(v) == occupants(c).count(v) by {
        assert(occupants(c1).add(stack@.to_multiset()).count(v) == occupants(c).count(v));
    }
    assert(occupants(cells(track@)) =~= occupants(c));
}

/// Whether the stack holds a dango of kind `k`.
pub fn point_contains(point: &Point, k: DangoKind) -> (r: bool)
    ensures
        r == point@.contains(k),
{
    let mut j: usize = 0;
    while j < point.len()
        invariant
            j <= point@.len(),
            forall|m: int| 0 <= m < j ==> point@[m] != k,
        decreases point@.len() - j,
    {
        if point[j] == k {
            return true;
        }
        j = j + 1;
    }
    false
}

/// Where in the list the dango of kind `k` is, if it is there.
pub fn find_kind(ds: &Vec<Dango>, k: DangoKind) -> (r: Option<usize>)
    ensures
        r matches Some(i) ==> i < ds@.len() && ds@[i as int]@.kind == k,
        r is None ==> !kinds(ds@).contains(k),
{
    let mut j: usize = 0;
    while j < ds.len()
        invariant
            j <= ds@.len(),
            forall|m: int| 0 <= m < j ==> ds@[m]@.kind != k,
        decreases ds@.len() - j,
    {
        if ds[j].kind() == k {
            return Some(j);
        }
        j = j + 1;
    }
    proof {
        if kinds(ds@).contains(k) {
            let m = choose|m: int| 0 <= m < kinds(ds@).len() && kinds(ds@)[m] == k;
            assert(ds@[m]@.kind == k);
        }
    }
    None
}

/// Tells every dango standing on the track its cell and height; the others
/// keep their record.
pub fn reindex_all(ds: &mut Vec<Dango>, track: &Track)
    requires
        kinds(old(ds)@).no_duplicates(),
    ensures
        final(ds)@.len() == old(ds)@.len(),
        forall|i: int|
            0 <= i < old(ds)@.len() ==> (#[trigger] final(ds)@[i])@ == old(ds)@[i]@.with_pos(
                final(ds)@[i]@.pos,
            ),
        forall|i: int|
            0 <= i < old(ds)@.len() && cells(track@).flatten().contains(old(ds)@[i]@.kind)
                ==> placed(#[trigger] final(ds)@[i]@, cells(track@)),
        forall|i: int|
            0 <= i < old(ds)@.len() && !cells(track@).flatten().contains(old(ds)@[i]@.kind)
                ==> #[trigger] final(ds)@[i]@ == old(ds)@[i]@,
{
    let ghost c = cells(track@);
    let ghost orig = ds@;
    let mut x: usize = 0;
    while x < track.len()
        invariant
            c == cells(track@),
            x <= c.len(),
            ds@.len() == orig.len(),
            kinds(orig).no_duplicates(),
            forall|i: int| 0 <= i < orig.len() ==> (#[trigger] ds@[i])@ == orig[i]@.with_pos(ds@[i]@.pos),
            forall|i: int|
                0 <= i < orig.len() && c.take(x as int).flatten().contains(orig[i]@.kind) ==> placed(
                    #[trigger] ds@[i]@,
                    c,
                ),
            forall|i: int|
                0 <= i < orig.len() && !c.take(x as int).flatten().contains(orig[i]@.kind)
                    ==> #[trigger] ds@[i]@ == orig[i]@,
        decreases c.len() - x,
    {
        let mut y: usize = 0;
        let ghost seen = c.take(x as int).flatten();
        while y < track[x].len()
            invariant
                c == cells(track@),
                x < c.len(),
                y <= c[x as int].len(),
                seen == c.take(x as int).flatten(),
                ds@.len() == orig.len(),
                kinds(orig).no_duplicates(),
                forall|i: int|
                    0 <= i < orig.len() ==> (#[trigger] ds@[i])@ == orig[i]@.with_pos(ds@[i]@.pos),
                forall|i: int|
                    0 <= i < orig.len() && (seen + c[x as int].take(y as int)).contains(orig[i]@.kind)
                        ==> placed(#[trigger] ds@[i]@, c),
                forall|i: int|
                    0 <= i < orig.len() && !(seen + c[x as int].take(y as int)).contains(
                        orig[i]@.kind,
                    ) ==> #[trigger] ds@[i]@ == orig[i]@,
            decreases c[x as int].len() - y,
        {
            let k = track[x][y];
            assert(c[x as int][y as int] == k);
            let ghost pre = seen + c[x as int].take(y as int);
            let ghost before = ds@;
            assert(c[x as int].take(y as int + 1) =~= c[x as int].take(y as int).push(k));
            assert(seen + c[x as int].take(y as int + 1) =~= pre.push(k));
            assert(kinds(before) =~= kinds(orig));
            let found = find_kind(ds, k);
            match found {
                Some(j) => {
                    ds[j].set_pos((x, y));
                    assert(ds@[j as int]@ == before[j as int]@.with_pos((x, y)));
                    assert(placed(ds@[j as int]@, c));
                },
                None => {},
            }
            assert(found matches Some(j) ==> placed(ds@[j as int]@, c) && ds@[j as int]@.kind == k);
            assert(forall|m: int| 0 <= m < ds@.len() && !(found matches Some(j) && j == m) ==> ds@[m] == before[m]);
            assert(forall|m: int| 0 <= m < ds@.len() && pre.contains(orig[m]@.kind) ==> placed(before[m]@, c));
            proof {
                assert forall|i: int| 0 <= i < orig.len() && pre.push(k).contains(orig[i]@.kind) implies placed(
                    #[trigger] ds@[i]@,
                    c,
                ) by {
                    if pre.contains(orig[i]@.kind) {
                        if found matches Some(j) && j == i {
                        } else {
                            assert(ds@[i] == before[i]);
                        }
                    } else {
                        let m = choose|m: int| 0 <= m < pre.push(k).len() && pre.push(k)[m] == orig[i]@.kind;
                        if m < pre.len() {
                            assert(pre[m] == orig[i]@.kind);
                        }
                        assert(orig[i]@.kind == k);
                        match found {
                            Some(j) => {
                                assert(kinds(orig)[j as int] == kinds(orig)[i]);
                                assert(j == i);
                            },
                            None => {
                                assert(kinds(orig)[i] == k);
                                assert(kinds(before).contains(k));
                            },
                        }
                    }
                }
                assert forall|i: int| 0 <= i < orig.len() && !pre.push(k).contains(orig[i]@.kind) implies #[trigger] ds@[i]@
                    == orig[i]@ by {
                    assert(!pre.contains(orig[i]@.kind)) by {
                        if pre.contains(orig[i]@.kind) {
                            let m = choose|m: int| 0 <= m < pre.len() && pre[m] == orig[i]@.kind;
                            assert(pre.push(k)[m] == orig[i]@.kind);
                        }
                    }
                    match found {
                        Some(j) => {
                            if j == i {
                                assert(pre.push(k)[pre.len() as int] == k);
                            }
                        },
                        None => {},
                    }
                }
            }
            y = y + 1;
        }
        proof {
            lemma_flatten_take_step(c, x as int);
            assert(c[x as int].take(y as int) =~= c[x as int]);
        }
        x = x + 1;
    }
    assert(c.take(x as int) =~= c);
}

/// The dango of kind `k` in the list.
pub open spec fn dango_of(ds: Seq<Dango>, k: DangoKind) -> Dango {
    ds[choose|j: int| 0 <= j < ds.len() && (#[trigger] ds[j])@.kind == k]
}

/// Looking a kind up in the list.
pub open spec fn lookup(ds: Seq<Dango>) -> spec_fn(DangoKind) -> Dango {
    |k: DangoKind| dango_of(ds, k)
}

/// Looking up each dango's own kind gives the list back.
proof fn lemma_dango_of_kinds(ds: Seq<Dango>)
    requires
        kinds(ds).no_duplicates(),
    ensures
        kinds(ds).map_values(lookup(ds)) == ds,
{
    assert forall|j: int| 0 <= j < ds.len() implies #[trigger] kinds(ds).map_values(lookup(ds))[j] == ds[j] by {
        let k = ds[j]@.kind;
        assert(kinds(ds)[j] == k);
        let m = choose|m: int| 0 <= m < ds.len() && (#[trigger] ds[m])@.kind == k;
        assert(kinds(ds)[m] == kinds(ds)[j]);
    }
    assert(kinds(ds).map_values(lookup(ds)) =~= ds);
}

/// The dango standing on the track, from the leader down.
pub fn sort_by_track(track: &Track, dangos: &Vec<Dango>) -> (r: Vec<Dango>)
    requires
        field_wf(dangos@, cells(track@)),
    ensures
        r@.to_multiset() == dangos@.to_multiset(),
        crate::dangos::ranked(r@),
{
    let ghost c = cells(track@);
    let ghost f = lookup(dangos@);
    let mut gathered: Vec<Dango> = Vec::new();
    let mut x: usize = 0;
    proof {
        assert(c.take(0).flatten() =~= Seq::<DangoKind>::empty());
        assert(gathered@ =~= c.take(0).flatten().map_values(f));
    }
    while x < track.len()
        invariant
            c == cells(track@),
            x <= c.len(),
            field_wf(dangos@, c),
            f == lookup(dangos@),
            gathered@ == c.take(x as int).flatten().map_values(f),
        decreases c.len() - x,
    {
        let mut y: usize = 0;
        let ghost done = c.take(x as int).flatten();
        while y < track[x].len()
            invariant
                c == cells(track@),
                x < c.len(),
                y <= c[x as int].len(),
                field_wf(dangos@, c),
                f == lookup(dangos@),
                done == c.take(x as int).flatten(),
                gathered@ == (done + c[x as int].take(y as int)).map_values(f),
            decreases c[x as int].len() - y,
        {
            let k = track[x][y];
            assert(c[x as int] == track@[x as int]@);
            proof {
                crate::dangos::moves::lemma_all_on_track(dangos@, c);
                lemma_cell_in_flatten(c, x as int, y as int);
                assert(c.flatten().contains(k));
                vstd::seq_lib::to_multiset_contains(c.flatten(), k);
                vstd::seq_lib::to_multiset_contains(kinds(dangos@), k);
            }
            match find_kind(dangos, k) {
                Some(j) => {
                    let ghost before = gathered@;
                    gathered.push(dangos[j]);
                    proof {
                        let m = choose|m: int| 0 <= m < dangos@.len() && (#[trigger] dangos@[m])@.kind == k;
                        assert(kinds(dangos@)[m] == kinds(dangos@)[j as int]);
                        assert(dangos@[j as int] == dango_of(dangos@, k));
                        assert(c[x as int].take(y as int + 1) =~= c[x as int].take(y as int).push(k));
                        assert((done + c[x as int].take(y as int + 1)) =~= (done + c[x as int].take(y as int)).push(k));
                        assert(gathered@ =~= (done + c[x as int].take(y as int + 1)).map_values(f));
                    }
                },
                None => {
                    proof {
                        let m = choose|m: int| 0 <= m < kinds(dangos@).len() && kinds(dangos@)[m] == k;
                        assert(dangos@[m]@.kind == k);
                    }
                },
            }
            y = y + 1;
        }
        proof {
            lemma_flatten_take_step(c, x as int);
            assert(c[x as int].take(y as int) =~= c[x as int]);
        }
        x = x + 1;
    }
    proof {
        assert(c.take(x as int) =~= c);
        crate::stats::lemma_map_permuted(c.flatten(), kinds(dangos@), f);
        lemma_dango_of_kinds(dangos@);
        assert(kinds(dangos@).map_values(f) == dangos@);
    }
    crate::dangos::sort_dangos(&mut gathered);
    gathered
}

} // verus!
