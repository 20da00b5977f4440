//! Geographic points and padded bounding boxes in fixed-point degrees,
//! projection of a point onto a raster, and the alerts that are painted.

use crate::tile::Raster;
use vstd::multiset::Multiset;
use vstd::prelude::*;

verus! {

/// Units of a coordinate per degree: coordinates are held in 1e-7 degree.
pub const DEGREE: i64 = 10_000_000;

/// Decimal places of the coordinate unit: `DEGREE` is ten to this power.
pub const UNIT_PLACES: u64 = 7;

/// A geographic point; `lat` and `lon` are in units of 1e-7 degree.
#[derive(Clone, Copy, Debug, PartialEq, Eq, Structural)]
pub struct Coordinate {
    pub lat: i64,
    pub lon: i64,
}

/// A geographic rectangle: `top` is its north-west corner, `bottom` its
/// south-east corner.
#[derive(Clone, Copy, Debug, PartialEq, Eq, Structural)]
pub struct Plot {
    pub top: Coordinate,
    pub bottom: Coordinate,
}

impl Plot {
    /// The rectangle has a positive height and width.
    pub open spec fn wf(&self) -> bool {
        self.top.lat > self.bottom.lat && self.top.lon < self.bottom.lon
    }
}

/// `v` saturated into the range of `u32`.
pub open spec fn saturate(v: int) -> u32 {
    if v < 0 {
        0
    } else if v > u32::MAX {
        u32::MAX
    } else {
        v as u32
    }
}

/// Pixel of `item` on a raster of size `dest` that spans `confine`: the linear
/// position of the point inside the rectangle scaled to the raster, floored,
/// with the origin at the top-left corner and `y` growing southwards.
pub open spec fn confined(item: Coordinate, confine: Plot, dest: Raster) -> Raster {
    Raster {
        x: saturate(
            ((item.lon - confine.top.lon) * dest.x) / (confine.bottom.lon - confine.top.lon),
        ),
        y: saturate(
            ((confine.top.lat - item.lat) * dest.y) / (confine.top.lat - confine.bottom.lat),
        ),
    }
}

/// Floor of `num / den` for a positive `den`, saturated into `u32`.
fn saturating_ratio(num: i128, den: i128) -> (r: u32)
    requires
        den > 0,
    ensures
        r == saturate(num / den),
{
    if num < 0 {
        proof {
            let (n, d) = (num as int, den as int);
            vstd::arithmetic::div_mod::lemma_fundamental_div_mod(n, d);
            assert(n / d < 0) by (nonlinear_arith)
                requires
                    n < 0,
                    d > 0,
                    n == d * (n / d) + n % d,
                    0 <= n % d,
            ;
        }
        0
    } else {
        let q: u128 = (num as u128) / (den as u128);
        if q > u32::MAX as u128 {
            u32::MAX
        } else {
            q as u32
        }
    }
}

/// Projects `item` onto a raster of size `dest` that spans `confine`.
pub fn coordinates_confine(item: &Coordinate, confine: &Plot, dest: &Raster) -> (r: Raster)
    requires
        confine.wf(),
    ensures
        r == confined(*item, *confine, *dest),
{
    let dx: i128 = item.lon as i128 - confine.top.lon as i128;
    let dy: i128 = confine.top.lat as i128 - item.lat as i128;
    let width: i128 = confine.bottom.lon as i128 - confine.top.lon as i128;
    let height: i128 = confine.top.lat as i128 - confine.bottom.lat as i128;
    proof {
        assert(-0x2_0000_0000_0000_0000_0000_0000 <= dx * dest.x <= 0x2_0000_0000_0000_0000_0000_0000)
            by (nonlinear_arith)
            requires
                -0x2_0000_0000_0000_0000 <= dx <= 0x2_0000_0000_0000_0000,
                dest.x <= 0xFFFF_FFFF,
        ;
        assert(-0x2_0000_0000_0000_0000_0000_0000 <= dy * dest.y <= 0x2_0000_0000_0000_0000_0000_0000)
            by (nonlinear_arith)
            requires
                -0x2_0000_0000_0000_0000 <= dy <= 0x2_0000_0000_0000_0000,
                dest.y <= 0xFFFF_FFFF,
        ;
    }
    let x = saturating_ratio(dx * dest.x as i128, width);
    let y = saturating_ratio(dy * dest.y as i128, height);
    Raster { x, y }
}

/// An event of the alert feed: its category, its subcategory and where it is.
#[derive(Clone, Debug)]
pub struct Alert {
    pub icon: String,
    pub subicon: String,
    pub position: Coordinate,
}

/// What an alert holds, as mathematical values.
pub struct AlertView {
    pub icon: Seq<char>,
    pub subicon: Seq<char>,
    pub position: Coordinate,
}

impl View for Alert {
    type V = AlertView;

    open spec fn view(&self) -> AlertView {
        AlertView { icon: self.icon@, subicon: self.subicon@, position: self.position }
    }
}

/// The views of a sequence of alerts.
pub open spec fn views(s: Seq<Alert>) -> Seq<AlertView> {
    s.map_values(|a: Alert| a@)
}

impl Alert {
    /// A copy of the alert.
    pub fn duplicate(&self) -> (r: Alert)
        ensures
            r@ == self@,
    {
        Alert { icon: self.icon.clone(), subicon: self.subicon.clone(), position: self.position }
    }
}

/// `p` lies strictly inside `block`.
pub open spec fn inside(p: Coordinate, block: Plot) -> bool {
    p.lat < block.top.lat && p.lat > block.bottom.lat && p.lon < block.bottom.lon && p.lon
        > block.top.lon
}

/// The alerts of `s` that lie strictly inside `block`, in their order in `s`.
pub open spec fn alerts_within(s: Seq<AlertView>, block: Plot) -> Seq<AlertView> {
    s.filter(|a: AlertView| inside(a.position, block))
}

/// The alerts of `map` that lie strictly inside `block`, in the order of `map`.
pub fn find_alerts(map: &Vec<Alert>, block: &Plot) -> (r: Vec<Alert>)
    ensures
        views(r@) == alerts_within(views(map@), *block),
{
    let mut found: Vec<Alert> = Vec::new();
    let mut i: usize = 0;
    while i < map.len()
        invariant
            i <= map@.len(),
            views(found@) == alerts_within(views(map@).take(i as int), *block),
        decreases map@.len() - i,
    {
        let alert = &map[i];
        proof {
            let pre = views(map@).take(i as int);
            let post = views(map@).take(i as int + 1);
            assert(post.drop_last() =~= pre);
            assert(post.last() == alert@);
            reveal(Seq::filter);
        }
        if alert.position.lat < block.top.lat && alert.position.lat > block.bottom.lat
            && alert.position.lon < block.bottom.lon && alert.position.lon > block.top.lon {
            let copy = alert.duplicate();
            proof {
                assert(views(found@.push(copy)) =~= views(found@).push(copy@));
            }
            found.push(copy);
        }
        i += 1;
    }
    assert(views(map@).take(map@.len() as int) =~= views(map@));
    found
}

/// `a` is painted no later than `b`: northern alerts first, and among equal
/// latitudes eastern ones first.
pub open spec fn paints_before(a: AlertView, b: AlertView) -> bool {
    a.position.lat > b.position.lat || (a.position.lat == b.position.lat && a.position.lon
        >= b.position.lon)
}

/// Whether `a` is painted no later than `b`.
fn precedes(a: &Alert, b: &Alert) -> (r: bool)
    ensures
        r == paints_before(a@, b@),
{
    a.position.lat > b.position.lat || (a.position.lat == b.position.lat && a.position.lon
        >= b.position.lon)
}

/// The alerts are in paint order: latitude descending, then longitude
/// descending.
pub open spec fn paint_ordered(s: Seq<AlertView>) -> bool {
    forall|i: int, j: int| 0 <= i < j < s.len() ==> paints_before(#[trigger] s[i], #[trigger] s[j])
}

/// The alerts of `s` at position `c`, in their order in `s`.
pub open spec fn at_position(s: Seq<AlertView>, c: Coordinate) -> Seq<AlertView> {
    s.filter(|a: AlertView| a.position == c)
}

proof fn lemma_at_position_push(s: Seq<AlertView>, e: AlertView, c: Coordinate)
    ensures
        at_position(s.push(e), c) == if e.position == c {
            at_position(s, c).push(e)
        } else {
            at_position(s, c)
        },
{
    reveal(Seq::filter);
    assert(s.push(e).drop_last() =~= s);
}

/// Inserting `e` at `p`, after every alert that paints before it and ahead of
/// alerts that paint strictly after it, adds `e` to the alerts at its own
/// position, after them, and leaves the alerts at every other position alone.
proof fn lemma_at_position_insert(before: Seq<AlertView>, p: int, e: AlertView, c: Coordinate)
    requires
        0 <= p <= before.len(),
        forall|j: int| p <= j < before.len() ==> (#[trigger] before[j]).position != e.position,
    ensures
        at_position(before.insert(p, e), c) == if e.position == c {
            at_position(before, c).push(e)
        } else {
            at_position(before, c)
        },
{
    let pred = |a: AlertView| a.position == c;
    let head = before.subrange(0, p);
    let tail = before.subrange(p, before.len() as int);
    assert(before =~= head + tail);
    assert(before.insert(p, e) =~= head.push(e) + tail);
    Seq::filter_distributes_over_add(head, tail, pred);
    Seq::filter_distributes_over_add(head.push(e), tail, pred);
    lemma_at_position_push(head, e, c);
    if e.position == c {
        assert(tail.all(|x: AlertView| !pred(x))) by {
            assert forall|j: int| 0 <= j < tail.len() implies !pred(#[trigger] tail[j]) by {
                assert(tail[j] == before[p + j]);
            }
        }
        tail.lemma_all_neg_filter_empty(pred);
        assert(tail.filter(pred) =~= Seq::<AlertView>::empty());
        assert(at_position(before, c) =~= head.filter(pred));
        assert(at_position(before.insert(p, e), c) =~= head.filter(pred).push(e));
    }
}

/// The alerts of `alerts` in paint order (latitude descending, then longitude
/// descending); the alerts at any one position keep their order.
#[verifier::rlimit(40)]
pub fn sort_alerts(alerts: &Vec<Alert>) -> (r: Vec<Alert>)
    ensures
        paint_ordered(views(r@)),
        forall|c: Coordinate| #[trigger] at_position(views(r@), c) == at_position(views(alerts@), c),
        views(r@).to_multiset() == views(alerts@).to_multiset(),
{
    let mut sorted: Vec<Alert> = Vec::new();
    let mut i: usize = 0;
    proof {
        broadcast use vstd::seq_lib::group_to_multiset_ensures;

        assert(views(sorted@) =~= Seq::<AlertView>::empty());
        assert(views(alerts@).take(0) =~= Seq::<AlertView>::empty());
        assert forall|c: Coordinate| #[trigger] at_position(views(sorted@), c) == at_position(
            views(alerts@).take(0),
            c,
        ) by {
            reveal(Seq::filter);
        }
    }
    while i < alerts.len()
        invariant
            i <= alerts@.len(),
            paint_ordered(views(sorted@)),
            forall|c: Coordinate| #[trigger] at_position(views(sorted@), c) == at_position(
                views(alerts@).take(i as int),
                c,
            ),
            views(sorted@).to_multiset() == views(alerts@).take(i as int).to_multiset(),
        decreases alerts@.len() - i,
    {
        let item = alerts[i].duplicate();
        let mut p: usize = 0;
        while p < sorted.len() && precedes(&sorted[p], &item)
            invariant
                p <= sorted@.len(),
                forall|j: int| 0 <= j < p ==> paints_before(#[trigger] views(sorted@)[j], item@),
            decreases sorted@.len() - p,
        {
            p += 1;
        }
        let ghost before = views(sorted@);
        sorted.insert(p, item);
        proof {
            let after = views(sorted@);
            assert(after =~= before.insert(p as int, item@));
            if p < before.len() {
                assert(!paints_before(before[p as int], item@));
            }
            assert forall|a: int, b: int| 0 <= a < b < after.len() implies paints_before(
                #[trigger] after[a],
                #[trigger] after[b],
            ) by {
                if a < p && b == p {
                } else if a < p && b > p {
                    assert(after[b] == before[b - 1]);
                } else if a == p {
                    assert(after[b] == before[b - 1]);
                    assert(paints_before(before[p as int], before[b - 1]));
                } else if a > p {
                    assert(after[a] == before[a - 1]);
                    assert(after[b] == before[b - 1]);
                } else {
                    assert(after[a] == before[a]);
                    assert(after[b] == before[b]);
                }
            }
            assert(before =~= before.subrange(0, p as int) + before.subrange(p as int, before.len() as int));
            assert(after =~= before.subrange(0, p as int) + seq![item@] + before.subrange(p as int, before.len() as int));
            vstd::seq_lib::lemma_multiset_commutative(before.subrange(0, p as int), before.subrange(p as int, before.len() as int));
            vstd::seq_lib::lemma_multiset_commutative(before.subrange(0, p as int) + seq![item@], before.subrange(p as int, before.len() as int));
            vstd::seq_lib::lemma_multiset_commutative(before.subrange(0, p as int), seq![item@]);
            let taken = views(alerts@).take(i as int + 1);
            assert(taken =~= views(alerts@).take(i as int).push(item@));
            broadcast use vstd::seq_lib::group_to_multiset_ensures;
            assert(seq![item@].to_multiset() =~= Multiset::empty().insert(item@)) by {
                assert(seq![item@] =~= Seq::<AlertView>::empty().push(item@));
            }
            assert forall|j: int| p <= j < before.len() implies (#[trigger] before[j]).position
                != item@.position by {
                assert(!paints_before(before[p as int], item@));
                if j > p {
                    assert(paints_before(before[p as int], before[j]));
                }
            }
            assert forall|c: Coordinate| #[trigger] at_position(after, c) == at_position(taken, c) by {
                lemma_at_position_insert(before, p as int, item@, c);
                lemma_at_position_push(views(alerts@).take(i as int), item@, c);
            }
        }
        i += 1;
    }
    assert(views(alerts@).take(alerts@.len() as int) =~= views(alerts@));
    sorted
}


} // verus!
