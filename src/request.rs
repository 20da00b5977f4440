//! What one tile request needs: the cache keys and the tile areas to fetch
//! and paint, and the final composition of fetched data into a PNG tile.

use crate::geo::{alerts_within, find_alerts, views, Alert, Plot};
use crate::icons::ICON_COUNT;
use crate::paint::{
    alert_layer, all_decode, decode_fits, alerts_to_tile, decoded_size, icons_decode, join_tiles, joined_layer,
    png_bytes, png_encoding, PaintError,
};
use crate::tile::{
    pad_tiles, padded, quadrants, scaled, sub_tiles, zoom_scale, TILE_OFFSET, TILE_SIZE, XYZ,
};
use vstd::prelude::*;

verus! {

/// Largest number of entries each cache holds.
pub const CACHE_MAX: u64 = 0xFFFF;

/// Zoom level at which alert lists are cached: requests at finer zooms share
/// the alert list of the tile that covers them at this zoom.
pub const CACHE_ZOOM: u16 = 10;

/// Seconds between two clearings of the tile cache.
pub const CACHE_TTL_TILE: u64 = 60;

/// Seconds between two clearings of the alert cache.
pub const CACHE_TTL_DATA: u64 = 360;

/// The keys and tile areas of one tile request.
pub struct RequestPlan {
    /// Key of the stitched base tiles in the tile cache: the requested tile.
    pub tile_key: XYZ,
    /// The four tiles of the next zoom level that make up the requested tile.
    pub quadrants: Vec<XYZ>,
    /// Key of the alert list in the alert cache: the tile that covers the
    /// requested one at `CACHE_ZOOM`.
    pub alert_key: XYZ,
    /// First tile and exclusive end of the area whose alerts are fetched.
    pub alert_area: (XYZ, XYZ),
    /// First tile and exclusive end of the area the alert layer spans.
    pub paint_area: (XYZ, XYZ),
}

/// The cache keys and tile areas for a request of tile `given`.
pub fn plan_request(given: &XYZ) -> (r: RequestPlan)
    requires
        given.wf(),
        given.z < 32,
    ensures
        r.tile_key == *given,
        r.quadrants@ == quadrants(*given),
        r.alert_key == scaled(CACHE_ZOOM, *given),
        r.alert_area == padded(TILE_OFFSET, scaled(CACHE_ZOOM, *given)),
        r.paint_area == padded(TILE_OFFSET, *given),
{
    let alert_key = zoom_scale(CACHE_ZOOM, given);
    RequestPlan {
        tile_key: *given,
        quadrants: sub_tiles(given),
        alert_key,
        alert_area: pad_tiles(TILE_OFFSET, &alert_key),
        paint_area: pad_tiles(TILE_OFFSET, given),
    }
}

/// The served PNG tile: the alerts of `alerts` that lie inside the padded
/// area `paint_area` are painted on the alert layer, which goes over the base
/// tiles `tiles`, and the result is encoded.
pub fn render_tile(
    alerts: &Vec<Alert>,
    paint_area: &Plot,
    tiles: &Vec<Vec<u8>>,
    icons: &Vec<Vec<u8>>,
) -> (r: Result<Vec<u8>, PaintError>)
    requires
        paint_area.wf(),
        icons@.len() == ICON_COUNT,
    ensures
        icons_decode(alerts_within(views(alerts@), *paint_area), icons@) && all_decode(tiles@)
            ==> r is Ok,
        r matches Ok(b) ==> b@ == png_encoding(
            joined_layer(
                tiles@,
                alert_layer(alerts_within(views(alerts@), *paint_area), *paint_area, icons@),
            ),
        ),
        r matches Ok(b) ==> decoded_size(b@) == Some((TILE_SIZE, TILE_SIZE)),
        r == Err::<Vec<u8>, PaintError>(PaintError::Decode) <==> !(icons_decode(
            alerts_within(views(alerts@), *paint_area),
            icons@,
        ) && all_decode(tiles@)),
        r matches Err(e) ==> e == PaintError::Decode || e == PaintError::Encode,
{
    let inside = find_alerts(alerts, paint_area);
    let layer = alerts_to_tile(&inside, paint_area, icons)?;
    let joined = join_tiles(tiles, &layer)?;
    assert(decode_fits(TILE_SIZE, TILE_SIZE)) by {
        assert(8 * 256 * 256 == 524288) by (nonlinear_arith);
    }
    png_bytes(&joined)
}

/// The images of the fetches that succeeded in `results`, in their order.
pub open spec fn successes(results: Seq<Option<Vec<u8>>>) -> Seq<Vec<u8>>
    decreases results.len(),
{
    if results.len() == 0 {
        Seq::empty()
    } else {
        match results.last() {
            Some(b) => successes(results.drop_last()).push(b),
            None => successes(results.drop_last()),
        }
    }
}

/// The images of the upstream layers whose fetch succeeded, in layer order;
/// a failed layer is dropped and the others kept.
pub fn fetched_layers(results: Vec<Option<Vec<u8>>>) -> (r: Vec<Vec<u8>>)
    ensures
        r@ == successes(results@),
        r@.len() == results@.len() <==> forall|i: int|
            0 <= i < results@.len() ==> (#[trigger] results@[i]) is Some,
{
    let ghost all = results@;
    let mut rest = results;
    let mut kept: Vec<Vec<u8>> = Vec::new();
    let ghost mut i: int = 0;
    proof {
        assert(all.take(0) =~= Seq::<Option<Vec<u8>>>::empty());
        assert(all.skip(0) =~= all);
    }
    while rest.len() > 0
        invariant
            0 <= i <= all.len(),
            rest@ == all.skip(i),
            kept@ == successes(all.take(i)),
            kept@.len() <= i,
            kept@.len() == i <==> forall|j: int| 0 <= j < i ==> (#[trigger] all[j]) is Some,
        decreases rest@.len(),
    {
        let f = rest.remove(0);
        proof {
            assert(f == all[i]);
            assert(all.take(i + 1).drop_last() =~= all.take(i));
            assert(all.take(i + 1).last() == f);
            assert(rest@ =~= all.skip(i + 1));
        }
        match f {
            Some(b) => {
                kept.push(b);
            },
            None => {},
        }
        proof {
            i = i + 1;
        }
    }
    proof {
        assert(all.take(i) =~= all);
    }
    kept
}

/// The images of one layer's four quadrant children, where every one of
/// their fetches succeeded; `None` where one failed.
pub fn complete_quadrant(results: Vec<Option<Vec<u8>>>) -> (r: Option<Vec<Vec<u8>>>)
    ensures
        r is Some <==> forall|i: int| 0 <= i < results@.len() ==> (#[trigger] results@[i]) is Some,
        r matches Some(v) ==> v@ == successes(results@) && v@.len() == results@.len(),
{
    let n = results.len();
    let kept = fetched_layers(results);
    if kept.len() == n {
        Some(kept)
    } else {
        None
    }
}

} // verus!
