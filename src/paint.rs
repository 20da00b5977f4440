//! The compositor: overlays alert icons on a padded canvas and crops it to the
//! central tile, stitches quadrant tiles, stacks base tiles under the alert
//! layer and encodes the result. Decoding, painting, resizing and encoding are
//! done by the `image` crate; each picture carries, as a `Layer` term, the
//! operations it was made by, so that contracts state what is painted where
//! and in which order.

use crate::geo::{confined, views, Alert, AlertView, Coordinate, Plot};
use crate::icons::{find_alert_asset, resolve, IconAsset, ICON_COUNT};
use crate::tile::{
    anchored, translate_edge, Raster, TILE_INFLATED, TILE_ORIGINAL_START, TILE_SIZE,
};
use image::{DynamicImage, GenericImageView, ImageError};
use vstd::prelude::*;

verus! {

/// The `image` crate's decoded raster, carried through as an opaque value.
#[verifier::external_type_specification]
#[verifier::external_body]
pub struct ExDynamicImage(DynamicImage);

/// The `image` crate's error of a failed decode or encode, carried through as
/// an opaque value.
#[verifier::external_type_specification]
#[verifier::external_body]
pub struct ExImageError(ImageError);

/// How a raster was made, as a term over the `image` crate's operations.
pub enum Layer {
    /// A fully transparent RGBA image of the given width and height
    /// (`DynamicImage::new_rgba8`).
    Blank(u32, u32),
    /// The image decoded from the bytes (`image::load_from_memory`).
    Decoded(Seq<u8>),
    /// The first image with the second painted over it, source-over, with its
    /// top-left corner at the given offset and clipped to the first
    /// (`image::imageops::overlay`).
    Overlay(Box<Layer>, Box<Layer>, int, int),
    /// The region at the given corner and of the given size, clamped to the
    /// image (`DynamicImage::crop_imm`).
    Crop(Box<Layer>, u32, u32, u32, u32),
    /// The image resized nearest-neighbour to the given width and height
    /// (`DynamicImage::resize_exact` with `FilterType::Nearest`).
    Resize(Box<Layer>, u32, u32),
    /// The same pixels as 8-bit RGBA (`DynamicImage::to_rgba8`).
    Rgba(Box<Layer>),
}

/// A raster image together with its size in pixels and how it was made.
pub struct Picture {
    image: DynamicImage,
    width: u32,
    height: u32,
    made: Ghost<Layer>,
}

/// Why a picture could not be produced.
#[derive(Clone, Copy, Debug, PartialEq, Eq, Structural)]
pub enum PaintError {
    /// Bytes that should hold an encoded raster could not be decoded.
    Decode,
    /// The picture could not be encoded as PNG.
    Encode,
    /// Four quadrant tiles are too large for one canvas in memory.
    TooLarge,
}


impl Picture {
    /// The width and height of the picture.
    pub closed spec fn size(&self) -> Raster {
        Raster { x: self.width, y: self.height }
    }

    /// How the picture was made.
    pub closed spec fn layer(&self) -> Layer {
        self.made@
    }

    /// Width of the picture in pixels.
    pub fn width(&self) -> (r: u32)
        ensures
            r == self.size().x,
    {
        self.width
    }

    /// Height of the picture in pixels.
    pub fn height(&self) -> (r: u32)
        ensures
            r == self.size().y,
    {
        self.height
    }
}

/// Relies on DynamicImage::new_rgba8: a fully transparent RGBA image of the
/// given size, which panics only where its buffer length overflows `usize`.
#[verifier::external_body]
fn blank(width: u32, height: u32) -> (r: Picture)
    requires
        4 * width * height <= usize::MAX,
    ensures
        r.size() == (Raster { x: width, y: height }),
        r.layer() == Layer::Blank(width, height),
{
    Picture {
        image: DynamicImage::new_rgba8(width, height),
        width,
        height,
        made: Ghost(Layer::Blank(width, height)),
    }
}

/// Width and height of the image that `image::load_from_memory` decodes from
/// `bytes`, or `None` where it fails; decoding depends on the bytes alone.
pub uninterp spec fn decoded_size(bytes: Seq<u8>) -> Option<(u32, u32)>;

/// Relies on image::load_from_memory: decodes an encoded raster of a format
/// guessed from its bytes; the size recorded is that of the decoded image.
/// PNG is the one format built in, and its decoder refuses a zero width or
/// height.
#[verifier::external_body]
fn decode(bytes: &[u8]) -> (r: Result<Picture, ImageError>)
    ensures
        r is Ok <==> decoded_size(bytes@) is Some,
        r matches Ok(p) ==> decoded_size(bytes@) == Some((p.size().x, p.size().y)),
        r matches Ok(p) ==> p.layer() == Layer::Decoded(bytes@),
        r matches Ok(p) ==> p.size().x > 0 && p.size().y > 0,
{
    let image = image::load_from_memory(bytes)?;
    let (width, height) = image.dimensions();
    Ok(Picture { image, width, height, made: Ghost(Layer::Decoded(bytes@)) })
}

/// Relies on image::imageops::overlay: paints `top` over `bottom` with its
/// top-left corner at `(x, y)`, source-over, clipped to `bottom`, whose size
/// stays.
#[verifier::external_body]
fn overlay(bottom: &mut Picture, top: &Picture, x: i64, y: i64)
    ensures
        final(bottom).size() == old(bottom).size(),
        final(bottom).layer() == Layer::Overlay(
            Box::new(old(bottom).layer()),
            Box::new(top.layer()),
            x as int,
            y as int,
        ),
{
    image::imageops::overlay(&mut bottom.image, &top.image, x, y);
    bottom.made = Ghost(Layer::Overlay(Box::new(bottom.made@), Box::new(top.made@), x as int, y as int));
}

/// Extent along one axis of a crop of `length` pixels from `origin` out of
/// `total`: the origin is clamped to `total`, the length to what remains.
pub open spec fn crop_extent(origin: u32, length: u32, total: u32) -> u32 {
    let start = if origin <= total {
        origin
    } else {
        total
    };
    if length <= total - start {
        length
    } else {
        (total - start) as u32
    }
}

/// Relies on DynamicImage::crop_imm: the region at `(x, y)` of size
/// `width` by `height`, with the corner clamped into the picture and the size
/// clamped to what remains of it.
#[verifier::external_body]
fn crop(p: &Picture, x: u32, y: u32, width: u32, height: u32) -> (r: Picture)
    ensures
        r.size() == (Raster {
            x: crop_extent(x, width, p.size().x),
            y: crop_extent(y, height, p.size().y),
        }),
        r.layer() == Layer::Crop(Box::new(p.layer()), x, y, width, height),
{
    let image = p.image.crop_imm(x, y, width, height);
    let (w, h) = image.dimensions();
    Picture {
        image,
        width: w,
        height: h,
        made: Ghost(Layer::Crop(Box::new(p.made@), x, y, width, height)),
    }
}

/// Relies on DynamicImage::resize_exact with the nearest-neighbour filter: an
/// image of exactly the given size, whose buffer length fits `usize`.
#[verifier::external_body]
fn resize_nearest(p: &Picture, width: u32, height: u32) -> (r: Picture)
    requires
        4 * width * height <= usize::MAX,
    ensures
        r.size() == (Raster { x: width, y: height }),
        r.layer() == Layer::Resize(Box::new(p.layer()), width, height),
{
    Picture {
        image: p.image.resize_exact(width, height, image::imageops::FilterType::Nearest),
        width,
        height,
        made: Ghost(Layer::Resize(Box::new(p.made@), width, height)),
    }
}

/// Relies on DynamicImage::to_rgba8: the same pixels as 8-bit RGBA, same size.
#[verifier::external_body]
fn to_rgba(p: &Picture) -> (r: Picture)
    ensures
        r.size() == p.size(),
        r.layer() == Layer::Rgba(Box::new(p.layer())),
{
    Picture {
        image: DynamicImage::ImageRgba8(p.image.to_rgba8()),
        width: p.width,
        height: p.height,
        made: Ghost(Layer::Rgba(Box::new(p.made@))),
    }
}

/// The PNG bytes that `DynamicImage::write_to` with `ImageFormat::Png` writes
/// for the image made as `layer`; encoding depends on the image alone.
pub uninterp spec fn png_encoding(layer: Layer) -> Seq<u8>;

/// Bytes of decoded image that `decode_fits` allows: a quarter of the 512 MiB
/// that `image::load_from_memory` allows a decoded image by default, the rest
/// left to the decoder's own buffers.
pub const DECODE_BUDGET: u64 = 0x800_0000;

/// An image of `width` by `height` pixels, at up to 8 bytes a pixel (16-bit
/// RGBA), stays within `DECODE_BUDGET`.
pub open spec fn decode_fits(width: u32, height: u32) -> bool {
    8 * width * height <= DECODE_BUDGET
}

/// Relies on DynamicImage::write_to with ImageFormat::Png, into memory: the
/// PNG encoder refuses only an image with a zero width or height, writing to
/// a memory buffer cannot fail, and the PNG decodes to an image of the same
/// size where that image stays within the decoding memory limit.
#[verifier::external_body]
fn encode_png(p: &Picture) -> (r: Result<Vec<u8>, ImageError>)
    ensures
        p.size().x > 0 && p.size().y > 0 ==> r is Ok,
        r matches Ok(b) ==> b@ == png_encoding(p.layer()),
        r matches Ok(b) ==> (decode_fits(p.size().x, p.size().y) ==> decoded_size(b@) == Some(
            (p.size().x, p.size().y),
        )),
{
    let mut out = std::io::Cursor::new(Vec::new());
    p.image.write_to(&mut out, image::ImageFormat::Png)?;
    Ok(out.into_inner())
}

/// `bytes` decode to an image.
pub open spec fn decodes(bytes: Seq<u8>) -> bool {
    decoded_size(bytes) is Some
}

/// The icon that alert `a` is drawn with decodes from the table `icons`.
pub open spec fn icon_decodes(a: AlertView, icons: Seq<Vec<u8>>) -> bool {
    decodes(icons[resolve(a.icon, a.subicon).spec_index() as int]@)
}

/// The icon of every alert of `s` decodes from the table `icons`.
pub open spec fn icons_decode(s: Seq<AlertView>, icons: Seq<Vec<u8>>) -> bool {
    forall|i: int| 0 <= i < s.len() ==> icon_decodes(#[trigger] s[i], icons)
}

/// Every entry of `tiles` decodes to an image.
pub open spec fn all_decode(tiles: Seq<Vec<u8>>) -> bool {
    forall|i: int| 0 <= i < tiles.len() ==> decodes(#[trigger] tiles[i]@)
}

/// Decodes `bytes`, reporting a failure as `PaintError::Decode`.
fn decode_picture(bytes: &Vec<u8>) -> (r: Result<Picture, PaintError>)
    ensures
        r is Ok <==> decodes(bytes@),
        r matches Err(e) ==> e == PaintError::Decode,
        r matches Ok(p) ==> decoded_size(bytes@) == Some((p.size().x, p.size().y)),
        r matches Ok(p) ==> p.layer() == Layer::Decoded(bytes@),
        r matches Ok(p) ==> p.size().x > 0 && p.size().y > 0,
{
    match decode(bytes.as_slice()) {
        Ok(p) => Ok(p),
        Err(_) => Err(PaintError::Decode),
    }
}

/// Top-left pixel at which the icon of size `icon` is painted for a point at
/// `position` on a canvas of size `canvas` that spans `spacer`: the point is
/// projected onto the canvas and the icon's bottom-centre anchor put on it.
pub fn icon_position(position: &Coordinate, spacer: &Plot, canvas: &Raster, icon: &Raster) -> (r:
    Raster)
    requires
        spacer.wf(),
    ensures
        r == anchored(*icon, confined(*position, *spacer, *canvas)),
{
    let point = crate::geo::coordinates_confine(position, spacer, canvas);
    translate_edge(icon, &point)
}

/// Size of the image that `bytes` decode to (zero where they do not).
pub open spec fn decoded_raster(bytes: Seq<u8>) -> Raster {
    match decoded_size(bytes) {
        Some(d) => Raster { x: d.0, y: d.1 },
        None => Raster { x: 0, y: 0 },
    }
}

/// The encoded icon that alert `a` is drawn with, out of the table `icons`.
pub open spec fn icon_bytes(a: AlertView, icons: Seq<Vec<u8>>) -> Seq<u8> {
    icons[resolve(a.icon, a.subicon).spec_index() as int]@
}

/// The padded canvas of size `TILE_INFLATED` spanning `spacer`, transparent,
/// with the icon of every alert of `alerts` painted over it in list order,
/// each with its bottom-centre anchor on the alert's projected pixel.
pub open spec fn icon_strokes(alerts: Seq<AlertView>, spacer: Plot, icons: Seq<Vec<u8>>) -> Layer
    decreases alerts.len(),
{
    if alerts.len() == 0 {
        Layer::Blank(TILE_INFLATED, TILE_INFLATED)
    } else {
        let a = alerts.last();
        let at = anchored(
            decoded_raster(icon_bytes(a, icons)),
            confined(a.position, spacer, Raster { x: TILE_INFLATED, y: TILE_INFLATED }),
        );
        Layer::Overlay(
            Box::new(icon_strokes(alerts.drop_last(), spacer, icons)),
            Box::new(Layer::Decoded(icon_bytes(a, icons))),
            at.x as int,
            at.y as int,
        )
    }
}

/// The alert layer of the central tile: the painted padded canvas cropped to
/// the central `TILE_SIZE` square at `TILE_ORIGINAL_START`.
pub open spec fn alert_layer(alerts: Seq<AlertView>, spacer: Plot, icons: Seq<Vec<u8>>) -> Layer {
    Layer::Crop(
        Box::new(icon_strokes(alerts, spacer, icons)),
        TILE_ORIGINAL_START,
        TILE_ORIGINAL_START,
        TILE_SIZE,
        TILE_SIZE,
    )
}

/// The alert layer of the central tile: every alert's icon is painted, in list
/// order, on a transparent canvas that spans the padded area `spacer`, at the
/// alert's anchored position, and the canvas is cropped to the central tile.
/// `icons` holds the encoded image of each icon at its index.
#[verifier::rlimit(40)]
pub fn alerts_to_tile(alerts: &Vec<Alert>, spacer: &Plot, icons: &Vec<Vec<u8>>) -> (r: Result<
    Picture,
    PaintError,
>)
    requires
        spacer.wf(),
        icons@.len() == ICON_COUNT,
    ensures
        r is Ok <==> icons_decode(views(alerts@), icons@),
        r matches Ok(p) ==> p.layer() == alert_layer(views(alerts@), *spacer, icons@),
        r matches Ok(p) ==> p.size() == (Raster { x: TILE_SIZE, y: TILE_SIZE }),
        r matches Err(e) ==> e == PaintError::Decode,
{
    assert(4 * TILE_INFLATED * TILE_INFLATED <= usize::MAX) by {
        assert(TILE_INFLATED == 768);
        assert(4 * 768 * 768 == 2359296) by (nonlinear_arith);
    }
    let mut canvas = blank(TILE_INFLATED, TILE_INFLATED);
    let canvas_size = Raster { x: canvas.width(), y: canvas.height() };
    let mut i: usize = 0;
    proof {
        assert(views(alerts@).take(0) =~= Seq::<AlertView>::empty());
    }
    while i < alerts.len()
        invariant
            i <= alerts@.len(),
            icons@.len() == ICON_COUNT,
            spacer.wf(),
            canvas.size() == canvas_size,
            canvas_size == (Raster { x: TILE_INFLATED, y: TILE_INFLATED }),
            canvas.layer() == icon_strokes(views(alerts@).take(i as int), *spacer, icons@),
            forall|j: int| 0 <= j < i ==> icon_decodes(#[trigger] alerts@[j]@, icons@),
        decreases alerts@.len() - i,
    {
        let alert = &alerts[i];
        let asset: IconAsset = find_alert_asset(alert.icon.as_str(), alert.subicon.as_str());
        let icon = match decode_picture(&icons[asset.index()]) {
            Ok(icon) => icon,
            Err(e) => {
                assert(!icon_decodes(views(alerts@)[i as int], icons@));
                return Err(e);
            },
        };
        let icon_size = Raster { x: icon.width(), y: icon.height() };
        let edges = icon_position(&alert.position, spacer, &canvas_size, &icon_size);
        proof {
            let next = views(alerts@).take(i + 1);
            assert(next.drop_last() =~= views(alerts@).take(i as int));
            assert(next.last() == alert@);
            assert(icon_size == decoded_raster(icon_bytes(alert@, icons@)));
        }
        overlay(&mut canvas, &icon, edges.x as i64, edges.y as i64);
        i += 1;
    }
    proof {
        assert(views(alerts@).take(alerts@.len() as int) =~= views(alerts@));
    }
    Ok(crop(&canvas, TILE_ORIGINAL_START, TILE_ORIGINAL_START, TILE_SIZE, TILE_SIZE))
}

/// `4 * width * height` bytes, an RGBA buffer of that size, fit in `usize`.
pub open spec fn canvas_fits(width: int, height: int) -> bool {
    0 <= width <= u32::MAX && 0 <= height <= u32::MAX && 4 * width * height <= usize::MAX
}

/// Width of the image that the entry `tile` stitches to before resizing: that
/// of a single image, or twice that of the top-left quadrant.
pub open spec fn stitched_width(tile: Seq<Vec<u8>>) -> int {
    if tile.len() == 1 {
        decoded_raster(tile[0]@).x as int
    } else {
        2 * decoded_raster(tile[0]@).x
    }
}

/// The image that the entry `tile` stitches to: a single image as RGBA, or
/// four quadrants of edge `s` (the top-left one's width) painted on a
/// transparent `2s` square at `(0, 0)`, `(s, 0)`, `(0, s)` and `(s, s)`.
pub open spec fn stitched(tile: Seq<Vec<u8>>) -> Layer {
    if tile.len() == 1 {
        Layer::Rgba(Box::new(Layer::Decoded(tile[0]@)))
    } else {
        let s = decoded_raster(tile[0]@).x as int;
        let side = (2 * s) as u32;
        let tl = Layer::Overlay(
            Box::new(Layer::Blank(side, side)),
            Box::new(Layer::Decoded(tile[0]@)),
            0,
            0,
        );
        let tr = Layer::Overlay(Box::new(tl), Box::new(Layer::Decoded(tile[1]@)), s, 0);
        let bl = Layer::Overlay(Box::new(tr), Box::new(Layer::Decoded(tile[2]@)), 0, s);
        Layer::Overlay(Box::new(bl), Box::new(Layer::Decoded(tile[3]@)), s, s)
    }
}

/// The tile made of the entry `tile`: the stitched image, resized
/// nearest-neighbour to `TILE_SIZE` square where its width differs.
pub open spec fn quadrant_layer(tile: Seq<Vec<u8>>) -> Layer {
    if stitched_width(tile) != TILE_SIZE {
        Layer::Resize(Box::new(stitched(tile)), TILE_SIZE, TILE_SIZE)
    } else {
        stitched(tile)
    }
}

/// Height of the tile made of the entry `tile`.
pub open spec fn quadrant_height(tile: Seq<Vec<u8>>) -> u32 {
    if stitched_width(tile) == TILE_SIZE && tile.len() == 1 {
        decoded_raster(tile[0]@).y
    } else {
        TILE_SIZE
    }
}

/// The entry `tile` can be joined: every image decodes, and the canvas for
/// four quadrants fits in memory.
pub open spec fn quadrant_joins(tile: Seq<Vec<u8>>) -> bool {
    all_decode(tile) && (tile.len() == 4 ==> canvas_fits(stitched_width(tile), stitched_width(tile)))
}

/// One tile from one upstream entry: a single image is taken as it is (as
/// RGBA), four images are stitched into a 2 by 2 grid (top-left, top-right,
/// bottom-left, bottom-right); the result is resized to the tile size where
/// its width differs from it. The grid is painted on a canvas twice the edge
/// of a quadrant, so that quadrants of any size are kept whole, and then
/// brought to one tile's size by that resize; with quadrants of half the tile
/// size no resize is needed.
#[verifier::rlimit(40)]
pub fn join_quadrant(tile: &Vec<Vec<u8>>) -> (r: Result<Picture, PaintError>)
    requires
        tile@.len() == 1 || tile@.len() == 4,
    ensures
        r is Ok <==> quadrant_joins(tile@),
        r matches Err(e) ==> (e == PaintError::TooLarge <==> all_decode(tile@)),
        r matches Ok(p) ==> p.layer() == quadrant_layer(tile@),
        r matches Ok(p) ==> p.size() == (Raster { x: TILE_SIZE, y: quadrant_height(tile@) }),
        r matches Ok(p) ==> quadrant_height(tile@) > 0,
{
    let image = if tile.len() == 1 {
        let single = decode_picture(&tile[0])?;
        assert forall|i: int| 0 <= i < tile@.len() implies decodes(#[trigger] tile@[i]@) by {
            assert(i == 0);
        }
        to_rgba(&single)
    } else {
        let top_left = decode_picture(&tile[0])?;
        let top_right = decode_picture(&tile[1])?;
        let bottom_left = decode_picture(&tile[2])?;
        let bottom_right = decode_picture(&tile[3])?;
        let size = top_left.width();
        assert forall|i: int| 0 <= i < tile@.len() implies decodes(#[trigger] tile@[i]@) by {
            assert(i == 0 || i == 1 || i == 2 || i == 3);
        }
        let side: u64 = 2 * (size as u64);
        assert(decoded_raster(tile@[0]@).x == size);
        assert(stitched_width(tile@) == side);
        if side > u32::MAX as u64 {
            return Err(PaintError::TooLarge);
        }
        let wide: u128 = side as u128;
        assert(wide * wide <= 0xFFFF_FFFF * 0xFFFF_FFFF) by (nonlinear_arith)
            requires
                wide <= 0xFFFF_FFFF,
        ;
        assert(4 * side * side == wide * wide * 4) by (nonlinear_arith)
            requires
                wide == side,
        ;
        if wide * wide * 4 > usize::MAX as u128 {
            return Err(PaintError::TooLarge);
        }
        let side: u32 = side as u32;
        let mut joiner = blank(side, side);
        overlay(&mut joiner, &top_left, 0, 0);
        overlay(&mut joiner, &top_right, size as i64, 0);
        overlay(&mut joiner, &bottom_left, 0, size as i64);
        overlay(&mut joiner, &bottom_right, size as i64, size as i64);
        joiner
    };
    if image.width() != TILE_SIZE {
        Ok(resize_nearest(&image, TILE_SIZE, TILE_SIZE))
    } else {
        Ok(image)
    }
}

/// One PNG tile per entry of `tiles`, in order (see `join_quadrant`).
pub fn join_quadrant_tiles(tiles: &Vec<Vec<Vec<u8>>>) -> (r: Result<Vec<Vec<u8>>, PaintError>)
    requires
        forall|i: int| 0 <= i < tiles@.len() ==> #[trigger] tiles@[i].len() == 1 || tiles@[i].len()
            == 4,
    ensures
        r matches Ok(v) ==> v@.len() == tiles@.len(),
        r matches Ok(v) ==> forall|i: int|
            0 <= i < tiles@.len() ==> #[trigger] v@[i]@ == png_encoding(quadrant_layer(tiles@[i]@)),
        r matches Ok(v) ==> forall|i: int|
            0 <= i < tiles@.len() && decode_fits(TILE_SIZE, quadrant_height(tiles@[i]@))
                ==> decoded_size(#[trigger] v@[i]@) == Some(
                (TILE_SIZE, quadrant_height(tiles@[i]@)),
            ),
        (forall|i: int| 0 <= i < tiles@.len() ==> quadrant_joins(#[trigger] tiles@[i]@)) ==> r is Ok,
        r is Ok ==> forall|i: int| 0 <= i < tiles@.len() ==> quadrant_joins(#[trigger] tiles@[i]@),
        (forall|i: int| 0 <= i < tiles@.len() ==> quadrant_joins(#[trigger] tiles@[i]@)) ==> (
        r matches Err(e) ==> e == PaintError::Encode),
        tiles@.len() == 0 ==> r is Ok,
{
    let mut all_tiles: Vec<Vec<u8>> = Vec::new();
    let mut i: usize = 0;
    while i < tiles.len()
        invariant
            i <= tiles@.len(),
            all_tiles@.len() == i,
            forall|i: int| 0 <= i < tiles@.len() ==> #[trigger] tiles@[i].len() == 1
                || tiles@[i].len() == 4,
            forall|j: int| 0 <= j < i ==> quadrant_joins(#[trigger] tiles@[j]@),
            forall|j: int|
                0 <= j < i ==> #[trigger] all_tiles@[j]@ == png_encoding(quadrant_layer(tiles@[j]@)),
            forall|j: int|
                0 <= j < i && decode_fits(TILE_SIZE, quadrant_height(tiles@[j]@)) ==> decoded_size(
                    #[trigger] all_tiles@[j]@,
                ) == Some((TILE_SIZE, quadrant_height(tiles@[j]@))),
        decreases tiles@.len() - i,
    {
        assert(tiles@[i as int].len() == 1 || tiles@[i as int].len() == 4);
        let image = match join_quadrant(&tiles[i]) {
            Ok(image) => image,
            Err(e) => {
                assert(!quadrant_joins(tiles@[i as int]@));
                return Err(e);
            },
        };
        let png = png_bytes(&image)?;
        all_tiles.push(png);
        i += 1;
    }
    Ok(all_tiles)
}

/// A base tile as painted: decoded, and resized nearest-neighbour to the
/// tile size where its width differs from it.
pub open spec fn fitted(bytes: Seq<u8>) -> Layer {
    if decoded_raster(bytes).x != TILE_SIZE {
        Layer::Resize(Box::new(Layer::Decoded(bytes)), TILE_SIZE, TILE_SIZE)
    } else {
        Layer::Decoded(bytes)
    }
}

/// A transparent tile with every base tile of `tiles` painted over it in
/// order at the origin.
pub open spec fn base_layer(tiles: Seq<Vec<u8>>) -> Layer
    decreases tiles.len(),
{
    if tiles.len() == 0 {
        Layer::Blank(TILE_SIZE, TILE_SIZE)
    } else {
        Layer::Overlay(
            Box::new(base_layer(tiles.drop_last())),
            Box::new(fitted(tiles.last()@)),
            0,
            0,
        )
    }
}

/// The base tiles with the alert layer `tiled` painted last, on top.
pub open spec fn joined_layer(tiles: Seq<Vec<u8>>, tiled: Layer) -> Layer {
    Layer::Overlay(Box::new(base_layer(tiles)), Box::new(tiled), 0, 0)
}

/// The served tile: each base tile, decoded and resized to the tile size where
/// its width differs, is painted in order on a transparent tile, and the alert
/// layer `tiled` is painted last, all source-over at the origin.
pub fn join_tiles(tiles: &Vec<Vec<u8>>, tiled: &Picture) -> (r: Result<Picture, PaintError>)
    ensures
        r is Ok <==> all_decode(tiles@),
        r matches Ok(p) ==> p.layer() == joined_layer(tiles@, tiled.layer()),
        r matches Ok(p) ==> p.size() == (Raster { x: TILE_SIZE, y: TILE_SIZE }),
        r matches Err(e) ==> e == PaintError::Decode,
{
    let mut base = blank(TILE_SIZE, TILE_SIZE);
    let mut i: usize = 0;
    proof {
        assert(tiles@.take(0) =~= Seq::<Vec<u8>>::empty());
    }
    while i < tiles.len()
        invariant
            i <= tiles@.len(),
            base.size() == (Raster { x: TILE_SIZE, y: TILE_SIZE }),
            base.layer() == base_layer(tiles@.take(i as int)),
            forall|j: int| 0 <= j < i ==> decodes(#[trigger] tiles@[j]@),
        decreases tiles@.len() - i,
    {
        let image = decode_picture(&tiles[i])?;
        proof {
            assert(tiles@.take(i + 1).drop_last() =~= tiles@.take(i as int));
            assert(tiles@.take(i + 1).last() == tiles@[i as int]);
        }
        if image.width() != TILE_SIZE {
            let up = resize_nearest(&image, TILE_SIZE, TILE_SIZE);
            overlay(&mut base, &up, 0, 0);
        } else {
            overlay(&mut base, &image, 0, 0);
        }
        i += 1;
    }
    proof {
        assert(tiles@.take(tiles@.len() as int) =~= tiles@);
    }
    overlay(&mut base, tiled, 0, 0);
    Ok(base)
}

/// The PNG encoding of `image`.
pub fn png_bytes(image: &Picture) -> (r: Result<Vec<u8>, PaintError>)
    ensures
        image.size().x > 0 && image.size().y > 0 ==> r is Ok,
        r matches Ok(b) ==> b@ == png_encoding(image.layer()),
        r matches Ok(b) ==> (decode_fits(image.size().x, image.size().y) ==> decoded_size(b@)
            == Some((image.size().x, image.size().y))),
        r matches Err(e) ==> e == PaintError::Encode,
{
    match encode_png(image) {
        Ok(bytes) => Ok(bytes),
        Err(_) => Err(PaintError::Encode),
    }
}

} // verus!
