use image::{DynamicImage, ImageFormat, Rgba, RgbaImage};
use mapper::geo::{Alert, Coordinate, Plot};
use mapper::icons::{IconAsset, ICON_COUNT};
use mapper::paint::{
    alerts_to_tile, icon_position, join_quadrant, join_quadrant_tiles, join_tiles, png_bytes,
    PaintError,
};
use mapper::request::render_tile;
use mapper::tile::{Raster, TILE_INFLATED, TILE_SIZE};

fn encode(img: RgbaImage) -> Vec<u8> {
    let mut out = std::io::Cursor::new(Vec::new());
    DynamicImage::ImageRgba8(img).write_to(&mut out, ImageFormat::Png).unwrap();
    out.into_inner()
}

fn solid(w: u32, h: u32, colour: [u8; 4]) -> Vec<u8> {
    encode(RgbaImage::from_pixel(w, h, Rgba(colour)))
}

fn decode(bytes: &[u8]) -> RgbaImage {
    image::load_from_memory(bytes).unwrap().to_rgba8()
}

const RED: [u8; 4] = [255, 0, 0, 255];
const GREEN: [u8; 4] = [0, 255, 0, 255];
const BLUE: [u8; 4] = [0, 0, 255, 255];
const WHITE: [u8; 4] = [255, 255, 255, 255];
const CLEAR: [u8; 4] = [0, 0, 0, 0];

fn icons(colour: [u8; 4]) -> Vec<Vec<u8>> {
    (0..ICON_COUNT).map(|_| solid(32, 32, colour)).collect()
}

fn padded_box() -> Plot {
    Plot {
        top: Coordinate { lat: 300_000_000, lon: -300_000_000 },
        bottom: Coordinate { lat: -300_000_000, lon: 300_000_000 },
    }
}

fn alert_at(lat: i64, lon: i64) -> Alert {
    Alert {
        icon: "POLICE".to_string(),
        subicon: String::new(),
        position: Coordinate { lat, lon },
    }
}

#[test]
fn end_to_end_without_alerts_returns_the_base_tile() {
    let stub = RgbaImage::from_fn(256, 256, |x, y| Rgba([x as u8, y as u8, 77, 255]));
    let tiles = vec![encode(stub.clone())];
    let png = render_tile(&Vec::new(), &padded_box(), &tiles, &icons(RED)).unwrap();
    let out = decode(&png);
    assert_eq!(out.dimensions(), (256, 256));
    assert_eq!(out, stub);
}

#[test]
fn end_to_end_outside_alerts_are_not_painted() {
    let tiles = vec![solid(256, 256, WHITE)];
    let far = vec![alert_at(400_000_000, 0)];
    let png = render_tile(&far, &padded_box(), &tiles, &icons(RED)).unwrap();
    assert_eq!(decode(&png), RgbaImage::from_pixel(256, 256, Rgba(WHITE)));
}

#[test]
fn icon_anchor_lands_on_projected_pixel() {
    let canvas = Raster { x: TILE_INFLATED, y: TILE_INFLATED };
    let icon = Raster { x: 32, y: 32 };
    // Centre of the southern edge of the padded box.
    let at = Coordinate { lat: -300_000_000, lon: 0 };
    let top_left = icon_position(&at, &padded_box(), &canvas, &icon);
    assert_eq!(top_left, Raster { x: 368, y: 736 });
    assert_eq!((top_left.x + icon.x / 2, top_left.y + icon.y), (384, 768));
}

#[test]
fn alert_icon_is_painted_with_its_anchor_on_the_point() {
    // The centre of the padded box projects to pixel (384, 384) of the
    // 768-pixel canvas, which is (128, 128) of the central tile.
    let layer = alerts_to_tile(&vec![alert_at(0, 0)], &padded_box(), &icons(RED)).unwrap();
    assert_eq!((layer.width(), layer.height()), (TILE_SIZE, TILE_SIZE));
    let out = decode(&png_bytes(&layer).unwrap());
    assert_eq!(out.get_pixel(112, 96), &Rgba(RED));
    assert_eq!(out.get_pixel(143, 127), &Rgba(RED));
    assert_eq!(out.get_pixel(111, 96), &Rgba(CLEAR));
    assert_eq!(out.get_pixel(144, 127), &Rgba(CLEAR));
    assert_eq!(out.get_pixel(128, 128), &Rgba(CLEAR));
    assert_eq!(out.get_pixel(112, 95), &Rgba(CLEAR));
}

#[test]
fn alert_icon_uses_the_resolved_asset() {
    let mut table = icons(RED);
    table[IconAsset::Police.index()] = solid(32, 32, BLUE);
    let layer = alerts_to_tile(&vec![alert_at(0, 0)], &padded_box(), &table).unwrap();
    let out = decode(&png_bytes(&layer).unwrap());
    assert_eq!(out.get_pixel(120, 100), &Rgba(BLUE));
}

#[test]
fn alerts_later_in_the_list_are_painted_over_earlier_ones() {
    let mut table = icons(RED);
    table[IconAsset::Accident.index()] = solid(32, 32, GREEN);
    let first = alert_at(0, 0);
    let mut second = alert_at(0, 0);
    second.icon = "ACCIDENT".to_string();
    let layer = alerts_to_tile(&vec![first, second], &padded_box(), &table).unwrap();
    let out = decode(&png_bytes(&layer).unwrap());
    assert_eq!(out.get_pixel(120, 100), &Rgba(GREEN));
}

#[test]
fn alert_layer_with_bad_icon_fails_to_decode() {
    let mut table = icons(RED);
    table[IconAsset::Police.index()] = vec![1, 2, 3];
    let r = alerts_to_tile(&vec![alert_at(0, 0)], &padded_box(), &table);
    assert_eq!(r.err(), Some(PaintError::Decode));
}

#[test]
fn join_quadrant_tiles_stitches_four_children() {
    let entry = vec![
        solid(128, 128, RED),
        solid(128, 128, GREEN),
        solid(128, 128, BLUE),
        solid(128, 128, WHITE),
    ];
    let out = join_quadrant_tiles(&vec![entry]).unwrap();
    assert_eq!(out.len(), 1);
    let img = decode(&out[0]);
    assert_eq!(img.dimensions(), (256, 256));
    assert_eq!(img.get_pixel(10, 10), &Rgba(RED));
    assert_eq!(img.get_pixel(200, 10), &Rgba(GREEN));
    assert_eq!(img.get_pixel(10, 200), &Rgba(BLUE));
    assert_eq!(img.get_pixel(200, 200), &Rgba(WHITE));
}

#[test]
fn join_quadrant_resizes_large_children() {
    let entry = vec![
        solid(256, 256, RED),
        solid(256, 256, GREEN),
        solid(256, 256, BLUE),
        solid(256, 256, WHITE),
    ];
    let joined = join_quadrant(&entry).unwrap();
    assert_eq!((joined.width(), joined.height()), (256, 256));
    let img = decode(&png_bytes(&joined).unwrap());
    assert_eq!(img.get_pixel(0, 0), &Rgba(RED));
    assert_eq!(img.get_pixel(255, 0), &Rgba(GREEN));
    assert_eq!(img.get_pixel(0, 255), &Rgba(BLUE));
    assert_eq!(img.get_pixel(255, 255), &Rgba(WHITE));
}

#[test]
fn join_quadrant_tiles_takes_single_images_as_they_are() {
    let out = join_quadrant_tiles(&vec![vec![solid(256, 256, BLUE)], vec![solid(512, 512, RED)]])
        .unwrap();
    assert_eq!(out.len(), 2);
    assert_eq!(decode(&out[0]), RgbaImage::from_pixel(256, 256, Rgba(BLUE)));
    assert_eq!(decode(&out[1]), RgbaImage::from_pixel(256, 256, Rgba(RED)));
}

#[test]
fn join_quadrant_tiles_of_nothing() {
    assert!(join_quadrant_tiles(&Vec::new()).unwrap().is_empty());
}

#[test]
fn join_quadrant_tiles_rejects_bad_bytes() {
    let r = join_quadrant_tiles(&vec![vec![b"not an image".to_vec()]]);
    assert_eq!(r.err(), Some(PaintError::Decode));
}

#[test]
fn join_tiles_stacks_layers_in_order() {
    let layer = alerts_to_tile(&Vec::new(), &padded_box(), &icons(RED)).unwrap();
    let tiles = vec![solid(256, 256, RED), solid(128, 128, GREEN)];
    let joined = join_tiles(&tiles, &layer).unwrap();
    assert_eq!((joined.width(), joined.height()), (256, 256));
    let img = decode(&png_bytes(&joined).unwrap());
    assert_eq!(img, RgbaImage::from_pixel(256, 256, Rgba(GREEN)));
}

#[test]
fn join_tiles_without_base_is_the_alert_layer() {
    let layer = alerts_to_tile(&vec![alert_at(0, 0)], &padded_box(), &icons(BLUE)).unwrap();
    let joined = join_tiles(&Vec::new(), &layer).unwrap();
    let img = decode(&png_bytes(&joined).unwrap());
    assert_eq!(img.get_pixel(120, 100), &Rgba(BLUE));
    assert_eq!(img.get_pixel(0, 0), &Rgba(CLEAR));
}

#[test]
fn join_tiles_rejects_bad_bytes() {
    let layer = alerts_to_tile(&Vec::new(), &padded_box(), &icons(RED)).unwrap();
    let r = join_tiles(&vec![vec![0u8; 16]], &layer);
    assert_eq!(r.err(), Some(PaintError::Decode));
}

#[test]
fn join_quadrant_reports_undecodable_children() {
    let broken = vec![solid(4, 4, RED), vec![9, 9], solid(4, 4, RED), solid(4, 4, RED)];
    assert_eq!(join_quadrant(&broken).err(), Some(PaintError::Decode));
}

#[test]
fn png_bytes_round_trips_pixels() {
    let layer = alerts_to_tile(&vec![alert_at(0, 0)], &padded_box(), &icons(GREEN)).unwrap();
    let first = png_bytes(&layer).unwrap();
    let again = decode(&first);
    assert_eq!(again.dimensions(), (TILE_SIZE, TILE_SIZE));
    assert_eq!(encode(again.clone()), first);
    let tiles = vec![first];
    let joined = join_tiles(&tiles, &alerts_to_tile(&Vec::new(), &padded_box(), &icons(RED)).unwrap())
        .unwrap();
    assert_eq!(decode(&png_bytes(&joined).unwrap()), again);
}

#[test]
fn render_tile_reports_undecodable_base_tile() {
    let r = render_tile(&Vec::new(), &padded_box(), &vec![vec![0u8; 3]], &icons(RED));
    assert_eq!(r.err(), Some(PaintError::Decode));
}

#[test]
fn render_tile_ignores_icons_of_alerts_outside_the_area() {
    let mut table = icons(RED);
    table[IconAsset::Police.index()] = vec![1];
    let far = vec![alert_at(400_000_000, 0)];
    assert!(render_tile(&far, &padded_box(), &vec![solid(256, 256, WHITE)], &table).is_ok());
    let near = vec![alert_at(0, 0)];
    let r = render_tile(&near, &padded_box(), &vec![solid(256, 256, WHITE)], &table);
    assert_eq!(r.err(), Some(PaintError::Decode));
}

#[test]
fn join_quadrant_tiles_turns_single_images_into_rgba() {
    let mut out = std::io::Cursor::new(Vec::new());
    DynamicImage::ImageRgb8(image::RgbImage::from_pixel(256, 256, image::Rgb([9, 8, 7])))
        .write_to(&mut out, ImageFormat::Png)
        .unwrap();
    let joined = join_quadrant_tiles(&vec![vec![out.into_inner()]]).unwrap();
    let img = image::load_from_memory(&joined[0]).unwrap();
    assert_eq!(img.color(), image::ColorType::Rgba8);
    assert_eq!(img.to_rgba8().get_pixel(3, 3), &Rgba([9, 8, 7, 255]));
}
