use mapper::geo::{coordinates_confine, find_alerts, sort_alerts, Alert, Coordinate, Plot};
use mapper::icons::{find_alert_asset, IconAsset, ICON_COUNT};
use mapper::request::{plan_request, CACHE_ZOOM};
use mapper::tile::{
    pad_tiles, sub_tiles, tile_longitude, translate_edge, zoom_scale, Raster, XYZ,
};
use mapper::url::{decimal_text, degrees_to_text, replace_text, replace_url, replace_url_waz};

fn xyz(x: u32, y: u32, z: u16) -> XYZ {
    XYZ { x, y, z }
}

fn alert(icon: &str, subicon: &str, lat: i64, lon: i64) -> Alert {
    Alert {
        icon: icon.to_string(),
        subicon: subicon.to_string(),
        position: Coordinate { lat, lon },
    }
}

fn square_box() -> Plot {
    Plot {
        top: Coordinate { lat: 100_000_000, lon: -100_000_000 },
        bottom: Coordinate { lat: -100_000_000, lon: 100_000_000 },
    }
}

#[test]
fn zoom_scale_divides_by_power_of_two() {
    assert_eq!(zoom_scale(10, &xyz(512, 513, 12)), xyz(128, 128, 10));
    assert_eq!(zoom_scale(10, &xyz(1023, 5, 11)), xyz(511, 2, 10));
}

#[test]
fn zoom_scale_keeps_coarser_tiles() {
    assert_eq!(zoom_scale(10, &xyz(3, 4, 5)), xyz(3, 4, 5));
    assert_eq!(zoom_scale(10, &xyz(700, 800, 10)), xyz(700, 800, 10));
}

#[test]
fn zoom_scale_large_shift_reaches_origin() {
    assert_eq!(zoom_scale(0, &xyz(u32::MAX, 77, 40)), xyz(0, 0, 0));
}

#[test]
fn zoom_scale_shares_bucket() {
    let a = zoom_scale(CACHE_ZOOM, &xyz(1000, 2000, 15));
    let b = zoom_scale(CACHE_ZOOM, &xyz(1023, 2015, 15));
    assert_eq!(a, b);
    assert_eq!(a, xyz(31, 62, 10));
    assert_ne!(zoom_scale(CACHE_ZOOM, &xyz(1024, 2000, 15)), a);
}

#[test]
fn translate_edge_puts_bottom_centre_on_point() {
    let r = translate_edge(&Raster { x: 32, y: 32 }, &Raster { x: 100, y: 100 });
    assert_eq!(r, Raster { x: 84, y: 68 });
    let odd = translate_edge(&Raster { x: 31, y: 20 }, &Raster { x: 100, y: 100 });
    assert_eq!(odd, Raster { x: 85, y: 80 });
}

#[test]
fn translate_edge_clamps_at_zero() {
    let r = translate_edge(&Raster { x: 32, y: 32 }, &Raster { x: 10, y: 40 });
    assert_eq!(r, Raster { x: 0, y: 8 });
    let r = translate_edge(&Raster { x: 32, y: 32 }, &Raster { x: 0, y: 0 });
    assert_eq!(r, Raster { x: 0, y: 0 });
}

#[test]
fn pad_tiles_clamps_at_grid_edges() {
    let (top, bottom) = pad_tiles(1, &xyz(0, 7, 3));
    assert_eq!(top, xyz(0, 6, 3));
    assert_eq!(bottom, xyz(2, 8, 3));
    let (top, bottom) = pad_tiles(1, &xyz(4, 4, 3));
    assert_eq!(top, xyz(3, 3, 3));
    assert_eq!(bottom, xyz(6, 6, 3));
    let (top, bottom) = pad_tiles(5, &xyz(0, 0, 0));
    assert_eq!(top, xyz(0, 0, 0));
    assert_eq!(bottom, xyz(1, 1, 0));
}

#[test]
fn sub_tiles_are_the_four_children() {
    let children = sub_tiles(&xyz(3, 5, 4));
    assert_eq!(
        children,
        vec![xyz(6, 10, 5), xyz(7, 10, 5), xyz(6, 11, 5), xyz(7, 11, 5)]
    );
}

#[test]
fn tile_longitude_values() {
    assert_eq!(tile_longitude(&xyz(0, 0, 1)), -1_800_000_000);
    assert_eq!(tile_longitude(&xyz(1, 0, 1)), 0);
    assert_eq!(tile_longitude(&xyz(2, 0, 1)), 1_800_000_000);
    assert_eq!(tile_longitude(&xyz(512, 0, 10)), 0);
    assert_eq!(tile_longitude(&xyz(1, 0, 20)), -1_800_000_000 + 3434);
}

#[test]
fn tile_longitude_round_trips_through_forward_projection() {
    for &(x, z) in &[(0u32, 0u16), (1, 1), (513, 10), (1, 20), (123_456, 17), (0x7FFF_FFFF, 31)] {
        let lon = tile_longitude(&xyz(x, 0, z)) as i128;
        let back = (lon + 1_800_000_000) * (1i128 << z) / 3_600_000_000;
        assert_eq!(back, x as i128);
    }
}

#[test]
fn coordinates_confine_interpolates() {
    let canvas = Raster { x: 100, y: 100 };
    let centre = coordinates_confine(&Coordinate { lat: 0, lon: 0 }, &square_box(), &canvas);
    assert_eq!(centre, Raster { x: 50, y: 50 });
    let corner = coordinates_confine(
        &Coordinate { lat: 100_000_000, lon: -100_000_000 },
        &square_box(),
        &canvas,
    );
    assert_eq!(corner, Raster { x: 0, y: 0 });
    let inner = coordinates_confine(
        &Coordinate { lat: -33_333_333, lon: 33_333_333 },
        &square_box(),
        &canvas,
    );
    assert_eq!(inner, Raster { x: 66, y: 66 });
}

#[test]
fn coordinates_confine_saturates_outside() {
    let canvas = Raster { x: 100, y: 100 };
    let west = coordinates_confine(
        &Coordinate { lat: 200_000_000, lon: -300_000_000 },
        &square_box(),
        &canvas,
    );
    assert_eq!(west, Raster { x: 0, y: 0 });
    let east = coordinates_confine(
        &Coordinate { lat: -300_000_000, lon: 300_000_000 },
        &square_box(),
        &canvas,
    );
    assert_eq!(east, Raster { x: 200, y: 200 });
}

#[test]
fn find_alerts_keeps_strictly_inside() {
    let all = vec![
        alert("JAM", "", 0, 0),
        alert("POLICE", "", 100_000_000, 0),
        alert("ACCIDENT", "", 5, -99_999_999),
        alert("HAZARD", "", 0, 100_000_000),
        alert("ROAD_CLOSED", "", -200_000_000, 0),
    ];
    let found = find_alerts(&all, &square_box());
    let names: Vec<&str> = found.iter().map(|a| a.icon.as_str()).collect();
    assert_eq!(names, vec!["JAM", "ACCIDENT"]);
}

#[test]
fn find_alerts_of_empty_list() {
    assert!(find_alerts(&Vec::new(), &square_box()).is_empty());
}

#[test]
fn sort_alerts_orders_by_latitude_then_longitude() {
    let all = vec![
        alert("A", "", 10, 5),
        alert("B", "", 30, 1),
        alert("C", "", 10, 9),
        alert("D", "", -4, 100),
        alert("E", "", 30, 2),
    ];
    let sorted = sort_alerts(&all);
    let names: Vec<&str> = sorted.iter().map(|a| a.icon.as_str()).collect();
    assert_eq!(names, vec!["E", "B", "C", "A", "D"]);
}

#[test]
fn sort_alerts_keeps_equal_positions_in_order() {
    let all = vec![alert("first", "", 1, 1), alert("second", "", 1, 1), alert("top", "", 2, 0)];
    let sorted = sort_alerts(&all);
    let names: Vec<&str> = sorted.iter().map(|a| a.icon.as_str()).collect();
    assert_eq!(names, vec!["top", "first", "second"]);
}

#[test]
fn icon_known_pairs() {
    assert_eq!(find_alert_asset("HAZARD", "HAZARD_ON_ROAD_ICE"), IconAsset::Ice);
    assert_eq!(find_alert_asset("HAZARD", "HAZARD_WEATHER_FOG"), IconAsset::Fog);
    assert_eq!(find_alert_asset("JAM", "JAM_STAND_STILL_TRAFFIC"), IconAsset::TrafficHigh);
    assert_eq!(find_alert_asset("JAM", "JAM_HEAVY_TRAFFIC"), IconAsset::TrafficLow);
    assert_eq!(find_alert_asset("ROAD_CLOSED", ""), IconAsset::Closure);
    assert_eq!(find_alert_asset("ACCIDENT", "ACCIDENT_MAJOR"), IconAsset::Accident);
    assert_eq!(find_alert_asset("POLICE", "POLICE_VISIBLE"), IconAsset::Police);
}

#[test]
fn icon_unknown_subcategory_falls_back_to_category_default() {
    assert_eq!(find_alert_asset("HAZARD", "NOT_A_SUBTYPE"), IconAsset::Hazard);
    assert_eq!(find_alert_asset("JAM", "NOT_A_SUBTYPE"), IconAsset::TrafficLow);
    assert_eq!(find_alert_asset("POLICE", "HAZARD_ON_ROAD_ICE"), IconAsset::Police);
}

#[test]
fn icon_unknown_category_uses_default_category() {
    assert_eq!(find_alert_asset("NOT_A_TYPE", "NOT_A_SUBTYPE"), IconAsset::Hazard);
    assert_eq!(find_alert_asset("", ""), IconAsset::Hazard);
    assert_eq!(find_alert_asset("CHIT_CHAT", "HAZARD_ON_ROAD_POT_HOLE"), IconAsset::Pothole);
}

#[test]
fn icon_indices_are_distinct() {
    let all = [
        IconAsset::Hazard,
        IconAsset::Pothole,
        IconAsset::Construction,
        IconAsset::Ice,
        IconAsset::TrafficLight,
        IconAsset::RoadObject,
        IconAsset::VehicleStopped,
        IconAsset::Fog,
        IconAsset::TrafficLow,
        IconAsset::TrafficHigh,
        IconAsset::Closure,
        IconAsset::Accident,
        IconAsset::Police,
    ];
    let mut seen: Vec<usize> = all.iter().map(|a| a.index()).collect();
    seen.sort();
    assert_eq!(seen, (0..ICON_COUNT).collect::<Vec<usize>>());
    assert_eq!(IconAsset::VehicleStopped.name(), "vehicle-stopped");
}

#[test]
fn decimal_text_values() {
    assert_eq!(decimal_text(0), "0");
    assert_eq!(decimal_text(7), "7");
    assert_eq!(decimal_text(1024), "1024");
    assert_eq!(decimal_text(u64::MAX), "18446744073709551615");
}

#[test]
fn degrees_to_text_values() {
    assert_eq!(degrees_to_text(515_000_000), "51.5");
    assert_eq!(degrees_to_text(-1_800_000_000), "-180");
    assert_eq!(degrees_to_text(0), "0");
    assert_eq!(degrees_to_text(-5), "-0.0000005");
    assert_eq!(degrees_to_text(123_456_789), "12.3456789");
    assert_eq!(degrees_to_text(10_000_010), "1.000001");
}

#[test]
fn replace_text_replaces_every_occurrence() {
    assert_eq!(replace_text("a{x}b{x}", "{x}", "12"), "a12b12");
    assert_eq!(replace_text("{x", "{x}", "12"), "{x");
    assert_eq!(replace_text("aaa", "aa", "b"), "ba");
    assert_eq!(replace_text("", "{x}", "1"), "");
}

#[test]
fn replace_url_fills_tile_indices() {
    let url = replace_url("https://tiles.example/{z}/{x}/{y}.png?x={x}", &xyz(512, 340, 10));
    assert_eq!(url, "https://tiles.example/10/512/340.png?x=512");
}

#[test]
fn replace_url_waz_fills_box_edges() {
    let plot = Plot {
        top: Coordinate { lat: 515_000_000, lon: -1_250_000 },
        bottom: Coordinate { lat: 514_000_000, lon: 1_000_000 },
    };
    let url = replace_url_waz("t={top}&b={bottom}&l={left}&r={right}", &plot);
    assert_eq!(url, "t=51.5&b=51.4&l=-0.125&r=0.1");
}

#[test]
fn plan_request_keys_and_areas() {
    let plan = plan_request(&xyz(4096, 2048, 13));
    assert_eq!(plan.tile_key, xyz(4096, 2048, 13));
    assert_eq!(plan.alert_key, xyz(512, 256, 10));
    assert_eq!(plan.alert_area, (xyz(511, 255, 10), xyz(514, 258, 10)));
    assert_eq!(plan.paint_area, (xyz(4095, 2047, 13), xyz(4098, 2050, 13)));
    assert_eq!(
        plan.quadrants,
        vec![xyz(8192, 4096, 14), xyz(8193, 4096, 14), xyz(8192, 4097, 14), xyz(8193, 4097, 14)]
    );
}
