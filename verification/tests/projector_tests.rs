use slippy_map::mercator::{inv_merc_y, merc_y};
use slippy_map::position::{lat_lon, lon_lat, Position};
use slippy_map::projector::{scale_for_zoom, Projector, ScreenPoint};

#[test]
fn constructors_keep_coordinate_order() {
    assert_eq!(lat_lon(1, 2), Position::new(1, 2));
    assert_eq!(lon_lat(2, 1), Position::new(1, 2));
}

#[test]
fn scale_doubles_per_zoom_level() {
    assert_eq!(scale_for_zoom(0), 1);
    assert_eq!(scale_for_zoom(1), 2);
    assert_eq!(scale_for_zoom(10), 1024);
    assert_eq!(scale_for_zoom(24), 16_777_216);
}

#[test]
fn mercator_is_odd_and_monotone() {
    assert_eq!(merc_y(0), 0);
    assert_eq!(merc_y(-36_676_800), -merc_y(36_676_800));
    let mut prev = merc_y(-90_000_000);
    let mut lat: i64 = -80_000_000;
    while lat <= 90_000_000 {
        let y = merc_y(lat);
        assert!(y > prev);
        prev = y;
        lat += 10_000_000;
    }
    // The cubic correction is visible away from the equator.
    assert!(merc_y(60_000_000) > 60_000_000);
}

#[test]
fn mercator_inverse_is_exact() {
    for lat in [
        -90_000_000i64,
        -36_676_800,
        -1,
        0,
        1,
        12_345_678,
        36_676_800,
        89_999_999,
        90_000_000,
    ] {
        assert_eq!(inv_merc_y(merc_y(lat)), lat);
    }
}

#[test]
fn project_unproject_roundtrip_is_exact() {
    let proj = Projector::new(Position::new(36_676_800, -4_493_900), 10, 2560, 1440);
    for p in [
        Position::new(36_676_800, -4_493_900),
        Position::new(36_000_000, -4_000_000),
        Position::new(-36_676_800, 4_493_900),
        Position::new(0, 0),
        Position::new(90_000_000, 180_000_000),
        Position::new(-90_000_000, -180_000_000),
    ] {
        let sp = proj.project(p);
        assert_eq!(proj.unproject(sp), p);
    }
}

#[test]
fn roundtrip_holds_for_every_zoom_and_viewport() {
    let p = Position::new(-12_345_678, 98_765_432);
    for zoom in 0..=24u8 {
        let proj = Projector::new(Position::new(10_000_000, 20_000_000), zoom, 1024, 768);
        assert_eq!(proj.unproject(proj.project(p)), p);
    }
}

#[test]
fn viewport_centre_projects_to_viewport_middle() {
    let c = Position::new(36_676_800, -4_493_900);
    let proj = Projector::new(c, 10, 2560, 1440);
    let sp = proj.project(c);
    assert_eq!(sp, ScreenPoint { x: 2560 / 2 * 1_406_250, y: 1440 / 2 * 1_406_250 });
}

#[test]
fn is_in_view_accepts_centre_and_rejects_antipode() {
    let c = Position::new(36_676_800, -4_493_900);
    let proj = Projector::new(c, 10, 2560, 1440);
    assert!(proj.is_in_view(c));
    assert!(!proj.is_in_view(Position::new(-36_676_800, 175_000_000)));
}

#[test]
fn within_distance_separates_near_from_far() {
    let c = Position::new(36_676_800, -4_493_900);
    let proj = Projector::new(c, 10, 2560, 1440);
    let near = Position::new(36_676_810, -4_493_890);
    let far = Position::new(36_900_000, -4_100_000);
    assert!(proj.within_distance(c, near, 50));
    assert!(!proj.within_distance(c, far, 50));
}
