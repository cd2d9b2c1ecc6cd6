use slippy_map::places::{center, DrawCommand, GroupedPlaces, Place, Places};
use slippy_map::position::Position;
use slippy_map::projector::{Projector, ScreenPoint};

fn place(lat: i64, lon: i64, label: &str) -> Place {
    Place { position: Position::new(lat, lon), label: label.to_string(), style: 0 }
}

#[test]
fn calculating_center() {
    assert_eq!(
        center(&[
            Position::new(0, 0),
            Position::new(10_000_000, 10_000_000),
            Position::new(20_000_000, 20_000_000),
        ]),
        Position::new(10_000_000, 10_000_000)
    );

    assert_eq!(
        center(&[
            Position::new(0, 0),
            Position::new(10_000_000, 0),
            Position::new(0, 10_000_000),
            Position::new(10_000_000, 10_000_000),
        ]),
        Position::new(5_000_000, 5_000_000)
    );

    assert_eq!(
        center(&[
            Position::new(10_000_000, 10_000_000),
            Position::new(-10_000_000, -10_000_000),
            Position::new(-10_000_000, 10_000_000),
            Position::new(10_000_000, -10_000_000),
        ]),
        Position::new(0, 0)
    );
}

#[test]
fn center_of_empty_list_is_origin() {
    assert_eq!(center(&[]), Position::new(0, 0));
}

#[test]
fn single_marker_suppressed_below_zoom_threshold() {
    let gp = GroupedPlaces::new(vec![place(36_676_800, -4_493_900, "airport")]);
    let proj = Projector::new(Position::new(36_676_800, -4_493_900), 5, 1024, 768);
    assert_eq!(gp.groups(&proj), Vec::<Vec<usize>>::new());
}

#[test]
fn single_marker_shown_at_zoom_threshold() {
    let gp = GroupedPlaces::new(vec![place(36_676_800, -4_493_900, "airport")]);
    let proj = Projector::new(Position::new(36_676_800, -4_493_900), 6, 1024, 768);
    assert_eq!(gp.groups(&proj), vec![vec![0usize]]);
}

#[test]
fn grouping_is_deterministic() {
    let gp = GroupedPlaces::new(vec![
        place(36_676_800, -4_493_900, "a"),
        place(36_676_900, -4_493_800, "b"),
        place(36_900_000, -4_100_000, "c"),
        place(-33_000_000, 151_000_000, "far away"),
    ]);
    let proj = Projector::new(Position::new(36_676_800, -4_493_900), 10, 1024, 768);
    let first = gp.groups(&proj);
    let second = gp.groups(&proj);
    assert_eq!(first, second);
}

#[test]
fn close_markers_share_a_group() {
    // Two markers a few dozen metres apart at high zoom join one group; a
    // marker on the other side of the viewport starts its own.
    let gp = GroupedPlaces::new(vec![
        place(36_676_800, -4_493_900, "a"),
        place(36_676_810, -4_493_890, "b"),
        place(36_700_000, -4_400_000, "c"),
    ]);
    let proj = Projector::new(Position::new(36_676_800, -4_493_900), 12, 4096, 4096);
    let groups = gp.groups(&proj);
    assert_eq!(groups, vec![vec![0usize, 1], vec![2usize]]);
}

#[test]
fn world_scale_zoom_collapses_markers_into_one_group() {
    let gp = GroupedPlaces::new(vec![
        place(10_000_000, 10_000_000, "a"),
        place(-10_000_000, -10_000_000, "b"),
        place(12_000_000, 8_000_000, "c"),
    ]);
    let proj = Projector::new(Position::new(0, 0), 3, 4096, 4096);
    let groups = gp.groups(&proj);
    assert_eq!(groups.len(), 1);
    assert_eq!(groups[0], vec![0usize, 1, 2]);
}

#[test]
fn out_of_view_markers_are_skipped() {
    let gp = GroupedPlaces::new(vec![
        place(36_676_800, -4_493_900, "near"),
        place(-33_000_000, 151_000_000, "far"),
    ]);
    let proj = Projector::new(Position::new(36_676_800, -4_493_900), 10, 1024, 768);
    let groups = gp.groups(&proj);
    assert_eq!(groups, vec![vec![0usize]]);
}

#[test]
fn interact_toggles_expansion_on_click() {
    let mut gp = GroupedPlaces::new(vec![
        place(36_676_800, -4_493_900, "a"),
        place(36_676_810, -4_493_890, "b"),
    ]);
    assert!(!gp.is_expanded(0));
    // A plain frame without a click leaves the state alone.
    assert!(!gp.interact(0, false));
    assert!(!gp.is_expanded(0));
    // A click returns the old state and toggles it for later frames.
    assert!(!gp.interact(0, true));
    assert!(gp.is_expanded(0));
    assert!(gp.interact(0, true));
    assert!(!gp.is_expanded(0));
}

#[test]
fn run_emits_cluster_glyph_for_collapsed_group() {
    let mut gp = GroupedPlaces::new(vec![
        place(10_000_000, 10_000_000, "a"),
        place(10_000_010, 10_000_010, "b"),
    ]);
    let proj = Projector::new(Position::new(10_000_000, 10_000_000), 12, 1024, 768);
    gp.parallel_run(&proj);
    let cmds = gp.run();
    assert_eq!(cmds.len(), 1);
    match cmds[0] {
        DrawCommand::Cluster { id, center, size } => {
            assert_eq!(id, 0);
            assert_eq!(size, 2);
            assert_eq!(center, Position::new(10_000_005, 10_000_005));
        }
        _ => panic!("expected an aggregate glyph"),
    }
}

#[test]
fn run_emits_individual_markers_for_expanded_group() {
    let mut gp = GroupedPlaces::new(vec![
        place(10_000_000, 10_000_000, "a"),
        place(10_000_010, 10_000_010, "b"),
    ]);
    let proj = Projector::new(Position::new(10_000_000, 10_000_000), 12, 1024, 768);
    gp.parallel_run(&proj);
    gp.interact(0, true);
    let cmds = gp.run();
    assert_eq!(
        cmds,
        vec![DrawCommand::Marker { index: 0 }, DrawCommand::Marker { index: 1 }]
    );
}

#[test]
fn click_on_glyph_toggles_expansion() {
    let mut gp = GroupedPlaces::new(vec![
        place(10_000_000, 10_000_000, "a"),
        place(10_000_010, 10_000_010, "b"),
    ]);
    let proj = Projector::new(Position::new(10_000_000, 10_000_000), 12, 1024, 768);
    gp.parallel_run(&proj);
    let glyph = proj.project(gp.group_record(0).center);

    // A click on the glyph toggles the group; a click far away does nothing.
    assert_eq!(gp.click(&proj, glyph), Some(0));
    assert!(gp.is_expanded(0));
    let far = ScreenPoint { x: glyph.x + 200 * 1_406_250, y: glyph.y };
    assert_eq!(gp.click(&proj, far), None);
    assert!(gp.is_expanded(0));
}

#[test]
fn group_record_carries_members_and_centroid() {
    let mut gp = GroupedPlaces::new(vec![
        place(10_000_000, 10_000_000, "a"),
        place(10_000_010, 10_000_010, "b"),
    ]);
    let proj = Projector::new(Position::new(10_000_000, 10_000_000), 12, 1024, 768);
    gp.parallel_run(&proj);
    let record = gp.group_record(0);
    assert_eq!(record.id, 0);
    assert_eq!(record.members, vec![0usize, 1]);
    assert_eq!(record.center, Position::new(10_000_005, 10_000_005));
}

#[test]
fn ungrouped_places_draw_each_marker() {
    let layer = Places::new(vec![
        place(10_000_000, 10_000_000, "a"),
        place(20_000_000, 20_000_000, "b"),
    ]);
    let cmds = layer.run();
    assert_eq!(
        cmds,
        vec![DrawCommand::Marker { index: 0 }, DrawCommand::Marker { index: 1 }]
    );
}
