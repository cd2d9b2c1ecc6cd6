use slippy_map::components::MapOverlay;
use slippy_map::download::MaxParallelDownloads;
use slippy_map::http_tiles::HttpTiles;
use slippy_map::memory::MapMemory;
use slippy_map::places::{DrawCommand, Place, Places};
use slippy_map::plugin::{Latest, Plugin};
use slippy_map::position::Position;
use slippy_map::projector::Projector;
use slippy_map::sources::{Attribution, TileSource};
use slippy_map::viewer::{airport_plugin, airport_plugin_2, partition_by_country, ViewerMapInfo};

fn place(lat: i64, lon: i64, label: &str) -> Place {
    Place { position: Position::new(lat, lon), label: label.to_string(), style: 0 }
}

fn osm_source() -> TileSource {
    TileSource {
        name: "OpenStreetMap".to_string(),
        url_template: "https://tile.openstreetmap.org/{z}/{x}/{y}.png".to_string(),
        min_zoom: 0,
        max_zoom: 19,
        attribution: Attribution {
            text: "OpenStreetMap contributors".to_string(),
            url: "https://www.openstreetmap.org/copyright".to_string(),
        },
        headers: Vec::new(),
    }
}

#[test]
fn viewer_map_info_starts_on_first_provider() {
    let providers = vec![(osm_source(), HttpTiles::new(256, MaxParallelDownloads { limit: 4 }, 100))];
    let info = ViewerMapInfo::new(providers);
    assert_eq!(info.selected_provider, 0);
    assert!(!info.zoom_with_ctrl_wheel);
    assert_eq!(info.map_memory.zoom, 16);
}

#[test]
fn partition_groups_by_country_in_first_appearance_order() {
    let items = vec![
        ("Spain".to_string(), place(36_676_800, -4_493_900, "AGP")),
        ("France".to_string(), place(48_700_000, 2_350_000, "ORY")),
        ("Spain".to_string(), place(40_470_000, -3_560_000, "MAD")),
    ];
    let groups = partition_by_country(items);
    assert_eq!(groups.len(), 2);
    assert_eq!(groups[0].0, "Spain");
    assert_eq!(groups[0].1.len(), 2);
    assert_eq!(groups[0].1[0].label, "AGP");
    assert_eq!(groups[0].1[1].label, "MAD");
    assert_eq!(groups[1].0, "France");
    assert_eq!(groups[1].1.len(), 1);
    assert_eq!(groups[1].1[0].label, "ORY");
}

#[test]
fn airport_plugin_builds_one_layer_per_country() {
    let items = vec![
        ("Spain".to_string(), place(36_676_800, -4_493_900, "AGP")),
        ("France".to_string(), place(48_700_000, 2_350_000, "ORY")),
        ("Spain".to_string(), place(40_470_000, -3_560_000, "MAD")),
    ];
    let layers = airport_plugin(items);
    assert_eq!(layers.len(), 2);
    assert_eq!(layers[0].places.len(), 2);
    assert_eq!(layers[1].places.len(), 1);
}

#[test]
fn airport_plugin_2_builds_one_layer_over_all() {
    let layer = airport_plugin_2(vec![
        place(36_676_800, -4_493_900, "AGP"),
        place(48_700_000, 2_350_000, "ORY"),
    ]);
    assert_eq!(layer.places.len(), 2);
    assert!(layer.current_groups_indexes.is_empty());
}

#[test]
fn plugins_declare_their_threading() {
    let inline = Plugin::Places(Places::new(vec![place(0, 0, "a")]));
    assert!(!inline.is_parallel());
    let parallel = Plugin::GroupedPlaces(airport_plugin_2(vec![place(0, 0, "a")]));
    assert!(parallel.is_parallel());
}

#[test]
fn parallel_plugin_publishes_through_latest_slot() {
    let mut plugin = Plugin::GroupedPlaces(airport_plugin_2(vec![
        place(10_000_000, 10_000_000, "a"),
        place(10_000_010, 10_000_010, "b"),
    ]));
    let proj = Projector::new(Position::new(10_000_000, 10_000_000), 12, 1024, 768);
    plugin.parallel_run(&proj);
    let cmds = plugin.run();

    // Latest-value semantics: the second publication wins, nothing queues.
    let mut slot: Latest<Vec<DrawCommand>> = Latest::new();
    assert!(slot.take().is_none());
    slot.publish(Vec::new());
    slot.publish(cmds.clone());
    assert_eq!(slot.take(), Some(cmds));
    assert!(slot.take().is_none());
}

#[test]
fn map_overlay_zoom_buttons_respect_bounds() {
    let mut overlay = MapOverlay::new(MapMemory::new(19, 0, 19), Vec::new());
    assert!(overlay.zoom_in_clicked().is_err());
    assert!(overlay.zoom_out_clicked().is_ok());
    assert_eq!(overlay.map_memory.zoom, 18);
}
