use slippy_map::download::MaxParallelDownloads;
use slippy_map::sources::render_template;
use slippy_map::http_tiles::{HttpTiles, Texture};
use slippy_map::position::Position;
use slippy_map::projector::Projector;
use slippy_map::tiles::{visible_tiles, TileId};

#[test]
fn parent_halves_coordinates() {
    let t = TileId { x: 500, y: 383, zoom: 10 };
    let p = t.parent().unwrap();
    assert_eq!(p, TileId { x: 250, y: 191, zoom: 9 });
    let root = TileId { x: 0, y: 0, zoom: 0 };
    assert!(root.parent().is_none());
}

#[test]
fn visible_tiles_cover_a_contiguous_rectangle() {
    // A viewport ten tiles wide at zoom ten.
    let proj = Projector::new(Position::new(36_676_800, -4_493_900), 10, 2560, 1440);
    let tiles = visible_tiles(&proj);
    let again = visible_tiles(&proj);
    assert_eq!(tiles, again);

    assert!(!tiles.is_empty());
    // All addresses are valid for the zoom and the set forms a rectangle
    // enumerated column by column.
    let rows = tiles.iter().filter(|t| t.x == tiles[0].x).count();
    assert_eq!(tiles.len() % rows, 0);
    let cols = tiles.len() / rows;
    // Ten tiles of viewport need eleven columns to cover every overlap.
    assert_eq!(cols, 11);
    for (k, t) in tiles.iter().enumerate() {
        assert_eq!(t.zoom, 10);
        assert!(t.x < 1024 && t.y < 1024);
        assert_eq!(t.x, tiles[(k / rows) * rows].x);
        assert_eq!(t.y, tiles[k % rows].y);
    }
    // Columns are consecutive modulo the grid width; rows are consecutive.
    for c in 1..cols {
        assert_eq!(tiles[c * rows].x, (tiles[(c - 1) * rows].x + 1) % 1024);
    }
    for r in 1..rows {
        assert_eq!(tiles[r].y, tiles[r - 1].y + 1);
    }
}

#[test]
fn tile_url_substitutes_column_row_and_zoom() {
    let template = "https://tile.openstreetmap.org/{z}/{x}/{y}.png";
    let url = render_template(template.as_bytes(), TileId { x: 500, y: 383, zoom: 10 });
    assert_eq!(
        String::from_utf8(url).unwrap(),
        "https://tile.openstreetmap.org/10/500/383.png"
    );
}

#[test]
fn template_without_placeholders_stays_unchanged() {
    let template = "https://example.org/static.png?q={q}&brace={x";
    let url = render_template(template.as_bytes(), TileId { x: 1, y: 2, zoom: 3 });
    assert_eq!(String::from_utf8(url).unwrap(), template);
}

#[test]
fn zero_coordinates_render_as_single_digits() {
    let url = render_template("{z}/{x}/{y}".as_bytes(), TileId { x: 0, y: 0, zoom: 0 });
    assert_eq!(String::from_utf8(url).unwrap(), "0/0/0");
}

#[test]
fn get_requests_a_missing_tile_once() {
    let mut cache = HttpTiles::new(64, MaxParallelDownloads { limit: 2 }, 100);
    let t = TileId { x: 500, y: 383, zoom: 10 };

    // First lookup misses and queues the fetch; nothing is in flight yet.
    assert!(cache.get(t, 0).is_none());
    assert_eq!(cache.stats().in_progress, 0);

    // Repeated lookups while the fetch is outstanding change nothing.
    assert!(cache.get(t, 0).is_none());
    assert!(cache.get(t, 1).is_none());
    assert_eq!(cache.stats().in_progress, 0);

    // One slot starts the one queued download.
    assert_eq!(cache.start_next(), Some(t));
    assert_eq!(cache.stats().in_progress, 1);
    assert_eq!(cache.start_next(), None);

    // Still outstanding: lookups stay idempotent while loading.
    assert!(cache.get(t, 2).is_none());
    assert_eq!(cache.stats().in_progress, 1);

    cache.complete(t, Some(Texture { handle: 7 }), 2, true);
    assert_eq!(cache.stats().in_progress, 0);
    assert_eq!(cache.get(t, 3), Some(Texture { handle: 7 }));
}

#[test]
fn concurrency_stays_within_the_bound() {
    let mut cache = HttpTiles::new(64, MaxParallelDownloads { limit: 2 }, 100);
    for x in 0..5u32 {
        assert!(cache.get(TileId { x, y: 0, zoom: 10 }, 0).is_none());
    }
    assert!(cache.start_next().is_some());
    assert!(cache.start_next().is_some());
    // Both slots busy: the remaining requests keep waiting.
    assert_eq!(cache.start_next(), None);
    assert_eq!(cache.stats().in_progress, 2);

    cache.complete(TileId { x: 0, y: 0, zoom: 10 }, Some(Texture { handle: 1 }), 0, true);
    assert_eq!(cache.stats().in_progress, 1);
    // A slot freed: the next queued tile starts, in arrival order.
    assert_eq!(cache.start_next(), Some(TileId { x: 2, y: 0, zoom: 10 }));
}

#[test]
fn failed_tile_retries_only_after_backoff() {
    let mut cache = HttpTiles::new(64, MaxParallelDownloads { limit: 1 }, 100);
    let t = TileId { x: 1, y: 2, zoom: 5 };
    assert!(cache.get(t, 0).is_none());
    assert_eq!(cache.start_next(), Some(t));
    // The fetch fails at time 10: eligible again at time 110.
    cache.complete(t, None, 10, true);
    assert_eq!(cache.stats().in_progress, 0);

    // Before the backoff passes nothing is re-queued.
    assert!(cache.get(t, 50).is_none());
    assert_eq!(cache.start_next(), None);

    // Once the backoff passes, the lookup re-requests the tile.
    assert!(cache.get(t, 110).is_none());
    assert_eq!(cache.start_next(), Some(t));
    cache.complete(t, Some(Texture { handle: 9 }), 111, true);
    assert_eq!(cache.get(t, 112), Some(Texture { handle: 9 }));
}

#[test]
fn unwanted_result_is_discarded() {
    let mut cache = HttpTiles::new(64, MaxParallelDownloads { limit: 1 }, 100);
    let t = TileId { x: 3, y: 4, zoom: 6 };
    assert!(cache.get(t, 0).is_none());
    assert_eq!(cache.start_next(), Some(t));
    // The viewport moved on: the completed texture is not promoted.
    cache.complete(t, Some(Texture { handle: 5 }), 1, false);
    assert_eq!(cache.stats().in_progress, 0);
    // A later lookup starts from scratch.
    assert!(cache.get(t, 2).is_none());
    assert_eq!(cache.start_next(), Some(t));
}

#[test]
fn eviction_removes_farthest_ready_tile_and_spares_loading() {
    let mut cache = HttpTiles::new(1, MaxParallelDownloads { limit: 4 }, 100);
    let near = TileId { x: 500, y: 383, zoom: 10 };
    let far = TileId { x: 10, y: 10, zoom: 10 };
    let loading = TileId { x: 501, y: 383, zoom: 10 };
    for t in [near, far, loading] {
        assert!(cache.get(t, 0).is_none());
    }
    assert_eq!(cache.start_next(), Some(near));
    cache.complete(near, Some(Texture { handle: 1 }), 0, true);
    assert_eq!(cache.start_next(), Some(far));
    cache.complete(far, Some(Texture { handle: 2 }), 0, true);
    // The third tile stays loading and must never be evicted.
    assert_eq!(cache.start_next(), Some(loading));

    assert_eq!(cache.evict_farthest(near), Some(far));
    // Near tile and the loading tile survive.
    assert_eq!(cache.get(near, 1), Some(Texture { handle: 1 }));
    assert_eq!(cache.stats().in_progress, 1);
}

#[test]
fn missing_tile_falls_back_to_ready_parent() {
    let mut cache = HttpTiles::new(64, MaxParallelDownloads { limit: 2 }, 100);
    let child = TileId { x: 500, y: 383, zoom: 10 };
    let parent = TileId { x: 250, y: 191, zoom: 9 };

    // With nothing ready anywhere, there is no fallback.
    assert_eq!(cache.fallback_texture(child), None);

    // Once the parent is ready, the child's cell borrows its texture.
    assert!(cache.get(parent, 0).is_none());
    assert_eq!(cache.start_next(), Some(parent));
    cache.complete(parent, Some(Texture { handle: 3 }), 0, true);
    assert_eq!(cache.fallback_texture(child), Some((parent, Texture { handle: 3 })));

    // Once the child itself is ready, it wins over the ancestor.
    assert!(cache.get(child, 1).is_none());
    assert_eq!(cache.start_next(), Some(child));
    cache.complete(child, Some(Texture { handle: 4 }), 1, true);
    assert_eq!(cache.fallback_texture(child), Some((child, Texture { handle: 4 })));
}

#[test]
fn tile_pyramid_end_to_end() {
    // The end-to-end frame: compute the covering tile set, miss on every
    // tile, run the simulated downloads to completion, then serve each tile
    // from the cache.
    let proj = Projector::new(Position::new(36_676_800, -4_493_900), 10, 2560, 1440);
    let tiles = visible_tiles(&proj);
    let mut cache = HttpTiles::new(1024, MaxParallelDownloads { limit: 8 }, 100);

    for t in tiles.iter() {
        assert!(cache.get(*t, 0).is_none());
    }
    let mut served: u64 = 0;
    while let Some(t) = cache.start_next() {
        assert!(cache.stats().in_progress <= 8);
        cache.complete(t, Some(Texture { handle: served }), 0, true);
        served += 1;
    }
    assert_eq!(served as usize, tiles.len());
    for t in tiles.iter() {
        assert!(cache.get(*t, 1).is_some());
    }
}
