use tilestream::TilePos;
use tilestream::Viewport;
use tilestream::MAX_ZOOM;

#[test]
fn new_is_pyramid_root() {
    let t = TilePos::new();
    assert_eq!(t, TilePos { z: 0, x: 0, y: 0, m: 0 });
    assert!(t.is_valid());
}

#[test]
fn zoom_in_then_out_round_trip() {
    let mut t = TilePos { z: 1, x: 0, y: 1, m: 0 };
    t.zoom_in(200, 10);
    assert_eq!(t, TilePos { z: 2, x: 1, y: 2, m: 0 });
    t.zoom_out();
    assert_eq!(t, TilePos { z: 1, x: 0, y: 1, m: 0 });
}

#[test]
fn zoom_round_trip_all_quadrants() {
    for &(u, v) in &[(0u32, 0u32), (255, 0), (0, 255), (255, 255), (127, 128)] {
        let orig = TilePos { z: 7, x: 100, y: 77, m: 1 };
        let mut t = orig;
        t.zoom_in(u, v);
        assert_eq!(t.z, 8);
        t.zoom_out();
        assert_eq!(t, orig);
    }
}

#[test]
fn zoom_in_is_noop_at_max_zoom() {
    let mut t = TilePos { z: MAX_ZOOM, x: 5, y: 6, m: 0 };
    t.zoom_in(255, 255);
    assert_eq!(t, TilePos { z: MAX_ZOOM, x: 5, y: 6, m: 0 });
}

#[test]
fn zoom_out_is_noop_at_root() {
    let mut t = TilePos { z: 0, x: 0, y: 0, m: 3 };
    t.zoom_out();
    assert_eq!(t, TilePos { z: 0, x: 0, y: 0, m: 3 });
}

#[test]
fn zoom_in_tile_descends_toward_other() {
    let mut t = TilePos { z: 1, x: 0, y: 0, m: 0 };
    let other = TilePos { z: 2, x: 1, y: 0, m: 0 };
    let (dx, dy) = t.zoom_in_tile(other);
    assert_eq!((dx, dy), (1, 0));
    assert_eq!(t, TilePos { z: 2, x: 1, y: 0, m: 0 });
}

#[test]
fn zoom_in_tile_noop_at_max_zoom() {
    let mut t = TilePos { z: MAX_ZOOM, x: 9, y: 9, m: 0 };
    let r = t.zoom_in_tile(TilePos { z: MAX_ZOOM, x: 100, y: 100, m: 0 });
    assert_eq!(r, (0, 0));
    assert_eq!(t, TilePos { z: MAX_ZOOM, x: 9, y: 9, m: 0 });
}

#[test]
fn crop_of_depth_five_descendant() {
    // The fallback-chain scenario: the root stands in for (zoom 5, col 3,
    // row 7); period 32, edge 8, x = 3 * 8 = 24, y = 7 * 8 = 56.
    let mut root = TilePos { z: 0, x: 0, y: 0, m: 0 };
    let child = TilePos { z: 5, x: 3, y: 7, m: 0 };
    assert_eq!(root.get_crop(&child), (24, 56, 8, 8));
}

#[test]
fn crop_of_equal_tile_is_whole_image() {
    let mut t = TilePos { z: 4, x: 9, y: 2, m: 0 };
    let same = t;
    assert_eq!(t.get_crop(&same), (0, 0, 256, 256));
}

#[test]
fn crop_depth_clamps_at_eight() {
    let mut root = TilePos { z: 0, x: 0, y: 0, m: 0 };
    let deep = TilePos { z: 15, x: 1000, y: 2000, m: 0 };
    // Period 256, edge 1: a one-pixel crop at (col mod 256, row mod 256).
    assert_eq!(root.get_crop(&deep), (232, 208, 1, 1));
}

#[test]
fn crops_tile_the_ancestor_exactly() {
    // All four depth-1 children of a tile partition its image into the
    // four 128-pixel quadrants.
    let mut anc = TilePos { z: 3, x: 2, y: 5, m: 0 };
    let mut seen = Vec::new();
    for cy in 0..2u32 {
        for cx in 0..2u32 {
            let child = TilePos { z: 4, x: 4 + cx, y: 10 + cy, m: 0 };
            let (x, y, w, h) = anc.get_crop(&child);
            assert_eq!((w, h), (128, 128));
            seen.push((x, y));
        }
    }
    seen.sort();
    assert_eq!(seen, vec![(0, 0), (0, 128), (128, 0), (128, 128)]);
}

#[test]
fn ancestor_chain_walks_to_root() {
    let t = TilePos { z: 5, x: 3, y: 7, m: 1 };
    let chain = t.ancestor_chain();
    assert_eq!(chain.len(), 6);
    assert_eq!(chain[0], t);
    assert_eq!(chain[1], TilePos { z: 4, x: 1, y: 3, m: 1 });
    assert_eq!(chain[2], TilePos { z: 3, x: 0, y: 1, m: 1 });
    assert_eq!(chain[3], TilePos { z: 2, x: 0, y: 0, m: 1 });
    assert_eq!(chain[4], TilePos { z: 1, x: 0, y: 0, m: 1 });
    assert_eq!(chain[5], TilePos { z: 0, x: 0, y: 0, m: 1 });
}

#[test]
fn is_valid_rejects_out_of_grid() {
    assert!(!TilePos { z: 20, x: 0, y: 0, m: 0 }.is_valid());
    assert!(!TilePos { z: 3, x: 8, y: 0, m: 0 }.is_valid());
    assert!(TilePos { z: 3, x: 7, y: 7, m: 9 }.is_valid());
}

#[test]
fn pan_moves_center() {
    let mut v = Viewport { z: 1, center_x: 0, center_y: 0 };
    v.pan(10, -20);
    assert_eq!((v.center_x, v.center_y), (10, -20));
    assert_eq!(v.z, 1);
}

#[test]
fn viewport_zoom_round_trip_is_identity() {
    let mut v = Viewport { z: 1, center_x: 100, center_y: -300 };
    v.zoom_in();
    assert_eq!(v.z, 2);
    assert_eq!((v.center_x, v.center_y), (328, -472));
    v.zoom_out();
    assert_eq!(v, Viewport { z: 1, center_x: 100, center_y: -300 });
}

#[test]
fn viewport_zoom_clamps_at_bounds() {
    let mut v = Viewport { z: MAX_ZOOM, center_x: 0, center_y: 0 };
    v.zoom_in();
    assert_eq!(v, Viewport { z: MAX_ZOOM, center_x: 0, center_y: 0 });
    let mut w = Viewport { z: 0, center_x: 50, center_y: 50 };
    w.zoom_out();
    assert_eq!(w, Viewport { z: 0, center_x: 50, center_y: 50 });
}

#[test]
fn center_on_pixel_pans_by_window_offset() {
    let mut v = Viewport { z: 2, center_x: 0, center_y: 0 };
    v.center_on_pixel(800, 600, 500, 200);
    assert_eq!((v.center_x, v.center_y), (100, -100));
}

#[test]
fn zoom_in_at_pixel_keeps_clicked_point() {
    let mut v = Viewport { z: 2, center_x: 0, center_y: 0 };
    v.zoom_in_at_pixel(800, 600, 500, 200);
    let mut w = Viewport { z: 2, center_x: 0, center_y: 0 };
    w.center_on_pixel(800, 600, 500, 200);
    w.zoom_in();
    assert_eq!(v, w);
}

#[test]
fn visible_addresses_cover_window_with_border() {
    let v = Viewport { z: 1, center_x: 256, center_y: 256 };
    let tiles = v.visible_addresses(256, 256, 0);
    assert_eq!(tiles.len(), 4);
    assert_eq!(tiles[0], TilePos { z: 1, x: 0, y: 0, m: 0 });
    assert_eq!(tiles[1], TilePos { z: 1, x: 1, y: 0, m: 0 });
    assert_eq!(tiles[2], TilePos { z: 1, x: 0, y: 1, m: 0 });
    assert_eq!(tiles[3], TilePos { z: 1, x: 1, y: 1, m: 0 });
}

#[test]
fn visible_addresses_clamp_to_grid() {
    // Far off the map: nothing is visible.
    let v = Viewport { z: 1, center_x: 256 * 100, center_y: 256, };
    let tiles = v.visible_addresses(256, 256, 0);
    assert!(tiles.is_empty());
}

#[test]
fn visible_addresses_tag_source() {
    let v = Viewport { z: 0, center_x: 128, center_y: 128 };
    let tiles = v.visible_addresses(100, 100, 4);
    assert_eq!(tiles.len(), 1);
    assert_eq!(tiles[0], TilePos { z: 0, x: 0, y: 0, m: 4 });
}

#[test]
fn tile_offset_is_pixel_distance_from_center() {
    let v = Viewport { z: 2, center_x: 300, center_y: 260 };
    let t = TilePos { z: 2, x: 1, y: 1, m: 0 };
    assert_eq!(v.tile_offset(&t), (-44, -4));
}

#[test]
fn viewport_is_valid_checks_bounds() {
    assert!(Viewport { z: 19, center_x: 0, center_y: 0 }.is_valid());
    assert!(!Viewport { z: 20, center_x: 0, center_y: 0 }.is_valid());
    assert!(!Viewport { z: 1, center_x: i64::MAX, center_y: 0 }.is_valid());
}
