use tilestream::get_file_path;
use tilestream::load_outcome;
use tilestream::network_outcome;
use tilestream::outcome_cache_key;
use tilestream::record_outcome;
use tilestream::tile_url;
use tilestream::u32_to_decimal;
use tilestream::validate_download;
use tilestream::Bitmap;
use tilestream::FetchError;
use tilestream::InFlightState;
use tilestream::InFlightTable;
use tilestream::NetQueue;
use tilestream::TilePos;
use tilestream::TileLoad;

/// A 256 x 256 PNG whose pixel at (x, y) is (x, y, 0, 255), so any crop
/// or flip betrays itself in the bytes.
fn coordinate_png() -> Vec<u8> {
    let mut img = image::RgbaImage::new(256, 256);
    for (x, y, p) in img.enumerate_pixels_mut() {
        *p = image::Rgba([x as u8, y as u8, 0, 255]);
    }
    let mut buf = std::io::Cursor::new(Vec::new());
    img.write_to(&mut buf, image::ImageFormat::Png).unwrap();
    buf.into_inner()
}

fn small_png(w: u32, h: u32) -> Vec<u8> {
    let mut img = image::RgbaImage::new(w, h);
    for (x, y, p) in img.enumerate_pixels_mut() {
        *p = image::Rgba([x as u8, y as u8, 7, 255]);
    }
    let mut buf = std::io::Cursor::new(Vec::new());
    img.write_to(&mut buf, image::ImageFormat::Png).unwrap();
    buf.into_inner()
}

fn pixel(b: &Bitmap, x: u32, y: u32) -> [u8; 4] {
    let i = (4 * (y * b.width + x)) as usize;
    [b.pixels[i], b.pixels[i + 1], b.pixels[i + 2], b.pixels[i + 3]]
}

#[test]
fn validate_download_rejects_bad_status() {
    let body = coordinate_png();
    assert_eq!(validate_download(404, &body), Err(FetchError::Http(404)));
    assert_eq!(validate_download(0, &body), Err(FetchError::Http(0)));
}

#[test]
fn validate_download_rejects_short_or_foreign_bodies() {
    assert_eq!(
        validate_download(200, &vec![0x89, 0x50]),
        Err(FetchError::NotAnImage)
    );
    assert_eq!(
        validate_download(200, &b"<html>no tile</html>".to_vec()),
        Err(FetchError::NotAnImage)
    );
}

#[test]
fn validate_download_accepts_png_and_jpeg_magic() {
    assert_eq!(validate_download(200, &coordinate_png()), Ok(()));
    assert_eq!(validate_download(200, &vec![0xff, 0xd8, 0x00, 0x00]), Ok(()));
}

#[test]
fn load_outcome_exact_hit_flips_scanlines() {
    let t = TilePos { z: 5, x: 3, y: 7, m: 0 };
    let r = load_outcome(&t, &t, &coordinate_png());
    match r {
        Some(TileLoad::Loaded {
            texture,
            source_tile,
        }) => {
            assert_eq!(source_tile, t);
            assert_eq!((texture.width, texture.height), (256, 256));
            // Scanline 0 of the outcome is the bottom scanline of the image.
            assert_eq!(pixel(&texture, 0, 0), [0, 255, 0, 255]);
            assert_eq!(pixel(&texture, 10, 255), [10, 0, 0, 255]);
        }
        _ => panic!("expected an exact tile"),
    }
}

#[test]
fn load_outcome_ancestor_hit_crops_footprint() {
    // Only the pyramid root is cached; requesting (zoom 5, col 3, row 7)
    // must yield the 8-pixel crop at (24, 56) of the root image, shown
    // for the requested address.
    let requested = TilePos { z: 5, x: 3, y: 7, m: 0 };
    let root = TilePos { z: 0, x: 0, y: 0, m: 0 };
    let r = load_outcome(&requested, &root, &coordinate_png());
    match r {
        Some(TileLoad::Loading {
            texture,
            source_tile,
            target_tile,
        }) => {
            assert_eq!(source_tile, root);
            assert_eq!(target_tile, requested);
            assert_eq!((texture.width, texture.height), (8, 8));
            // Flipped: outcome scanline 0 is source row 56 + 7 at column 24.
            assert_eq!(pixel(&texture, 0, 0), [24, 63, 0, 255]);
            assert_eq!(pixel(&texture, 7, 7), [31, 56, 0, 255]);
        }
        _ => panic!("expected an approximate tile"),
    }
}

#[test]
fn load_outcome_rejects_undecodable_bytes() {
    let t = TilePos { z: 1, x: 0, y: 0, m: 0 };
    assert!(load_outcome(&t, &t, &b"\x89PNG but not really".to_vec()).is_none());
}

#[test]
fn load_outcome_rejects_miss_sized_ancestor() {
    let requested = TilePos { z: 2, x: 1, y: 1, m: 0 };
    let root = TilePos { z: 0, x: 0, y: 0, m: 0 };
    assert!(load_outcome(&requested, &root, &small_png(64, 64)).is_none());
}

#[test]
fn network_outcome_accepts_only_valid_downloads() {
    let t = TilePos { z: 5, x: 3, y: 7, m: 1 };
    match network_outcome(&t, 200, &coordinate_png()) {
        Ok(TileLoad::Loaded {
            texture,
            source_tile,
        }) => {
            assert_eq!(source_tile, t);
            assert_eq!((texture.width, texture.height), (256, 256));
            assert_eq!(pixel(&texture, 0, 0), [0, 255, 0, 255]);
        }
        _ => panic!("expected the exact tile"),
    }
    assert!(matches!(
        network_outcome(&t, 500, &coordinate_png()),
        Err(FetchError::Http(500))
    ));
    assert!(matches!(
        network_outcome(&t, 200, &b"ABCDEF".to_vec()),
        Err(FetchError::NotAnImage)
    ));
    assert!(matches!(
        network_outcome(&t, 200, &b"\x89PNG corrupt".to_vec()),
        Err(FetchError::Decode)
    ));
}

fn tiny_texture() -> Bitmap {
    Bitmap {
        width: 1,
        height: 1,
        pixels: vec![1, 2, 3, 4],
    }
}

#[test]
fn outcome_cache_key_picks_target_for_approximations() {
    let src = TilePos { z: 0, x: 0, y: 0, m: 0 };
    let tgt = TilePos { z: 5, x: 3, y: 7, m: 0 };
    let loaded = TileLoad::Loaded {
        texture: tiny_texture(),
        source_tile: src,
    };
    assert_eq!(outcome_cache_key(&loaded), Some(src));
    let loading = TileLoad::Loading {
        texture: tiny_texture(),
        source_tile: src,
        target_tile: tgt,
    };
    assert_eq!(outcome_cache_key(&loading), Some(tgt));
    assert_eq!(outcome_cache_key(&TileLoad::Failed), None);
}

#[test]
fn record_outcome_queues_network_fetch_for_approximation() {
    let mut table = InFlightTable::new(64);
    let mut net = NetQueue::new();
    let src = TilePos { z: 0, x: 0, y: 0, m: 0 };
    let tgt = TilePos { z: 5, x: 3, y: 7, m: 0 };
    assert!(table.try_submit(&tgt));
    let outcome = TileLoad::Loading {
        texture: tiny_texture(),
        source_tile: src,
        target_tile: tgt,
    };
    record_outcome(&mut table, &mut net, &tgt, &outcome);
    assert_eq!(table.status(&tgt), Some(InFlightState::ApproximationSent));
    assert!(!table.try_submit(&tgt));
    assert_eq!(net.pop(), Some(tgt));
    assert_eq!(net.pop(), None);
}

#[test]
fn record_outcome_marks_exact_tiles_resolved() {
    let mut table = InFlightTable::new(64);
    let mut net = NetQueue::new();
    let t = TilePos { z: 2, x: 1, y: 1, m: 0 };
    assert!(table.try_submit(&t));
    let outcome = TileLoad::Loaded {
        texture: tiny_texture(),
        source_tile: t,
    };
    record_outcome(&mut table, &mut net, &t, &outcome);
    assert_eq!(table.status(&t), Some(InFlightState::Resolved));
    assert_eq!(net.pop(), None);
    // A resolved address may be fetched again, e.g. after cache eviction.
    assert!(table.try_submit(&t));
}

#[test]
fn record_outcome_queues_failures_for_network() {
    let mut table = InFlightTable::new(64);
    let mut net = NetQueue::new();
    let t = TilePos { z: 9, x: 100, y: 200, m: 1 };
    assert!(table.try_submit(&t));
    record_outcome(&mut table, &mut net, &t, &TileLoad::Failed);
    assert_eq!(table.status(&t), Some(InFlightState::Requested));
    assert_eq!(net.pop(), Some(t));
}

#[test]
fn decimal_formatting_is_exact() {
    assert_eq!(u32_to_decimal(0), "0");
    assert_eq!(u32_to_decimal(7), "7");
    assert_eq!(u32_to_decimal(19), "19");
    assert_eq!(u32_to_decimal(524287), "524287");
    assert_eq!(u32_to_decimal(u32::MAX), "4294967295");
}

#[test]
fn file_paths_name_source_and_coordinates() {
    let osm = TilePos { z: 5, x: 3, y: 7, m: 0 };
    assert_eq!(get_file_path(&osm), "Tiles/OSMTile_5_3_7.png");
    let esri = TilePos { z: 12, x: 1000, y: 2047, m: 1 };
    assert_eq!(get_file_path(&esri), "Tiles/ESRITile_12_1000_2047.png");
}

#[test]
fn urls_follow_each_provider_scheme() {
    let t = TilePos { z: 5, x: 3, y: 7, m: 0 };
    assert_eq!(tile_url(&t), "https://tile.openstreetmap.org/5/3/7.png");
    // The second provider expects zoom/row/column: 7 before 3.
    let u = TilePos { z: 5, x: 3, y: 7, m: 1 };
    assert_eq!(
        tile_url(&u),
        "https://services.arcgisonline.com/ArcGIS/rest/services/World_Imagery/MapServer/tile/5/7/3"
    );
}
