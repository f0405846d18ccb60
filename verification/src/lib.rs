//! Tile streaming and cache subsystem for a zoom-pyramid map viewer.
//!
//! Tiles are addressed by (zoom, column, row, source). The library provides
//! the pyramid navigation math, the viewport state that selects the visible
//! addresses, the ancestor-fallback resolution logic, the bounded caches
//! (texture LRU, in-flight table, network priority queue), and the
//! validation and naming rules of the fetch pipeline.

pub mod bitmap;
pub mod cache;
pub mod naming;
pub mod pipeline;
pub mod tile;
pub mod viewport;

pub use bitmap::Bitmap;
pub use cache::TextureCache;
pub use naming::get_file_path;
pub use naming::tile_url;
pub use naming::u32_to_decimal;
pub use pipeline::FetchError;
pub use pipeline::InFlightState;
pub use pipeline::InFlightTable;
pub use pipeline::NetQueue;
pub use pipeline::TileLoad;
pub use pipeline::TileState;
pub use pipeline::load_outcome;
pub use pipeline::network_outcome;
pub use pipeline::outcome_cache_key;
pub use pipeline::record_outcome;
pub use pipeline::validate_download;
pub use tile::MAX_ZOOM;
pub use tile::TilePos;
pub use viewport::Viewport;
