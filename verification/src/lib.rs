//! Core of a photo-culling tool's thumbnail subsystem: a byte-budgeted LRU
//! cache, content-addressed cache keys, a tier policy for derived images, a
//! derivation pipeline, a tiered cache manager, and a viewport-aware prefetch
//! scheduler, all with verified contracts.

pub mod burst;
pub mod cache;
pub mod errors;
pub mod hexcode;
pub mod key;
pub mod lru;
pub mod pipeline;
pub mod prefetch;
pub mod shared;
pub mod swatch;
pub mod text;
pub mod tier;

pub use burst::{continuous_runs, parse_drive_mode, BurstConfig, BurstDetector, CameraInfo, DriveMode};
pub use cache::collect_batch_results;
pub use cache::{CacheStats, ReadStep, ThumbnailCache};
pub use errors::CacheError;
pub use key::derive_cache_key;
pub use pipeline::{compute_scaled_dims, process_extracted, swatch_from_image_bytes};
pub use tier::{ThumbnailTier, ThumbnailConfig};
pub use swatch::ColorSwatch;
pub use lru::LruCache;
pub use prefetch::{create_viewport_prefetch_job, compute_priority_order, PrefetchJob, PrefetchProgress, PrefetchScheduler};
pub use shared::SharedLruCache;
pub use swatch::swatch_of_pixels;
pub use tier::TierParseError;
