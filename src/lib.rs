pub mod identity;
pub mod lru_cache;
pub mod metrics;
pub mod segment;
pub mod shaper;
pub mod size;

pub use identity::{FontCollectionEntry, FontIdentity, FontLoadError, FontRole, ShapeKey};
pub use metrics::{InsufficientGlyphsError, REFERENCE_CHARACTERS};
pub use segment::{GlyphRun, PositionedGlyph};
pub use shaper::{CachingShaper, FONT_CACHE_CAPACITY, SHAPE_CACHE_CAPACITY};
pub use size::parse_size;
