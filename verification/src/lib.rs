//! Verified core of the Spatially Optimized GeoParquet writer.
//!
//! The crate holds the display-clustering codes, geometry flattening and the compact geometry
//! payload encoding, the display expressions and output projections, the ordering and
//! range-partition plans, the pipeline and session decisions, progress reporting, and the Parquet
//! metadata bookkeeping of the writer. The query engine, coordinate reprojection, WKB decoding,
//! floating-point quantization, and terminal integration live outside this crate and hand it
//! plain values.

pub mod analysis;
pub mod clustering;
pub mod expr;
pub mod geometry;
pub mod metadata;
pub mod pbf;
pub mod pipeline;
pub mod plan;
pub mod progress;
pub mod projection;
pub mod session;
pub mod sort_insertion;
pub mod text;
pub mod wire;
