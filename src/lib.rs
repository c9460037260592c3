//! Post-processing of object-detector output: decoding raw grid rows into
//! pixel boxes, confidence and class gating, greedy overlap suppression, and
//! the per-frame pipeline that ties them together.
//!
//! All numeric quantities that the detector produces as fractions (box
//! geometry, objectness, class scores) are carried in fixed point: one unit is
//! `SCALE` (one millionth), so `500_000` stands for one half.
pub mod config;
pub mod decode;
pub mod filter;
pub mod geometry;
pub mod nms;
pub mod pipeline;
pub mod registry;

pub use config::{CONF_THRESHOLD, INPUT_SIZE, NMS_THRESHOLD, SCALE};
pub use geometry::{intersection_area, overlaps, union_area, BoundingBox};
pub use decode::{calculate_bbox, decode, get_best_class, ClassScore, Decoded, ROW_HEADER};
pub use filter::{accept, is_listed, Candidate};
pub use nms::suppress;
pub use registry::{CatalogError, ClassCatalog};
pub use pipeline::{Detection, DetectionPipeline};
