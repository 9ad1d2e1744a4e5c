//! Verified core of a wiki reference-data tool: per-category extraction
//! rules over a plain page model, a first-write-wins merge engine, a
//! bounded undo/redo history of dataset snapshots, a retrying fetch
//! policy, and a lossless dataset codec.
pub mod beacons;
pub mod category_map;
pub mod clock;
pub mod colors;
pub mod common;
pub mod creatures;
pub mod dataset_json;
pub mod engrams;
pub mod fetch;
pub mod history;
pub mod icons;
pub mod items;
pub mod json;
pub mod merge;
pub mod num;
pub mod orchestrate;
pub mod page;
pub mod progress;
pub mod text;
pub mod types;
pub mod validate;
