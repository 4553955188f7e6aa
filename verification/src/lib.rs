//! Sorting logic of an artwork sorter: tag cleaning, blacklist checks,
//! IQDB result selection, booru metadata interpretation and file placement.

pub mod text;
pub mod words;
pub mod search;
pub mod distance;
pub mod encode;
pub mod tags;
pub mod models;
pub mod numbers;
pub mod iqdb;
pub mod json;
pub mod booru;
pub mod files;
pub mod media;
pub mod placement;
pub mod queue;
