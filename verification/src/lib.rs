//! Application catalog builder and icon resolver for a desktop-shell widget UI.
//!
//! The library discovers installed applications from desktop metadata files,
//! normalizes them into a stable catalog (sorted, deduplicated, with a
//! favorites subset and an optional search filter), and resolves each
//! application's icon through a tiered fallback pipeline with a scoring
//! heuristic.

pub mod catalog;
pub mod entry;
pub mod icons;
pub mod sanitize;
pub mod strutil;
pub mod widget;
