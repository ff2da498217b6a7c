//! Converts a street network into a tile-indexed, screen-space form.
//!
//! The [`reader`] turns the elements of a map extract into roads with
//! resolved geometry. The [`mapper`] puts those roads on the slippy-map
//! tile grid and indexes them by tile. [`render`] says where tiles and
//! points fall in one picture of the whole map.
//!
//! All of it is integer arithmetic. Places on the globe are held in
//! nanodegrees, widths in millimetres, and positions on the Web Mercator
//! unit square as binary fractions. The one step that needs more, the
//! Mercator function of the latitude, is left to the caller, who hands it
//! to [`mapper::project_roads`].

pub mod config;
pub mod mapper;
pub mod reader;
pub mod render;
