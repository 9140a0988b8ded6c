//! Tile acquisition and streaming assembly of full-disc satellite mosaics.
//!
//! A snapshot of the disc is published as a 20 x 20 grid of tiles. This
//! library names the snapshots, derives the address of every tile, decides
//! what a fetch task does next, and places delivered tiles on one canvas,
//! whatever the order in which they arrive.

pub mod cli;
pub mod cvutils;
pub mod himawaridt;
pub mod raster;
pub mod text;
pub mod tiles;
pub mod user_config;
pub mod wallpaperutils;
