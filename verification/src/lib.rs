//! An interpreter for a two-dimensional, color-encoded stack language.
//!
//! A program is a raster of colored codels. Maximal 4-connected regions of
//! one color form blocks; a cursor walks from block to block, and each
//! transition between two colored blocks is decoded, through the change in
//! hue and lightness, into one of eighteen stack-machine operations.

pub mod color;
pub mod command;
pub mod interp;
pub mod color_block;
pub mod raster;
pub mod state;
