//! Caption rendering for image macros.
//!
//! A caption request names up to three fixed bands (top, centre, bottom) and
//! any number of named insert rectangles of a format. For each region the
//! largest font size whose layout fits the region is searched, the glyph
//! bitmaps are painted onto a coverage canvas, a dark halo is grown around the
//! glyph shapes, and the result is laid over the base image and encoded.
//!
//! Typesetting itself (line breaking and rasterisation of a font) is supplied
//! by the caller as two functions, and so is the loading of a base image;
//! everything that is decided from their answers is stated in contracts and
//! proved.

pub mod canvas;
pub mod catalog;
pub mod commands;
pub mod compositor;
pub mod error;
pub mod fitter;
pub mod geometry;
pub mod mdl;
pub mod outline;
pub mod render;
pub mod replies;
pub mod repository;
pub mod snippet;
pub mod sorting;
