//! Verified core of a PDF page extractor: each page of a document becomes a
//! full-resolution vector file and a downscaled raster thumbnail.
//!
//! The document renderer and the image encoder are external collaborators;
//! this crate holds the logic between them: dimension validation, thumbnail
//! scale computation, pixel repacking from the renderer's native 4-byte
//! layout to packed RGB, page-selection parsing, and output file naming.

pub mod cli;
pub mod dims;
pub mod naming;
pub mod pages;
pub mod repack;
pub mod scale;
