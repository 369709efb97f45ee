//! Terminal graphics: styled character cells, layers of cells drawn with
//! sub-cell resolution, and a canvas that composites its layers and
//! redraws only the cells that changed.

pub mod cell;
pub mod color;
pub mod error;
pub mod frame;
pub mod dirty;
pub mod raster;
pub mod image;
pub mod layer;
pub mod claim;
pub mod canvas;
pub mod chars;
pub mod measurement;
pub mod symbol;
pub mod stdout;
pub mod document;
