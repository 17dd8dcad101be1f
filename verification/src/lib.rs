pub mod compose;
pub mod layout;
pub mod raster;
