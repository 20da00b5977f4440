//! Map-tile compositing: tile arithmetic of the XYZ scheme, geographic
//! bounding boxes in fixed-point degrees, alert selection and paint order,
//! icon resolution, upstream URL templating, reading of the alert feed, and
//! the raster compositor that overlays alert icons onto base tiles.

pub mod feed;
pub mod geo;
pub mod icons;
pub mod paint;
pub mod request;
pub mod tile;
pub mod url;
