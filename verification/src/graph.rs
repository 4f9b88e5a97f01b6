//! Graphics in VGA mode 12h: 640 by 480 pixels of 16 colours, kept in four
//! bit planes.

pub mod font_data;
pub mod font_writer;
pub mod graphics;
pub mod planar;
pub mod planar_writer;
pub mod surface;
pub mod utils;
