//! Unicode code points.

pub use crate::string::code_points_reader::CodePointsReader;
