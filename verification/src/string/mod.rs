//! Utilities for strings: a reader of code points, and the formatting of
//! texts whose parameters are named at run time.

pub mod code_points_reader;
pub mod scan;
pub mod incognito;

pub use code_points_reader::CodePointsReader;
pub use incognito::StringIncognitoFormat;
