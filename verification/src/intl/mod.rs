//! Internationalization: text directions and translation catalogs.

pub mod direction;
pub mod options;
pub mod ftl;
pub mod fallbacks;

pub use direction::{direction_of_code, HasTextDirection, TextDirection};
pub use options::{Fallback, FtlLoadMethod, FtlOptions, FtlOptionsForAssets};
pub use ftl::{Ftl, MessageSearch};
