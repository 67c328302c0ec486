//! Utilities of an application framework.
//!
//! At the centre stands [`observable`], a push-based data source with an
//! explicit subscription lifecycle. Around it stand helpers that an
//! application needs day by day: generic and operating-system file paths,
//! files by URL scheme, percent-encoding, readers of code points, texts with
//! parameters, numbers with commas, translation catalogs with their
//! fallbacks, and the decisions behind timeouts and intervals.
//!
//! What touches the host, such as files, the network, the clock and tasks,
//! is not part of this library: it takes and gives plain values.

pub mod observable;
pub mod text;
pub mod file_paths;
pub mod path;
pub mod uri;
pub mod uri_laws;
pub mod string;
pub mod code_points;
pub mod number;
pub mod collections;
pub mod collection_literals;
pub mod template_string;
pub mod filesystem;
pub mod intl;
pub mod app_config;
pub mod conversion_traits;
pub mod display;
pub mod reg_exp;
pub mod temporal;
pub mod timing;
