//! Filename slug normalization with a safe-rename protocol.
//!
//! The crate turns arbitrary (possibly non-ASCII) filenames into canonical
//! lowercase, hyphen-separated slugs while preserving the file extension,
//! and decides how to apply the result to a filesystem without ever
//! overwriting an existing entry.

pub mod batch;
pub mod chars;
pub mod config;
pub mod normalize;
pub mod props;
pub mod rename;

pub use batch::run;
pub use batch::Cli;
pub use batch::RunError;
pub use config::ConfigError;
pub use config::NormalizationConfig;
pub use config::NormalizationFileConfig;
pub use normalize::normalize;
pub use normalize::normalize_with_config;
pub use rename::FnormError;
