//! Parser and formatter for Git submodule manifests (`.gitmodules` files).
//!
//! The manifest is an INI-like text listing `[submodule "name"]` sections,
//! each with `path`, `url` and optional `branch` keys. Parsing is a total,
//! single-pass state machine: malformed entries are dropped, never reported.

pub mod format;
pub mod laws;
pub mod parse;
pub mod submodule;
pub mod text;

pub use parse::parse_gitmodules;

pub use submodule::MissingFields;
pub use submodule::Submodule;
pub use submodule::SubmoduleView;
