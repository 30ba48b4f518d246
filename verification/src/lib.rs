//! Discovery engine for a locally installed Steam client: locating the
//! install across its possible topologies, resolving the set of library
//! directories, parsing per-game manifest files, and filtering non-game
//! entries into a launchable catalog.

pub mod blacklist;
pub mod install;
pub mod libraries;
pub mod manifest;
pub mod scanner;
pub mod text;

pub use blacklist::is_blacklisted;
pub use blacklist::is_proton;
pub use install::generate_steam_rungame;
pub use install::SteamKind;
pub use manifest::ManifestRecord;
pub use manifest::parse_manifest;
pub use scanner::build_catalog;
pub use scanner::library_catalog;
