//! Synchronizes repertory programming from Alamo Drafthouse cinemas into Radarr.
//!
//! The library holds the decisions of a run: it normalizes Alamo display titles, keeps the
//! distinct titles of presentations in the target collections, matches them exactly against
//! Radarr lookup results, builds add-movie requests and drives a run step by step. Every
//! function is verified against its contract.
pub mod alamo_movies;
pub mod lookup;
pub mod matching;
pub mod outside;
pub mod radarr;
pub mod settings;
pub mod sync;
pub mod text;
pub mod titles;
pub mod urls;

pub use lookup::{best_matches, target_presentations};
pub use matching::{best_match, Match};
pub use settings::{load_settings, ConfigError, Settings};
pub use sync::{
    Error, SyncAction, SyncEvent, SyncNotice, SyncOptions, SyncReport, SyncStage, SyncState,
    SyncStep,
};
pub use titles::{
    clean_title, is_target_presentation, parse_title, unique_titles, MovieTitle,
    TARGET_COLLECTIONS,
};
