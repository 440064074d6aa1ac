//! Media library core: the folder tree of video files and its aggregated
//! statistics, the scan that builds it and the probes that complete it, the
//! browsing state machine over it, playback state and the decisions taken around
//! playback, the storage of per-file state, the detection of storage volumes, the
//! colour palettes, and the small text formatters that the interface shows.

pub mod structs;
pub mod text;
pub mod ordering;
pub mod probe;
pub mod stream_probe;
pub mod library;
pub mod scan;
pub mod tree_view;
pub mod paths;
pub mod browsing;
pub mod browsing_laws;
pub mod player;
pub mod session;
pub mod volumes;
pub mod db;
pub mod theme;
pub mod icons;
