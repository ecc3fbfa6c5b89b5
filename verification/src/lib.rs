//! Verified core of a small HTTP file-sharing server: request admission,
//! path resolution inside the shared directory, directory listings,
//! size formatting and the naming rules of streamed zip archives.

pub mod text;
pub mod paths;
pub mod listing;
pub mod size;
pub mod naming;
pub mod routing;
pub mod pacing;
pub mod response;
