//! The replay browser's logic: paths, names and sizes of replays, their order, the
//! search, thumbnails and favorites, the listing pattern, and the browser's state.
pub mod text;
pub mod path;
pub mod path_laws;
pub mod videoutils;
pub mod sorting;
pub mod search;
pub mod thumbnails;
pub mod favorites;
pub mod listing;
pub mod manager;
