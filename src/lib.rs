//! Path-scoped access core of a browsable HTTP drive: resolving request paths
//! against a fixed root, classifying files, assembling ordered listings and
//! search results, planning uploads and choosing a response representation.

pub mod classify;
pub mod listing;
pub mod negotiate;
pub mod path_guard;
pub mod search;
pub mod size;
pub mod uploads;
