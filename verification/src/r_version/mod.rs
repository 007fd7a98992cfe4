//! Versions of R, the builds of them that are published, and the ones that are there.
pub mod detector;
pub mod host;
pub mod host_laws;
pub mod install;
pub mod manager;
pub mod openmp;
pub mod published;
pub mod release_laws;
pub mod search;
