//! Downloading, building and keeping packages.
pub mod binary_install;
pub mod build_laws;
pub mod cache_laws;
pub mod download;
pub mod package_cache;
pub mod r_cmd_install;
pub mod unpack;
