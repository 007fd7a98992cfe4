pub mod checksum;
pub mod dcf;
pub mod dcf_laws;
pub mod env_vars;
pub mod error;
pub mod installer;
pub mod lockfile;
pub mod manifest;
pub mod order;
pub mod package_name;
pub mod paths;
pub mod paths_laws;
pub mod project;
pub mod project_laws;
pub mod r_env;
pub mod r_version;
pub mod registry;
pub mod resolver;
pub mod signal;
pub mod subdirectory;
pub mod sysreqs;
pub mod sysreqs_laws;
pub mod sysreqs_rules;
pub mod text;
pub mod text_laws;
pub mod text_map;
pub mod version;
