//! Service discovery, fingerprinting and vulnerability matching for authorized network
//! reconnaissance.
pub mod cve_db;
pub mod error;
pub mod fingerprint;
pub mod output;
pub mod ports;
pub mod scanner;
pub mod semver_ext;
pub mod target;
pub mod text;
