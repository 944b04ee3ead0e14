//! The application's listen configuration.
use vstd::prelude::*;

verus! {

/// Where the application listens: host and port, as configured.
#[derive(Debug, Clone)]
pub struct AppConfig {
    pub host: String,
    pub port: String,
}

} // verus!
