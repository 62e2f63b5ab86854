//! The service configuration, as plain values. Reading the configuration
//! file and filling these in is the caller's I/O.

use vstd::prelude::*;

verus! {

/// Where the service keeps its files.
pub struct Paths {
    /// Static content served when no route matches.
    pub static_path: String,
    /// The registry's backing JSON file.
    pub database_path: String,
    /// The directory of per-udid pairing credentials.
    pub plist_storage: String,
    /// The directory of cached developer disk images.
    pub dmg_path: String,
}

/// Where the web server listens.
pub struct WebServer {
    pub port: u16,
    pub ssl_port: Option<u16>,
    pub host: String,
    pub ssl_cert: Option<String>,
    pub ssl_key: Option<String>,
}

/// Access control and the optional muxer bridge.
pub struct Extra {
    /// The CIDR subnet whose addresses may use the service.
    pub allowed_subnet: String,
    /// Where the secondary multiplexer listens, if one is used.
    pub netmuxd_address: Option<String>,
}

/// The whole configuration.
pub struct Config {
    pub paths: Paths,
    pub web_server: WebServer,
    pub extra: Extra,
}

} // verus!
