//! Plain data carried across the API boundary.

use vstd::prelude::*;

verus! {

/// Envelope every HTTP reply is wrapped in.
pub struct ApiResponse<T> {
    pub success: bool,
    pub data: Option<T>,
    pub error: Option<String>,
}

impl<T> ApiResponse<T> {
    pub fn ok(data: T) -> (r: Self)
        ensures
            r.success,
            r.data == Some(data),
            r.error is None,
    {
        ApiResponse { success: true, data: Some(data), error: None }
    }

    pub fn err(error: String) -> (r: Self)
        ensures
            !r.success,
            r.data is None,
            r.error == Some(error),
    {
        ApiResponse { success: false, data: None, error: Some(error) }
    }
}

/// A login request: the nonce, the HMAC response over it, and the raw
/// password (both are validated; see the login protocol).
pub struct AuthRequest {
    pub challenge: String,
    pub response: String,
    pub password: String,
}

/// A successful login: the fresh token and its lifetime in seconds.
#[derive(Debug)]
pub struct AuthResponse {
    pub token: String,
    pub expires_in: u64,
}

/// The outcome a client records after trying to authenticate to a peer.
pub struct AuthResult {
    pub success: bool,
    pub token: Option<String>,
    pub expires_in: Option<u64>,
    pub error: Option<String>,
}

/// The outcome of connecting to a peer device.
pub struct ConnectResult {
    pub success: bool,
    pub requires_auth: bool,
    pub error: Option<String>,
}

/// What came back from running a command.
pub struct CommandResult {
    pub success: bool,
    pub stdout: String,
    pub stderr: String,
    pub exit_code: Option<i32>,
    pub execution_time_ms: u64,
}

/// A snapshot of the server's externally visible state.
pub struct ServerStatus {
    pub running: bool,
    pub port: Option<u16>,
    pub device_name: String,
    pub ip_address: Option<String>,
    pub version: String,
}

impl ServerStatus {
    /// A stopped server under the given name and version.
    pub fn new(device_name: String, version: String) -> (r: Self)
        ensures
            !r.running,
            r.port is None,
            r.device_name == device_name,
            r.ip_address is None,
            r.version == version,
    {
        ServerStatus { running: false, port: None, device_name, ip_address: None, version }
    }
}

/// The request/response listener, known here only by its port.
pub struct TcpServer {
    port: u16,
}

impl TcpServer {
    pub closed spec fn port_spec(&self) -> u16 {
        self.port
    }

    pub fn new(port: u16) -> (r: Self)
        ensures
            r.port_spec() == port,
    {
        TcpServer { port }
    }

    pub fn port(&self) -> (r: u16)
        ensures
            r == self.port_spec(),
    {
        self.port
    }
}


/// Seconds a system snapshot may be served from the cache.
pub const SYSTEM_INFO_CACHE_SECONDS: u64 = 300;

/// Whether a snapshot taken `age_seconds` ago may still be served.
pub fn cache_is_fresh(age_seconds: u64) -> (r: bool)
    ensures
        r == (age_seconds < SYSTEM_INFO_CACHE_SECONDS),
{
    age_seconds < SYSTEM_INFO_CACHE_SECONDS
}
} // verus!
