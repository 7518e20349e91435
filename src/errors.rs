//! Error kinds of the gateway.
use vstd::prelude::*;

verus! {

/// Failures of one SOCKS5 exchange, with the client or with an upstream proxy.
#[derive(Debug, Clone, Copy, PartialEq, Eq, Structural)]
pub enum SocksError {
    /// The TCP connection to the upstream could not be opened.
    UpstreamDial,
    /// The upstream answered the greeting with another SOCKS version (the byte it sent).
    UpstreamVersion(u8),
    /// The upstream chose another method than username/password (the byte it sent).
    UpstreamAuthMethod(u8),
    /// The upstream asks for credentials and the record has none.
    UpstreamAuthRequired,
    /// The upstream answered the subnegotiation with another version (the byte it sent).
    AuthVersion(u8),
    /// The upstream refused the credentials (the status byte it sent).
    AuthFailed(u8),
    /// A username or password longer than 255 bytes.
    CredentialTooLong,
    /// The client did not offer the "no authentication" method.
    MethodNotSupported,
    /// A read or write on one of the sockets failed.
    Io,
}

/// Errors that the gateway surfaces.
#[derive(Debug, PartialEq, Eq)]
pub enum ProxyError {
    /// One connection failed in its SOCKS5 exchange.
    ForwardProxyError(SocksError),
    /// A liveness probe failed.
    ProbeFailed(SocksError),
    /// A proxy record's text is malformed.
    InvalidFormat,
    /// The catalog is empty.
    ProxyNotSet,
    /// Fewer proxies than needed (the number there were).
    ProxiesTooSmall(u64),
    /// The candidates file could not be read.
    LoadProxiesError(String),
    /// The local port could not be bound (the port).
    BindFailed(u16),
    /// Any other failure of a listener.
    ServerError(String),
    /// No listener serves the given proxy host.
    ServerNotFound(String),
}

} // verus!
