//! Recovering the client IP address of an HTTP request that passed through
//! proxies, from forwarding headers such as `X-Real-IP`, `X-Forwarded-For` and
//! `CF-Connecting-IP`, with a fallback to the transport peer address.
//!
//! The extraction policy is an [`IpExtractor`]: an ordered list of header
//! names, a trust flag for private addresses, and the direction in which a
//! forwarding chain is read. Its `extract` is a pure function of its inputs.
pub mod address;
pub mod error;
pub mod extractor;
pub mod header;
pub mod middleware;
pub mod text;

pub use address::{IpAddr, Ipv4Addr, Ipv6Addr, parse_ip};
pub use error::{RealIpError, Result};
pub use extractor::{IpExtractor, extract_real_ip, extract_real_ip_strict};
pub use header::HeaderMap;
pub use middleware::{RealIp, RealIpLayer, RealIpService};
