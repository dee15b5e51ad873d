//! Rule engine, protocol codecs and platform decisions of a transparent redirect
//! over a virtual network adapter.
//!
//! Each flow that enters the tunnel is attributed to a process, matched against
//! the rules, and then relayed through an upstream proxy, connected straight out,
//! or dropped. Everything is built to fail open: where a process is not known, no
//! rule applies or the proxy is down, traffic flows. QUIC and traffic to groups of
//! hosts are the exceptions.
//!
//! The library decides and computes. Whoever uses it performs the input and output,
//! and hands the outcomes back.

pub mod addr;
pub mod addr_text;
pub mod bytes;
pub mod config;
pub mod device;
pub mod dns;
pub mod engine;
pub mod error;
pub mod glob;
pub mod netstack;
pub mod platform;
pub mod proxy;
pub mod rule;
pub mod state;
pub mod text;

pub use crate::config::{ProxyConfig, ProxyType};
pub use crate::dns::DnsCache;
pub use crate::engine::{TunRedirect, TunRedirectBuilder};
pub use crate::error::{Error, Result};
pub use crate::netstack::ConnectionInfo;
pub use crate::platform::{PhysicalInterface, TUN_IPV4, TUN_IPV6, TUN_MTU};
pub use crate::rule::{Rule, RuleAction, RuleMatch, RuleProtocol, RuleSet};
pub use crate::state::{QuicPolicy, StatsSnapshot};
