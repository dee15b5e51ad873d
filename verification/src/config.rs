//! Upstream proxy configuration.

use vstd::prelude::*;

use crate::error::{Error, Result};
use crate::text;
use crate::text::{chars_of, trimmed};

verus! {

/// Upstream proxy transport type.
#[derive(Debug, Clone, Copy, PartialEq, Eq, Structural)]
pub enum ProxyType {
    /// HTTP forward proxy using the `CONNECT` verb to tunnel TCP.
    Http,
    /// SOCKS5 proxy (RFC 1928), optionally with username/password auth.
    Socks5,
}

/// Configuration for a single upstream proxy.
#[derive(Debug)]
pub struct ProxyConfig {
    /// The id of the config (0 until registered).
    pub config_id: u32,
    /// How the proxy is spoken to.
    pub proxy_type: ProxyType,
    /// The proxy host.
    pub host: String,
    /// The proxy port.
    pub port: u16,
    /// User name, where the proxy asks for one.
    pub username: Option<String>,
    /// Password, where the proxy asks for one.
    pub password: Option<String>,
    /// Whether the hostname of the destination is sent to the proxy, so that it
    /// resolves it, rather than the resolved address.
    pub send_domain_to_proxy: bool,
}

/// What a proxy configuration says.
#[verifier::ext_equal]
pub struct ProxyModel {
    /// The id of the config.
    pub config_id: u32,
    /// How the proxy is spoken to.
    pub proxy_type: ProxyType,
    /// The proxy host.
    pub host: Seq<char>,
    /// The proxy port.
    pub port: u16,
    /// User name.
    pub username: Option<Seq<char>>,
    /// Password.
    pub password: Option<Seq<char>>,
    /// Whether the proxy resolves the hostname.
    pub send_domain_to_proxy: bool,
}

/// The text behind an optional owned string.
pub open spec fn optional_text(s: Option<String>) -> Option<Seq<char>> {
    match s {
        Some(t) => Some(t@),
        None => None,
    }
}

fn copy_text(s: &Option<String>) -> (r: Option<String>)
    ensures
        optional_text(r) == optional_text(*s),
{
    match s {
        Some(t) => Some(t.clone()),
        None => None,
    }
}

impl View for ProxyConfig {
    type V = ProxyModel;

    open spec fn view(&self) -> ProxyModel {
        ProxyModel {
            config_id: self.config_id,
            proxy_type: self.proxy_type,
            host: self.host@,
            port: self.port,
            username: optional_text(self.username),
            password: optional_text(self.password),
            send_domain_to_proxy: self.send_domain_to_proxy,
        }
    }
}

impl Clone for ProxyConfig {
    fn clone(&self) -> (r: ProxyConfig)
        ensures
            r@ == self@,
    {
        ProxyConfig {
            config_id: self.config_id,
            proxy_type: self.proxy_type,
            host: self.host.clone(),
            port: self.port,
            username: copy_text(&self.username),
            password: copy_text(&self.password),
            send_domain_to_proxy: self.send_domain_to_proxy,
        }
    }
}

impl ProxyModel {
    /// A proxy without credentials that resolves hostnames itself.
    pub open spec fn plain(proxy_type: ProxyType, host: Seq<char>, port: u16) -> ProxyModel {
        ProxyModel {
            config_id: 0,
            proxy_type,
            host,
            port,
            username: None,
            password: None,
            send_domain_to_proxy: true,
        }
    }

    /// Whether the configuration can be used: it names a host and a port.
    pub open spec fn usable(self) -> bool {
        text::trim(self.host).len() > 0 && self.port != 0
    }
}

impl ProxyConfig {
    /// An HTTP `CONNECT` proxy.
    pub fn http(host: &str, port: u16) -> (r: ProxyConfig)
        ensures
            r@ == ProxyModel::plain(ProxyType::Http, host@, port),
    {
        ProxyConfig {
            config_id: 0,
            proxy_type: ProxyType::Http,
            host: host.to_string(),
            port,
            username: None,
            password: None,
            send_domain_to_proxy: true,
        }
    }

    /// A SOCKS5 proxy with no authentication.
    pub fn socks5(host: &str, port: u16) -> (r: ProxyConfig)
        ensures
            r@ == ProxyModel::plain(ProxyType::Socks5, host@, port),
    {
        ProxyConfig {
            config_id: 0,
            proxy_type: ProxyType::Socks5,
            host: host.to_string(),
            port,
            username: None,
            password: None,
            send_domain_to_proxy: true,
        }
    }

    /// Adds username/password credentials: a `Proxy-Authorization: Basic`
    /// header for HTTP, the RFC 1929 auth method for SOCKS5.
    pub fn with_auth(self, username: &str, password: &str) -> (r: ProxyConfig)
        ensures
            r@ == (ProxyModel {
                username: Some(username@),
                password: Some(password@),
                ..self@
            }),
    {
        ProxyConfig {
            username: Some(username.to_string()),
            password: Some(password.to_string()),
            ..self
        }
    }

    /// Controls whether the proxy resolves hostnames (`true`, default) or the
    /// locally resolved address is sent instead (`false`).
    pub fn resolve_on_proxy(self, enable: bool) -> (r: ProxyConfig)
        ensures
            r@ == (ProxyModel { send_domain_to_proxy: enable, ..self@ }),
    {
        ProxyConfig { send_domain_to_proxy: enable, ..self }
    }

    /// This config's id (assigned by the builder; 0 until registered).
    pub fn config_id(&self) -> (r: u32)
        ensures
            r == self@.config_id,
    {
        self.config_id
    }

    /// The proxy transport type.
    pub fn proxy_type(&self) -> (r: ProxyType)
        ensures
            r == self@.proxy_type,
    {
        self.proxy_type
    }

    /// The proxy host.
    pub fn host(&self) -> (r: &str)
        ensures
            r@ == self@.host,
    {
        self.host.as_str()
    }

    /// The proxy port.
    pub fn port(&self) -> (r: u16)
        ensures
            r == self@.port,
    {
        self.port
    }

    /// Checks that the configuration names a host and a port.
    pub fn validate(&self) -> (r: Result<()>)
        ensures
            r is Ok <==> self@.usable(),
            r is Err ==> r->Err_0 is Config,
            r is Err ==> r->Err_0->Config_0@ == if text::trim(self@.host).len() == 0 {
                "proxy host must not be empty"@
            } else {
                "proxy port must not be zero"@
            },
    {
        let host: Vec<char> = chars_of(self.host.as_str());
        if trimmed(&host).len() == 0 {
            return Err(Error::config("proxy host must not be empty"));
        }
        if self.port == 0 {
            return Err(Error::config("proxy port must not be zero"));
        }
        Ok(())
    }
}

} // verus!
