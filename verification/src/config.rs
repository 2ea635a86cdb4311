//! The configuration of an agent: the relay, the inspector, and the tunnels
//! to open.

use vstd::prelude::*;
use crate::text::{push_str, str_is};

verus! {

/// The configuration of an agent.
#[derive(Debug, Clone)]
pub struct ZTunnelConfig {
    /// The URL of the relay.
    pub relay: String,
    /// The token to authenticate with, if there is one.
    pub auth_token: Option<String>,
    pub inspector: InspectorConfig,
    /// The tunnels to open.
    pub tunnels: Vec<TunnelConfig>,
    /// The filter for all tunnels.
    pub ip_filter: IpFilterConfig,
}

/// One tunnel.
#[derive(Debug, Clone)]
pub struct TunnelConfig {
    pub name: String,
    /// `http`, `tcp` or `udp`.
    pub proto: String,
    /// The local port that traffic is forwarded to.
    pub local_port: u16,
    /// The subdomain to ask for, if any.
    pub subdomain: Option<String>,
    /// Whether the inspector sees this tunnel.
    pub inspect: bool,
    /// The filter of this tunnel, in place of the one for all.
    pub ip_filter: Option<IpFilterConfig>,
    /// The bandwidth limit in bytes a second; none where it is 0.
    pub throttle_bps: u64,
    /// The local host that traffic is forwarded to.
    pub local_host: String,
}

/// The inspector.
#[derive(Debug, Clone)]
pub struct InspectorConfig {
    pub enabled: bool,
    pub port: u16,
}

/// The texts of a filter.
#[derive(Debug, Clone)]
pub struct IpFilterConfig {
    /// Allowed CIDR ranges (empty: all).
    pub allow: Vec<String>,
    /// Denied CIDR ranges.
    pub deny: Vec<String>,
}

impl Default for InspectorConfig {
    fn default() -> (r: InspectorConfig)
        ensures
            r.enabled,
            r.port == 4040,
    {
        InspectorConfig { enabled: true, port: 4040 }
    }
}

impl Default for IpFilterConfig {
    fn default() -> (r: IpFilterConfig)
        ensures
            r.allow@.len() == 0,
            r.deny@.len() == 0,
    {
        IpFilterConfig { allow: Vec::new(), deny: Vec::new() }
    }
}

/// The relay where none is named.
pub fn default_relay() -> (r: String)
    ensures
        r@ == "ws://localhost:8080/tunnel"@,
{
    "ws://localhost:8080/tunnel".to_owned()
}

/// The protocol where none is named.
pub fn default_proto() -> (r: String)
    ensures
        r@ == "http"@,
{
    "http".to_owned()
}

/// The value of a switch that is on where nothing is said.
pub fn default_true() -> (r: bool)
    ensures
        r,
{
    true
}

/// The local host where none is named.
pub fn default_host() -> (r: String)
    ensures
        r@ == "127.0.0.1"@,
{
    "127.0.0.1".to_owned()
}

/// The port of the inspector where none is named.
pub fn default_inspect_port() -> (r: u16)
    ensures
        r == 4040,
{
    4040
}

/// The names under which a configuration file is looked for, in order.
pub fn config_candidates() -> (r: Vec<String>)
    ensures
        r@.len() == 4,
        r@[0]@ == "ztunnel.yml"@,
        r@[1]@ == "ztunnel.yaml"@,
        r@[2]@ == ".ztunnel.yml"@,
        r@[3]@ == ".ztunnel.yaml"@,
{
    let mut r: Vec<String> = Vec::new();
    r.push("ztunnel.yml".to_owned());
    r.push("ztunnel.yaml".to_owned());
    r.push(".ztunnel.yml".to_owned());
    r.push(".ztunnel.yaml".to_owned());
    r
}

/// Why a configuration is refused.
#[derive(Debug)]
pub enum ConfigError {
    /// It names no tunnel.
    NoTunnels,
    /// A tunnel has no name.
    EmptyName,
    /// The tunnel `tunnel` names the protocol `proto`, which is none.
    InvalidProtocol { proto: String, tunnel: String },
    /// The tunnel `tunnel` names the port 0.
    InvalidPort { tunnel: String },
}

/// Whether a text names a protocol: `http`, `tcp` or `udp`.
pub open spec fn is_proto(p: Seq<char>) -> bool {
    p == "http"@ || p == "tcp"@ || p == "udp"@
}

/// Whether a tunnel is in order: it has a name, a protocol and a port.
pub open spec fn tunnel_ok(t: TunnelConfig) -> bool {
    t.name@.len() > 0 && is_proto(t.proto@) && t.local_port != 0
}

/// The index of the first tunnel that is not in order, or the number of
/// tunnels.
pub open spec fn first_bad(tunnels: Seq<TunnelConfig>) -> int
    decreases tunnels.len(),
{
    if tunnels.len() == 0 {
        0
    } else if !tunnel_ok(tunnels[0]) {
        0
    } else {
        1 + first_bad(tunnels.skip(1))
    }
}

proof fn lemma_first_bad(tunnels: Seq<TunnelConfig>, k: int)
    requires
        0 <= k <= tunnels.len(),
        forall|j: int| 0 <= j < k ==> tunnel_ok(#[trigger] tunnels[j]),
        k < tunnels.len() ==> !tunnel_ok(tunnels[k]),
    ensures
        first_bad(tunnels) == k,
    decreases k,
{
    if k > 0 {
        let t = tunnels.skip(1);
        assert(tunnel_ok(tunnels[0]));
        assert forall|j: int| 0 <= j < k - 1 implies tunnel_ok(#[trigger] t[j]) by {
            assert(t[j] == tunnels[j + 1]);
        }
        if k < tunnels.len() {
            assert(t[k - 1] == tunnels[k]);
        }
        lemma_first_bad(t, k - 1);
    }
}

impl ConfigError {
    /// The message of the error, as a value.
    pub open spec fn text(&self) -> Seq<char> {
        match self {
            ConfigError::NoTunnels => "No tunnels defined in configuration"@,
            ConfigError::EmptyName => "Tunnel name cannot be empty"@,
            ConfigError::InvalidProtocol { proto, tunnel } => "Invalid protocol '"@ + proto@
                + "' for tunnel '"@ + tunnel@ + "'"@,
            ConfigError::InvalidPort { tunnel } => "Invalid port 0 for tunnel '"@ + tunnel@ + "'"@,
        }
    }

    /// The message of the error.
    pub fn message(&self) -> (s: String)
        ensures
            s@ == self.text(),
    {
        let mut s = String::new();
        match self {
            ConfigError::NoTunnels => {
                push_str(&mut s, "No tunnels defined in configuration");
            },
            ConfigError::EmptyName => {
                push_str(&mut s, "Tunnel name cannot be empty");
            },
            ConfigError::InvalidProtocol { proto, tunnel } => {
                push_str(&mut s, "Invalid protocol '");
                push_str(&mut s, proto.as_str());
                push_str(&mut s, "' for tunnel '");
                push_str(&mut s, tunnel.as_str());
                push_str(&mut s, "'");
            },
            ConfigError::InvalidPort { tunnel } => {
                push_str(&mut s, "Invalid port 0 for tunnel '");
                push_str(&mut s, tunnel.as_str());
                push_str(&mut s, "'");
            },
        }
        s
    }
}

impl ZTunnelConfig {
    /// Validates the configuration: there is a tunnel, and every tunnel has
    /// a name, a protocol out of `http`, `tcp` and `udp`, and a port other
    /// than 0. The error is that of the first tunnel that is not in order:
    /// its name is looked at first, then its protocol, then its port.
    pub fn validate(&self) -> (r: core::result::Result<(), ConfigError>)
        ensures
            r is Ok <==> self.tunnels@.len() > 0 && first_bad(self.tunnels@)
                == self.tunnels@.len(),
            self.tunnels@.len() == 0 ==> r matches Err(ConfigError::NoTunnels),
            self.tunnels@.len() > 0 && first_bad(self.tunnels@) < self.tunnels@.len() ==> ({
                let t = self.tunnels@[first_bad(self.tunnels@)];
                if t.name@.len() == 0 {
                    r matches Err(ConfigError::EmptyName)
                } else if !is_proto(t.proto@) {
                    r matches Err(ConfigError::InvalidProtocol { proto, tunnel }) && proto@
                        == t.proto@ && tunnel@ == t.name@
                } else {
                    r matches Err(ConfigError::InvalidPort { tunnel }) && tunnel@ == t.name@
                }
            }),
    {
        if self.tunnels.len() == 0 {
            return Err(ConfigError::NoTunnels);
        }
        let mut i: usize = 0;
        while i < self.tunnels.len()
            invariant
                i <= self.tunnels@.len(),
                self.tunnels@.len() > 0,
                forall|j: int| 0 <= j < i ==> tunnel_ok(#[trigger] self.tunnels@[j]),
            decreases self.tunnels@.len() - i,
        {
            let t = &self.tunnels[i];
            if t.name.as_str().unicode_len() == 0 {
                proof {
                    lemma_first_bad(self.tunnels@, i as int);
                }
                return Err(ConfigError::EmptyName);
            }
            let proto = t.proto.as_str();
            if !(str_is(proto, "http") || str_is(proto, "tcp") || str_is(proto, "udp")) {
                proof {
                    lemma_first_bad(self.tunnels@, i as int);
                }
                return Err(
                    ConfigError::InvalidProtocol { proto: t.proto.clone(), tunnel: t.name.clone() },
                );
            }
            if t.local_port == 0 {
                proof {
                    lemma_first_bad(self.tunnels@, i as int);
                }
                return Err(ConfigError::InvalidPort { tunnel: t.name.clone() });
            }
            i += 1;
        }
        proof {
            lemma_first_bad(self.tunnels@, i as int);
        }
        Ok(())
    }
}

} // verus!
