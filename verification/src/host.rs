//! Remote hosts a delivery attempt may connect to: either a mail exchange
//! found through MX resolution, or a preconfigured relay.

use vstd::prelude::*;
use vstd::string::{StrSliceExecFns, StringExecFns};

verus! {

/// An IP address as plain numeric values.
#[derive(Clone, Copy, Debug, PartialEq, Eq, Structural)]
pub enum Ip {
    V4(u32),
    V6(u128),
}

impl Ip {
    pub open spec fn spec_is_ipv4(&self) -> bool {
        self is V4
    }

    pub fn is_ipv4(&self) -> (r: bool)
        ensures
            r == self.spec_is_ipv4(),
    {
        match self {
            Ip::V4(_) => true,
            Ip::V6(_) => false,
        }
    }
}

/// A next-hop relay as configuration names it.
#[derive(Clone, Debug)]
pub struct RelayHost {
    pub address: String,
    pub port: u16,
    pub tls_implicit: bool,
    pub tls_allow_invalid_certs: bool,
}

impl RelayHost {
    /// A field-wise copy, equal to the original.
    pub fn duplicate(&self) -> (r: RelayHost)
        ensures
            r == *self,
    {
        RelayHost {
            address: self.address.clone(),
            port: self.port,
            tls_implicit: self.tls_implicit,
            tls_allow_invalid_certs: self.tls_allow_invalid_certs,
        }
    }
}

/// Where one connection attempt goes: an MX exchange (port 25, strict TLS)
/// or an explicit relay with its own port and TLS posture.
#[derive(Clone, Debug)]
pub enum RemoteHost {
    Relay(RelayHost),
    MX(String),
}

impl RemoteHost {
    /// The hostname as configured or resolved, unchanged.
    pub open spec fn spec_hostname(&self) -> Seq<char> {
        match self {
            RemoteHost::MX(host) => host@,
            RemoteHost::Relay(host) => host.address@,
        }
    }

    pub fn hostname(&self) -> (r: &str)
        ensures
            r@ == self.spec_hostname(),
    {
        match self {
            RemoteHost::MX(host) => host.as_str(),
            RemoteHost::Relay(host) => host.address.as_str(),
        }
    }

    /// The name handed to the address resolver: an MX hostname gains a
    /// trailing dot when it lacks one; a relay address is used as given.
    pub open spec fn spec_fqdn_hostname(&self) -> Seq<char> {
        match self {
            RemoteHost::MX(host) => if host@.len() > 0 && host@.last() == '.' {
                host@
            } else {
                host@ + seq!['.']
            },
            RemoteHost::Relay(host) => host.address@,
        }
    }

    pub fn fqdn_hostname(&self) -> (r: String)
        ensures
            r@ == self.spec_fqdn_hostname(),
    {
        match self {
            RemoteHost::MX(host) => {
                let n = host.as_str().unicode_len();
                if n > 0 && host.as_str().get_char(n - 1) == '.' {
                    host.clone()
                } else {
                    proof {
                        reveal_strlit(".");
                    }
                    let mut r = host.clone();
                    r.append(".");
                    r
                }
            },
            RemoteHost::Relay(host) => host.address.clone(),
        }
    }

    /// MX delivery always speaks on port 25; a relay names its own port.
    pub open spec fn spec_port(&self) -> u16 {
        match self {
            RemoteHost::MX(_) => 25,
            RemoteHost::Relay(host) => host.port,
        }
    }

    pub fn port(&self) -> (r: u16)
        ensures
            r == self.spec_port(),
    {
        match self {
            RemoteHost::MX(_) => 25,
            RemoteHost::Relay(host) => host.port,
        }
    }

    /// Certificates are always verified against an MX host; a relay may be
    /// configured to accept invalid ones.
    pub open spec fn spec_allow_invalid_certs(&self) -> bool {
        match self {
            RemoteHost::MX(_) => false,
            RemoteHost::Relay(host) => host.tls_allow_invalid_certs,
        }
    }

    pub fn allow_invalid_certs(&self) -> (r: bool)
        ensures
            r == self.spec_allow_invalid_certs(),
    {
        match self {
            RemoteHost::MX(_) => false,
            RemoteHost::Relay(host) => host.tls_allow_invalid_certs,
        }
    }

    /// An MX session starts in cleartext and may upgrade; a relay may demand
    /// TLS from the first byte.
    pub open spec fn spec_implicit_tls(&self) -> bool {
        match self {
            RemoteHost::MX(_) => false,
            RemoteHost::Relay(host) => host.tls_implicit,
        }
    }

    pub fn implicit_tls(&self) -> (r: bool)
        ensures
            r == self.spec_implicit_tls(),
    {
        match self {
            RemoteHost::MX(_) => false,
            RemoteHost::Relay(host) => host.tls_implicit,
        }
    }
}

} // verus!
