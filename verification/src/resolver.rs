//! What a resolver for an upstream is made of: its name servers, and how
//! each is spoken to.

use crate::conf::{Protocol, UpstreamSec, UpstreamView};
use crate::dns::TYPE_A;
use crate::ip_map::IpAddr;
use crate::net::SocketAddr;
use vstd::prelude::*;

verus! {

/// The port on which a protocol is spoken where none is given.
pub open spec fn port_of(protocol: Protocol) -> u16 {
    match protocol {
        Protocol::Udp => 53,
        Protocol::Tcp => 53,
        Protocol::Tls => 853,
        Protocol::Https => 443,
        Protocol::H3 => 443,
    }
}

/// Whether a protocol runs over TLS.
pub open spec fn is_secure(protocol: Protocol) -> bool {
    protocol == Protocol::Tls || protocol == Protocol::Https || protocol == Protocol::H3
}

/// The port on which `protocol` is spoken where none is given.
pub fn default_port(protocol: Protocol) -> (p: u16)
    ensures
        p == port_of(protocol),
{
    match protocol {
        Protocol::Udp => 53,
        Protocol::Tcp => 53,
        Protocol::Tls => 853,
        Protocol::Https => 443,
        Protocol::H3 => 443,
    }
}

/// The name that a name server has to show in its certificate.
pub enum TlsName {
    /// None: the protocol does not run over TLS.
    Unnamed,
    /// The name that the configuration gives.
    Name(String),
    /// The address of the first name server, written as text.
    Address(IpAddr),
}

/// A TLS name as the contracts speak of it.
pub ghost enum TlsNameView {
    Unnamed,
    Name(Seq<char>),
    Address(IpAddr),
}

impl View for TlsName {
    type V = TlsNameView;

    open spec fn view(&self) -> TlsNameView {
        match self {
            TlsName::Unnamed => TlsNameView::Unnamed,
            TlsName::Name(n) => TlsNameView::Name(n@),
            TlsName::Address(a) => TlsNameView::Address(*a),
        }
    }
}

/// A name server of an upstream.
pub struct NameServer {
    pub socket_addr: SocketAddr,
    pub protocol: Protocol,
    pub tls_dns_name: TlsName,
    pub trust_negative_responses: bool,
}

/// A name server as the contracts speak of it.
pub ghost struct NameServerView {
    pub socket_addr: SocketAddr,
    pub protocol: Protocol,
    pub tls_dns_name: TlsNameView,
    pub trust_negative_responses: bool,
}

impl View for NameServer {
    type V = NameServerView;

    open spec fn view(&self) -> NameServerView {
        NameServerView {
            socket_addr: self.socket_addr,
            protocol: self.protocol,
            tls_dns_name: self.tls_dns_name@,
            trust_negative_responses: self.trust_negative_responses,
        }
    }
}

/// The TLS name of the name servers of an upstream: the one that is
/// configured, or else, for a protocol that runs over TLS, the address of
/// the first name server.
pub open spec fn tls_name_of(conf: UpstreamView) -> TlsNameView {
    match conf.tls_dns_name {
        Some(n) => TlsNameView::Name(n),
        None => if is_secure(conf.protocol) && conf.addrs.len() > 0 {
            TlsNameView::Address(conf.addrs[0])
        } else {
            TlsNameView::Unnamed
        },
    }
}

/// The `i`-th name server of an upstream: its `i`-th address with the port
/// that is configured, or else the one of the protocol. Answers that say that
/// nothing is there are trusted over TLS only.
pub open spec fn name_server_of(conf: UpstreamView, i: int) -> NameServerView {
    NameServerView {
        socket_addr: SocketAddr {
            ip: conf.addrs[i],
            port: match conf.port {
                Some(p) => p,
                None => port_of(conf.protocol),
            },
        },
        protocol: conf.protocol,
        tls_dns_name: tls_name_of(conf),
        trust_negative_responses: conf.protocol == Protocol::Tls,
    }
}

/// The name servers of which a resolver for the upstream `conf` is made:
/// one for each of its addresses, in their order.
pub fn from(conf: &UpstreamSec) -> (r: Vec<NameServer>)
    ensures
        r@.len() == conf@.addrs.len(),
        forall|i: int| 0 <= i < r@.len() ==> (#[trigger] r@[i])@ == name_server_of(conf@, i),
{
    let port = match conf.port {
        Some(p) => p,
        None => default_port(conf.protocol),
    };
    let secure = match conf.protocol {
        Protocol::Tls => true,
        Protocol::Https => true,
        Protocol::H3 => true,
        _ => false,
    };
    let trust = match conf.protocol {
        Protocol::Tls => true,
        _ => false,
    };
    let mut r: Vec<NameServer> = Vec::new();
    let mut i: usize = 0;
    while i < conf.addrs.len()
        invariant
            i <= conf.addrs@.len(),
            r@.len() == i,
            secure == is_secure(conf.protocol),
            trust == (conf.protocol == Protocol::Tls),
            port == match conf.port {
                Some(p) => p,
                None => port_of(conf.protocol),
            },
            forall|j: int| 0 <= j < i ==> (#[trigger] r@[j])@ == name_server_of(conf@, j),
        decreases conf.addrs@.len() - i,
    {
        let tls_dns_name = match &conf.tls_dns_name {
            Some(n) => TlsName::Name(n.clone()),
            None => if secure {
                TlsName::Address(conf.addrs[0])
            } else {
                TlsName::Unnamed
            },
        };
        r.push(
            NameServer {
                socket_addr: SocketAddr { ip: conf.addrs[i], port },
                protocol: conf.protocol,
                tls_dns_name,
                trust_negative_responses: trust,
            },
        );
        i += 1;
    }
    r
}

/// Why an upstream gave no answer.
#[derive(Clone, Copy, Debug, PartialEq, Eq, Structural)]
pub enum Failure {
    /// It has no records of the type `qtype` for the name.
    NoRecords { qtype: u16 },
    /// Anything else.
    Other,
}

/// How loud a failure is noted in the log.
#[derive(Clone, Copy, Debug, PartialEq, Eq, Structural)]
pub enum Level {
    Info,
    Warn,
}

/// How loud the failure `f` is noted: that there are no records of a type
/// other than A is worth a note, everything else a warning.
pub fn failure_level(f: Failure) -> (l: Level)
    ensures
        l == (match f {
            Failure::NoRecords { qtype } => if qtype == TYPE_A {
                Level::Warn
            } else {
                Level::Info
            },
            Failure::Other => Level::Warn,
        }),
{
    match f {
        Failure::NoRecords { qtype } => if qtype == TYPE_A {
            Level::Warn
        } else {
            Level::Info
        },
        Failure::Other => Level::Warn,
    }
}

} // verus!
