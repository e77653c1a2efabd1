//! How connections are made: the protocol, and what a client is keyed by and built with.

use vstd::prelude::*;

use crate::headers::{Warning, WarningView};
use crate::models::{copy_text, text_of, DownloadPlan};

verus! {

/// The protocol that a plan asks for.
#[derive(Clone, Copy, Debug, PartialEq, Eq, Hash, Structural)]
pub enum HttpVersion {
    /// Whatever the server agrees to, of HTTP/2 and HTTP/1.1.
    Auto,
    /// HTTP/1.1 only.
    Http1,
    /// HTTP/2 without negotiation.
    Http2,
    /// HTTP/3, where the program was built with it.
    Http3,
}

/// The protocol that a client speaks.
#[derive(Clone, Copy, Debug, PartialEq, Eq, Structural)]
pub enum Protocol {
    /// The server's choice of HTTP/2 and HTTP/1.1.
    Negotiated,
    Http1Only,
    Http2Only,
    Http3Only,
}

/// The protocol that a client speaks for a plan that asks for `version`.
pub open spec fn protocol_for(version: HttpVersion, http3_built: bool) -> Protocol {
    match version {
        HttpVersion::Auto => Protocol::Negotiated,
        HttpVersion::Http1 => Protocol::Http1Only,
        HttpVersion::Http2 => Protocol::Http2Only,
        HttpVersion::Http3 => if http3_built {
            Protocol::Http3Only
        } else {
            Protocol::Negotiated
        },
    }
}

/// Chooses the protocol for a plan; without HTTP/3 in the program, negotiation takes its place.
pub fn select_protocol(version: HttpVersion, http3_built: bool) -> (r: Protocol)
    ensures
        r == protocol_for(version, http3_built),
{
    match version {
        HttpVersion::Auto => Protocol::Negotiated,
        HttpVersion::Http1 => Protocol::Http1Only,
        HttpVersion::Http2 => Protocol::Http2Only,
        HttpVersion::Http3 => if http3_built {
            Protocol::Http3Only
        } else {
            Protocol::Negotiated
        },
    }
}

/// What an optional warning says.
pub open spec fn warning_of(o: Option<Warning>) -> Option<WarningView> {
    match o {
        Some(w) => Some(w@),
        None => None,
    }
}

/// The warning about a protocol that the program was not built with.
pub open spec fn fallback_warning(version: HttpVersion, http3_built: bool) -> Option<WarningView> {
    if version == HttpVersion::Http3 && !http3_built {
        Some(
            WarningView {
                scope: "plan"@,
                key: "http_version"@,
                value: "http3"@,
                message: "HTTP/3 is not built in; falling back to HTTP/2 via ALPN"@,
            },
        )
    } else {
        None
    }
}

/// Warns about a protocol that the program was not built with.
pub fn protocol_warning(version: HttpVersion, http3_built: bool) -> (r: Option<Warning>)
    ensures
        warning_of(r) == fallback_warning(version, http3_built),
{
    match version {
        HttpVersion::Http3 => if http3_built {
            None
        } else {
            let warning: Warning = Warning {
                scope: "plan".to_owned(),
                key: "http_version".to_owned(),
                value: "http3".to_owned(),
                message: "HTTP/3 is not built in; falling back to HTTP/2 via ALPN".to_owned(),
            };
            Some(warning)
        },
        _ => None,
    }
}

/// A warning is given exactly where a plan does not get the protocol it asks for.
pub proof fn warned_exactly_on_fallback(version: HttpVersion, http3_built: bool)
    ensures
        fallback_warning(version, http3_built) is Some <==> (version == HttpVersion::Http3
            && protocol_for(version, http3_built) != Protocol::Http3Only),
        fallback_warning(version, http3_built) is Some ==> protocol_for(version, http3_built)
            == protocol_for(HttpVersion::Auto, http3_built),
{
}

/// What a client is kept under: plans with the same key share it.
#[derive(Clone, Debug, PartialEq, Eq, Hash)]
pub struct ClientKey {
    pub timeout_seconds: u64,
    pub proxy_url: Option<String>,
    pub max_redirects: u32,
    pub verify_tls: bool,
    pub http_version: HttpVersion,
}

impl ClientKey {
    /// The key of a plan's client.
    pub fn from_plan(plan: &DownloadPlan) -> (r: Self)
        ensures
            r.timeout_seconds == if plan.timeout_seconds == 0 {
                1
            } else {
                plan.timeout_seconds
            },
            text_of(r.proxy_url) == text_of(plan.proxy_url),
            r.max_redirects == if plan.max_redirects == 0 {
                1
            } else {
                plan.max_redirects
            },
            r.verify_tls == plan.verify_tls,
            r.http_version == plan.http_version,
    {
        ClientKey {
            timeout_seconds: if plan.timeout_seconds == 0 {
                1
            } else {
                plan.timeout_seconds
            },
            proxy_url: copy_text(&plan.proxy_url),
            max_redirects: if plan.max_redirects == 0 {
                1
            } else {
                plan.max_redirects
            },
            verify_tls: plan.verify_tls,
            http_version: plan.http_version,
        }
    }
}

/// What a client is built with.
#[derive(Debug)]
pub struct ClientSettings {
    pub timeout_seconds: u64,
    pub pool_max_idle: usize,
    pub max_redirects: u32,
    pub accept_invalid_certs: bool,
    pub proxy_url: Option<String>,
    pub protocol: Protocol,
}

/// Settles what the client of a key is built with, with room for `pool_max_idle` idle connections
/// per host.
pub fn build_client(key: &ClientKey, pool_max_idle: usize, http3_built: bool) -> (r: ClientSettings)
    ensures
        r.timeout_seconds == key.timeout_seconds,
        r.pool_max_idle == if pool_max_idle == 0 {
            1
        } else {
            pool_max_idle
        },
        r.max_redirects == if key.max_redirects == 0 {
            1
        } else {
            key.max_redirects
        },
        r.accept_invalid_certs == !key.verify_tls,
        text_of(r.proxy_url) == text_of(key.proxy_url),
        r.protocol == protocol_for(key.http_version, http3_built),
{
    ClientSettings {
        timeout_seconds: key.timeout_seconds,
        pool_max_idle: if pool_max_idle == 0 {
            1
        } else {
            pool_max_idle
        },
        max_redirects: if key.max_redirects == 0 {
            1
        } else {
            key.max_redirects
        },
        accept_invalid_certs: !key.verify_tls,
        proxy_url: copy_text(&key.proxy_url),
        protocol: select_protocol(key.http_version, http3_built),
    }
}

/// A client speaks one protocol alone exactly where the plan asks for that one and the program has it, and
/// leaves the choice to the server otherwise; what the program has matters to HTTP/3 alone.
pub proof fn a_plan_gets_the_protocol_it_asks_for(version: HttpVersion, http3_built: bool)
    ensures
        protocol_for(version, http3_built) is Http1Only <==> version is Http1,
        protocol_for(version, http3_built) is Http2Only <==> version is Http2,
        protocol_for(version, http3_built) is Http3Only <==> version is Http3 && http3_built,
        protocol_for(version, http3_built) is Negotiated <==> version is Auto || (version is Http3
            && !http3_built),
        !(version is Http3) ==> protocol_for(version, true) == protocol_for(version, false),
{
}

/// The warning about a protocol names the member of the plan that asks for it and what it asks for.
pub proof fn a_fallback_is_told_of_the_plan(version: HttpVersion)
    ensures
        fallback_warning(version, true) is None,
        fallback_warning(version, false) is Some <==> version is Http3,
        fallback_warning(version, false) matches Some(w) ==> w.scope == "plan"@ && w.key
            == "http_version"@ && w.value == "http3"@,
{
}

} // verus!
