//! The per-request side of extraction: the configuration that a request
//! pipeline layer carries, the service it wraps, and the address that it
//! attaches to each request.
use vstd::prelude::*;
use crate::address::IpAddr;
use crate::extractor::{IpExtractor, default_header_names, opt_view, scan, lowered, with_fallback};
use crate::header::HeaderMap;

verus! {

/// The client address attached to a request.
#[derive(Clone, Copy, Debug, PartialEq, Eq, Structural)]
pub struct RealIp(pub IpAddr);

impl RealIp {
    /// The address.
    pub fn ip(&self) -> (r: IpAddr)
        ensures
            r == self.0,
    {
        self.0
    }

    /// The address of a request: the one already attached where there is one,
    /// else what strict extraction finds in `headers` with the transport peer
    /// `peer` as fallback, else 127.0.0.1.
    pub fn from_parts(existing: Option<RealIp>, headers: &HeaderMap, peer: Option<String>) -> (r:
        RealIp)
        ensures
            r == (match existing {
                Some(x) => x,
                None => match with_fallback(
                    scan(headers@, lowered(default_header_names()), false, true),
                    opt_view(peer),
                ) {
                    Some(ip) => RealIp(ip),
                    None => RealIp(IpAddr::localhost_spec()),
                },
            }),
    {
        match existing {
            Some(x) => x,
            None => match crate::extractor::extract_real_ip_strict(headers, peer) {
                Some(ip) => RealIp(ip),
                None => RealIp(IpAddr::localhost()),
            },
        }
    }
}

/// A copy of `e`'s configuration.
fn copy_extractor(e: &IpExtractor) -> (r: IpExtractor)
    ensures
        r.headers.deep_view() == e.headers.deep_view(),
        r.trust_private_ips == e.trust_private_ips,
        r.use_first_forwarded == e.use_first_forwarded,
{
    let mut headers: Vec<String> = Vec::new();
    let mut i: usize = 0;
    while i < e.headers.len()
        invariant
            i <= e.headers@.len(),
            headers@.len() == i,
            forall|k: int| 0 <= k < i ==> #[trigger] headers@[k]@ == e.headers@[k]@,
        decreases e.headers@.len() - i,
    {
        headers.push(e.headers[i].clone());
        i = i + 1;
    }
    assert(headers.deep_view() =~= e.headers.deep_view());
    IpExtractor {
        headers,
        trust_private_ips: e.trust_private_ips,
        use_first_forwarded: e.use_first_forwarded,
    }
}

/// The configuration that a request pipeline layer applies to each request.
#[derive(Clone, Debug)]
pub struct RealIpLayer {
    extractor: IpExtractor,
}

impl RealIpLayer {
    /// The extractor configuration.
    pub closed spec fn config(&self) -> IpExtractor {
        self.extractor
    }

    /// The configuration.
    pub fn extractor(&self) -> (r: &IpExtractor)
        ensures
            *r == self.config(),
    {
        &self.extractor
    }
}

impl Default for RealIpLayer {
    /// Default headers, private addresses accepted.
    fn default() -> (r: RealIpLayer)
        ensures
            r.config().headers.deep_view() == default_header_names(),
            r.config().trust_private_ips,
            r.config().use_first_forwarded,
    {
        RealIpLayer { extractor: IpExtractor::default().trust_private_ips(true) }
    }
}

impl RealIpLayer {
    /// Default headers, private addresses accepted.
    pub fn new() -> (r: RealIpLayer)
        ensures
            r.config().headers.deep_view() == default_header_names(),
            r.config().trust_private_ips,
            r.config().use_first_forwarded,
    {
        Self::default()
    }

    /// A layer applying `extractor`.
    pub fn with_extractor(extractor: IpExtractor) -> (r: RealIpLayer)
        ensures
            r.config() == extractor,
    {
        RealIpLayer { extractor }
    }

    /// Default headers, private addresses from headers rejected.
    pub fn strict() -> (r: RealIpLayer)
        ensures
            r.config().headers.deep_view() == default_header_names(),
            !r.config().trust_private_ips,
            r.config().use_first_forwarded,
    {
        RealIpLayer { extractor: IpExtractor::default().trust_private_ips(false) }
    }

    /// The service that wraps `inner` with this configuration.
    pub fn layer<S>(&self, inner: S) -> (r: RealIpService<S>)
        ensures
            r.inner_spec() == inner,
            r.config().headers.deep_view() == self.config().headers.deep_view(),
            r.config().trust_private_ips == self.config().trust_private_ips,
            r.config().use_first_forwarded == self.config().use_first_forwarded,
    {
        RealIpService { inner, extractor: copy_extractor(&self.extractor) }
    }
}

/// A service that resolves each request's client address before handing the
/// request to `inner`.
#[derive(Clone, Debug)]
pub struct RealIpService<S> {
    inner: S,
    extractor: IpExtractor,
}

impl<S> RealIpService<S> {
    /// The extractor configuration.
    pub closed spec fn config(&self) -> IpExtractor {
        self.extractor
    }

    /// The wrapped service.
    pub closed spec fn inner_spec(&self) -> S {
        self.inner
    }

    /// The wrapped service.
    pub fn inner(&self) -> (r: &S)
        ensures
            *r == self.inner_spec(),
    {
        &self.inner
    }

    /// The wrapped service, for the caller to drive.
    pub fn inner_mut(&mut self) -> (r: &mut S)
        ensures
            *r == old(self).inner_spec(),
            final(self).config() == old(self).config(),
            final(self).inner_spec() == *final(r),
    {
        &mut self.inner
    }

    /// The client address of a request with `headers`, whose transport peer is
    /// `fallback_ip`: what the configuration extracts, if anything.
    pub fn resolve(&self, headers: &HeaderMap, fallback_ip: Option<String>) -> (r: Option<RealIp>)
        ensures
            r == (match self.config().extract_spec(headers@, opt_view(fallback_ip)) {
                Some(ip) => Some(RealIp(ip)),
                None => None,
            }),
    {
        match self.extractor.extract(headers, fallback_ip) {
            Some(ip) => Some(RealIp(ip)),
            None => None,
        }
    }
}

} // verus!
