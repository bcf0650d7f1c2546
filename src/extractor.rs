//! The extraction policy: which headers to read, in which order, how to read
//! a forwarding chain, and which addresses to accept.
use vstd::prelude::*;
use crate::address::{IpAddr, parse_ip_spec, parse_chars};
use crate::header::HeaderMap;
use crate::text::{trim, split_on, chars_of, trim_chars, split_chars};

verus! {

/// What `str::to_lowercase` makes of a string.
pub uninterp spec fn lower_of(s: Seq<char>) -> Seq<char>;

/// Relies on `str::to_lowercase`: the lower-case form of `s`, which depends on
/// its characters alone.
#[verifier::external_body]
fn lowercase(s: &str) -> (r: String)
    ensures
        r@ == lower_of(s@),
{
    s.to_lowercase()
}

/// The first segment, from the left, that parses as an address once trimmed.
pub open spec fn first_parsed(segs: Seq<Seq<char>>) -> Option<IpAddr>
    decreases segs.len(),
{
    if segs.len() == 0 {
        None
    } else {
        match parse_ip_spec(trim(segs[0])) {
            Some(a) => Some(a),
            None => first_parsed(segs.drop_first()),
        }
    }
}

/// The first segment, from the right, that parses as an address once trimmed.
pub open spec fn last_parsed(segs: Seq<Seq<char>>) -> Option<IpAddr>
    decreases segs.len(),
{
    if segs.len() == 0 {
        None
    } else {
        match parse_ip_spec(trim(segs.last())) {
            Some(a) => Some(a),
            None => last_parsed(segs.drop_last()),
        }
    }
}

/// The candidate address of one header value: the whole trimmed value, or,
/// where it holds a comma, the first segment of the chain that parses, read
/// from the left where `use_first` holds and from the right otherwise.
pub open spec fn chain_candidate(v: Seq<char>, use_first: bool) -> Option<IpAddr> {
    let t = trim(v);
    if t.contains(',') {
        if use_first {
            first_parsed(split_on(t, ','))
        } else {
            last_parsed(split_on(t, ','))
        }
    } else {
        parse_ip_spec(t)
    }
}

/// Private (10/8, 172.16/12, 192.168/16), loopback (127/8) or link-local
/// (169.254/16) IPv4; loopback (::1), unique-local (fc00::/7) or link-local
/// (fe80::/10) IPv6.
pub open spec fn is_private(ip: IpAddr) -> bool {
    match ip {
        IpAddr::V4(a) => a.a == 10 || (a.a == 172 && 16 <= a.b && a.b <= 31) || (a.a == 192 && a.b
            == 168) || a.a == 127 || (a.a == 169 && a.b == 254),
        IpAddr::V6(a) => (a.s0 == 0 && a.s1 == 0 && a.s2 == 0 && a.s3 == 0 && a.s4 == 0 && a.s5
            == 0 && a.s6 == 0 && a.s7 == 1) || (a.s0 & 0xfe00u16) == 0xfc00u16 || (a.s0
            & 0xffc0u16) == 0xfe80u16,
    }
}

/// Whether a header address passes the trust policy.
pub open spec fn admits(trust_private: bool, ip: IpAddr) -> bool {
    trust_private || !is_private(ip)
}

/// What header `key` yields: its candidate, where it has one that the policy
/// admits.
pub open spec fn header_pick(
    headers: Map<Seq<char>, Seq<char>>,
    key: Seq<char>,
    trust_private: bool,
    use_first: bool,
) -> Option<IpAddr> {
    if headers.contains_key(key) {
        match chain_candidate(headers[key], use_first) {
            Some(ip) => if admits(trust_private, ip) {
                Some(ip)
            } else {
                None
            },
            None => None,
        }
    } else {
        None
    }
}

/// The first address that the headers `keys`, in order, yield.
pub open spec fn scan(
    headers: Map<Seq<char>, Seq<char>>,
    keys: Seq<Seq<char>>,
    trust_private: bool,
    use_first: bool,
) -> Option<IpAddr>
    decreases keys.len(),
{
    if keys.len() == 0 {
        None
    } else {
        match header_pick(headers, keys[0], trust_private, use_first) {
            Some(ip) => Some(ip),
            None => scan(headers, keys.drop_first(), trust_private, use_first),
        }
    }
}

/// The header names as they are looked up.
pub open spec fn lowered(names: Seq<Seq<char>>) -> Seq<Seq<char>> {
    names.map_values(|n: Seq<char>| lower_of(n))
}

/// The view of an optional string.
pub open spec fn opt_view(o: Option<String>) -> Option<Seq<char>> {
    match o {
        Some(s) => Some(s@),
        None => None,
    }
}

/// The header scan's result, else the fallback where it parses, else nothing.
pub open spec fn with_fallback(found: Option<IpAddr>, fallback: Option<Seq<char>>) -> Option<
    IpAddr,
> {
    match found {
        Some(ip) => Some(ip),
        None => match fallback {
            Some(f) => parse_ip_spec(f),
            None => None,
        },
    }
}

/// Whether `c` occurs in `s`.
fn contains_char(s: &[char], c: char) -> (r: bool)
    ensures
        r == s@.contains(c),
{
    let mut k: usize = 0;
    while k < s.len()
        invariant
            k <= s@.len(),
            forall|j: int| 0 <= j < k ==> s@[j] != c,
        decreases s@.len() - k,
    {
        if s[k] == c {
            return true;
        }
        k = k + 1;
    }
    false
}

/// The headers read by default, in order of preference.
pub open spec fn default_header_names() -> Seq<Seq<char>> {
    seq![
        "x-real-ip"@,
        "cf-connecting-ip"@,
        "x-forwarded-for"@,
        "x-forwarded"@,
        "forwarded-for"@,
        "forwarded"@,
    ]
}

/// Configuration of IP extraction.
#[derive(Clone, Debug)]
pub struct IpExtractor {
    /// Headers to read, in order of preference.
    pub headers: Vec<String>,
    /// Whether private, loopback and link-local addresses from headers are accepted.
    pub trust_private_ips: bool,
    /// Whether a forwarding chain is read from the left (client side) rather than
    /// from the right.
    pub use_first_forwarded: bool,
}

impl Default for IpExtractor {
    /// The default headers, private addresses rejected, chains read from the left.
    fn default() -> (r: IpExtractor)
        ensures
            r.headers.deep_view() == default_header_names(),
            !r.trust_private_ips,
            r.use_first_forwarded,
    {
        let mut headers: Vec<String> = Vec::new();
        headers.push("x-real-ip".to_owned());
        headers.push("cf-connecting-ip".to_owned());
        headers.push("x-forwarded-for".to_owned());
        headers.push("x-forwarded".to_owned());
        headers.push("forwarded-for".to_owned());
        headers.push("forwarded".to_owned());
        assert(headers.deep_view() =~= default_header_names());
        IpExtractor { headers, trust_private_ips: false, use_first_forwarded: true }
    }
}

impl IpExtractor {
    /// An extractor with the default configuration.
    pub fn new() -> (r: IpExtractor)
        ensures
            r.headers.deep_view() == default_header_names(),
            !r.trust_private_ips,
            r.use_first_forwarded,
    {
        Self::default()
    }

    /// The same configuration, reading `headers` in their order instead.
    pub fn with_headers(self, headers: Vec<String>) -> (r: IpExtractor)
        ensures
            r.headers == headers,
            r.trust_private_ips == self.trust_private_ips,
            r.use_first_forwarded == self.use_first_forwarded,
    {
        let mut this = self;
        this.headers = headers;
        this
    }

    /// The same configuration, with private addresses from headers accepted
    /// exactly where `trust` holds.
    pub fn trust_private_ips(self, trust: bool) -> (r: IpExtractor)
        ensures
            r.headers == self.headers,
            r.trust_private_ips == trust,
            r.use_first_forwarded == self.use_first_forwarded,
    {
        let mut this = self;
        this.trust_private_ips = trust;
        this
    }

    /// The same configuration, with chains read from the left exactly where
    /// `use_first` holds.
    pub fn use_first_forwarded(self, use_first: bool) -> (r: IpExtractor)
        ensures
            r.headers == self.headers,
            r.trust_private_ips == self.trust_private_ips,
            r.use_first_forwarded == use_first,
    {
        let mut this = self;
        this.use_first_forwarded = use_first;
        this
    }

    /// The result of extraction for this configuration.
    pub open spec fn extract_spec(
        &self,
        headers: Map<Seq<char>, Seq<char>>,
        fallback: Option<Seq<char>>,
    ) -> Option<IpAddr> {
        with_fallback(
            scan(
                headers,
                lowered(self.headers.deep_view()),
                self.trust_private_ips,
                self.use_first_forwarded,
            ),
            fallback,
        )
    }

    /// Whether `ip` is private, loopback or link-local.
    fn is_private_ip(&self, ip: &IpAddr) -> (r: bool)
        ensures
            r == is_private(*ip),
    {
        match ip {
            IpAddr::V4(a) => a.a == 10 || (a.a == 172 && 16 <= a.b && a.b <= 31) || (a.a == 192
                && a.b == 168) || a.a == 127 || (a.a == 169 && a.b == 254),
            IpAddr::V6(a) => (a.s0 == 0 && a.s1 == 0 && a.s2 == 0 && a.s3 == 0 && a.s4 == 0 && a.s5
                == 0 && a.s6 == 0 && a.s7 == 1) || (a.s0 & 0xfe00u16) == 0xfc00u16 || (a.s0
                & 0xffc0u16) == 0xfe80u16,
        }
    }

    /// Whether `ip`, read from a header, passes the trust policy.
    fn is_valid_ip(&self, ip: &IpAddr) -> (r: bool)
        ensures
            r == admits(self.trust_private_ips, *ip),
    {
        if !self.trust_private_ips && self.is_private_ip(ip) {
            return false;
        }
        true
    }

    /// The candidate address of one header value.
    fn parse_header_value(&self, value: &str) -> (r: Option<IpAddr>)
        ensures
            r == chain_candidate(value@, self.use_first_forwarded),
    {
        let chars = chars_of(value);
        let t = trim_chars(chars.as_slice());
        if !contains_char(t.as_slice(), ',') {
            return parse_chars(t.as_slice());
        }
        let segs = split_chars(t.as_slice(), ',');
        let ghost ss = split_on(t@, ',');
        if self.use_first_forwarded {
            let mut i: usize = 0;
            assert(ss.skip(0) =~= ss);
            while i < segs.len()
                invariant
                    t@ == trim(value@),
                    t@.contains(','),
                    ss == split_on(t@, ','),
                    i <= segs@.len() == ss.len(),
                    forall|j: int| 0 <= j < ss.len() ==> #[trigger] segs@[j]@ == ss[j],
                    self.use_first_forwarded,
                    first_parsed(ss) == first_parsed(ss.skip(i as int)),
                decreases segs@.len() - i,
            {
                assert(ss.skip(i as int).drop_first() =~= ss.skip(i + 1));
                let seg = trim_chars(segs[i].as_slice());
                if let Some(ip) = parse_chars(seg.as_slice()) {
                    return Some(ip);
                }
                i = i + 1;
            }
            None
        } else {
            let mut i: usize = segs.len();
            assert(ss.take(i as int) =~= ss);
            while i > 0
                invariant
                    t@ == trim(value@),
                    t@.contains(','),
                    ss == split_on(t@, ','),
                    i <= segs@.len() == ss.len(),
                    forall|j: int| 0 <= j < ss.len() ==> #[trigger] segs@[j]@ == ss[j],
                    !self.use_first_forwarded,
                    last_parsed(ss) == last_parsed(ss.take(i as int)),
                decreases i,
            {
                assert(ss.take(i as int).drop_last() =~= ss.take(i - 1));
                let seg = trim_chars(segs[i - 1].as_slice());
                if let Some(ip) = parse_chars(seg.as_slice()) {
                    return Some(ip);
                }
                i = i - 1;
            }
            None
        }
    }

    /// What header `key` yields: its candidate address where it has one that the
    /// trust policy admits. `key` is looked up exactly as given.
    pub fn header_candidate(&self, key: &String, headers: &HeaderMap) -> (r: Option<IpAddr>)
        ensures
            r == header_pick(headers@, key@, self.trust_private_ips, self.use_first_forwarded),
    {
        match headers.get(key) {
            Some(v) => match self.parse_header_value(v.as_str()) {
                Some(ip) => if self.is_valid_ip(&ip) {
                    Some(ip)
                } else {
                    None
                },
                None => None,
            },
            None => None,
        }
    }

    /// The first address that the configured headers yield, in order, each
    /// name looked up in lower case.
    fn extract_from_headers(&self, headers: &HeaderMap) -> (r: Option<IpAddr>)
        ensures
            r == scan(
                headers@,
                lowered(self.headers.deep_view()),
                self.trust_private_ips,
                self.use_first_forwarded,
            ),
    {
        let ghost keys = lowered(self.headers.deep_view());
        let mut i: usize = 0;
        assert(keys.skip(0) =~= keys);
        while i < self.headers.len()
            invariant
                keys == lowered(self.headers.deep_view()),
                i <= self.headers@.len() == keys.len(),
                scan(headers@, keys, self.trust_private_ips, self.use_first_forwarded) == scan(
                    headers@,
                    keys.skip(i as int),
                    self.trust_private_ips,
                    self.use_first_forwarded,
                ),
            decreases self.headers@.len() - i,
        {
            assert(keys.skip(i as int).drop_first() =~= keys.skip(i + 1));
            let key = lowercase(self.headers[i].as_str());
            if let Some(ip) = self.header_candidate(&key, headers) {
                return Some(ip);
            }
            i = i + 1;
        }
        None
    }

    /// The client address: the first that the configured headers yield and
    /// the trust policy admits, else `fallback_ip` where it parses as an
    /// address (it is not held to the trust policy), else nothing.
    pub fn extract(&self, headers: &HeaderMap, fallback_ip: Option<String>) -> (r: Option<IpAddr>)
        ensures
            r == self.extract_spec(headers@, opt_view(fallback_ip)),
    {
        if let Some(ip) = self.extract_from_headers(headers) {
            return Some(ip);
        }
        if let Some(fallback) = fallback_ip {
            let chars = chars_of(fallback.as_str());
            if let Some(ip) = parse_chars(chars.as_slice()) {
                return Some(ip);
            }
        }
        None
    }
}

/// Extraction with the default headers, private addresses accepted: for
/// deployments behind trusted internal proxies.
pub fn extract_real_ip(headers: &HeaderMap, fallback_ip: Option<String>) -> (r: Option<IpAddr>)
    ensures
        r == with_fallback(
            scan(headers@, lowered(default_header_names()), true, true),
            opt_view(fallback_ip),
        ),
{
    let extractor = IpExtractor::default().trust_private_ips(true);
    extractor.extract(headers, fallback_ip)
}

/// Extraction with the default headers, private addresses from headers
/// rejected: for public-facing deployments.
pub fn extract_real_ip_strict(headers: &HeaderMap, fallback_ip: Option<String>) -> (r: Option<
    IpAddr,
>)
    ensures
        r == with_fallback(
            scan(headers@, lowered(default_header_names()), false, true),
            opt_view(fallback_ip),
        ),
{
    let extractor = IpExtractor::default().trust_private_ips(false);
    extractor.extract(headers, fallback_ip)
}

/// Whether `ip` is what the whole trimmed value `v`, or one trimmed
/// comma-separated segment of it, writes.
pub open spec fn occurs_in(v: Seq<char>, ip: IpAddr) -> bool {
    parse_ip_spec(trim(v)) == Some(ip) || exists|j: int|
        0 <= j < split_on(trim(v), ',').len() && parse_ip_spec(
            trim(#[trigger] split_on(trim(v), ',')[j]),
        ) == Some(ip)
}

proof fn lemma_first_parsed_source(segs: Seq<Seq<char>>, ip: IpAddr)
    requires
        first_parsed(segs) == Some(ip),
    ensures
        exists|j: int| 0 <= j < segs.len() && parse_ip_spec(trim(#[trigger] segs[j])) == Some(ip),
    decreases segs.len(),
{
    if parse_ip_spec(trim(segs[0])) is None {
        lemma_first_parsed_source(segs.drop_first(), ip);
        let j = choose|j: int|
            0 <= j < segs.drop_first().len() && parse_ip_spec(trim(#[trigger] segs.drop_first()[j]))
                == Some(ip);
        assert(segs[j + 1] == segs.drop_first()[j]);
    }
}

proof fn lemma_last_parsed_source(segs: Seq<Seq<char>>, ip: IpAddr)
    requires
        last_parsed(segs) == Some(ip),
    ensures
        exists|j: int| 0 <= j < segs.len() && parse_ip_spec(trim(#[trigger] segs[j])) == Some(ip),
    decreases segs.len(),
{
    if parse_ip_spec(trim(segs.last())) is None {
        lemma_last_parsed_source(segs.drop_last(), ip);
        let j = choose|j: int|
            0 <= j < segs.drop_last().len() && parse_ip_spec(trim(#[trigger] segs.drop_last()[j]))
                == Some(ip);
        assert(segs[j] == segs.drop_last()[j]);
    } else {
        assert(parse_ip_spec(trim(segs[segs.len() - 1])) == Some(ip));
    }
}

/// A header's candidate address is written in its value.
pub proof fn lemma_candidate_occurs(v: Seq<char>, use_first: bool, ip: IpAddr)
    requires
        chain_candidate(v, use_first) == Some(ip),
    ensures
        occurs_in(v, ip),
{
    if trim(v).contains(',') {
        if use_first {
            lemma_first_parsed_source(split_on(trim(v), ','), ip);
        } else {
            lemma_last_parsed_source(split_on(trim(v), ','), ip);
        }
    }
}

proof fn lemma_scan_source(
    headers: Map<Seq<char>, Seq<char>>,
    keys: Seq<Seq<char>>,
    trust_private: bool,
    use_first: bool,
    ip: IpAddr,
)
    requires
        scan(headers, keys, trust_private, use_first) == Some(ip),
    ensures
        exists|i: int|
            0 <= i < keys.len() && #[trigger] header_pick(headers, keys[i], trust_private, use_first)
                == Some(ip),
    decreases keys.len(),
{
    if header_pick(headers, keys[0], trust_private, use_first) is None {
        lemma_scan_source(headers, keys.drop_first(), trust_private, use_first, ip);
        let i = choose|i: int|
            0 <= i < keys.drop_first().len() && #[trigger] header_pick(
                headers,
                keys.drop_first()[i],
                trust_private,
                use_first,
            ) == Some(ip);
        assert(keys[i + 1] == keys.drop_first()[i]);
    }
}

/// Extraction never makes an address up: what it returns is written in the
/// value of one of the configured headers (looked up in lower case) and
/// admitted by the trust policy, or it is what the fallback writes.
pub proof fn lemma_extract_source(
    e: IpExtractor,
    headers: Map<Seq<char>, Seq<char>>,
    fallback: Option<Seq<char>>,
    ip: IpAddr,
)
    requires
        e.extract_spec(headers, fallback) == Some(ip),
    ensures
        (exists|i: int|
            0 <= i < e.headers@.len() && headers.contains_key(lower_of(#[trigger] e.headers@[i]@))
                && admits(e.trust_private_ips, ip) && occurs_in(
                headers[lower_of(e.headers@[i]@)],
                ip,
            )) || (fallback is Some && parse_ip_spec(fallback->0) == Some(ip)),
{
    let keys = lowered(e.headers.deep_view());
    if scan(headers, keys, e.trust_private_ips, e.use_first_forwarded) is Some {
        lemma_scan_source(headers, keys, e.trust_private_ips, e.use_first_forwarded, ip);
        let i = choose|i: int|
            0 <= i < keys.len() && #[trigger] header_pick(
                headers,
                keys[i],
                e.trust_private_ips,
                e.use_first_forwarded,
            ) == Some(ip);
        assert(keys[i] == lower_of(e.headers@[i]@));
        lemma_candidate_occurs(headers[keys[i]], e.use_first_forwarded, ip);
    }
}

/// Extraction is a function of its inputs: the same configuration, headers and
/// fallback give the same result every time.
pub proof fn lemma_extract_deterministic(
    e1: IpExtractor,
    e2: IpExtractor,
    headers: Map<Seq<char>, Seq<char>>,
    fallback: Option<Seq<char>>,
)
    requires
        e1.headers.deep_view() == e2.headers.deep_view(),
        e1.trust_private_ips == e2.trust_private_ips,
        e1.use_first_forwarded == e2.use_first_forwarded,
    ensures
        e1.extract_spec(headers, fallback) == e2.extract_spec(headers, fallback),
{
}

} // verus!
