//! Health probing of the AGNOS services: which services are probed and on
//! which ports, the host they are probed on, the addresses asked, what a
//! probe's outcome makes of a service's status, and how often the collector
//! probes.
use crate::metrics::{ServiceState, ServiceStatus};
use crate::text::{
    chars_of, contains_char, decimal, decimal_string, has_prefix_at, string_of, trim, trim_chars,
};
use vstd::prelude::*;
use vstd::string::*;

verus! {

/// The HTTP client of the `reqwest` crate.
#[verifier::external_type_specification]
#[verifier::external_body]
pub struct ExReqwestClient(reqwest::Client);

/// The error type of the `reqwest` crate.
#[verifier::external_type_specification]
#[verifier::external_body]
pub struct ExReqwestError(reqwest::Error);

/// Builds a `reqwest::Client` whose requests time out after `secs` seconds
/// (`Client::builder().timeout(..).build()`). Nothing is claimed of the
/// outcome: `build` reports a failure as an error rather than panicking, and
/// which configurations fail is left unstated.
#[verifier::external_body]
fn client_with_timeout(secs: u64) -> (r: Result<reqwest::Client, reqwest::Error>) {
    reqwest::Client::builder().timeout(std::time::Duration::from_secs(secs)).build()
}

/// `reqwest::Client::new()`: a client with the default configuration.
/// Nothing is claimed of it. In `reqwest`'s source it is `build()` followed by
/// `expect`, so it could panic only where building the default configuration
/// fails, and with the features this crate enables no such failure path is
/// left.
#[verifier::external_body]
fn default_client() -> (c: reqwest::Client) {
    reqwest::Client::new()
}

/// The AGNOS services that are probed, with their default ports.
pub open spec fn known_services_spec() -> Seq<(Seq<char>, u16)> {
    seq![("daimon"@, 8090u16), ("hoosh"@, 8088u16)]
}

/// The AGNOS services that are probed, with their default ports.
pub fn known_services() -> (v: Vec<(&'static str, u16)>)
    ensures
        v@.len() == known_services_spec().len(),
        forall|i: int|
            0 <= i < v@.len() ==> (#[trigger] v@[i]).0@ == known_services_spec()[i].0 && v@[i].1
                == known_services_spec()[i].1,
{
    let v = vec![("daimon", 8090u16), ("hoosh", 8088u16)];
    proof {
        assert(v@[0].0@ == "daimon"@);
        assert(v@[1].0@ == "hoosh"@);
    }
    v
}

/// Whether an already trimmed host is accepted: not empty, and without a
/// scheme, path, port or space (no `/`, ` ` or `:`).
pub open spec fn valid_host(h: Seq<char>) -> bool {
    h.len() > 0 && !h.contains('/') && !h.contains(' ') && !h.contains(':')
}

/// Probes the health endpoints of the AGNOS services on one host.
pub struct ServiceChecker {
    client: reqwest::Client,
    host: String,
    timeout_secs: Option<u64>,
}

/// The request timeout, in seconds, that a checker asks its client for.
pub const PROBE_TIMEOUT_SECS: u64 = 2;

impl ServiceChecker {
    /// The host the services are probed on.
    pub closed spec fn host_view(&self) -> Seq<char> {
        self.host@
    }

    /// The timeout, in seconds, that the client was built with; `None` where
    /// the client has the default configuration.
    pub closed spec fn timeout_view(&self) -> Option<u64> {
        self.timeout_secs
    }

    /// A checker for `host`, taken without surrounding whitespace; `None`
    /// when the trimmed host is empty or holds a `/`, a space or a `:`.
    /// Its client times out after two seconds, or has the default
    /// configuration where such a client cannot be built.
    pub fn new(host: &str) -> (r: Option<ServiceChecker>)
        ensures
            r is Some <==> valid_host(trim(host@)),
            r matches Some(c) ==> c.host_view() == trim(host@),
            r matches Some(c) ==> (c.timeout_view() == Some(PROBE_TIMEOUT_SECS)
                || c.timeout_view() is None),
    {
        let raw = chars_of(host);
        let h = trim_chars(raw.as_slice());
        if h.len() == 0 || contains_char(h.as_slice(), '/') || contains_char(h.as_slice(), ' ')
            || contains_char(h.as_slice(), ':') {
            return None;
        }
        let (client, timeout_secs) = match client_with_timeout(PROBE_TIMEOUT_SECS) {
            Ok(c) => (c, Some(PROBE_TIMEOUT_SECS)),
            Err(_) => (default_client(), None),
        };
        Some(ServiceChecker { client, host: string_of(h.as_slice()), timeout_secs })
    }

    /// The host the services are probed on.
    pub fn host(&self) -> (h: &str)
        ensures
            h@ == self.host_view(),
    {
        self.host.as_str()
    }

    /// The timeout, in seconds, that the client was built with; `None` where
    /// the client has the default configuration.
    pub fn timeout_secs(&self) -> (t: Option<u64>)
        ensures
            t == self.timeout_view(),
    {
        self.timeout_secs
    }

    /// The HTTP client the probes are sent with.
    pub closed spec fn client_view(&self) -> reqwest::Client {
        self.client
    }

    /// The HTTP client the probes are sent with.
    pub fn client(&self) -> (c: &reqwest::Client)
        ensures
            *c == self.client_view(),
    {
        &self.client
    }

    /// The health endpoint of the service on `port`.
    pub fn health_url(&self, port: u16) -> (u: String)
        ensures
            u@ == "http://"@ + self.host_view() + ":"@ + decimal(port as nat) + "/v1/health"@,
    {
        let mut u = String::from_str("http://");
        u.append(self.host.as_str());
        u.append(":");
        let p = decimal_string(port as u64);
        u.append(p.as_str());
        u.append("/v1/health");
        u
    }

    /// The endpoint of daimon that lists the running agents.
    pub fn agents_url(&self) -> (u: String)
        ensures
            u@ == "http://"@ + self.host_view() + ":8090/v1/agents"@,
    {
        let mut u = String::from_str("http://");
        u.append(self.host.as_str());
        u.append(":8090/v1/agents");
        u
    }
}

/// What a health probe of one service found.
#[derive(Debug, Clone, Copy, PartialEq, Eq)]
pub enum ProbeOutcome {
    /// The endpoint answered with a success status. The fields are what
    /// its JSON body gave as `uptime_secs` and `pid` (`None` where the body
    /// was not JSON or lacked an unsigned number there).
    Healthy { uptime_secs: Option<u64>, pid: Option<u64> },
    /// The endpoint answered with another status.
    Unhealthy,
    /// The request failed.
    Unreachable,
}

/// The low 32 bits of a reported process id, as a cast to `u32` keeps them.
pub open spec fn pid_bits(v: u64) -> u32 {
    (v % 0x1_0000_0000) as u32
}

/// The status a probe of service `name` on `port` gives it: running when
/// healthy, failed on another answer, stopped when unreachable; the port is
/// always recorded, uptime and pid only from a healthy answer.
pub open spec fn probed_status(name: Seq<char>, port: u16, outcome: ProbeOutcome) -> (
    Seq<char>,
    ServiceState,
    Option<u32>,
    Option<u64>,
    Option<u16>,
) {
    match outcome {
        ProbeOutcome::Healthy { uptime_secs, pid } => (
            name,
            ServiceState::Running,
            match pid {
                Some(v) => Some(pid_bits(v)),
                None => None,
            },
            uptime_secs,
            Some(port),
        ),
        ProbeOutcome::Unhealthy => (name, ServiceState::Failed, None, None, Some(port)),
        ProbeOutcome::Unreachable => (name, ServiceState::Stopped, None, None, Some(port)),
    }
}

/// The fields of a status, by view.
pub open spec fn status_view(s: ServiceStatus) -> (
    Seq<char>,
    ServiceState,
    Option<u32>,
    Option<u64>,
    Option<u16>,
) {
    (s.name@, s.state, s.pid, s.uptime_secs, s.port)
}

fn low_bits(v: u64) -> (r: u32)
    ensures
        r == pid_bits(v),
{
    let r = v as u32;
    assert(v as u32 == (v % 0x1_0000_0000) as u32) by (bit_vector);
    r
}

/// The status of service `name` on `port` after a probe.
pub fn status_from_probe(name: &str, port: u16, outcome: ProbeOutcome) -> (s: ServiceStatus)
    ensures
        status_view(s) == probed_status(name@, port, outcome),
{
    let n = string_of(chars_of(name).as_slice());
    match outcome {
        ProbeOutcome::Healthy { uptime_secs, pid } => {
            let pid = match pid {
                Some(v) => Some(low_bits(v)),
                None => None,
            };
            ServiceStatus {
                name: n,
                state: ServiceState::Running,
                pid,
                uptime_secs,
                port: Some(port),
            }
        },
        ProbeOutcome::Unhealthy => ServiceStatus {
            name: n,
            state: ServiceState::Failed,
            pid: None,
            uptime_secs: None,
            port: Some(port),
        },
        ProbeOutcome::Unreachable => ServiceStatus {
            name: n,
            state: ServiceState::Stopped,
            pid: None,
            uptime_secs: None,
            port: Some(port),
        },
    }
}

/// `s` with every leading copy of `p` removed (`str::trim_start_matches`).
pub open spec fn trim_start_all(s: Seq<char>, p: Seq<char>) -> Seq<char>
    decreases s.len(),
{
    if p.len() > 0 && p.len() <= s.len() && s.take(p.len() as int) == p {
        trim_start_all(s.skip(p.len() as int), p)
    } else {
        s
    }
}

/// The part of `s` before its first `:` (all of `s` when it has none).
pub open spec fn before_colon(s: Seq<char>) -> Seq<char> {
    if s.contains(':') {
        s.take(s.index_of_first(':').unwrap())
    } else {
        s
    }
}

/// The host the collector probes, read from the daimon API URL: the URL
/// without leading `http://` and then `https://` prefixes, up to its first
/// `:`.
pub open spec fn service_host_spec(api_url: Seq<char>) -> Seq<char> {
    before_colon(trim_start_all(trim_start_all(api_url, "http://"@), "https://"@))
}

/// The position after the leading copies of `p` in `s` from `start` on.
fn skip_prefixes(s: &Vec<char>, start: usize, p: &Vec<char>) -> (r: usize)
    requires
        start <= s@.len(),
    ensures
        start <= r <= s@.len(),
        s@.skip(r as int) == trim_start_all(s@.skip(start as int), p@),
    decreases s@.len() - start,
{
    if p.len() > 0 && has_prefix_at(s, start, p) {
        assert(s@.len() == s.len());
        let next = start + p.len();
        proof {
            let rest = s@.skip(start as int);
            assert(rest.take(p@.len() as int) =~= s@.subrange(start as int, start + p@.len()));
            assert(rest.skip(p@.len() as int) =~= s@.skip(next as int));
        }
        skip_prefixes(s, next, p)
    } else {
        proof {
            let rest = s@.skip(start as int);
            if p@.len() > 0 && p@.len() <= rest.len() {
                assert(rest.take(p@.len() as int) =~= s@.subrange(start as int, start + p@.len()));
            }
        }
        start
    }
}

/// The host the collector probes, read from the daimon API URL.
pub fn service_host_from_api_url(api_url: &str) -> (h: String)
    ensures
        h@ == service_host_spec(api_url@),
{
    let s = chars_of(api_url);
    let http = chars_of("http://");
    let https = chars_of("https://");
    let a = skip_prefixes(&s, 0, &http);
    assert(s@.skip(0) =~= s@);
    let b = skip_prefixes(&s, a, &https);
    let ghost t = s@.skip(b as int);
    assert(t == trim_start_all(trim_start_all(api_url@, "http://"@), "https://"@));
    let mut e: usize = b;
    while e < s.len() && s[e] != ':'
        invariant
            b <= e <= s@.len(),
            t == s@.skip(b as int),
            forall|k: int| b <= k < e ==> s@[k] != ':',
        decreases s@.len() - e,
    {
        e = e + 1;
    }
    let mut out: Vec<char> = Vec::new();
    let mut k: usize = b;
    while k < e
        invariant
            b <= k <= e <= s@.len(),
            out@ == s@.subrange(b as int, k as int),
        decreases e - k,
    {
        out.push(s[k]);
        k = k + 1;
        assert(out@ =~= s@.subrange(b as int, k as int));
    }
    proof {
        if e < s@.len() {
            assert(t[e - b] == ':');
            assert(t.contains(':'));
            let j = t.index_of_first(':');
            t.index_of_first_ensures(':');
            assert(j.unwrap() == e - b) by {
                if j.unwrap() < e - b {
                    assert(s@[b + j.unwrap()] == ':');
                }
            }
            assert(out@ =~= t.take(e - b));
        } else {
            assert forall|i: int| 0 <= i < t.len() implies t[i] != ':' by {
                assert(s@[b + i] != ':');
            }
            assert(!t.contains(':'));
            assert(out@ =~= t);
        }
    }
    string_of(out.as_slice())
}

/// How often the collector probes the services: on its first tick and on
/// every sixth tick after that.
pub struct ProbeSchedule {
    ticks: u64,
}

/// Whether the collector probes on its `n`-th tick (counting from 1).
pub open spec fn probe_due(n: int) -> bool {
    n % 6 == 1
}

impl ProbeSchedule {
    /// Ticks counted so far.
    pub closed spec fn ticks_view(&self) -> nat {
        self.ticks as nat
    }

    /// A schedule before its first tick.
    pub fn new() -> (s: ProbeSchedule)
        ensures
            s.ticks_view() == 0,
    {
        ProbeSchedule { ticks: 0 }
    }

    /// Ticks counted so far.
    pub fn ticks(&self) -> (n: u64)
        ensures
            n == self.ticks_view(),
    {
        self.ticks
    }

    /// Counts one tick and says whether the services are probed on it.
    pub fn tick(&mut self) -> (probe: bool)
        requires
            old(self).ticks_view() < u64::MAX,
        ensures
            final(self).ticks_view() == old(self).ticks_view() + 1,
            probe == probe_due(final(self).ticks_view() as int),
    {
        self.ticks = self.ticks + 1;
        self.ticks % 6 == 1
    }
}

/// The first tick probes, and of any six consecutive ticks exactly one
/// probes.
pub proof fn lemma_probe_every_sixth(n: int)
    requires
        n >= 1,
    ensures
        probe_due(1),
        probe_due(n) ==> probe_due(n + 6),
        probe_due(n) ==> forall|m: int| n < m < n + 6 ==> !#[trigger] probe_due(m),
{
}

} // verus!
