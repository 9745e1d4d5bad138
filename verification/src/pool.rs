//! Per-host transport-client pooling.
//!
//! The downloader owns one default client and a table of per-host clients,
//! created lazily on first use and never evicted. The table's one correctness
//! property is retention: however many clients are transiently constructed in
//! a race, at most one client is ever retained per host. `get_or_insert`
//! realizes the second half of the double-check pattern: the caller builds a
//! fresh client outside any lock, then under exclusive access the table
//! re-checks for the host and discards the fresh client if another caller won
//! the race.

use vstd::prelude::*;

use crate::errors::DownloadError;

verus! {

/// `reqwest::Client` is the transport-client handle the pool manages. A
/// client is immutable once built and cheap to clone; a clone shares the
/// underlying connection pool.
#[verifier::external_type_specification]
#[verifier::external_body]
pub struct ExClient(reqwest::Client);

/// Relies on `reqwest::Client::clone`: a clone is a handle to the same
/// client, sharing its connection pool rather than copying it.
#[verifier::external_body]
pub(crate) fn clone_client(c: &reqwest::Client) -> (r: reqwest::Client)
    ensures
        r == *c,
{
    c.clone()
}

/// The connection-pool parameters a transport client is built with. All
/// durations are in milliseconds.
pub struct PoolSettings {
    pub timeout_ms: u64,
    pub pool_max_idle_per_host: u64,
    pub pool_idle_timeout_ms: u64,
    pub tcp_keepalive_ms: u64,
    pub connect_timeout_ms: u64,
}

/// The request timeout used when none is configured.
pub fn default_timeout_ms() -> (r: u64)
    ensures
        r == 30_000,
{
    30_000
}

/// Settings for the default, non-host-scoped client: a larger idle-connection
/// ceiling and longer idle, keep-alive and connect windows, for the common
/// single-host or low-cardinality case.
pub fn default_client_settings(timeout_ms: u64) -> (s: PoolSettings)
    ensures
        s.timeout_ms == timeout_ms,
        s.pool_max_idle_per_host == 200,
        s.pool_idle_timeout_ms == 120_000,
        s.tcp_keepalive_ms == 60_000,
        s.connect_timeout_ms == 10_000,
{
    PoolSettings {
        timeout_ms,
        pool_max_idle_per_host: 200,
        pool_idle_timeout_ms: 120_000,
        tcp_keepalive_ms: 60_000,
        connect_timeout_ms: 10_000,
    }
}

/// Settings for a host-scoped client: a smaller pool and shorter windows, to
/// distribute connections across many destination hosts.
pub fn host_client_settings(timeout_ms: u64) -> (s: PoolSettings)
    ensures
        s.timeout_ms == timeout_ms,
        s.pool_max_idle_per_host == 50,
        s.pool_idle_timeout_ms == 90_000,
        s.tcp_keepalive_ms == 30_000,
        s.connect_timeout_ms == 5_000,
{
    PoolSettings {
        timeout_ms,
        pool_max_idle_per_host: 50,
        pool_idle_timeout_ms: 90_000,
        tcp_keepalive_ms: 30_000,
        connect_timeout_ms: 5_000,
    }
}

/// Relies on `reqwest::Client::builder` and `ClientBuilder::build`: the
/// builder applies exactly the given timeout and pool parameters; `build`
/// fails only when the transport backend cannot be initialized.
#[verifier::external_body]
pub fn build_pooled_client(s: &PoolSettings) -> (r: Result<reqwest::Client, DownloadError>)
    ensures
        r matches Err(e) ==> e is Transport,
{
    reqwest::Client::builder()
        .timeout(std::time::Duration::from_millis(s.timeout_ms))
        .pool_max_idle_per_host(s.pool_max_idle_per_host as usize)
        .pool_idle_timeout(std::time::Duration::from_millis(s.pool_idle_timeout_ms))
        .tcp_keepalive(std::time::Duration::from_millis(s.tcp_keepalive_ms))
        .connect_timeout(std::time::Duration::from_millis(s.connect_timeout_ms))
        .build()
        .map_err(|e| DownloadError::Transport(format!("{e}")))
}

/// Whether `reqwest::Proxy::all` accepts a proxy URL string; acceptance
/// depends on the string alone.
pub uninterp spec fn proxy_url_accepted(s: Seq<char>) -> bool;

/// Relies on `reqwest::Proxy::all`, whose success depends on the proxy URL
/// string alone, and on `ClientBuilder::build` with that proxy and the given
/// request timeout.
#[verifier::external_body]
pub(crate) fn build_proxy_client(proxy_url: &String, timeout_ms: u64) -> (r: Result<
    reqwest::Client,
    DownloadError,
>)
    ensures
        r is Ok ==> proxy_url_accepted(proxy_url@),
        r matches Err(e) ==> e is Transport,
{
    let proxy = match reqwest::Proxy::all(proxy_url.as_str()) {
        Ok(p) => p,
        Err(e) => {
            return Err(DownloadError::Transport(format!("{e}")));
        },
    };
    reqwest::Client::builder()
        .timeout(std::time::Duration::from_millis(timeout_ms))
        .proxy(proxy)
        .build()
        .map_err(|e| DownloadError::Transport(format!("{e}")))
}

/// Whether `url::Url::parse` accepts a URL string; acceptance depends on the
/// string alone.
pub uninterp spec fn url_parse_ok(s: Seq<char>) -> bool;

/// The host part of a URL string that parses, as `url::Url::host_str` reports
/// it, or the empty string where the URL carries no host. A function of the
/// string alone.
pub uninterp spec fn url_host_of(s: Seq<char>) -> Seq<char>;

/// Relies on `url::Url::parse` and `url::Url::host_str`: both depend on the
/// URL string alone.
#[verifier::external_body]
pub(crate) fn parse_host(url: &String) -> (r: Option<String>)
    ensures
        r is Some <==> url_parse_ok(url@),
        r matches Some(h) ==> h@ == url_host_of(url@),
{
    match url::Url::parse(url.as_str()) {
        Ok(u) => Some(u.host_str().unwrap_or("").to_string()),
        Err(_) => None,
    }
}

/// The destination host a request is pooled under: the host of its URL, the
/// empty string where the parsed URL has no host, and a URL-parse error where
/// the URL string does not parse at all.
pub fn request_host(url: &String) -> (r: Result<String, DownloadError>)
    ensures
        r is Ok <==> url_parse_ok(url@),
        r matches Ok(h) ==> h@ == url_host_of(url@),
        r matches Err(e) ==> e is UrlParse,
{
    match parse_host(url) {
        Some(h) => Ok(h),
        None => Err(DownloadError::UrlParse(String::from_str("invalid request URL"))),
    }
}

/// The shared table of retained per-host clients. Well-formedness says the
/// retention invariant: no two entries carry the same host.
pub struct HostTable {
    entries: Vec<(String, reqwest::Client)>,
}

/// How many entries of a table's entry sequence carry the given host.
pub open spec fn spec_host_count(entries: Seq<(String, reqwest::Client)>, host: Seq<char>) -> nat
    decreases entries.len(),
{
    if entries.len() == 0 {
        0
    } else {
        (if entries[0].0@ == host {
            1nat
        } else {
            0nat
        }) + spec_host_count(entries.drop_first(), host)
    }
}

impl HostTable {
    /// The retained entries, in insertion order.
    pub closed spec fn spec_entries(self) -> Seq<(String, reqwest::Client)> {
        self.entries@
    }

    /// At most one client is retained per host: all entry hosts differ.
    pub open spec fn wf(self) -> bool {
        forall|i: int, j: int|
            0 <= i < j < self.spec_entries().len() ==> self.spec_entries()[i].0@
                != self.spec_entries()[j].0@
    }

    /// Whether some entry carries the given host.
    pub open spec fn spec_contains(self, host: Seq<char>) -> bool {
        exists|i: int| 0 <= i < self.spec_entries().len() && self.spec_entries()[i].0@ == host
    }

    /// An empty table, the state a downloader starts from.
    pub fn new() -> (r: HostTable)
        ensures
            r.spec_entries().len() == 0,
            r.wf(),
    {
        HostTable { entries: Vec::new() }
    }

    /// How many hosts have a retained client.
    pub fn len(&self) -> (r: usize)
        ensures
            r == self.spec_entries().len(),
    {
        self.entries.len()
    }

    /// The read-only first phase of the double-check pattern: a clone of the
    /// retained client for `host`, shared with the table, or nothing when the
    /// host has none yet.
    pub fn lookup(&self, host: &String) -> (r: Option<reqwest::Client>)
        ensures
            match r {
                Some(c) => exists|i: int|
                    0 <= i < self.spec_entries().len() && self.spec_entries()[i].0@ == host@
                        && self.spec_entries()[i].1 == c,
                None => !self.spec_contains(host@),
            },
    {
        let n = self.entries.len();
        let mut i: usize = 0;
        while i < n
            invariant
                n == self.spec_entries().len(),
                i <= n,
                forall|k: int| 0 <= k < i ==> self.spec_entries()[k].0@ != host@,
            decreases n - i,
        {
            let e = &self.entries[i];
            if e.0 == *host {
                return Some(clone_client(&e.1));
            }
            i = i + 1;
        }
        None
    }

    /// The exclusive second phase of the double-check pattern. If a client
    /// for `host` is already retained (another caller won the race), the
    /// table is left unchanged, that client is returned, and `fresh` is
    /// discarded; otherwise `fresh` becomes the retained client for `host`.
    /// The returned flag says whether `fresh` was retained.
    pub fn get_or_insert(&mut self, host: String, fresh: reqwest::Client) -> (r: (
        reqwest::Client,
        bool,
    ))
        requires
            old(self).wf(),
        ensures
            final(self).wf(),
            final(self).spec_contains(host@),
            r.1 == !old(self).spec_contains(host@),
            r.1 ==> final(self).spec_entries() == old(self).spec_entries().push((host, fresh))
                && r.0 == fresh,
            !r.1 ==> final(self).spec_entries() == old(self).spec_entries() && exists|i: int|
                0 <= i < old(self).spec_entries().len() && old(self).spec_entries()[i].0@ == host@
                    && old(self).spec_entries()[i].1 == r.0,
    {
        let n = self.entries.len();
        let mut i: usize = 0;
        while i < n
            invariant
                *self == *old(self),
                old(self).wf(),
                n == self.spec_entries().len(),
                i <= n,
                forall|k: int| 0 <= k < i ==> self.spec_entries()[k].0@ != host@,
            decreases n - i,
        {
            let e = &self.entries[i];
            if e.0 == host {
                return (clone_client(&e.1), false);
            }
            i = i + 1;
        }
        let retained = clone_client(&fresh);
        let ghost old_entries = self.spec_entries();
        proof {
            assert(!old(self).spec_contains(host@));
        }
        self.entries.push((host, fresh));
        proof {
            assert(self.spec_entries() == old_entries.push((host, fresh)));
            assert(self.spec_entries()[n as int].0@ == host@);
            assert forall|a: int, b: int|
                0 <= a < b < self.spec_entries().len() implies self.spec_entries()[a].0@
                != self.spec_entries()[b].0@ by {
                if b < n {
                    assert(self.spec_entries()[a] == old_entries[a]);
                    assert(self.spec_entries()[b] == old_entries[b]);
                } else {
                    assert(self.spec_entries()[a] == old_entries[a]);
                    assert(old_entries[a].0@ != host@);
                }
            }
        }
        (retained, true)
    }
}

/// Helper for the retention law: a host that no entry carries is counted
/// zero times.
proof fn lemma_host_count_zero(entries: Seq<(String, reqwest::Client)>, host: Seq<char>)
    requires
        forall|i: int| 0 <= i < entries.len() ==> entries[i].0@ != host,
    ensures
        spec_host_count(entries, host) == 0,
    decreases entries.len(),
{
    if entries.len() > 0 {
        lemma_host_count_zero(entries.drop_first(), host);
    }
}

/// Retention law: a well-formed table retains at most one client per host,
/// however many clients were transiently constructed while racing on that
/// host.
pub proof fn lemma_at_most_one_client_per_host(t: HostTable, host: Seq<char>)
    requires
        t.wf(),
    ensures
        spec_host_count(t.spec_entries(), host) <= 1,
{
    lemma_host_count_at_most_one_rec(t.spec_entries(), host);
}

/// Helper for the retention law, stated over the raw entry sequence.
proof fn lemma_host_count_at_most_one_rec(
    entries: Seq<(String, reqwest::Client)>,
    host: Seq<char>,
)
    requires
        forall|i: int, j: int| 0 <= i < j < entries.len() ==> entries[i].0@ != entries[j].0@,
    ensures
        spec_host_count(entries, host) <= 1,
    decreases entries.len(),
{
    if entries.len() > 0 {
        let rest = entries.drop_first();
        assert(forall|i: int| 0 <= i < rest.len() ==> rest[i] == entries[i + 1]);
        if entries[0].0@ == host {
            lemma_host_count_zero(rest, host);
        } else {
            lemma_host_count_at_most_one_rec(rest, host);
        }
    }
}

/// Retention law, exact form: once a well-formed table has an entry for a
/// host, it has exactly one.
pub proof fn lemma_exactly_one_client_per_host(t: HostTable, host: Seq<char>)
    requires
        t.wf(),
        t.spec_contains(host),
    ensures
        spec_host_count(t.spec_entries(), host) == 1,
{
    lemma_at_most_one_client_per_host(t, host);
    lemma_host_count_at_least_one(t.spec_entries(), host);
}

/// Helper: a host some entry carries is counted at least once.
proof fn lemma_host_count_at_least_one(entries: Seq<(String, reqwest::Client)>, host: Seq<char>)
    requires
        exists|i: int| 0 <= i < entries.len() && entries[i].0@ == host,
    ensures
        spec_host_count(entries, host) >= 1,
    decreases entries.len(),
{
    let i = choose|i: int| 0 <= i < entries.len() && entries[i].0@ == host;
    if entries[0].0@ != host {
        let rest = entries.drop_first();
        assert(rest[i - 1] == entries[i]);
        lemma_host_count_at_least_one(rest, host);
    }
}

} // verus!
