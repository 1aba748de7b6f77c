//! An in-memory NMX-C for tests: partitions with GPU UIDs, partition id
//! assignment, an optional budget of successful creates, and the settings for
//! proxying to an NMX-C gRPC simulator instead.

use vstd::prelude::*;
use crate::config::{NvLinkConfig, mtls_settings, nmxc_mtls_config_from_nvlink};
use crate::nmxc::{Endpoint, NmxcClientPool, NmxcError, TlsView, opt_tls, parsed_uri, unknown_status_for, uri_accepts};
use crate::seqs::{contains_u64, copy_u64s, find_first, lemma_find_first, lemma_find_first_is, lemma_find_first_none};

verus! {

/// A partition held by the simulator.
pub struct SimPartition {
    pub partition_id: u32,
    pub name: String,
    pub gpu_uids: Vec<u64>,
}

pub struct SimPartitionView {
    pub partition_id: u32,
    pub name: Seq<char>,
    pub gpu_uids: Seq<u64>,
}

impl View for SimPartition {
    type V = SimPartitionView;

    open spec fn view(&self) -> SimPartitionView {
        SimPartitionView { partition_id: self.partition_id, name: self.name@, gpu_uids: self.gpu_uids@ }
    }
}

impl SimPartition {
    pub fn duplicate(&self) -> (r: SimPartition)
        ensures
            r@ == self@,
    {
        SimPartition { partition_id: self.partition_id, name: self.name.clone(), gpu_uids: copy_u64s(&self.gpu_uids) }
    }

    /// The number of GPUs, as NMX-C reports it (a 32-bit count).
    pub fn num_gpus(&self) -> (n: u32)
        ensures
            n == self.gpu_uids@.len() as u32,
    {
        self.gpu_uids.len() as u32
    }
}

pub open spec fn views(ps: Seq<SimPartition>) -> Seq<SimPartitionView> {
    ps.map_values(|p: SimPartition| p@)
}

/// The partition with id `pid`.
pub open spec fn has_id(pid: u32) -> spec_fn(SimPartitionView) -> bool {
    |p: SimPartitionView| p.partition_id == pid
}

/// A partition whose id is not `pid`.
pub open spec fn other_id(pid: u32) -> spec_fn(SimPartitionView) -> bool {
    |p: SimPartitionView| p.partition_id != pid
}

/// A partition whose id is listed in `wanted`.
pub open spec fn listed_in(wanted: Seq<u32>) -> spec_fn(SimPartitionView) -> bool {
    |p: SimPartitionView| wanted.contains(p.partition_id)
}

/// A GPU UID not listed in `removes`.
pub open spec fn not_in(removes: Seq<u64>) -> spec_fn(u64) -> bool {
    |u: u64| !removes.contains(u)
}

/// The GPU UIDs named by a request's resource ids, in order; resource ids
/// that do not name a GPU by UID are left out.
pub open spec fn uids_of(ids: Seq<Option<u64>>) -> Seq<u64>
    decreases ids.len(),
{
    if ids.len() == 0 {
        Seq::empty()
    } else {
        let t = uids_of(ids.drop_last());
        match ids.last() {
            Some(u) => t.push(u),
            None => t,
        }
    }
}

/// `s` followed by each UID of `adds` that is not already there, in order.
pub open spec fn append_missing(s: Seq<u64>, adds: Seq<u64>) -> Seq<u64>
    decreases adds.len(),
{
    if adds.len() == 0 {
        s
    } else {
        let t = append_missing(s, adds.drop_last());
        if t.contains(adds.last()) {
            t
        } else {
            t.push(adds.last())
        }
    }
}

pub open spec fn with_uids(p: SimPartitionView, uids: Seq<u64>) -> SimPartitionView {
    SimPartitionView { partition_id: p.partition_id, name: p.name, gpu_uids: uids }
}

/// The GPU UIDs the presets put in their partition.
pub open spec fn default_uids() -> Seq<u64> {
    seq![
        0xdb488cb17978480u64,
        0xdb488cb17978481u64,
        0xdb488cb17978482u64,
        0xdb488cb17978483u64,
        0xeb488cb17978480u64,
        0xeb488cb17978481u64,
        0xeb488cb17978482u64,
        0xeb488cb17978483u64,
        0xfb488cb17978480u64,
        0xfb488cb17978481u64,
        0xfb488cb17978482u64,
        0xfb488cb17978483u64,
    ]
}

/// `url` with an "http://" scheme replaced by "https://"; other URLs unchanged.
pub open spec fn https_upgrade(url: Seq<char>) -> Seq<char> {
    if url.len() >= 7 && url.subrange(0, 7) == "http://"@ {
        "https://"@ + url.subrange(7, url.len() as int)
    } else {
        url
    }
}

pub fn upgrade_to_https(url: &str) -> (r: String)
    ensures
        r@ == https_upgrade(url@),
{
    let prefix = "http://";
    proof {
        reveal_strlit("http://");
    }
    let n = url.unicode_len();
    if n >= 7 {
        let head = url.substring_char(0, 7);
        if crate::text::text_equal(head, prefix) {
            let rest = url.substring_char(7, n);
            return String::from_str("https://").concat(rest);
        }
    }
    String::from_str(url)
}

proof fn lemma_append_missing_shape(s: Seq<u64>, adds: Seq<u64>)
    ensures
        append_missing(s, adds).len() >= s.len(),
        append_missing(s, adds).subrange(0, s.len() as int) == s,
        forall|k: int| s.len() <= k < append_missing(s, adds).len() ==> adds.contains(#[trigger] append_missing(s, adds)[k]),
        forall|x: u64| append_missing(s, adds).contains(x) <==> (s.contains(x) || adds.contains(x)),
        s.no_duplicates() ==> append_missing(s, adds).no_duplicates(),
    decreases adds.len(),
{
    if adds.len() == 0 {
        assert(s.subrange(0, s.len() as int) =~= s);
    } else {
        let a = adds.drop_last();
        let e = adds.last();
        let t = append_missing(s, a);
        lemma_append_missing_shape(s, a);
        assert(adds =~= a.push(e));
        assert forall|x: u64| adds.contains(x) <==> (a.contains(x) || x == e) by {
            crate::seqs::lemma_contains_push(a, e, x);
        }
        if !t.contains(e) {
            let r = t.push(e);
            assert(r.subrange(0, s.len() as int) =~= t.subrange(0, s.len() as int));
            assert forall|x: u64| r.contains(x) <==> (t.contains(x) || x == e) by {
                crate::seqs::lemma_contains_push(t, e, x);
            }
            assert forall|k: int| s.len() <= k < r.len() implies adds.contains(#[trigger] r[k]) by {
                if k < t.len() {
                    assert(r[k] == t[k]);
                    assert(a.contains(t[k]));
                } else {
                    assert(r[k] == e);
                    assert(adds[adds.len() - 1] == e);
                }
            }
            if s.no_duplicates() {
                assert forall|i: int, j: int| 0 <= i < r.len() && 0 <= j < r.len() && i != j implies r[i] != r[j] by {
                    if i < t.len() && j < t.len() {
                        assert(r[i] == t[i] && r[j] == t[j]);
                    } else if i < t.len() {
                        assert(r[i] == t[i]);
                        assert(t.contains(t[i]));
                    } else if j < t.len() {
                        assert(r[j] == t[j]);
                        assert(t.contains(t[j]));
                    }
                }
            }
        } else {
            assert forall|k: int| s.len() <= k < t.len() implies adds.contains(#[trigger] t[k]) by {
                assert(a.contains(t[k]));
            }
        }
    }
}

proof fn lemma_filter_all_kept(s: Seq<u64>, p: spec_fn(u64) -> bool)
    requires
        forall|i: int| 0 <= i < s.len() ==> p(#[trigger] s[i]),
    ensures
        s.filter(p) == s,
    decreases s.len(),
{
    reveal(Seq::filter);
    if s.len() > 0 {
        lemma_filter_all_kept(s.drop_last(), p);
        assert(s.drop_last().push(s.last()) =~= s);
    }
}

proof fn lemma_filter_none_kept(s: Seq<u64>, p: spec_fn(u64) -> bool)
    requires
        forall|i: int| 0 <= i < s.len() ==> !p(#[trigger] s[i]),
    ensures
        s.filter(p) == Seq::<u64>::empty(),
    decreases s.len(),
{
    reveal(Seq::filter);
    if s.len() > 0 {
        lemma_filter_none_kept(s.drop_last(), p);
    }
}

proof fn lemma_filter_contains(s: Seq<u64>, p: spec_fn(u64) -> bool, x: u64)
    ensures
        s.filter(p).contains(x) <==> (s.contains(x) && p(x)),
    decreases s.len(),
{
    reveal(Seq::filter);
    if s.len() > 0 {
        let t = s.drop_last();
        let e = s.last();
        lemma_filter_contains(t, p, x);
        assert(s =~= t.push(e));
        crate::seqs::lemma_contains_push(t, e, x);
        if p(e) {
            crate::seqs::lemma_contains_push(t.filter(p), e, x);
        }
    }
}

/// Law: adding GPUs to a partition keeps the GPUs it held, in their order,
/// and afterwards it holds exactly those and the added ones; a partition
/// that held no GPU twice still holds none twice.
pub proof fn lemma_add_gpus(s: Seq<u64>, adds: Seq<u64>)
    ensures
        append_missing(s, adds).subrange(0, s.len() as int) == s,
        forall|x: u64| append_missing(s, adds).contains(x) <==> (s.contains(x) || adds.contains(x)),
        s.no_duplicates() ==> append_missing(s, adds).no_duplicates(),
{
    lemma_append_missing_shape(s, adds);
}

/// Law: removing GPUs from a partition leaves exactly the GPUs it held that
/// were not removed.
pub proof fn lemma_remove_gpus(s: Seq<u64>, removes: Seq<u64>)
    ensures
        forall|x: u64| s.filter(not_in(removes)).contains(x) <==> (s.contains(x) && !removes.contains(x)),
{
    assert forall|x: u64| s.filter(not_in(removes)).contains(x) <==> (s.contains(x) && !removes.contains(x)) by {
        lemma_filter_contains(s, not_in(removes), x);
    }
}

/// Law: removing the GPUs that were just added leaves the partition as
/// removing them alone would have; so adding GPUs a partition does not hold
/// and removing them again gives the partition back.
pub proof fn lemma_remove_undoes_add(s: Seq<u64>, adds: Seq<u64>)
    ensures
        append_missing(s, adds).filter(not_in(adds)) == s.filter(not_in(adds)),
        (forall|i: int| 0 <= i < s.len() ==> !adds.contains(#[trigger] s[i])) ==> append_missing(s, adds).filter(not_in(adds)) == s,
{
    lemma_append_missing_shape(s, adds);
    let full = append_missing(s, adds);
    let d = full.subrange(s.len() as int, full.len() as int);
    assert(full =~= s + d);
    assert forall|i: int| 0 <= i < d.len() implies !not_in(adds)(#[trigger] d[i]) by {
        assert(d[i] == full[s.len() + i]);
    }
    lemma_filter_none_kept(d, not_in(adds));
    Seq::filter_distributes_over_add(s, d, not_in(adds));
    assert(full.filter(not_in(adds)) =~= s.filter(not_in(adds)));
    if forall|i: int| 0 <= i < s.len() ==> !adds.contains(#[trigger] s[i]) {
        lemma_filter_all_kept(s, not_in(adds));
    }
}

/// Law: after a delete, no partition has the deleted id, and every other
/// partition is kept in order.
pub proof fn lemma_delete_removes(ps: Seq<SimPartitionView>, pid: u32)
    ensures
        forall|i: int| 0 <= i < ps.filter(other_id(pid)).len() ==> (#[trigger] ps.filter(other_id(pid))[i]).partition_id != pid,
        forall|i: int| 0 <= i < ps.len() && ps[i].partition_id != pid ==> ps.filter(other_id(pid)).contains(#[trigger] ps[i]),
{
    broadcast use vstd::seq_lib::group_filter_ensures;
    assert forall|i: int| 0 <= i < ps.filter(other_id(pid)).len() implies (#[trigger] ps.filter(other_id(pid))[i]).partition_id != pid by {
        ps.lemma_filter_pred(other_id(pid), i);
    }
    assert forall|i: int| 0 <= i < ps.len() && ps[i].partition_id != pid implies ps.filter(other_id(pid)).contains(#[trigger] ps[i]) by {
        ps.lemma_filter_contains(other_id(pid), i);
    }
}

/// In-memory NMX-C with partition presets for tests. When it proxies to a
/// gRPC simulator, clients are made by its pool for its simulator endpoint.
pub struct NmxcSimClient {
    partitions: Vec<SimPartition>,
    next_partition_id: u32,
    fail_after_n_creates: Option<usize>,
    grpc_pool: Option<NmxcClientPool>,
    simulator_endpoint: Option<Endpoint>,
}

/// One create against the create budget `left` (`None`: unlimited): whether
/// it succeeds, and the budget after it.
pub open spec fn create_step(left: Option<usize>) -> (bool, Option<usize>) {
    match left {
        Some(n) => if n == 0 {
            (false, Some(0usize))
        } else {
            (true, Some((n - 1) as usize))
        },
        None => (true, None),
    }
}

/// The create budget after `k` creates, starting from `left`.
pub open spec fn budget_after(left: Option<usize>, k: nat) -> Option<usize>
    decreases k,
{
    if k == 0 {
        left
    } else {
        create_step(budget_after(left, (k - 1) as nat)).1
    }
}

/// Law: on a simulator made with a budget of `n` creates (and on every
/// client sharing its state, since no other call touches the budget), the
/// create that follows `k` earlier creates succeeds exactly when `k < n`;
/// the budget then left is `n - k`, and zero once it is spent.
pub proof fn lemma_create_budget(n: usize, k: nat)
    ensures
        budget_after(Some(n), k) == Some((if k < n { n - k } else { 0 }) as usize),
        create_step(budget_after(Some(n), k)).0 == (k < n),
    decreases k,
{
    if k > 0 {
        lemma_create_budget(n, (k - 1) as nat);
    }
}

/// `a` and `b` make clients the same way: same proxying, pool TLS settings and endpoint.
pub open spec fn same_link(a: &NmxcSimClient, b: &NmxcSimClient) -> bool {
    &&& a.proxied() == b.proxied()
    &&& a.pool_tls() == b.pool_tls()
    &&& a.pool_timeout() == b.pool_timeout()
    &&& a.endpoint_text() == b.endpoint_text()
    &&& a.endpoint_uri() == b.endpoint_uri()
}

impl NmxcSimClient {
    /// Plain gRPC simulator URL on port 9601.
    pub const SIMULATOR_URL: &'static str = "http://localhost:9601";

    /// Simulator URL when the NvLink settings carry client TLS material.
    pub const SIMULATOR_URL_MTLS: &'static str = "https://localhost:9601";

    /// The simulator's partitions, in the order they were added.
    pub closed spec fn partitions_spec(&self) -> Seq<SimPartitionView> {
        views(self.partitions@)
    }

    /// The id the next create without an id gets.
    pub closed spec fn next_id_spec(&self) -> u32 {
        self.next_partition_id
    }

    /// How many more creates succeed, when limited.
    pub closed spec fn creates_left(&self) -> Option<usize> {
        self.fail_after_n_creates
    }

    /// Whether clients are made by a gRPC pool for the simulator endpoint.
    pub closed spec fn proxied(&self) -> bool {
        self.grpc_pool is Some
    }

    /// The TLS settings of that pool.
    pub closed spec fn pool_tls(&self) -> Option<TlsView> {
        match self.grpc_pool {
            Some(p) => opt_tls(p.tls_spec()),
            None => None,
        }
    }

    /// The connect timeout of that pool.
    pub closed spec fn pool_timeout(&self) -> Option<crate::time::Duration> {
        match self.grpc_pool {
            Some(p) => Some(p.timeout_spec()),
            None => None,
        }
    }

    /// The text of the simulator endpoint, when one is set.
    pub closed spec fn endpoint_text(&self) -> Option<Seq<char>> {
        match self.simulator_endpoint {
            Some(e) => Some(e.text@),
            None => None,
        }
    }

    /// The URI of the simulator endpoint, when one is set.
    pub closed spec fn endpoint_uri(&self) -> Option<http::Uri> {
        match self.simulator_endpoint {
            Some(e) => Some(e.uri),
            None => None,
        }
    }

    /// The simulator endpoint.
    pub fn simulator_endpoint(&self) -> (r: &Option<Endpoint>)
        ensures
            match *r {
                Some(e) => self.endpoint_text() == Some(e.text@) && self.endpoint_uri() == Some(e.uri),
                None => self.endpoint_text() is None,
            },
    {
        &self.simulator_endpoint
    }

    /// Where a client made from this simulator talks to: the gRPC simulator,
    /// through the pool and endpoint given here, or, when this is `None`,
    /// the in-memory partitions it shares with this simulator.
    pub fn grpc_target(&self) -> (r: Option<(&NmxcClientPool, &Endpoint)>)
        ensures
            r is Some <==> self.proxied() && self.endpoint_text() is Some,
            r matches Some(t) ==> self.endpoint_text() == Some(t.1.text@) && self.endpoint_uri() == Some(t.1.uri) && opt_tls(t.0.tls_spec()) == self.pool_tls(),
    {
        match (&self.grpc_pool, &self.simulator_endpoint) {
            (Some(p), Some(e)) => Some((p, e)),
            _ => None,
        }
    }

    /// An empty in-memory simulator: no partitions, ids from 1, no create
    /// limit, no proxying.
    pub fn new() -> (c: NmxcSimClient)
        ensures
            c.partitions_spec() == Seq::<SimPartitionView>::empty(),
            c.next_id_spec() == 1,
            c.creates_left() is None,
            !c.proxied(),
            c.pool_tls() is None,
            c.endpoint_text() is None,
            c.endpoint_uri() is None,
    {
        let c = NmxcSimClient {
            partitions: Vec::new(),
            next_partition_id: 1,
            fail_after_n_creates: None,
            grpc_pool: None,
            simulator_endpoint: None,
        };
        assert(c.partitions_spec() =~= Seq::<SimPartitionView>::empty());
        c
    }

    /// Proxy to the simulator at `url` with a default pool; refused when `url`
    /// is not a URI.
    pub fn with_simulator_url(url: &str) -> (r: Result<NmxcSimClient, NmxcError>)
        ensures
            r is Ok <==> uri_accepts(url@),
            r matches Err(e) ==> e is InvalidEndpoint,
            r matches Ok(c) ==> c.partitions_spec() == Seq::<SimPartitionView>::empty() && c.next_id_spec() == 1
                && c.creates_left() is None && c.proxied() && c.pool_tls() is None && c.endpoint_text() == Some(url@) && c.endpoint_uri() == Some(parsed_uri(url@)),
            r matches Ok(c) ==> (c.pool_timeout() matches Some(t) && t@ == 30_000_000_000),
    {
        let pool = match NmxcClientPool::builder().build() {
            Ok(p) => p,
            Err(e) => {
                return Err(e);
            },
        };
        let endpoint = match Endpoint::new(url) {
            Ok(e) => e,
            Err(e) => {
                return Err(e);
            },
        };
        let mut c = NmxcSimClient::new();
        c.grpc_pool = Some(pool);
        c.simulator_endpoint = Some(endpoint);
        Ok(c)
    }

    /// Proxy to the simulator at its default URL.
    pub fn simulator() -> (r: Result<NmxcSimClient, NmxcError>)
        ensures
            r is Ok <==> uri_accepts("http://localhost:9601"@),
            r matches Ok(c) ==> c.partitions_spec() == Seq::<SimPartitionView>::empty() && c.proxied() && c.pool_tls()
                is None && c.endpoint_text() == Some("http://localhost:9601"@) && c.endpoint_uri() == Some(parsed_uri("http://localhost:9601"@)),
            r matches Ok(c) ==> (c.pool_timeout() matches Some(t) && t@ == 30_000_000_000),
    {
        NmxcSimClient::with_simulator_url(NmxcSimClient::SIMULATOR_URL)
    }

    /// Proxy with the given TLS settings to `url`.
    fn with_tls_simulator(url: &str, tls: crate::nmxc::NmxcTlsConfig) -> (r: Result<NmxcSimClient, NmxcError>)
        ensures
            r is Ok <==> uri_accepts(url@),
            r matches Ok(c) ==> c.partitions_spec() == Seq::<SimPartitionView>::empty() && c.next_id_spec() == 1
                && c.creates_left() is None && c.proxied() && c.pool_tls() == Some(tls@) && c.endpoint_text() == Some(url@) && c.endpoint_uri() == Some(parsed_uri(url@)),
            r matches Ok(c) ==> (c.pool_timeout() matches Some(t) && t@ == 30_000_000_000),
    {
        let pool = match NmxcClientPool::builder().tls(tls).build() {
            Ok(p) => p,
            Err(e) => {
                return Err(e);
            },
        };
        let endpoint = match Endpoint::new(url) {
            Ok(e) => e,
            Err(e) => {
                return Err(e);
            },
        };
        let mut c = NmxcSimClient::new();
        c.grpc_pool = Some(pool);
        c.simulator_endpoint = Some(endpoint);
        Ok(c)
    }

    /// Like `simulator`, but over HTTPS with the production TLS settings
    /// when the NvLink settings name a client certificate and key.
    pub fn simulator_for_nvlink_config(nvlink: &NvLinkConfig) -> (r: Result<NmxcSimClient, NmxcError>)
        ensures
            mtls_settings(nvlink) is Some ==> (r is Ok <==> uri_accepts("https://localhost:9601"@)),
            mtls_settings(nvlink) is Some ==> (r matches Ok(c) ==> c.proxied() && c.pool_tls() == mtls_settings(nvlink)
                && c.endpoint_text() == Some("https://localhost:9601"@) && c.endpoint_uri() == Some(parsed_uri("https://localhost:9601"@))),
            mtls_settings(nvlink) is None ==> (r is Ok <==> uri_accepts("http://localhost:9601"@)),
            mtls_settings(nvlink) is None ==> (r matches Ok(c) ==> c.proxied() && c.pool_tls() is None && c.endpoint_text() == Some("http://localhost:9601"@)
                && c.endpoint_uri() == Some(parsed_uri("http://localhost:9601"@))),
            r matches Ok(c) ==> c.partitions_spec() == Seq::<SimPartitionView>::empty(),
            r matches Ok(c) ==> (c.pool_timeout() matches Some(t) && t@ == 30_000_000_000),
    {
        match nmxc_mtls_config_from_nvlink(nvlink) {
            Some(tls) => NmxcSimClient::with_tls_simulator(NmxcSimClient::SIMULATOR_URL_MTLS, tls),
            None => NmxcSimClient::simulator(),
        }
    }

    /// Like `with_simulator_url`, but with mutual TLS when the NvLink
    /// settings name a client certificate and key; an "http://" URL is then
    /// upgraded to "https://".
    pub fn with_simulator_url_for_nvlink(url: &str, nvlink: &NvLinkConfig) -> (r: Result<NmxcSimClient, NmxcError>)
        ensures
            mtls_settings(nvlink) is Some ==> (r is Ok <==> uri_accepts(https_upgrade(url@))),
            mtls_settings(nvlink) is Some ==> (r matches Ok(c) ==> c.proxied() && c.pool_tls() == mtls_settings(nvlink)
                && c.endpoint_text() == Some(https_upgrade(url@)) && c.endpoint_uri() == Some(parsed_uri(https_upgrade(url@)))),
            mtls_settings(nvlink) is None ==> (r is Ok <==> uri_accepts(url@)),
            mtls_settings(nvlink) is None ==> (r matches Ok(c) ==> c.proxied() && c.pool_tls() is None && c.endpoint_text() == Some(url@)
                && c.endpoint_uri() == Some(parsed_uri(url@))),
            r matches Ok(c) ==> c.partitions_spec() == Seq::<SimPartitionView>::empty(),
            r matches Ok(c) ==> (c.pool_timeout() matches Some(t) && t@ == 30_000_000_000),
    {
        match nmxc_mtls_config_from_nvlink(nvlink) {
            Some(tls) => {
                let target = upgrade_to_https(url);
                NmxcSimClient::with_tls_simulator(target.as_str(), tls)
            },
            None => NmxcSimClient::with_simulator_url(url),
        }
    }

    /// An in-memory simulator in which the first `n` creates succeed and
    /// later ones fail.
    pub fn with_fail_after_n_creates(n: usize) -> (c: NmxcSimClient)
        ensures
            c.partitions_spec() == Seq::<SimPartitionView>::empty(),
            c.next_id_spec() == 1,
            c.creates_left() == Some(n),
            !c.proxied(),
            c.endpoint_text() is None,
            c.endpoint_uri() is None,
    {
        let mut c = NmxcSimClient::new();
        c.fail_after_n_creates = Some(n);
        c
    }

    /// The GPU UIDs of the preset partitions.
    pub fn default_gpu_uids() -> (r: Vec<u64>)
        ensures
            r@ == default_uids(),
    {
        let r: Vec<u64> = vec![
            0xdb488cb17978480,
            0xdb488cb17978481,
            0xdb488cb17978482,
            0xdb488cb17978483,
            0xeb488cb17978480,
            0xeb488cb17978481,
            0xeb488cb17978482,
            0xeb488cb17978483,
            0xfb488cb17978480,
            0xfb488cb17978481,
            0xfb488cb17978482,
            0xfb488cb17978483,
        ];
        assert(r@ =~= default_uids());
        r
    }

    fn push_partition(&mut self, partition_id: u32, name: String, gpu_uids: Vec<u64>)
        ensures
            final(self).partitions_spec() == old(self).partitions_spec().push(
                (SimPartitionView { partition_id, name: name@, gpu_uids: gpu_uids@ }),
            ),
            final(self).next_id_spec() == old(self).next_id_spec(),
            final(self).creates_left() == old(self).creates_left(),
            same_link(final(self), old(self)),
    {
        let ghost before = self.partitions@;
        self.partitions.push(SimPartition { partition_id, name, gpu_uids });
        assert(views(self.partitions@) =~= views(before).push(self.partitions@.last()@));
    }

    /// An in-memory simulator holding one partition that no database
    /// partition knows: id 12345, named "unknown-partition", with the preset GPUs.
    pub fn with_unknown_partition() -> (c: NmxcSimClient)
        ensures
            c.partitions_spec() == seq![(SimPartitionView { partition_id: 12345, name: "unknown-partition"@, gpu_uids: default_uids() })],
            c.next_id_spec() == 1,
            c.creates_left() is None,
            !c.proxied(),
    {
        let mut c = NmxcSimClient::new();
        c.push_partition(12345, String::from_str("unknown-partition"), NmxcSimClient::default_gpu_uids());
        assert(c.partitions_spec() =~= seq![(SimPartitionView { partition_id: 12345, name: "unknown-partition"@, gpu_uids: default_uids() })]);
        c
    }

    /// An in-memory simulator holding the NMX-C default partition: id 32766,
    /// named "default-partition", with the preset GPUs.
    pub fn with_default_partition() -> (c: NmxcSimClient)
        ensures
            c.partitions_spec() == seq![(SimPartitionView { partition_id: 32766, name: "default-partition"@, gpu_uids: default_uids() })],
            c.next_id_spec() == 1,
            c.creates_left() is None,
            !c.proxied(),
    {
        let mut c = NmxcSimClient::new();
        c.push_partition(32766, String::from_str("default-partition"), NmxcSimClient::default_gpu_uids());
        assert(c.partitions_spec() =~= seq![(SimPartitionView { partition_id: 32766, name: "default-partition"@, gpu_uids: default_uids() })]);
        c
    }

    /// The domain the simulator reports in its hello.
    pub fn hello_domain_uuid() -> (s: String)
        ensures
            s@ == "ffffffff-ffff-ffff-ffff-ffffffffffff"@,
    {
        String::from_str("ffffffff-ffff-ffff-ffff-ffffffffffff")
    }

    /// The number of partitions, as a 32-bit count.
    pub fn get_partition_count(&self) -> (n: u32)
        ensures
            n == self.partitions_spec().len() as u32,
    {
        self.partitions.len() as u32
    }

    /// Each partition's id and GPU count, in order.
    pub fn get_partition_id_list(&self) -> (r: Vec<(u32, u32)>)
        ensures
            r@.len() == self.partitions_spec().len(),
            forall|i: int| 0 <= i < r@.len() ==> (#[trigger] r@[i]).0 == self.partitions_spec()[i].partition_id && r@[i].1
                == self.partitions_spec()[i].gpu_uids.len() as u32,
    {
        let mut r: Vec<(u32, u32)> = Vec::new();
        let mut i: usize = 0;
        while i < self.partitions.len()
            invariant
                i <= self.partitions@.len(),
                r@.len() == i,
                forall|k: int| 0 <= k < i ==> (#[trigger] r@[k]).0 == self.partitions@[k].partition_id && r@[k].1
                    == self.partitions@[k].gpu_uids@.len() as u32,
            decreases self.partitions@.len() - i,
        {
            r.push((self.partitions[i].partition_id, self.partitions[i].num_gpus()));
            i = i + 1;
        }
        r
    }

    /// The partitions asked for: all of them when `wanted` is empty, else
    /// those whose id `wanted` lists, in the simulator's order.
    pub fn get_partition_info_list(&self, wanted: &Vec<u32>) -> (r: Vec<SimPartition>)
        ensures
            wanted@.len() == 0 ==> views(r@) == self.partitions_spec(),
            wanted@.len() > 0 ==> views(r@) == self.partitions_spec().filter(listed_in(wanted@)),
    {
        let ghost all = self.partitions_spec();
        let mut r: Vec<SimPartition> = Vec::new();
        let mut i: usize = 0;
        while i < self.partitions.len()
            invariant
                i <= self.partitions@.len(),
                all == views(self.partitions@),
                wanted@.len() == 0 ==> views(r@) == all.subrange(0, i as int),
                wanted@.len() > 0 ==> views(r@) == all.subrange(0, i as int).filter(listed_in(wanted@)),
            decreases self.partitions@.len() - i,
        {
            proof {
                assert(all.subrange(0, i as int + 1).drop_last() =~= all.subrange(0, i as int));
            }
            let pid = self.partitions[i].partition_id;
            let mut keep = wanted.len() == 0;
            let mut j: usize = 0;
            while j < wanted.len() && !keep
                invariant
                    j <= wanted@.len(),
                    keep ==> (wanted@.len() == 0 || wanted@.contains(pid)),
                    !keep ==> wanted@.len() > 0 && forall|k: int| 0 <= k < j ==> wanted@[k] != pid,
                decreases wanted@.len() - j,
            {
                if wanted[j] == pid {
                    keep = true;
                }
                j = j + 1;
            }
            proof {
                if wanted@.len() > 0 && !keep {
                    assert(!wanted@.contains(pid));
                }
                reveal(Seq::filter);
                let next = all.subrange(0, i as int + 1);
                assert(next.last() == all[i as int]);
                assert(all[i as int].partition_id == pid);
                assert(listed_in(wanted@)(all[i as int]) == wanted@.contains(pid));
            }
            if keep {
                let ghost before = r@;
                r.push(self.partitions[i].duplicate());
                assert(views(r@) =~= views(before).push(all[i as int]));
            }
            i = i + 1;
        }
        proof {
            assert(all.subrange(0, self.partitions@.len() as int) =~= all);
        }
        r
    }

    /// Position of the first partition with id `pid`.
    fn find_partition(&self, pid: u32) -> (r: Option<usize>)
        ensures
            r matches Some(i) ==> find_first(self.partitions_spec(), has_id(pid)) == Some(i as int),
            r is None ==> find_first(self.partitions_spec(), has_id(pid)) is None,
    {
        let ghost all = self.partitions_spec();
        let mut i: usize = 0;
        while i < self.partitions.len()
            invariant
                i <= self.partitions@.len(),
                all == views(self.partitions@),
                forall|j: int| 0 <= j < i ==> !has_id(pid)(#[trigger] all[j]),
            decreases self.partitions@.len() - i,
        {
            if self.partitions[i].partition_id == pid {
                proof {
                    lemma_find_first_is(all, has_id(pid), i as int);
                }
                return Some(i);
            }
            i = i + 1;
        }
        proof {
            lemma_find_first_none(all, has_id(pid));
        }
        None
    }

    /// The GPU UIDs a request's resource ids name, in order.
    pub fn uids_from_resource_ids(ids: &Vec<Option<u64>>) -> (r: Vec<u64>)
        ensures
            r@ == uids_of(ids@),
    {
        let mut uids: Vec<u64> = Vec::new();
        let mut i: usize = 0;
        while i < ids.len()
            invariant
                i <= ids@.len(),
                uids@ == uids_of(ids@.subrange(0, i as int)),
            decreases ids@.len() - i,
        {
            proof {
                assert(ids@.subrange(0, i as int + 1).drop_last() =~= ids@.subrange(0, i as int));
            }
            match ids[i] {
                Some(u) => uids.push(u),
                None => {},
            }
            i = i + 1;
        }
        proof {
            assert(ids@.subrange(0, ids@.len() as int) =~= ids@);
        }
        uids
    }

    /// Create a partition named `name` with the GPUs the resource ids name,
    /// under the requested id or else the next free one. Once the create
    /// budget is spent, creates fail and change nothing.
    pub fn create_partition(&mut self, partition_id: Option<u32>, name: String, resource_uids: &Vec<Option<u64>>) -> (r: Result<u32, NmxcError>)
        ensures
            old(self).creates_left() == Some(0usize) ==> (r matches Err(e) && e == NmxcError::Status(
                unknown_status_for("fail after n creates"@),
            ))
                && final(self).partitions_spec() == old(self).partitions_spec()
                && final(self).next_id_spec() == old(self).next_id_spec()
                && final(self).creates_left() == old(self).creates_left(),
            old(self).creates_left() != Some(0usize) ==> (r matches Ok(id)
                && id == (match partition_id {
                    Some(p) => p,
                    None => old(self).next_id_spec(),
                })
                && final(self).partitions_spec() == old(self).partitions_spec().push(
                    (SimPartitionView { partition_id: id, name: name@, gpu_uids: uids_of(resource_uids@) }),
                )
                && final(self).next_id_spec() == (if partition_id is None && old(self).next_id_spec() < u32::MAX {
                    (old(self).next_id_spec() + 1) as u32
                } else {
                    old(self).next_id_spec()
                })
                && final(self).creates_left() == (match old(self).creates_left() {
                    Some(n) => Some((n - 1) as usize),
                    None => None,
                })),
            r is Ok == create_step(old(self).creates_left()).0,
            final(self).creates_left() == create_step(old(self).creates_left()).1,
            same_link(final(self), old(self)),
    {
        match self.fail_after_n_creates {
            Some(n) => {
                if n == 0 {
                    return Err(NmxcError::invalid_response(String::from_str("fail after n creates")));
                }
                self.fail_after_n_creates = Some(n - 1);
            },
            None => {},
        }
        let uids = NmxcSimClient::uids_from_resource_ids(resource_uids);
        let id = match partition_id {
            Some(p) => p,
            None => {
                let id = self.next_partition_id;
                self.next_partition_id = self.next_partition_id.saturating_add(1);
                id
            },
        };
        self.push_partition(id, name, uids);
        Ok(id)
    }

    /// Delete every partition with the requested id (zero when none is
    /// given); answers that id.
    pub fn delete_partition(&mut self, partition_id: Option<u32>) -> (r: u32)
        ensures
            r == match partition_id {
                Some(p) => p,
                None => 0u32,
            },
            final(self).partitions_spec() == old(self).partitions_spec().filter(other_id(r)),
            final(self).next_id_spec() == old(self).next_id_spec(),
            final(self).creates_left() == old(self).creates_left(),
            same_link(final(self), old(self)),
    {
        let pid: u32 = match partition_id {
            Some(p) => p,
            None => 0,
        };
        let ghost all = self.partitions_spec();
        let mut kept: Vec<SimPartition> = Vec::new();
        let mut i: usize = 0;
        while i < self.partitions.len()
            invariant
                i <= self.partitions@.len(),
                all == views(self.partitions@),
                views(kept@) == all.subrange(0, i as int).filter(other_id(pid)),
            decreases self.partitions@.len() - i,
        {
            proof {
                assert(all.subrange(0, i as int + 1).drop_last() =~= all.subrange(0, i as int));
            }
            proof {
                reveal(Seq::filter);
                let next = all.subrange(0, i as int + 1);
                assert(next.last() == all[i as int]);
                assert(all[i as int].partition_id == self.partitions@[i as int].partition_id);
            }
            if self.partitions[i].partition_id != pid {
                let ghost before = kept@;
                kept.push(self.partitions[i].duplicate());
                assert(views(kept@) =~= views(before).push(all[i as int]));
            }
            i = i + 1;
        }
        proof {
            assert(all.subrange(0, self.partitions@.len() as int) =~= all);
        }
        self.partitions = kept;
        pid
    }

    /// Add GPUs to the partition with the requested id, skipping those it
    /// already has. Fails, changing nothing, when no id is given or no
    /// partition has it; answers the id.
    pub fn add_gpus_to_partition(&mut self, partition_id: Option<u32>, gpu_uids: &Vec<u64>) -> (r: Result<u32, NmxcError>)
        ensures
            match partition_id {
                None => (r matches Err(e) && e == NmxcError::Status(unknown_status_for("partition_id"@)))
                    && final(self).partitions_spec() == old(self).partitions_spec(),
                Some(pid) => match find_first(old(self).partitions_spec(), has_id(pid)) {
                    None => (r matches Err(e) && e == NmxcError::Status(unknown_status_for("partition not found"@)))
                        && final(self).partitions_spec() == old(self).partitions_spec(),
                    Some(i) => r matches Ok(x) && x == pid && final(self).partitions_spec() == old(self).partitions_spec().update(
                        i,
                        with_uids(
                            old(self).partitions_spec()[i],
                            append_missing(old(self).partitions_spec()[i].gpu_uids, gpu_uids@),
                        ),
                    ),
                },
            },
            final(self).next_id_spec() == old(self).next_id_spec(),
            final(self).creates_left() == old(self).creates_left(),
            same_link(final(self), old(self)),
    {
        let pid = match partition_id {
            Some(p) => p,
            None => {
                return Err(NmxcError::invalid_response(String::from_str("partition_id")));
            },
        };
        let i = match self.find_partition(pid) {
            Some(i) => i,
            None => {
                return Err(NmxcError::invalid_response(String::from_str("partition not found")));
            },
        };
        proof {
            lemma_find_first(self.partitions_spec(), has_id(pid));
        }
        let ghost start = self.partitions@[i as int].gpu_uids@;
        let mut uids = copy_u64s(&self.partitions[i].gpu_uids);
        let mut j: usize = 0;
        while j < gpu_uids.len()
            invariant
                j <= gpu_uids@.len(),
                uids@ == append_missing(start, gpu_uids@.subrange(0, j as int)),
            decreases gpu_uids@.len() - j,
        {
            proof {
                assert(gpu_uids@.subrange(0, j as int + 1).drop_last() =~= gpu_uids@.subrange(0, j as int));
            }
            let u = gpu_uids[j];
            if !contains_u64(&uids, u) {
                uids.push(u);
            }
            j = j + 1;
        }
        proof {
            assert(gpu_uids@.subrange(0, gpu_uids@.len() as int) =~= gpu_uids@);
        }
        let updated = SimPartition {
            partition_id: self.partitions[i].partition_id,
            name: self.partitions[i].name.clone(),
            gpu_uids: uids,
        };
        let ghost before = self.partitions@;
        self.partitions.set(i, updated);
        assert(views(self.partitions@) =~= views(before).update(i as int, self.partitions@[i as int]@));
        Ok(pid)
    }

    /// Remove the given GPUs from the partition with the requested id. Fails,
    /// changing nothing, when no id is given or no partition has it; answers
    /// the id.
    pub fn remove_gpus_from_partition(&mut self, partition_id: Option<u32>, gpu_uids: &Vec<u64>) -> (r: Result<u32, NmxcError>)
        ensures
            match partition_id {
                None => (r matches Err(e) && e == NmxcError::Status(unknown_status_for("partition_id"@)))
                    && final(self).partitions_spec() == old(self).partitions_spec(),
                Some(pid) => match find_first(old(self).partitions_spec(), has_id(pid)) {
                    None => (r matches Err(e) && e == NmxcError::Status(unknown_status_for("partition not found"@)))
                        && final(self).partitions_spec() == old(self).partitions_spec(),
                    Some(i) => r matches Ok(x) && x == pid && final(self).partitions_spec() == old(self).partitions_spec().update(
                        i,
                        with_uids(
                            old(self).partitions_spec()[i],
                            old(self).partitions_spec()[i].gpu_uids.filter(not_in(gpu_uids@)),
                        ),
                    ),
                },
            },
            final(self).next_id_spec() == old(self).next_id_spec(),
            final(self).creates_left() == old(self).creates_left(),
            same_link(final(self), old(self)),
    {
        let pid = match partition_id {
            Some(p) => p,
            None => {
                return Err(NmxcError::invalid_response(String::from_str("partition_id")));
            },
        };
        let i = match self.find_partition(pid) {
            Some(i) => i,
            None => {
                return Err(NmxcError::invalid_response(String::from_str("partition not found")));
            },
        };
        proof {
            lemma_find_first(self.partitions_spec(), has_id(pid));
        }
        let ghost start = self.partitions@[i as int].gpu_uids@;
        let mut uids: Vec<u64> = Vec::new();
        let mut j: usize = 0;
        while j < self.partitions[i].gpu_uids.len()
            invariant
                i < self.partitions@.len(),
                start == self.partitions@[i as int].gpu_uids@,
                j <= start.len(),
                uids@ == start.subrange(0, j as int).filter(not_in(gpu_uids@)),
            decreases start.len() - j,
        {
            proof {
                assert(start.subrange(0, j as int + 1).drop_last() =~= start.subrange(0, j as int));
            }
            let u = self.partitions[i].gpu_uids[j];
            proof {
                reveal(Seq::filter);
                let next = start.subrange(0, j as int + 1);
                assert(next.last() == u);
            }
            if !contains_u64(gpu_uids, u) {
                uids.push(u);
            }
            j = j + 1;
        }
        proof {
            assert(start.subrange(0, start.len() as int) =~= start);
        }
        let updated = SimPartition {
            partition_id: self.partitions[i].partition_id,
            name: self.partitions[i].name.clone(),
            gpu_uids: uids,
        };
        let ghost before = self.partitions@;
        self.partitions.set(i, updated);
        assert(views(self.partitions@) =~= views(before).update(i as int, self.partitions@[i as int]@));
        Ok(pid)
    }
}

impl Default for NmxcSimClient {
    fn default() -> (c: NmxcSimClient)
        ensures
            c.partitions_spec() == Seq::<SimPartitionView>::empty(),
            c.next_id_spec() == 1,
            c.creates_left() is None,
            !c.proxied(),
            c.endpoint_text() is None,
            c.endpoint_uri() is None,
    {
        NmxcSimClient::new()
    }
}

} // verus!
