//! One run of the partition monitor over all NvLink chassis: which hosts
//! belong to which chassis, which NMX-C endpoint serves a chassis, and which
//! database records belong to a chassis's domains.

use vstd::prelude::*;
use crate::keyed::{KeyedVec, KeyedView};
use crate::model::{ManagedHostSnapshot, ManagedHostView, MachineNvLinkInfo, MachineNvLinkInfoView, NvlPartition, NvlPartitionView};
use crate::seqs::{find_first, lemma_find_first_is, lemma_find_first_none};
use crate::text::{text_equal, trim, trim_text};

verus! {

/// Row of the chassis-to-endpoint table: a chassis serial and the NMX-C gRPC endpoint URL serving it.
#[derive(Debug)]
pub struct NvlinkNmxcEndpoint {
    pub chassis_serial: String,
    pub endpoint: String,
}

impl NvlinkNmxcEndpoint {
    pub fn duplicate(&self) -> (r: NvlinkNmxcEndpoint)
        ensures
            r.chassis_serial@ == self.chassis_serial@,
            r.endpoint@ == self.endpoint@,
    {
        NvlinkNmxcEndpoint { chassis_serial: self.chassis_serial.clone(), endpoint: self.endpoint.clone() }
    }
}

/// The chassis a host belongs to: its trimmed chassis serial, when it has a non-empty one.
pub open spec fn chassis_of(mh: ManagedHostView) -> Option<Seq<char>> {
    match mh.nvlink_info {
        Some(info) => {
            let t = trim_text(info.chassis_serial);
            if t.len() > 0 {
                Some(t)
            } else {
                None
            }
        },
        None => None,
    }
}

pub open spec fn group_named(serial: Seq<char>) -> spec_fn((Seq<char>, Seq<int>)) -> bool {
    |g: (Seq<char>, Seq<int>)| g.0 == serial
}

/// Add host index `i` to the group of `serial`, opening the group if there is none yet.
pub open spec fn add_to_group(groups: Seq<(Seq<char>, Seq<int>)>, serial: Seq<char>, i: int) -> Seq<(Seq<char>, Seq<int>)> {
    match find_first(groups, group_named(serial)) {
        Some(k) => groups.update(k, (serial, groups[k].1.push(i))),
        None => groups.push((serial, seq![i])),
    }
}

/// The hosts of `mhs` grouped by chassis: each chassis serial once, in order
/// of first appearance, with the positions of its hosts in order.
pub open spec fn group_by_chassis(mhs: Seq<ManagedHostView>) -> Seq<(Seq<char>, Seq<int>)>
    decreases mhs.len(),
{
    if mhs.len() == 0 {
        Seq::empty()
    } else {
        let g = group_by_chassis(mhs.drop_last());
        match chassis_of(mhs.last()) {
            Some(s) => add_to_group(g, s, mhs.len() - 1),
            None => g,
        }
    }
}

/// Law: grouping by chassis gives each chassis serial one group only; each
/// group lists positions of hosts of that chassis, in increasing order; and
/// every host with a chassis is listed in the group of its chassis.
pub proof fn lemma_one_group_per_chassis(mhs: Seq<ManagedHostView>)
    ensures
        forall|i: int, j: int|
            0 <= i < j < group_by_chassis(mhs).len() ==> (#[trigger] group_by_chassis(mhs)[i]).0 != (
            #[trigger] group_by_chassis(mhs)[j]).0,
        forall|k: int, m: int|
            0 <= k < group_by_chassis(mhs).len() && 0 <= m < group_by_chassis(mhs)[k].1.len() ==> {
                let h = #[trigger] group_by_chassis(mhs)[k].1[m];
                0 <= h < mhs.len() && chassis_of(mhs[h]) == Some(group_by_chassis(mhs)[k].0)
            },
        forall|k: int, m1: int, m2: int|
            0 <= k < group_by_chassis(mhs).len() && 0 <= m1 < m2 < group_by_chassis(mhs)[k].1.len() ==> #[trigger] group_by_chassis(
                mhs,
            )[k].1[m1] < #[trigger] group_by_chassis(mhs)[k].1[m2],
        forall|h: int|
            0 <= h < mhs.len() && (#[trigger] chassis_of(mhs[h])) is Some ==> exists|k: int|
                0 <= k < group_by_chassis(mhs).len() && group_by_chassis(mhs)[k].0 == chassis_of(mhs[h]).unwrap()
                    && (#[trigger] group_by_chassis(mhs)[k].1.contains(h)),
    decreases mhs.len(),
{
    if mhs.len() > 0 {
        let prev = mhs.drop_last();
        let gp = group_by_chassis(prev);
        let g = group_by_chassis(mhs);
        let n = mhs.len() - 1;
        lemma_one_group_per_chassis(prev);
        assert forall|x: int| 0 <= x < n implies prev[x] == mhs[x] by {}
        match chassis_of(mhs.last()) {
            None => {
                assert(g == gp);
                assert forall|h: int|
                    0 <= h < mhs.len() && (#[trigger] chassis_of(mhs[h])) is Some implies exists|k: int|
                        0 <= k < g.len() && g[k].0 == chassis_of(mhs[h]).unwrap() && (#[trigger] g[k].1.contains(h)) by {
                    assert(h < n);
                    assert(chassis_of(prev[h]) is Some);
                }
            },
            Some(sr) => {
                crate::seqs::lemma_find_first(gp, group_named(sr));
                match find_first(gp, group_named(sr)) {
                    Some(k0) => {
                        assert(g == gp.update(k0, (sr, gp[k0].1.push(n))));
                        assert forall|k: int, m: int| 0 <= k < g.len() && 0 <= m < g[k].1.len() implies {
                            let h = #[trigger] g[k].1[m];
                            0 <= h < mhs.len() && chassis_of(mhs[h]) == Some(g[k].0)
                        } by {
                            if k == k0 && m == gp[k0].1.len() {
                            } else if k == k0 {
                                assert(g[k].1[m] == gp[k].1[m]);
                            } else {
                                assert(g[k] == gp[k]);
                            }
                        }
                        assert forall|k: int, m1: int, m2: int|
                            0 <= k < g.len() && 0 <= m1 < m2 < g[k].1.len() implies #[trigger] g[k].1[m1] < #[trigger] g[k].1[m2] by {
                            if k == k0 {
                                assert(g[k].1[m1] == gp[k].1[m1]);
                                assert(0 <= gp[k].1[m1] < n);
                                if m2 < gp[k0].1.len() {
                                    assert(g[k].1[m2] == gp[k].1[m2]);
                                }
                            } else {
                                assert(g[k] == gp[k]);
                            }
                        }
                        assert forall|h: int|
                            0 <= h < mhs.len() && (#[trigger] chassis_of(mhs[h])) is Some implies exists|k: int|
                                0 <= k < g.len() && g[k].0 == chassis_of(mhs[h]).unwrap() && (#[trigger] g[k].1.contains(h)) by {
                            if h == n {
                                assert(g[k0].1[gp[k0].1.len() as int] == n);
                                assert(g[k0].1.contains(h));
                            } else {
                                assert(chassis_of(prev[h]) is Some);
                                let k = choose|k: int|
                                    0 <= k < gp.len() && gp[k].0 == chassis_of(prev[h]).unwrap() && #[trigger] gp[k].1.contains(h);
                                let m = choose|m: int| 0 <= m < gp[k].1.len() && gp[k].1[m] == h;
                                assert(g[k].1[m] == h);
                                assert(g[k].1.contains(h));
                            }
                        }
                    },
                    None => {
                        assert(g == gp.push((sr, seq![n])));
                        assert forall|i: int, j: int| 0 <= i < j < g.len() implies (#[trigger] g[i]).0 != (#[trigger] g[j]).0 by {
                            if j == gp.len() {
                                assert(!group_named(sr)(gp[i]));
                            } else {
                                assert(g[i] == gp[i] && g[j] == gp[j]);
                            }
                        }
                        assert forall|k: int, m: int| 0 <= k < g.len() && 0 <= m < g[k].1.len() implies {
                            let h = #[trigger] g[k].1[m];
                            0 <= h < mhs.len() && chassis_of(mhs[h]) == Some(g[k].0)
                        } by {
                            if k < gp.len() {
                                assert(g[k] == gp[k]);
                            }
                        }
                        assert forall|k: int, m1: int, m2: int|
                            0 <= k < g.len() && 0 <= m1 < m2 < g[k].1.len() implies #[trigger] g[k].1[m1] < #[trigger] g[k].1[m2] by {
                            if k < gp.len() {
                                assert(g[k] == gp[k]);
                            }
                        }
                        assert forall|h: int|
                            0 <= h < mhs.len() && (#[trigger] chassis_of(mhs[h])) is Some implies exists|k: int|
                                0 <= k < g.len() && g[k].0 == chassis_of(mhs[h]).unwrap() && (#[trigger] g[k].1.contains(h)) by {
                            if h == n {
                                assert(g[gp.len() as int].1[0] == n);
                                assert(g[gp.len() as int].1.contains(h));
                            } else {
                                assert(chassis_of(prev[h]) is Some);
                                let k = choose|k: int|
                                    0 <= k < gp.len() && gp[k].0 == chassis_of(prev[h]).unwrap() && #[trigger] gp[k].1.contains(h);
                                assert(g[k] == gp[k]);
                            }
                        }
                    },
                }
            },
        }
    }
}

/// The hosts of one chassis.
pub struct ChassisGroup {
    pub chassis_serial: String,
    /// Positions of the chassis's hosts in the host list.
    pub hosts: Vec<usize>,
}

pub open spec fn group_view(g: ChassisGroup) -> (Seq<char>, Seq<int>) {
    (g.chassis_serial@, g.hosts@.map_values(|i: usize| i as int))
}

pub open spec fn groups_view(gs: Seq<ChassisGroup>) -> Seq<(Seq<char>, Seq<int>)> {
    gs.map_values(|g: ChassisGroup| group_view(g))
}

/// Position of the group of `serial`, if any.
fn find_group(groups: &Vec<ChassisGroup>, serial: &str) -> (r: Option<usize>)
    ensures
        match r {
            Some(k) => k < groups@.len() && find_first(groups_view(groups@), group_named(serial@)) == Some(k as int),
            None => find_first(groups_view(groups@), group_named(serial@)) is None,
        },
{
    let ghost gv = groups_view(groups@);
    let mut k: usize = 0;
    while k < groups.len()
        invariant
            k <= groups@.len(),
            gv == groups_view(groups@),
            forall|j: int| 0 <= j < k ==> !(#[trigger] group_named(serial@)(gv[j])),
        decreases groups@.len() - k,
    {
        if text_equal(groups[k].chassis_serial.as_str(), serial) {
            proof {
                lemma_find_first_is(gv, group_named(serial@), k as int);
            }
            return Some(k);
        }
        k = k + 1;
    }
    proof {
        lemma_find_first_none(gv, group_named(serial@));
    }
    None
}

/// Group the hosts by chassis serial (see `group_by_chassis`).
pub fn group_hosts_by_chassis(mhs: &Vec<ManagedHostSnapshot>) -> (r: Vec<ChassisGroup>)
    ensures
        groups_view(r@) == group_by_chassis(mhs.deep_view()),
{
    let ghost dv = mhs.deep_view();
    let mut groups: Vec<ChassisGroup> = Vec::new();
    let mut i: usize = 0;
    assert(groups_view(groups@) =~= group_by_chassis(dv.take(0)));
    while i < mhs.len()
        invariant
            i <= mhs@.len(),
            dv == mhs.deep_view(),
            groups_view(groups@) == group_by_chassis(dv.take(i as int)),
        decreases mhs@.len() - i,
    {
        let ghost before = groups_view(groups@);
        proof {
            let t = dv.take(i + 1);
            assert(t.drop_last() =~= dv.take(i as int));
            assert(t.last() == mhs[i as int]@);
        }
        if let Some(info) = &mhs[i].host_snapshot.nvlink_info {
            let serial = trim(info.chassis_serial.as_str());
            assert(mhs[i as int]@.nvlink_info == Some(info@));
            if serial.as_str().unicode_len() > 0 {
                let found = find_group(&groups, serial.as_str());
                match found {
                    Some(k) => {
                        proof {
                            crate::seqs::lemma_find_first(before, group_named(serial@));
                            assert(before[k as int].0 == serial@);
                        }
                        let ghost old_groups = groups@;
                        let mut g = groups.remove(k);
                        g.hosts.push(i);
                        let ghost gv = group_view(g);
                        assert(g.hosts@.map_values(|x: usize| x as int) =~= before[k as int].1.push(i as int));
                        groups.insert(k, g);
                        assert(groups@ =~= old_groups.update(k as int, g));
                        assert(group_view(g) == (serial@, before[k as int].1.push(i as int)));
                        assert(groups_view(groups@) =~= before.update(k as int, (serial@, before[k as int].1.push(i as int))));
                    },
                    None => {
                        let mut hosts: Vec<usize> = Vec::new();
                        hosts.push(i);
                        let g = ChassisGroup { chassis_serial: serial, hosts };
                        assert(g.hosts@.map_values(|x: usize| x as int) =~= seq![i as int]);
                        groups.push(g);
                        assert(groups_view(groups@) =~= before.push((serial@, seq![i as int])));
                    },
                }
            }
        }
        i = i + 1;
    }
    assert(dv.take(i as int) =~= dv);
    groups
}

/// The endpoint a chassis is served by: that of the last row with its serial.
pub open spec fn endpoint_of(rows: Seq<(Seq<char>, Seq<char>)>, serial: Seq<char>) -> Option<Seq<char>>
    decreases rows.len(),
{
    if rows.len() == 0 {
        None
    } else if rows.last().0 == serial {
        Some(rows.last().1)
    } else {
        endpoint_of(rows.drop_last(), serial)
    }
}

pub open spec fn rows_view(rows: Seq<NvlinkNmxcEndpoint>) -> Seq<(Seq<char>, Seq<char>)> {
    rows.map_values(|r: NvlinkNmxcEndpoint| (r.chassis_serial@, r.endpoint@))
}

/// The NMX-C endpoint URL configured for chassis `serial`, if any.
pub fn endpoint_for_chassis(rows: &Vec<NvlinkNmxcEndpoint>, serial: &str) -> (r: Option<String>)
    ensures
        match r {
            Some(e) => endpoint_of(rows_view(rows@), serial@) == Some(e@),
            None => endpoint_of(rows_view(rows@), serial@) is None,
        },
{
    let ghost rv = rows_view(rows@);
    let mut i: usize = rows.len();
    assert(rv.take(i as int) =~= rv);
    while i > 0
        invariant
            i <= rows@.len(),
            rv == rows_view(rows@),
            endpoint_of(rv, serial@) == endpoint_of(rv.take(i as int), serial@),
        decreases i,
    {
        let ghost t = rv.take(i as int);
        assert(t.last() == (rows[i - 1].chassis_serial@, rows[i - 1].endpoint@));
        if text_equal(rows[i - 1].chassis_serial.as_str(), serial) {
            return Some(rows[i - 1].endpoint.clone());
        }
        assert(t.drop_last() =~= rv.take(i - 1));
        i = i - 1;
    }
    None
}

pub open spec fn host_domain_is(mh: ManagedHostView, d: u128) -> bool {
    match mh.nvlink_info {
        Some(info) => info.domain_uuid == d,
        None => false,
    }
}

/// The NvLink domains of the hosts at positions `hosts`.
pub open spec fn domains_of(mhs: Seq<ManagedHostView>, hosts: Seq<int>) -> Set<u128> {
    Set::new(|d: u128| exists|k: int| 0 <= k < hosts.len() && 0 <= hosts[k] < mhs.len() && host_domain_is(#[trigger] mhs[hosts[k]], d))
}

pub open spec fn filter_partitions(parts: Seq<NvlPartitionView>, domains: Set<u128>) -> Seq<NvlPartitionView>
    decreases parts.len(),
{
    if parts.len() == 0 {
        Seq::empty()
    } else {
        let rest = filter_partitions(parts.drop_last(), domains);
        if domains.contains(parts.last().domain_uuid) {
            rest.push(parts.last())
        } else {
            rest
        }
    }
}

/// Law: the partitions kept for the domains `domains` are exactly the
/// partitions of `parts` in one of those domains: each kept partition is one
/// of `parts` in such a domain, and each partition of `parts` in such a
/// domain is kept.
pub proof fn lemma_filter_partitions_keeps_exactly(parts: Seq<NvlPartitionView>, domains: Set<u128>)
    ensures
        forall|i: int| 0 <= i < filter_partitions(parts, domains).len() ==> domains.contains(
            (#[trigger] filter_partitions(parts, domains)[i]).domain_uuid,
        ) && parts.contains(filter_partitions(parts, domains)[i]),
        forall|j: int| 0 <= j < parts.len() && domains.contains((#[trigger] parts[j]).domain_uuid) ==> filter_partitions(
            parts,
            domains,
        ).contains(parts[j]),
    decreases parts.len(),
{
    if parts.len() > 0 {
        let rest = parts.drop_last();
        lemma_filter_partitions_keeps_exactly(rest, domains);
        let fr = filter_partitions(rest, domains);
        let f = filter_partitions(parts, domains);
        assert forall|i: int| 0 <= i < f.len() implies domains.contains((#[trigger] f[i]).domain_uuid) && parts.contains(f[i]) by {
            if i < fr.len() {
                assert(f[i] == fr[i]);
                let k = choose|k: int| 0 <= k < rest.len() && rest[k] == fr[i];
                assert(parts[k] == rest[k]);
            } else {
                assert(f[i] == parts.last());
                assert(parts[parts.len() - 1] == parts.last());
            }
        }
        assert forall|j: int| 0 <= j < parts.len() && domains.contains((#[trigger] parts[j]).domain_uuid) implies f.contains(parts[j]) by {
            if j < rest.len() {
                assert(rest[j] == parts[j]);
                assert(fr.contains(rest[j]));
                let k = choose|k: int| 0 <= k < fr.len() && fr[k] == rest[j];
                assert(f[k] == fr[k]);
            } else {
                assert(f[f.len() - 1] == parts[j]);
            }
        }
    }
}

/// Law: keeping the partitions of some domains is `Seq::filter` by
/// domain: the partitions of `parts` in those domains, each once, in order.
pub proof fn lemma_filter_partitions_is_filter(parts: Seq<NvlPartitionView>, domains: Set<u128>)
    ensures
        filter_partitions(parts, domains) == parts.filter(|p: NvlPartitionView| domains.contains(p.domain_uuid)),
    decreases parts.len(),
{
    reveal(Seq::filter);
    if parts.len() > 0 {
        lemma_filter_partitions_is_filter(parts.drop_last(), domains);
    }
}

/// Law: the database partitions a chassis run gets are exactly those in the
/// NvLink domain of one of its hosts.
pub proof fn lemma_partitions_in_domains_exactly(parts: Seq<NvlPartitionView>, mhs: Seq<ManagedHostView>, hosts: Seq<int>)
    ensures
        forall|i: int| 0 <= i < filter_partitions(parts, domains_of(mhs, hosts)).len() ==> {
            let p = #[trigger] filter_partitions(parts, domains_of(mhs, hosts))[i];
            &&& parts.contains(p)
            &&& exists|k: int| 0 <= k < hosts.len() && 0 <= hosts[k] < mhs.len() && (#[trigger] mhs[hosts[k]]).nvlink_info is Some && mhs[hosts[k]].nvlink_info.unwrap().domain_uuid == p.domain_uuid
        },
        forall|j: int, k: int|
            0 <= j < parts.len() && 0 <= k < hosts.len() && 0 <= hosts[k] < mhs.len() && (#[trigger] mhs[hosts[k]]).nvlink_info is Some && mhs[hosts[k]].nvlink_info.unwrap().domain_uuid == (#[trigger] parts[j]).domain_uuid ==> filter_partitions(
                parts,
                domains_of(mhs, hosts),
            ).contains(parts[j]),
{
    let ds = domains_of(mhs, hosts);
    lemma_filter_partitions_keeps_exactly(parts, ds);
    let f = filter_partitions(parts, ds);
    assert forall|i: int| 0 <= i < f.len() implies {
        let p = #[trigger] f[i];
        &&& parts.contains(p)
        &&& exists|k: int| 0 <= k < hosts.len() && 0 <= hosts[k] < mhs.len() && (#[trigger] mhs[hosts[k]]).nvlink_info is Some && mhs[hosts[k]].nvlink_info.unwrap().domain_uuid == p.domain_uuid
    } by {
        assert(ds.contains(f[i].domain_uuid));
    }
    assert forall|j: int, k: int|
        0 <= j < parts.len() && 0 <= k < hosts.len() && 0 <= hosts[k] < mhs.len() && (#[trigger] mhs[hosts[k]]).nvlink_info is Some && mhs[hosts[k]].nvlink_info.unwrap().domain_uuid == (#[trigger] parts[j]).domain_uuid implies f.contains(parts[j]) by {
        assert(host_domain_is(mhs[hosts[k]], parts[j].domain_uuid));
        assert(ds.contains(parts[j].domain_uuid));
    }
}

fn host_in_domain(mhs: &Vec<ManagedHostSnapshot>, hosts: &Vec<usize>, d: u128) -> (b: bool)
    requires
        forall|k: int| 0 <= k < hosts@.len() ==> #[trigger] hosts@[k] < mhs@.len(),
    ensures
        b == domains_of(mhs.deep_view(), hosts@.map_values(|i: usize| i as int)).contains(d),
{
    let ghost hv = hosts@.map_values(|i: usize| i as int);
    let ghost dv = mhs.deep_view();
    let mut k: usize = 0;
    while k < hosts.len()
        invariant
            k <= hosts@.len(),
            hv == hosts@.map_values(|i: usize| i as int),
            dv == mhs.deep_view(),
            forall|j: int| 0 <= j < hosts@.len() ==> #[trigger] hosts@[j] < mhs@.len(),
            forall|j: int| 0 <= j < k ==> !host_domain_is(#[trigger] dv[hv[j]], d),
        decreases hosts@.len() - k,
    {
        let h = hosts[k];
        assert(dv[hv[k as int]] == mhs[h as int]@);
        if let Some(info) = &mhs[h].host_snapshot.nvlink_info {
            if info.domain_uuid == d {
                assert(host_domain_is(dv[hv[k as int]], d));
                return true;
            }
        }
        k = k + 1;
    }
    assert forall|j: int| 0 <= j < hv.len() && 0 <= hv[j] < dv.len() implies !host_domain_is(#[trigger] dv[hv[j]], d) by {}
    false
}

/// The database partitions in the NvLink domains of the hosts at positions `hosts`.
pub fn partitions_in_domains(parts: &Vec<NvlPartition>, mhs: &Vec<ManagedHostSnapshot>, hosts: &Vec<usize>) -> (r: Vec<NvlPartition>)
    requires
        forall|k: int| 0 <= k < hosts@.len() ==> #[trigger] hosts@[k] < mhs@.len(),
    ensures
        r.deep_view() == filter_partitions(parts.deep_view(), domains_of(mhs.deep_view(), hosts@.map_values(|i: usize| i as int))),
{
    let ghost ds = domains_of(mhs.deep_view(), hosts@.map_values(|i: usize| i as int));
    let ghost pv = parts.deep_view();
    let mut r: Vec<NvlPartition> = Vec::new();
    let mut i: usize = 0;
    assert(r.deep_view() =~= filter_partitions(pv.take(0), ds));
    while i < parts.len()
        invariant
            i <= parts@.len(),
            pv == parts.deep_view(),
            ds == domains_of(mhs.deep_view(), hosts@.map_values(|i: usize| i as int)),
            forall|k: int| 0 <= k < hosts@.len() ==> #[trigger] hosts@[k] < mhs@.len(),
            r.deep_view() == filter_partitions(pv.take(i as int), ds),
        decreases parts@.len() - i,
    {
        let ghost before = r.deep_view();
        if host_in_domain(mhs, hosts, parts[i].domain_uuid) {
            r.push(parts[i].duplicate());
            assert(r.deep_view() =~= before.push(pv[i as int]));
        }
        proof {
            let t = pv.take(i + 1);
            assert(t.drop_last() =~= pv.take(i as int));
            assert(t.last() == pv[i as int]);
        }
        i = i + 1;
    }
    assert(pv.take(i as int) =~= pv);
    r
}

/// The machines of hosts at positions `hosts`.
pub open spec fn host_ids(mhs: Seq<ManagedHostView>, hosts: Seq<int>) -> Set<u128> {
    Set::new(|m: u128| exists|k: int| 0 <= k < hosts.len() && 0 <= hosts[k] < mhs.len() && (#[trigger] mhs[hosts[k]]).host_id == m)
}

pub open spec fn filter_info(
    keys: Seq<u128>,
    vals: Seq<Option<MachineNvLinkInfoView>>,
    ids: Set<u128>,
) -> KeyedView<u128, Option<MachineNvLinkInfoView>>
    decreases keys.len(),
{
    if keys.len() == 0 || vals.len() != keys.len() {
        KeyedView::empty()
    } else {
        let rest = filter_info(keys.drop_last(), vals.drop_last(), ids);
        if ids.contains(keys.last()) {
            rest.insert(keys.last(), vals.last())
        } else {
            rest
        }
    }
}

/// The hosts at positions `hosts`, in that order.
pub fn select_hosts(mhs: &Vec<ManagedHostSnapshot>, hosts: &Vec<usize>) -> (r: Vec<ManagedHostSnapshot>)
    requires
        forall|k: int| 0 <= k < hosts@.len() ==> #[trigger] hosts@[k] < mhs@.len(),
    ensures
        r.deep_view() == hosts@.map_values(|i: usize| mhs.deep_view()[i as int]),
{
    let ghost dv = mhs.deep_view();
    let mut r: Vec<ManagedHostSnapshot> = Vec::new();
    let mut k: usize = 0;
    while k < hosts.len()
        invariant
            k <= hosts@.len(),
            dv == mhs.deep_view(),
            forall|j: int| 0 <= j < hosts@.len() ==> #[trigger] hosts@[j] < mhs@.len(),
            r.deep_view() == hosts@.take(k as int).map_values(|i: usize| dv[i as int]),
        decreases hosts@.len() - k,
    {
        let ghost before = r.deep_view();
        r.push(mhs[hosts[k]].duplicate());
        assert(r.deep_view() =~= before.push(dv[hosts@[k as int] as int]));
        assert(hosts@.take(k + 1).map_values(|i: usize| dv[i as int]) =~= hosts@.take(k as int).map_values(|i: usize| dv[i as int]).push(dv[hosts@[k as int] as int]));
        k = k + 1;
    }
    assert(hosts@.take(k as int) =~= hosts@);
    r
}

fn is_host_of(mhs: &Vec<ManagedHostSnapshot>, hosts: &Vec<usize>, m: u128) -> (b: bool)
    requires
        forall|k: int| 0 <= k < hosts@.len() ==> #[trigger] hosts@[k] < mhs@.len(),
    ensures
        b == host_ids(mhs.deep_view(), hosts@.map_values(|i: usize| i as int)).contains(m),
{
    let ghost hv = hosts@.map_values(|i: usize| i as int);
    let ghost dv = mhs.deep_view();
    let mut k: usize = 0;
    while k < hosts.len()
        invariant
            k <= hosts@.len(),
            hv == hosts@.map_values(|i: usize| i as int),
            dv == mhs.deep_view(),
            forall|j: int| 0 <= j < hosts@.len() ==> #[trigger] hosts@[j] < mhs@.len(),
            forall|j: int| 0 <= j < k ==> (#[trigger] dv[hv[j]]).host_id != m,
        decreases hosts@.len() - k,
    {
        let h = hosts[k];
        assert(dv[hv[k as int]] == mhs[h as int]@);
        if mhs[h].host_snapshot.id == m {
            return true;
        }
        k = k + 1;
    }
    false
}

/// The NvLink facts of the machines of the hosts at positions `hosts`.
pub fn machine_info_for_hosts(
    info: &KeyedVec<u128, Option<MachineNvLinkInfo>>,
    mhs: &Vec<ManagedHostSnapshot>,
    hosts: &Vec<usize>,
) -> (r: KeyedVec<u128, Option<MachineNvLinkInfo>>)
    requires
        info.wf(),
        forall|k: int| 0 <= k < hosts@.len() ==> #[trigger] hosts@[k] < mhs@.len(),
    ensures
        r.wf(),
        r.view() == filter_info(info.view().keys, info.view().vals, host_ids(mhs.deep_view(), hosts@.map_values(|i: usize| i as int))),
{
    let ghost ids = host_ids(mhs.deep_view(), hosts@.map_values(|i: usize| i as int));
    let ghost keys = info.view().keys;
    let ghost vals = info.view().vals;
    let n = info.len();
    let mut r: KeyedVec<u128, Option<MachineNvLinkInfo>> = KeyedVec::new();
    let mut i: usize = 0;
    assert(keys.take(0) =~= Seq::<u128>::empty());
    while i < n
        invariant
            info.wf(),
            keys == info.view().keys,
            vals == info.view().vals,
            n == keys.len(),
            i <= n,
            ids == host_ids(mhs.deep_view(), hosts@.map_values(|i: usize| i as int)),
            forall|k: int| 0 <= k < hosts@.len() ==> #[trigger] hosts@[k] < mhs@.len(),
            r.wf(),
            r.view() == filter_info(keys.take(i as int), vals.take(i as int), ids),
        decreases n - i,
    {
        let m = info.key_at(i);
        if is_host_of(mhs, hosts, m) {
            let v = match info.value_at(i) {
                Some(x) => Some(x.duplicate()),
                None => None,
            };
            r.insert(m, v);
        }
        proof {
            assert(keys.take(i + 1).drop_last() =~= keys.take(i as int));
            assert(vals.take(i + 1).drop_last() =~= vals.take(i as int));
        }
        i = i + 1;
    }
    assert(keys.take(i as int) =~= keys);
    assert(vals.take(i as int) =~= vals);
    r
}

/// The interval until the next run: one second when the run changed something,
/// the configured interval otherwise (`None`).
pub fn shortened_interval(num_changes: usize) -> (r: Option<crate::time::Duration>)
    ensures
        num_changes > 0 ==> (r matches Some(d) && d@ == 1_000_000_000),
        num_changes == 0 ==> r is None,
{
    if num_changes > 0 {
        Some(crate::time::Duration::from_millis(1000))
    } else {
        None
    }
}

} // verus!
