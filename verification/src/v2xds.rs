//! The discovery adapter: the endpoint-discovery view of registered hosts,
//! grouped by locality.

use vstd::prelude::*;
use crate::types::{host_views, Host, HostView};

verus! {

/// The type identifier of an endpoint assignment.
pub const EDS_TYPE_URL: &'static str = "type.googleapis.com/envoy.api.v2.ClusterLoadAssignment";

/// The key under which a load balancer looks for the metadata of an
/// endpoint.
pub const LB_FILTER: &'static str = "envoy.lb";

/// Who asks for endpoints. Nothing of it is read.
#[derive(Debug)]
pub struct Node {
    pub id: String,
    pub cluster: String,
}

/// `serde_json::Value`, any JSON value. It is carried, never read.
#[verifier::external_type_specification]
#[verifier::external_body]
pub struct ExJsonValue(serde_json::Value);

/// What a client reports of the response before, where it refused it.
/// Nothing of it is read.
#[derive(Debug)]
pub struct Status {
    pub code: i32,
    pub message: String,
    pub details: Vec<serde_json::Value>,
}

/// A request for the endpoints of the services named in `resource_names`.
/// Only the names are read.
#[derive(Debug)]
pub struct DiscoveryRequest {
    pub version_info: Option<String>,
    pub node: Node,
    pub resource_names: Vec<String>,
    pub type_url: Option<String>,
    pub response_nonce: Option<String>,
    pub error_detail: Option<Status>,
}

/// A region and a zone: the pair by which endpoints are grouped.
#[derive(Debug, PartialEq, Eq, Hash)]
pub struct Locality {
    pub region: String,
    pub zone: String,
}

/// What a `Locality` holds.
pub ghost struct LocalityView {
    pub region: Seq<char>,
    pub zone: Seq<char>,
}

impl View for Locality {
    type V = LocalityView;

    open spec fn view(&self) -> LocalityView {
        LocalityView { region: self.region@, zone: self.zone@ }
    }
}

/// An address and a port.
#[derive(Debug)]
pub struct SocketAddress {
    pub address: String,
    pub port_value: u16,
}

/// What a `SocketAddress` holds.
pub ghost struct SocketAddressView {
    pub address: Seq<char>,
    pub port_value: u16,
}

impl View for SocketAddress {
    type V = SocketAddressView;

    open spec fn view(&self) -> SocketAddressView {
        SocketAddressView { address: self.address@, port_value: self.port_value }
    }
}

/// The address of an endpoint.
#[derive(Debug)]
pub struct Address {
    pub socket_address: SocketAddress,
}

impl View for Address {
    type V = SocketAddressView;

    open spec fn view(&self) -> SocketAddressView {
        self.socket_address@
    }
}

/// Where an endpoint listens.
#[derive(Debug)]
pub struct Endpoint {
    pub address: Address,
}

impl View for Endpoint {
    type V = SocketAddressView;

    open spec fn view(&self) -> SocketAddressView {
        self.address@
    }
}

/// What a load balancer is told of an endpoint.
#[derive(Debug)]
pub struct LbFilterMetadata {
    pub canary: bool,
    pub revision: String,
}

/// What an `LbFilterMetadata` holds.
pub ghost struct LbFilterMetadataView {
    pub canary: bool,
    pub revision: Seq<char>,
}

impl View for LbFilterMetadata {
    type V = LbFilterMetadataView;

    open spec fn view(&self) -> LbFilterMetadataView {
        LbFilterMetadataView { canary: self.canary, revision: self.revision@ }
    }
}

/// The metadata of an endpoint, by the name of the filter that reads it.
/// In the metadata that `convert_host_to_le` makes no name occurs twice:
/// see `names_differ`.
#[derive(Debug)]
pub struct Metadata {
    pub filter_metadata: Vec<(String, LbFilterMetadata)>,
}

/// No name occurs twice in `metadata`.
pub open spec fn names_differ(metadata: Seq<(Seq<char>, LbFilterMetadataView)>) -> bool {
    forall|i: int, j: int|
        0 <= i < j < metadata.len() ==> (#[trigger] metadata[i]).0 != (#[trigger] metadata[j]).0
}

impl View for Metadata {
    type V = Seq<(Seq<char>, LbFilterMetadataView)>;

    open spec fn view(&self) -> Seq<(Seq<char>, LbFilterMetadataView)> {
        Seq::new(
            self.filter_metadata@.len(),
            |i: int| (self.filter_metadata@[i].0@, self.filter_metadata@[i].1@),
        )
    }
}

/// One endpoint of a locality.
#[derive(Debug)]
pub struct LbEndpoint {
    pub endpoint: Endpoint,
    pub metadata: Metadata,
    pub load_balancing_weight: Option<u8>,
}

/// What an `LbEndpoint` holds.
pub ghost struct LbEndpointView {
    pub endpoint: SocketAddressView,
    pub metadata: Seq<(Seq<char>, LbFilterMetadataView)>,
    pub load_balancing_weight: Option<u8>,
}

impl View for LbEndpoint {
    type V = LbEndpointView;

    open spec fn view(&self) -> LbEndpointView {
        LbEndpointView {
            endpoint: self.endpoint@,
            metadata: self.metadata@,
            load_balancing_weight: self.load_balancing_weight,
        }
    }
}

/// The views of a list of endpoints, in order.
pub open spec fn endpoint_views(endpoints: Seq<LbEndpoint>) -> Seq<LbEndpointView> {
    Seq::new(endpoints.len(), |i: int| endpoints[i]@)
}

/// The endpoints of one locality.
#[derive(Debug)]
pub struct LocalityLbEndpoints {
    pub locality: Locality,
    pub lb_endpoints: Vec<LbEndpoint>,
}

/// What a `LocalityLbEndpoints` holds.
pub ghost struct LocalityLbEndpointsView {
    pub locality: LocalityView,
    pub lb_endpoints: Seq<LbEndpointView>,
}

impl View for LocalityLbEndpoints {
    type V = LocalityLbEndpointsView;

    open spec fn view(&self) -> LocalityLbEndpointsView {
        LocalityLbEndpointsView {
            locality: self.locality@,
            lb_endpoints: endpoint_views(self.lb_endpoints@),
        }
    }
}

/// The views of a list of locality groups, in order.
pub open spec fn group_views(groups: Seq<LocalityLbEndpoints>) -> Seq<LocalityLbEndpointsView> {
    Seq::new(groups.len(), |i: int| groups[i]@)
}

/// The locality that a host belongs to: its region, and its availability
/// zone as the zone.
pub open spec fn locality_of(h: HostView) -> LocalityView {
    LocalityView { region: h.tags.region, zone: h.tags.az }
}

/// The endpoint entry of a host: its address and port, its `canary` flag
/// and its revision under the load balancer's key, and its weight where
/// it has one.
pub open spec fn endpoint_of(h: HostView) -> LbEndpointView {
    LbEndpointView {
        endpoint: SocketAddressView { address: h.ip_address, port_value: h.port },
        metadata: seq![
            (LB_FILTER@, LbFilterMetadataView { canary: h.tags.canary, revision: h.revision }),
        ],
        load_balancing_weight: h.tags.load_balancing_weight,
    }
}

/// The metadata of the endpoint entry of a host holds one name.
pub proof fn lemma_endpoint_names_differ(h: HostView)
    ensures
        names_differ(endpoint_of(h).metadata),
{
}

/// The endpoint entries of the hosts of `hosts` that belong to the
/// locality `l`, in the order of `hosts`.
pub open spec fn endpoints_in(hosts: Seq<HostView>, l: LocalityView) -> Seq<LbEndpointView> {
    hosts.filter(|h: HostView| locality_of(h) == l).map_values(|h: HostView| endpoint_of(h))
}

/// The host at `a` is the first host of `hosts` in the locality `l`.
pub open spec fn first_in(hosts: Seq<HostView>, l: LocalityView, a: int) -> bool {
    &&& 0 <= a < hosts.len()
    &&& locality_of(hosts[a]) == l
    &&& forall|b: int| 0 <= b < a ==> locality_of(#[trigger] hosts[b]) != l
}

/// Where the first host of `hosts` in the locality `l` stands.
pub open spec fn first_host(hosts: Seq<HostView>, l: LocalityView) -> int {
    choose|a: int| first_in(hosts, l, a)
}

/// One of `groups` is the group of the locality `l`.
pub open spec fn has_group(groups: Seq<LocalityLbEndpointsView>, l: LocalityView) -> bool {
    exists|i: int| 0 <= i < groups.len() && (#[trigger] groups[i]).locality == l
}

/// `groups` is the grouping of `hosts` by locality: one group for each
/// locality that some host belongs to and no other, each locality once;
/// in each group the entries of the hosts of that locality, in the order
/// of `hosts`; the groups in the order in which their localities first
/// occur in `hosts`.
pub open spec fn is_grouping(groups: Seq<LocalityLbEndpointsView>, hosts: Seq<HostView>) -> bool {
    &&& forall|i: int|
        0 <= i < groups.len() ==> (#[trigger] groups[i]).lb_endpoints == endpoints_in(
            hosts,
            groups[i].locality,
        ) && groups[i].lb_endpoints.len() > 0
    &&& forall|i: int, j: int|
        0 <= i < j < groups.len() ==> (#[trigger] groups[i]).locality != (
        #[trigger] groups[j]).locality
    &&& forall|k: int| 0 <= k < hosts.len() ==> has_group(groups, locality_of(#[trigger] hosts[k]))
    &&& forall|i: int, j: int|
        0 <= i < j < groups.len() ==> first_host(hosts, (#[trigger] groups[i]).locality)
            < first_host(hosts, (#[trigger] groups[j]).locality)
}

/// The endpoint entry of a host.
pub fn convert_host_to_le(h: Host) -> (le: LbEndpoint)
    ensures
        le@ == endpoint_of(h@),
        names_differ(le@.metadata),
{
    let mut filter_metadata: Vec<(String, LbFilterMetadata)> = Vec::new();
    filter_metadata.push(
        (LB_FILTER.to_owned(), LbFilterMetadata { canary: h.tags.canary, revision: h.revision }),
    );
    let le = LbEndpoint {
        load_balancing_weight: h.tags.load_balancing_weight,
        metadata: Metadata { filter_metadata },
        endpoint: Endpoint {
            address: Address {
                socket_address: SocketAddress { address: h.ip_address, port_value: h.port },
            },
        },
    };
    assert(le@.metadata =~= endpoint_of(h@).metadata);
    le
}

/// One more host adds its entry to the entries of its own locality, at
/// the end, and leaves those of every other locality as they are.
pub proof fn lemma_endpoints_in_push(hosts: Seq<HostView>, h: HostView, l: LocalityView)
    ensures
        endpoints_in(hosts.push(h), l) == if locality_of(h) == l {
            endpoints_in(hosts, l).push(endpoint_of(h))
        } else {
            endpoints_in(hosts, l)
        },
{
    reveal(Seq::filter);
    assert(hosts.push(h).drop_last() =~= hosts);
    let of_l = |x: HostView| locality_of(x) == l;
    if locality_of(h) == l {
        assert(hosts.push(h).filter(of_l) == hosts.filter(of_l).push(h));
        assert(endpoints_in(hosts.push(h), l) =~= endpoints_in(hosts, l).push(endpoint_of(h)));
    }
}

/// A locality that no host belongs to has no entries.
pub proof fn lemma_endpoints_in_none(hosts: Seq<HostView>, l: LocalityView)
    requires
        forall|k: int| 0 <= k < hosts.len() ==> locality_of(#[trigger] hosts[k]) != l,
    ensures
        endpoints_in(hosts, l) == Seq::<LbEndpointView>::empty(),
    decreases hosts.len(),
{
    if hosts.len() == 0 {
        reveal(Seq::filter);
        assert(endpoints_in(hosts, l) =~= Seq::<LbEndpointView>::empty());
    } else {
        let front = hosts.drop_last();
        assert forall|k: int| 0 <= k < front.len() implies locality_of(#[trigger] front[k])
            != l by {
            assert(front[k] == hosts[k]);
        }
        lemma_endpoints_in_none(front, l);
        assert(hosts =~= front.push(hosts.last()));
        lemma_endpoints_in_push(front, hosts.last(), l);
    }
}

/// A locality has at most one first host.
pub proof fn lemma_first_host(hosts: Seq<HostView>, l: LocalityView, a: int)
    requires
        first_in(hosts, l, a),
    ensures
        first_host(hosts, l) == a,
{
    let c = first_host(hosts, l);
    assert(first_in(hosts, l, c));
    if c < a {
        assert(locality_of(hosts[c]) != l);
    }
    if a < c {
        assert(locality_of(hosts[a]) != l);
    }
}

/// `groups` is the grouping of the first `k` hosts of `hosts`, and
/// `firsts` tells where the first host of each group stands.
spec fn grouped_so_far(
    groups: Seq<LocalityLbEndpointsView>,
    firsts: Seq<int>,
    hosts: Seq<HostView>,
    k: int,
) -> bool {
    &&& 0 <= k <= hosts.len()
    &&& firsts.len() == groups.len()
    &&& forall|i: int|
        0 <= i < groups.len() ==> (#[trigger] groups[i]).lb_endpoints == endpoints_in(
            hosts.take(k),
            groups[i].locality,
        ) && groups[i].lb_endpoints.len() > 0
    &&& forall|i: int, j: int|
        0 <= i < j < groups.len() ==> (#[trigger] groups[i]).locality != (
        #[trigger] groups[j]).locality
    &&& forall|x: int| 0 <= x < k ==> has_group(groups, locality_of(#[trigger] hosts[x]))
    &&& forall|i: int|
        0 <= i < groups.len() ==> first_in(hosts, (#[trigger] groups[i]).locality, firsts[i])
            && firsts[i] < k
    &&& forall|i: int, j: int|
        0 <= i < j < firsts.len() ==> #[trigger] firsts[i] < #[trigger] firsts[j]
}

/// The host at `k` joins the group at `i`, which is the group of its
/// locality.
#[verifier::spinoff_prover]
proof fn lemma_group_joined(
    before: Seq<LocalityLbEndpointsView>,
    after: Seq<LocalityLbEndpointsView>,
    firsts: Seq<int>,
    hosts: Seq<HostView>,
    k: int,
    i: int,
)
    requires
        grouped_so_far(before, firsts, hosts, k),
        k < hosts.len(),
        0 <= i < before.len(),
        before[i].locality == locality_of(hosts[k]),
        after == before.update(
            i,
            LocalityLbEndpointsView {
                locality: before[i].locality,
                lb_endpoints: before[i].lb_endpoints.push(endpoint_of(hosts[k])),
            },
        ),
    ensures
        grouped_so_far(after, firsts, hosts, k + 1),
{
    let seen = hosts.take(k);
    assert(hosts.take(k + 1) =~= seen.push(hosts[k]));
    assert forall|j: int| 0 <= j < after.len() implies (#[trigger] after[j]).lb_endpoints
        == endpoints_in(hosts.take(k + 1), after[j].locality) && after[j].lb_endpoints.len()
        > 0 by {
        lemma_endpoints_in_push(seen, hosts[k], after[j].locality);
        if j != i {
            assert(after[j] == before[j]);
            if j < i {
                assert(before[j].locality != before[i].locality);
            } else {
                assert(before[i].locality != before[j].locality);
            }
        }
    }
    assert forall|a: int, b: int| 0 <= a < b < after.len() implies (#[trigger] after[a]).locality
        != (#[trigger] after[b]).locality by {
        assert(after[a].locality == before[a].locality);
        assert(after[b].locality == before[b].locality);
    }
    assert forall|x: int| 0 <= x < k + 1 implies has_group(
        after,
        locality_of(#[trigger] hosts[x]),
    ) by {
        if x < k {
            let j = choose|j: int|
                0 <= j < before.len() && (#[trigger] before[j]).locality == locality_of(hosts[x]);
            assert(after[j].locality == before[j].locality);
        } else {
            assert(after[i].locality == locality_of(hosts[x]));
        }
    }
    assert forall|j: int| 0 <= j < after.len() implies first_in(
        hosts,
        (#[trigger] after[j]).locality,
        firsts[j],
    ) && firsts[j] < k + 1 by {
        assert(after[j].locality == before[j].locality);
    }
}

/// The host at `k`, whose locality has no group yet, opens a group.
#[verifier::spinoff_prover]
proof fn lemma_group_opened(
    before: Seq<LocalityLbEndpointsView>,
    firsts: Seq<int>,
    hosts: Seq<HostView>,
    k: int,
)
    requires
        grouped_so_far(before, firsts, hosts, k),
        k < hosts.len(),
        forall|i: int|
            0 <= i < before.len() ==> (#[trigger] before[i]).locality != locality_of(hosts[k]),
    ensures
        grouped_so_far(
            before.push(
                LocalityLbEndpointsView {
                    locality: locality_of(hosts[k]),
                    lb_endpoints: seq![endpoint_of(hosts[k])],
                },
            ),
            firsts.push(k),
            hosts,
            k + 1,
        ),
{
    let l = locality_of(hosts[k]);
    let seen = hosts.take(k);
    let group = LocalityLbEndpointsView { locality: l, lb_endpoints: seq![endpoint_of(hosts[k])] };
    let after = before.push(group);
    let marks = firsts.push(k);
    let n = before.len() as int;
    assert(hosts.take(k + 1) =~= seen.push(hosts[k]));
    assert forall|x: int| 0 <= x < k implies locality_of(#[trigger] hosts[x]) != l by {
        if locality_of(hosts[x]) == l {
            let j = choose|j: int|
                0 <= j < before.len() && (#[trigger] before[j]).locality == locality_of(hosts[x]);
            assert(before[j].locality != l);
        }
    }
    assert forall|x: int| 0 <= x < seen.len() implies locality_of(#[trigger] seen[x]) != l by {
        assert(seen[x] == hosts[x]);
    }
    lemma_endpoints_in_none(seen, l);
    lemma_endpoints_in_push(seen, hosts[k], l);
    assert(Seq::<LbEndpointView>::empty().push(endpoint_of(hosts[k])) =~= group.lb_endpoints);
    assert(first_in(hosts, l, k));
    assert forall|j: int| 0 <= j < after.len() implies (#[trigger] after[j]).lb_endpoints
        == endpoints_in(hosts.take(k + 1), after[j].locality) && after[j].lb_endpoints.len()
        > 0 by {
        lemma_endpoints_in_push(seen, hosts[k], after[j].locality);
        if j < n {
            assert(after[j] == before[j]);
        }
    }
    assert forall|a: int, b: int| 0 <= a < b < after.len() implies (#[trigger] after[a]).locality
        != (#[trigger] after[b]).locality by {
        assert(after[a] == before[a]);
        if b < n {
            assert(after[b] == before[b]);
        }
    }
    assert forall|x: int| 0 <= x < k + 1 implies has_group(
        after,
        locality_of(#[trigger] hosts[x]),
    ) by {
        if x < k {
            let j = choose|j: int|
                0 <= j < before.len() && (#[trigger] before[j]).locality == locality_of(hosts[x]);
            assert(after[j] == before[j]);
        } else {
            assert(after[n].locality == locality_of(hosts[x]));
        }
    }
    assert forall|j: int| 0 <= j < after.len() implies first_in(
        hosts,
        (#[trigger] after[j]).locality,
        marks[j],
    ) && marks[j] < k + 1 by {
        if j < n {
            assert(after[j] == before[j]);
            assert(marks[j] == firsts[j]);
        }
    }
    assert forall|a: int, b: int| 0 <= a < b < marks.len() implies #[trigger] marks[a]
        < #[trigger] marks[b] by {
        assert(0 <= a < n);
        assert(marks[a] == firsts[a]);
        let g = before[a];
        assert(first_in(hosts, g.locality, firsts[a]) && firsts[a] < k);
        if b < n {
            assert(marks[b] == firsts[b]);
        }
    }
}

/// Once every host is placed, the groups are the grouping of the hosts.
proof fn lemma_grouped(groups: Seq<LocalityLbEndpointsView>, firsts: Seq<int>, hosts: Seq<HostView>)
    requires
        grouped_so_far(groups, firsts, hosts, hosts.len() as int),
    ensures
        is_grouping(groups, hosts),
{
    assert(hosts.take(hosts.len() as int) =~= hosts);
    assert forall|i: int, j: int| 0 <= i < j < groups.len() implies first_host(
        hosts,
        (#[trigger] groups[i]).locality,
    ) < first_host(hosts, (#[trigger] groups[j]).locality) by {
        lemma_first_host(hosts, groups[i].locality, firsts[i]);
        lemma_first_host(hosts, groups[j].locality, firsts[j]);
    }
}

/// Where the group of the locality `(region, zone)` stands in `groups`, if
/// there is one.
fn find_group(groups: &Vec<LocalityLbEndpoints>, region: &str, zone: &str) -> (r: Option<usize>)
    ensures
        match r {
            Some(i) => i < groups@.len() && groups@[i as int]@.locality == (LocalityView {
                region: region@,
                zone: zone@,
            }),
            None => forall|i: int|
                0 <= i < groups@.len() ==> (#[trigger] groups@[i])@.locality != (LocalityView {
                    region: region@,
                    zone: zone@,
                }),
        },
{
    let mut i: usize = 0;
    while i < groups.len()
        invariant
            i <= groups@.len(),
            forall|j: int|
                0 <= j < i ==> (#[trigger] groups@[j])@.locality != (LocalityView {
                    region: region@,
                    zone: zone@,
                }),
        decreases groups@.len() - i,
    {
        if groups[i].locality.region.as_str().eq(region) && groups[i].locality.zone.as_str().eq(
            zone,
        ) {
            return Some(i);
        }
        i = i + 1;
    }
    None
}

/// Groups hosts by locality: one group for each pair of region and zone
/// that some host has, holding the endpoint entries of the hosts of that
/// pair in the order of `hosts`. The groups stand in the order in which
/// their localities first occur. No hosts give no groups; an empty region
/// or zone is a value like any other.
pub fn hosts_to_locality_lb_endpoints(hosts: Vec<Host>) -> (groups: Vec<LocalityLbEndpoints>)
    ensures
        is_grouping(group_views(groups@), host_views(hosts@)),
{
    let mut groups: Vec<LocalityLbEndpoints> = Vec::new();
    let ghost all = host_views(hosts@);
    let ghost mut firsts: Seq<int> = Seq::empty();
    for h in it: hosts
        invariant
            all == host_views(it.seq()),
            grouped_so_far(group_views(groups@), firsts, all, it.index()),
    {
        let ghost k = it.index();
        let ghost before = group_views(groups@);
        assert(all[k] == h@);
        let region = h.tags.region.clone();
        let zone = h.tags.az.clone();
        let le = convert_host_to_le(h);
        match find_group(&groups, region.as_str(), zone.as_str()) {
            Some(i) => {
                let mut group = groups.remove(i);
                let ghost shown = endpoint_views(group.lb_endpoints@);
                group.lb_endpoints.push(le);
                assert(endpoint_views(group.lb_endpoints@) =~= shown.push(le@));
                groups.insert(i, group);
                proof {
                    let after = before.update(
                        i as int,
                        LocalityLbEndpointsView {
                            locality: before[i as int].locality,
                            lb_endpoints: before[i as int].lb_endpoints.push(endpoint_of(all[k])),
                        },
                    );
                    assert(group_views(groups@) =~= after);
                    lemma_group_joined(before, after, firsts, all, k, i as int);
                }
            },
            None => {
                let mut lb_endpoints: Vec<LbEndpoint> = Vec::new();
                lb_endpoints.push(le);
                assert(endpoint_views(lb_endpoints@) =~= seq![le@]);
                groups.push(LocalityLbEndpoints { locality: Locality { region, zone }, lb_endpoints });
                proof {
                    assert(group_views(groups@) =~= before.push(
                        LocalityLbEndpointsView {
                            locality: locality_of(all[k]),
                            lb_endpoints: seq![endpoint_of(all[k])],
                        },
                    ));
                    lemma_group_opened(before, firsts, all, k);
                    firsts = firsts.push(k);
                }
            },
        }
    }
    proof {
        lemma_grouped(group_views(groups@), firsts, all);
    }
    groups
}

/// The endpoints of one service.
#[derive(Debug)]
pub struct ClusterLoadAssignment {
    pub cluster_name: String,
    pub endpoints: Vec<LocalityLbEndpoints>,
    pub type_url: String,
}

/// What a `ClusterLoadAssignment` holds.
pub ghost struct ClusterLoadAssignmentView {
    pub cluster_name: Seq<char>,
    pub endpoints: Seq<LocalityLbEndpointsView>,
    pub type_url: Seq<char>,
}

impl View for ClusterLoadAssignment {
    type V = ClusterLoadAssignmentView;

    open spec fn view(&self) -> ClusterLoadAssignmentView {
        ClusterLoadAssignmentView {
            cluster_name: self.cluster_name@,
            endpoints: group_views(self.endpoints@),
            type_url: self.type_url@,
        }
    }
}

/// The answer to a discovery request: one assignment for each service
/// asked for, under a version that identifies this answer.
#[derive(Debug)]
pub struct EdsDiscoveryResponse {
    pub version_info: String,
    pub resources: Vec<ClusterLoadAssignment>,
}

/// What an `EdsDiscoveryResponse` holds.
pub ghost struct EdsDiscoveryResponseView {
    pub version_info: Seq<char>,
    pub resources: Seq<ClusterLoadAssignmentView>,
}

impl View for EdsDiscoveryResponse {
    type V = EdsDiscoveryResponseView;

    open spec fn view(&self) -> EdsDiscoveryResponseView {
        EdsDiscoveryResponseView {
            version_info: self.version_info@,
            resources: Seq::new(self.resources@.len(), |i: int| self.resources@[i]@),
        }
    }
}

/// `a` is the assignment of the service `name` with the live hosts
/// `hosts`: it carries the name, the type identifier of an endpoint
/// assignment, and the grouping of the hosts by locality.
pub open spec fn is_assignment(
    a: ClusterLoadAssignmentView,
    name: Seq<char>,
    hosts: Seq<HostView>,
) -> bool {
    &&& a.cluster_name == name
    &&& a.type_url == EDS_TYPE_URL@
    &&& is_grouping(a.endpoints, hosts)
}

/// Without hosts there are no groups: a service with no live host has an
/// assignment whose list of endpoints is empty.
pub proof fn lemma_no_hosts_no_groups(groups: Seq<LocalityLbEndpointsView>)
    requires
        is_grouping(groups, Seq::<HostView>::empty()),
    ensures
        groups.len() == 0,
{
    if groups.len() > 0 {
        lemma_endpoints_in_none(Seq::<HostView>::empty(), groups[0].locality);
        assert(groups[0].lb_endpoints.len() > 0);
    }
}

/// Two groupings of the same hosts are the same list of groups: what
/// `is_grouping` says of a list of groups leaves no choice.
pub proof fn lemma_grouping_is_unique(
    a: Seq<LocalityLbEndpointsView>,
    b: Seq<LocalityLbEndpointsView>,
    hosts: Seq<HostView>,
)
    requires
        is_grouping(a, hosts),
        is_grouping(b, hosts),
    ensures
        a == b,
{
    lemma_grouping_prefix(a, b, hosts, a.len() as int);
    lemma_grouping_prefix(b, a, hosts, b.len() as int);
    if a.len() <= b.len() {
        assert(a =~= b.take(a.len() as int));
    }
    if b.len() <= a.len() {
        assert(b =~= a.take(b.len() as int));
    }
    assert(a =~= b);
}

/// The first host of the group at `i` of a grouping.
proof fn lemma_group_has_first(groups: Seq<LocalityLbEndpointsView>, hosts: Seq<HostView>, i: int)
    requires
        is_grouping(groups, hosts),
        0 <= i < groups.len(),
    ensures
        first_in(hosts, groups[i].locality, first_host(hosts, groups[i].locality)),
{
    let l = groups[i].locality;
    if forall|k: int| 0 <= k < hosts.len() ==> locality_of(#[trigger] hosts[k]) != l {
        lemma_endpoints_in_none(hosts, l);
        assert(groups[i].lb_endpoints.len() > 0);
    }
    let k = choose|k: int| 0 <= k < hosts.len() && locality_of(#[trigger] hosts[k]) == l;
    lemma_least_host(hosts, l, k);
}

/// Where some host is in the locality `l`, one of them is the first.
proof fn lemma_least_host(hosts: Seq<HostView>, l: LocalityView, k: int)
    requires
        0 <= k < hosts.len(),
        locality_of(hosts[k]) == l,
    ensures
        exists|a: int| first_in(hosts, l, a),
    decreases k,
{
    if forall|b: int| 0 <= b < k ==> locality_of(#[trigger] hosts[b]) != l {
        assert(first_in(hosts, l, k));
    } else {
        let b = choose|b: int| 0 <= b < k && locality_of(#[trigger] hosts[b]) == l;
        lemma_least_host(hosts, l, b);
    }
}

/// Two groupings of the same hosts agree on their first `n` groups.
proof fn lemma_grouping_prefix(
    a: Seq<LocalityLbEndpointsView>,
    b: Seq<LocalityLbEndpointsView>,
    hosts: Seq<HostView>,
    n: int,
)
    requires
        is_grouping(a, hosts),
        is_grouping(b, hosts),
        0 <= n <= a.len(),
    ensures
        n <= b.len(),
        forall|i: int| 0 <= i < n ==> a[i] == b[i],
    decreases n,
{
    if n > 0 {
        lemma_grouping_prefix(a, b, hosts, n - 1);
        let i = n - 1;
        let l = a[i].locality;
        lemma_group_has_first(a, hosts, i);
        let k = first_host(hosts, l);
        assert(has_group(b, locality_of(hosts[k])));
        let j = choose|j: int| 0 <= j < b.len() && (#[trigger] b[j]).locality == l;
        if j < i {
            assert(a[j] == b[j]);
            assert(a[j].locality != a[i].locality);
        }
        if j > i {
            // the group of `b` at `i` is a group of `a` too, and stands after `i` there
            let m = b[i].locality;
            lemma_group_has_first(b, hosts, i);
            let q = first_host(hosts, m);
            assert(has_group(a, locality_of(hosts[q])));
            let p = choose|p: int| 0 <= p < a.len() && (#[trigger] a[p]).locality == m;
            if p < i {
                assert(a[p] == b[p]);
                assert(b[p].locality != b[i].locality);
            }
            assert(p != i);
            assert(first_host(hosts, a[i].locality) < first_host(hosts, a[p].locality));
            assert(first_host(hosts, b[i].locality) < first_host(hosts, b[j].locality));
        }
        assert(j == i);
        assert(a[i].lb_endpoints == b[i].lb_endpoints);
    }
}

/// The assignment of the service `name` with the live hosts `hosts`. With
/// no hosts its list of endpoints is empty.
pub fn cluster_load_assignment(name: &str, hosts: Vec<Host>) -> (a: ClusterLoadAssignment)
    ensures
        is_assignment(a@, name@, host_views(hosts@)),
        hosts@.len() == 0 ==> a.endpoints@.len() == 0,
{
    let lle_vec = hosts_to_locality_lb_endpoints(hosts);
    proof {
        if hosts@.len() == 0 {
            assert(host_views(hosts@) =~= Seq::<HostView>::empty());
            lemma_no_hosts_no_groups(group_views(lle_vec@));
        }
    }
    ClusterLoadAssignment {
        type_url: EDS_TYPE_URL.to_owned(),
        cluster_name: name.to_owned(),
        endpoints: lle_vec,
    }
}

/// `Uuid::new_v4` of the crate `uuid`, written out with `to_string`: a
/// random identifier in its hyphenated form, which is 36 characters long.
/// Nothing else is claimed of it. The call panics where the system has no
/// source of randomness.
#[verifier::external_body]
fn new_version_info() -> (v: String)
    ensures
        v@.len() == 36,
{
    uuid::Uuid::new_v4().to_string()
}

/// `r` answers a discovery request for `services`, each a name with its
/// live hosts: one assignment for each, in their order.
pub open spec fn answers(r: EdsDiscoveryResponseView, services: Seq<(String, Vec<Host>)>) -> bool {
    &&& r.resources.len() == services.len()
    &&& forall|i: int|
        0 <= i < services.len() ==> is_assignment(
            #[trigger] r.resources[i],
            services[i].0@,
            host_views(services[i].1@),
        )
}

/// The answer, under the version `version_info`, to a discovery request
/// for `services`, each a name with its live hosts.
pub fn discovery_response_with_version(
    version_info: String,
    services: Vec<(String, Vec<Host>)>,
) -> (r: EdsDiscoveryResponse)
    ensures
        r@.version_info == version_info@,
        answers(r@, services@),
{
    let mut resources: Vec<ClusterLoadAssignment> = Vec::new();
    for service in it: services
        invariant
            it.seq() == services@,
            resources@.len() == it.index(),
            forall|i: int|
                0 <= i < it.index() ==> is_assignment(
                    (#[trigger] resources@[i])@,
                    services@[i].0@,
                    host_views(services@[i].1@),
                ),
    {
        let (name, hosts) = service;
        resources.push(cluster_load_assignment(name.as_str(), hosts));
    }
    EdsDiscoveryResponse { version_info, resources }
}

/// The answer to a discovery request for `services`, each a name with its
/// live hosts, under a fresh random version: every answer is a full
/// snapshot, and no version is ever compared with the one before.
pub fn discovery_response(services: Vec<(String, Vec<Host>)>) -> (r: EdsDiscoveryResponse)
    ensures
        r@.version_info.len() == 36,
        answers(r@, services@),
{
    discovery_response_with_version(new_version_info(), services)
}

} // verus!
