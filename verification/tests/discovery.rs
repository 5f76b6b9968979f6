use sds::types::{Host, Tag};
use sds::v2xds::{
    cluster_load_assignment, convert_host_to_le, discovery_response,
    discovery_response_with_version, hosts_to_locality_lb_endpoints, EDS_TYPE_URL,
};

fn host(ip: &str, region: &str, az: &str) -> Host {
    Host {
        ip_address: ip.to_string(),
        port: 8080,
        last_check_in: "2019-01-01 00:00:00+00:00".to_string(),
        expire_time: 1060,
        revision: "r1".to_string(),
        service: "web".to_string(),
        tags: Tag {
            az: az.to_string(),
            region: region.to_string(),
            instance_id: "i-1".to_string(),
            canary: false,
            load_balancing_weight: None,
        },
    }
}

fn addresses(hosts: Vec<Host>) -> Vec<(String, String, Vec<String>)> {
    hosts_to_locality_lb_endpoints(hosts)
        .into_iter()
        .map(|g| {
            (
                g.locality.region,
                g.locality.zone,
                g.lb_endpoints.into_iter().map(|e| e.endpoint.address.socket_address.address).collect(),
            )
        })
        .collect()
}

fn group(region: &str, zone: &str, ips: &[&str]) -> (String, String, Vec<String>) {
    (region.to_string(), zone.to_string(), ips.iter().map(|s| s.to_string()).collect())
}

#[test]
fn type_url_names_the_cluster_load_assignment() {
    assert_eq!(EDS_TYPE_URL, "type.googleapis.com/envoy.api.v2.ClusterLoadAssignment");
}

#[test]
fn endpoint_carries_address_metadata_and_weight() {
    let mut h = host("10.0.0.1", "us", "a");
    h.port = 443;
    h.revision = "abc123".to_string();
    h.tags.canary = true;
    h.tags.load_balancing_weight = Some(7);
    let le = convert_host_to_le(h);
    assert_eq!(le.endpoint.address.socket_address.address, "10.0.0.1");
    assert_eq!(le.endpoint.address.socket_address.port_value, 443);
    assert_eq!(le.load_balancing_weight, Some(7));
    assert_eq!(le.metadata.filter_metadata.len(), 1);
    assert_eq!(le.metadata.filter_metadata[0].0, "envoy.lb");
    assert!(le.metadata.filter_metadata[0].1.canary);
    assert_eq!(le.metadata.filter_metadata[0].1.revision, "abc123");
}

#[test]
fn endpoint_without_weight_has_none() {
    let le = convert_host_to_le(host("10.0.0.1", "us", "a"));
    assert_eq!(le.load_balancing_weight, None);
    assert!(!le.metadata.filter_metadata[0].1.canary);
    assert_eq!(le.metadata.filter_metadata[0].1.revision, "r1");
}

#[test]
fn three_hosts_in_two_localities_make_two_groups() {
    let groups = hosts_to_locality_lb_endpoints(vec![
        host("10.0.0.1", "us", "a"),
        host("10.0.0.2", "us", "a"),
        host("10.0.0.3", "us", "b"),
    ]);
    assert_eq!(groups.len(), 2);
    let mut sizes: Vec<usize> = groups.iter().map(|g| g.lb_endpoints.len()).collect();
    sizes.sort();
    assert_eq!(sizes, vec![1, 2]);
    let of_a = groups.iter().find(|g| g.locality.zone == "a").unwrap();
    assert_eq!(of_a.locality.region, "us");
    assert_eq!(of_a.lb_endpoints.len(), 2);
    let of_b = groups.iter().find(|g| g.locality.zone == "b").unwrap();
    assert_eq!(of_b.locality.region, "us");
    assert_eq!(of_b.lb_endpoints.len(), 1);
}

#[test]
fn groups_keep_the_order_of_the_hosts() {
    let groups = addresses(vec![
        host("1", "us", "b"),
        host("2", "eu", "a"),
        host("3", "us", "b"),
        host("4", "us", "a"),
        host("5", "eu", "a"),
        host("6", "us", "b"),
    ]);
    assert_eq!(
        groups,
        vec![
            group("us", "b", &["1", "3", "6"]),
            group("eu", "a", &["2", "5"]),
            group("us", "a", &["4"]),
        ]
    );
}

#[test]
fn region_and_zone_together_make_the_locality() {
    let groups = addresses(vec![
        host("1", "us", "a"),
        host("2", "a", "us"),
        host("3", "us", ""),
        host("4", "", "us"),
        host("5", "usa", ""),
    ]);
    assert_eq!(groups.len(), 5);
}

#[test]
fn empty_region_and_zone_are_a_locality_like_any_other() {
    let groups = addresses(vec![host("1", "", ""), host("2", "us", "a"), host("3", "", "")]);
    assert_eq!(groups, vec![group("", "", &["1", "3"]), group("us", "a", &["2"])]);
}

#[test]
fn no_hosts_make_no_groups() {
    assert!(hosts_to_locality_lb_endpoints(Vec::new()).is_empty());
}

#[test]
fn every_host_has_one_entry() {
    let hosts: Vec<Host> = (0..20)
        .map(|i| host(&format!("10.0.0.{}", i), if i % 3 == 0 { "us" } else { "eu" }, if i % 2 == 0 { "a" } else { "b" }))
        .collect();
    let groups = hosts_to_locality_lb_endpoints(hosts);
    assert_eq!(groups.len(), 4);
    assert_eq!(groups.iter().map(|g| g.lb_endpoints.len()).sum::<usize>(), 20);
    for (i, g) in groups.iter().enumerate() {
        assert!(!g.lb_endpoints.is_empty());
        for other in &groups[i + 1..] {
            assert_ne!(g.locality, other.locality);
        }
    }
}

#[test]
fn assignment_of_a_service_without_hosts_is_empty() {
    let a = cluster_load_assignment("web", Vec::new());
    assert_eq!(a.cluster_name, "web");
    assert_eq!(a.type_url, EDS_TYPE_URL);
    assert!(a.endpoints.is_empty());
}

#[test]
fn discovery_of_one_service_with_one_host() {
    let r = discovery_response(vec![("web".to_string(), vec![host("10.0.0.1", "us", "a")])]);
    assert_eq!(r.resources.len(), 1);
    let a = &r.resources[0];
    assert_eq!(a.cluster_name, "web");
    assert_eq!(a.type_url, "type.googleapis.com/envoy.api.v2.ClusterLoadAssignment");
    assert_eq!(a.endpoints.len(), 1);
    assert_eq!(a.endpoints[0].locality.region, "us");
    assert_eq!(a.endpoints[0].locality.zone, "a");
    assert_eq!(a.endpoints[0].lb_endpoints.len(), 1);
    let le = &a.endpoints[0].lb_endpoints[0];
    assert_eq!(le.endpoint.address.socket_address.address, "10.0.0.1");
    assert_eq!(le.endpoint.address.socket_address.port_value, 8080);
    assert_eq!(le.load_balancing_weight, None);
}

#[test]
fn discovery_keeps_the_order_of_the_services() {
    let r = discovery_response_with_version(
        "v1".to_string(),
        vec![
            ("web".to_string(), vec![host("1", "us", "a"), host("2", "us", "b")]),
            ("idle".to_string(), Vec::new()),
            ("api".to_string(), vec![host("3", "eu", "a")]),
        ],
    );
    assert_eq!(r.version_info, "v1");
    let names: Vec<&str> = r.resources.iter().map(|a| a.cluster_name.as_str()).collect();
    assert_eq!(names, vec!["web", "idle", "api"]);
    let sizes: Vec<usize> = r.resources.iter().map(|a| a.endpoints.len()).collect();
    assert_eq!(sizes, vec![2, 0, 1]);
    for a in &r.resources {
        assert_eq!(a.type_url, EDS_TYPE_URL);
    }
}

#[test]
fn discovery_of_no_services_is_empty() {
    let r = discovery_response(Vec::new());
    assert!(r.resources.is_empty());
}

#[test]
fn every_response_has_a_fresh_version() {
    let first = discovery_response(Vec::new()).version_info;
    let second = discovery_response(Vec::new()).version_info;
    assert_ne!(first, second);
    for v in [first, second] {
        assert_eq!(v.chars().count(), 36);
        for (i, c) in v.chars().enumerate() {
            if i == 8 || i == 13 || i == 18 || i == 23 {
                assert_eq!(c, '-');
            } else {
                assert!(c.is_ascii_hexdigit() && !c.is_ascii_uppercase());
            }
        }
        assert_eq!(v.chars().nth(14), Some('4'));
    }
}
