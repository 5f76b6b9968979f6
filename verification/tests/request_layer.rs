use regex::Regex;
use sds::config::{get_core_threads, get_timeout, DEFAULT_TIMEOUT_SECS};
use sds::server::{
    check_in_time, convert_param_to_host, delete_host, delete_reply, get_registration,
    get_registration_v2,
    host_from_param, register_hosts, register_reply, registration_reply, route, route_delete_req,
    route_get_req, route_post_req, stamp_param, RegistrationParam, Reply, Route, StampError, ENV,
    USAGE,
};
use sds::storage::{
    build_data_error, convert_domain_host_to_ddb_host, epoch_seconds, ErrorKind, QueryOutput,
    QueryStep, StorageError, StorageImpl,
};
use sds::types::{Host, Storage, Tag};
use sds::v2xds::{DiscoveryRequest, Node};
use std::sync::{Arc, Mutex};
use std::time::Duration;

fn tag() -> Tag {
    Tag {
        az: "a".to_string(),
        region: "us".to_string(),
        instance_id: "i-1".to_string(),
        canary: false,
        load_balancing_weight: None,
    }
}

fn param() -> RegistrationParam {
    RegistrationParam { ip: "10.0.0.1".to_string(), port: 8080, revision: "r1".to_string(), tags: tag() }
}

fn host(service: &str, ip: &str, expire_time: u64) -> Host {
    Host {
        ip_address: ip.to_string(),
        port: 8080,
        last_check_in: "2019-01-01 00:00:00+00:00".to_string(),
        expire_time,
        revision: "r1".to_string(),
        service: service.to_string(),
        tags: tag(),
    }
}

/// A registry store that keeps its rows in memory and takes every decision
/// from the library.
#[derive(Clone)]
struct Memory {
    core: StorageImpl<()>,
    now: u64,
    rows: Arc<Mutex<Vec<Host>>>,
    broken: bool,
}

impl Memory {
    fn new(now: u64) -> Memory {
        Memory {
            core: StorageImpl {
                table_name: "hosts".to_string(),
                ttl: 60,
                dynamodb_client: (),
                timeout: Duration::from_secs(1),
            },
            now,
            rows: Arc::new(Mutex::new(Vec::new())),
            broken: false,
        }
    }

    fn failing(now: u64) -> Memory {
        let mut m = Memory::new(now);
        m.broken = true;
        m
    }
}

impl Storage for Memory {
    type E = StorageError;

    fn query_items(&self, name: &str) -> Result<Vec<Host>, StorageError> {
        let mut step: QueryStep<usize> = self.core.query_start_at(name, Some(self.now));
        let found: Vec<Host> =
            self.rows.lock().unwrap().iter().filter(|h| h.service == name).cloned().collect();
        let mut pages = found.chunks(2).map(|c| c.to_vec()).collect::<Vec<_>>().into_iter();
        let mut asked = 0;
        loop {
            match step {
                QueryStep::Done(found) => return Ok(found.hosts),
                QueryStep::Failed(e) => return Err(e),
                QueryStep::Fetch(progress, input) => {
                    assert_eq!(input.exclusive_start_key, if asked == 0 { None } else { Some(asked) });
                    asked += 1;
                    let page = if self.broken {
                        Err("backend is down".to_string())
                    } else {
                        let items: Vec<_> = pages
                            .next()
                            .unwrap_or_default()
                            .into_iter()
                            .map(|h| convert_domain_host_to_ddb_host(name, h))
                            .collect();
                        let last_evaluated_key = if pages.len() > 0 { Some(asked) } else { None };
                        Ok(QueryOutput { items: Some(items), last_evaluated_key })
                    };
                    step = self.core.query_next(progress, page);
                }
            }
        }
    }

    fn store_item(&self, name: &str, host: Host) -> Result<(), StorageError> {
        let input = self.core.store_request(name, host.clone());
        assert_eq!(input.table_name, "hosts");
        if self.broken {
            return self.core.store_result(Err("backend is down".to_string()));
        }
        let mut rows = self.rows.lock().unwrap();
        rows.retain(|h| {
            !(h.service == name && h.ip_address == host.ip_address && h.port == host.port)
        });
        let mut stored = host;
        stored.service = name.to_string();
        rows.push(stored);
        self.core.store_result(Ok(()))
    }

    fn delete_item(&self, name: &str, ip: String, port: u64) -> Result<Option<Host>, StorageError> {
        let input = self.core.delete_request(name, &ip, port);
        assert_eq!(input.return_values.as_deref(), Some("ALL_OLD"));
        if self.broken {
            return self.core.delete_result_at(name, Err("backend is down".to_string()), Some(self.now));
        }
        let mut rows = self.rows.lock().unwrap();
        let at = rows
            .iter()
            .position(|h| h.service == name && h.ip_address == ip && h.port as u64 == port);
        let old = at.map(|i| convert_domain_host_to_ddb_host(name, rows.remove(i)));
        self.core.delete_result_at(name, Ok(old), Some(self.now))
    }

    fn ttl(&self) -> u64 {
        self.core.ttl()
    }
}

fn service_of(re: &Regex, path: &str) -> Option<String> {
    re.captures(path).and_then(|c| c.get(1)).map(|m| m.as_str().to_string())
}

const PATHS: [&str; 40] = [
    "",
    "/",
    "/hc",
    "/hc/",
    "//",
    "/v1",
    "/v1/registration",
    "/v1/registration/",
    "/v1/registration//",
    "/v1/registration/web",
    "/v1/registration/web/",
    "/v1/registration/web//",
    "/v1/registration/web/x",
    "/v1/registration/w",
    "/v1/registration/web:1",
    "/v1/registration/web\n",
    "/v1/registration/wéb/",
    "/V1/registration/web",
    "x/v1/registration/web",
    "/v1/registration/web/10.0.0.1:8080",
    "/v1/registration/web/10.0.0.1:8080/",
    "/v1/registration/web/10.0.0.1:8080//",
    "/v1/registration/web/10.0.0.1:",
    "/v1/registration/web/:8080",
    "/v1/registration/web/:",
    "/v1/registration/web/10.0.0.1",
    "/v1/registration/web/10.0.0.1:80:80",
    "/v1/registration/web/10.0.0.1:http",
    "/v1/registration//10.0.0.1:8080",
    "/v1/registration/a:b/10.0.0.1:8080",
    "/v1/registration/web/a/b:1",
    "/v1/registration/web/a:1/b",
    "/v1/registration/web/a:b/",
    "/v1/registration/:/a:b",
    "/v1/registration/web/::",
    "/v1/registration/web/a:/",
    "/v2/discovery:endpoints",
    "/v2/discovery:endpoints/",
    "/v1/registration/web/é:ü",
    "/v1/registration/web/10.0.0.1:8080\n",
];

#[test]
fn fixed_paths_go_to_usage_and_health() {
    assert_eq!(route_get_req("/"), Route::ShowUsage);
    assert_eq!(route_post_req("/"), Route::ShowUsage);
    assert_eq!(route_delete_req("/"), Route::ShowUsage);
    assert_eq!(route_get_req("/hc"), Route::CheckHealth);
    assert_eq!(route_post_req("/hc"), Route::CheckHealth);
    assert_eq!(route_delete_req("/hc"), Route::CheckHealth);
    assert_eq!(route_get_req("/hc/"), Route::NotFound);
}

#[test]
fn discovery_is_posted() {
    assert_eq!(route_post_req("/v2/discovery:endpoints"), Route::GetRegistrationV2);
    assert_eq!(route_get_req("/v2/discovery:endpoints"), Route::NotFound);
    assert_eq!(route_delete_req("/v2/discovery:endpoints"), Route::NotFound);
    assert_eq!(route_post_req("/v2/discovery:endpoints/"), Route::NotFound);
}

#[test]
fn registration_paths_name_the_service() {
    assert_eq!(
        route_get_req("/v1/registration/web"),
        Route::GetRegistration { service: "web".to_string() }
    );
    assert_eq!(
        route_get_req("/v1/registration/web/"),
        Route::GetRegistration { service: "web".to_string() }
    );
    assert_eq!(
        route_post_req("/v1/registration/web"),
        Route::RegisterHosts { service: "web".to_string() }
    );
    assert_eq!(
        route_post_req("/v1/registration/a:b/"),
        Route::RegisterHosts { service: "a:b".to_string() }
    );
    assert_eq!(route_get_req("/v1/registration/"), Route::NotFound);
    assert_eq!(route_get_req("/v1/registration//"), Route::NotFound);
    assert_eq!(route_get_req("/v1/registration/web/x"), Route::NotFound);
    assert_eq!(route_post_req("/v1/registration/web//"), Route::NotFound);
}

#[test]
fn host_paths_name_service_address_and_port() {
    assert_eq!(
        route_delete_req("/v1/registration/web/10.0.0.1:8080"),
        Route::DeleteHost {
            service: "web".to_string(),
            ip: "10.0.0.1".to_string(),
            port: "8080".to_string()
        }
    );
    assert_eq!(
        route_delete_req("/v1/registration/web/10.0.0.1:http/"),
        Route::DeleteHost {
            service: "web".to_string(),
            ip: "10.0.0.1".to_string(),
            port: "http".to_string()
        }
    );
    assert_eq!(route_delete_req("/v1/registration/web"), Route::NotFound);
    assert_eq!(route_delete_req("/v1/registration/web/10.0.0.1"), Route::NotFound);
    assert_eq!(route_delete_req("/v1/registration/web/10.0.0.1:"), Route::NotFound);
    assert_eq!(route_delete_req("/v1/registration/web/:80"), Route::NotFound);
    assert_eq!(route_delete_req("/v1/registration/web/a:b:c"), Route::NotFound);
    assert_eq!(route_delete_req("/v1/registration//a:b"), Route::NotFound);
}

#[test]
fn registration_paths_are_those_of_the_pattern() {
    let re = Regex::new(r"^/v1/registration/([^/]+)/?$").unwrap();
    for path in PATHS {
        let expected_get = match service_of(&re, path) {
            _ if path == "/" => Route::ShowUsage,
            _ if path == "/hc" => Route::CheckHealth,
            Some(service) => Route::GetRegistration { service },
            None => Route::NotFound,
        };
        assert_eq!(route_get_req(path), expected_get, "GET {:?}", path);
        let expected_post = match service_of(&re, path) {
            _ if path == "/" => Route::ShowUsage,
            _ if path == "/hc" => Route::CheckHealth,
            _ if path == "/v2/discovery:endpoints" => Route::GetRegistrationV2,
            Some(service) => Route::RegisterHosts { service },
            None => Route::NotFound,
        };
        assert_eq!(route_post_req(path), expected_post, "POST {:?}", path);
    }
}

#[test]
fn host_paths_are_those_of_the_pattern() {
    let re = Regex::new(r"^/v1/registration/([^/]+)/([^/:]+):([^/:]+)/?$").unwrap();
    for path in PATHS {
        let expected = match re.captures(path) {
            _ if path == "/" => Route::ShowUsage,
            _ if path == "/hc" => Route::CheckHealth,
            Some(caps) => Route::DeleteHost {
                service: caps.get(1).unwrap().as_str().to_string(),
                ip: caps.get(2).unwrap().as_str().to_string(),
                port: caps.get(3).unwrap().as_str().to_string(),
            },
            None => Route::NotFound,
        };
        assert_eq!(route_delete_req(path), expected, "DELETE {:?}", path);
    }
}

#[test]
fn methods_choose_the_router() {
    assert_eq!(route("GET", "/v1/registration/web"), Route::GetRegistration { service: "web".to_string() });
    assert_eq!(route("POST", "/v1/registration/web"), Route::RegisterHosts { service: "web".to_string() });
    assert_eq!(route("DELETE", "/v1/registration/web"), Route::NotFound);
    assert_eq!(
        route("DELETE", "/v1/registration/web/h:1"),
        Route::DeleteHost { service: "web".to_string(), ip: "h".to_string(), port: "1".to_string() }
    );
    assert_eq!(route("POST", "/v2/discovery:endpoints"), Route::GetRegistrationV2);
    for method in ["PUT", "PATCH", "HEAD", "OPTIONS", "get", "Post", ""] {
        assert_eq!(route(method, "/"), Route::NotFound);
        assert_eq!(route(method, "/v1/registration/web"), Route::NotFound);
    }
}

#[test]
fn lease_ends_ttl_seconds_after_registration() {
    let h = host_from_param("web", param(), 60, 1000, "2019-01-01 00:00:00+00:00".to_string());
    assert_eq!(h.expire_time, 1060);
    assert_eq!(h, host("web", "10.0.0.1", 1060));
    assert_eq!(host_from_param("web", param(), 0, 1000, String::new()).expire_time, 1000);
    assert_eq!(host_from_param("web", param(), u64::MAX, 0, String::new()).expire_time, u64::MAX);
    assert_eq!(host_from_param("web", param(), 1, u64::MAX - 1, String::new()).expire_time, u64::MAX);
}

#[test]
fn stamp_needs_a_clock_and_a_lease_that_ends() {
    let t = || Some("t".to_string());
    let h = stamp_param("web", param(), 60, Some(1000), t()).unwrap();
    assert_eq!(h.expire_time, 1060);
    assert_eq!(h.last_check_in, "t");
    assert_eq!(h.service, "web");
    assert_eq!(h.ip_address, "10.0.0.1");
    assert_eq!(stamp_param("web", param(), 60, None, t()), Err(StampError::ClockUnreadable));
    assert_eq!(stamp_param("web", param(), 60, None, None), Err(StampError::ClockUnreadable));
    assert_eq!(stamp_param("web", param(), 60, Some(1000), None), Err(StampError::TimeOutOfRange));
    assert_eq!(
        stamp_param("web", param(), 2, Some(u64::MAX - 1), None),
        Err(StampError::TimeOutOfRange)
    );
    assert_eq!(
        stamp_param("web", param(), 2, Some(u64::MAX - 1), t()),
        Err(StampError::LeaseOverflow)
    );
    assert_eq!(
        stamp_param("web", param(), u64::MAX, Some(1), t()),
        Err(StampError::LeaseOverflow)
    );
    assert!(stamp_param("web", param(), u64::MAX, Some(0), t()).is_ok());
}

#[test]
fn check_in_is_written_as_date_time_and_offset() {
    assert_eq!(check_in_time(0).as_deref(), Some("1970-01-01 00:00:00+00:00"));
    assert_eq!(check_in_time(1000).as_deref(), Some("1970-01-01 00:16:40+00:00"));
    assert_eq!(check_in_time(1546300800).as_deref(), Some("2019-01-01 00:00:00+00:00"));
    assert_eq!(check_in_time(1582934399).as_deref(), Some("2020-02-28 23:59:59+00:00"));
    assert_eq!(check_in_time(1582934400).as_deref(), Some("2020-02-29 00:00:00+00:00"));
    assert_eq!(check_in_time(253402300799).as_deref(), Some("9999-12-31 23:59:59+00:00"));
}

#[test]
fn check_in_of_a_second_without_a_date_is_none() {
    assert_eq!(check_in_time(u64::MAX), None);
    assert_eq!(check_in_time(1 << 63), None);
    assert_eq!(check_in_time(i64::MAX as u64), None);
}

#[test]
fn registration_is_stamped_by_the_clock() {
    let before = epoch_seconds().unwrap();
    let h = convert_param_to_host("web", param(), 60).unwrap();
    let after = epoch_seconds().unwrap();
    assert!(before + 60 <= h.expire_time && h.expire_time <= after + 60);
    assert_eq!(h.ip_address, "10.0.0.1");
    assert_eq!(h.port, 8080);
    assert_eq!(h.revision, "r1");
    assert_eq!(h.service, "web");
    assert_eq!(h.tags, tag());
    let stamp: Vec<char> = h.last_check_in.chars().collect();
    assert_eq!(stamp.len(), 25);
    for (i, c) in stamp.iter().enumerate() {
        match i {
            4 | 7 => assert_eq!(*c, '-'),
            10 => assert_eq!(*c, ' '),
            13 | 16 | 22 => assert_eq!(*c, ':'),
            19 => assert_eq!(*c, '+'),
            _ => assert!(c.is_ascii_digit()),
        }
    }
    assert!(h.last_check_in.ends_with("+00:00"));
    assert_eq!(
        convert_param_to_host("web", param(), u64::MAX),
        Err(StampError::LeaseOverflow)
    );
}

#[test]
fn replies_have_their_status() {
    assert_eq!(Reply::Usage.status(), 200);
    assert_eq!(Reply::Health.status(), 200);
    assert_eq!(Reply::Accepted.status(), 202);
    assert_eq!(Reply::BadRequest("no".to_string()).status(), 400);
    assert_eq!(Reply::HostNotFound.status(), 400);
    assert_eq!(Reply::NotFound.status(), 404);
    assert_eq!(Reply::StampFailure(StampError::ClockUnreadable).status(), 500);
    assert_eq!(Reply::StampFailure(StampError::LeaseOverflow).status(), 500);
    assert_eq!(Reply::StampFailure(StampError::TimeOutOfRange).status(), 500);
    assert_eq!(registration_reply("web", Ok(Vec::new())).status(), 200);
    let core = Memory::new(0).core;
    let api = core.store_result(Err("down".to_string())).unwrap_err();
    assert_eq!(Reply::Failure(api).status(), 500);
    let clock = match core.query_start_at::<()>("web", None) {
        QueryStep::Failed(e) => e,
        other => panic!("the query starts: {:?}", other),
    };
    assert_eq!(clock.kind(), ErrorKind::SystemError);
    assert_eq!(Reply::Failure(clock).status(), 500);
    let data = build_data_error::<()>("bad row".to_string()).unwrap_err();
    assert_eq!(Reply::Failure(data).status(), 400);
}

#[test]
fn usage_and_environment_are_fixed() {
    assert_eq!(
        USAGE,
        "GET /v1/registration/:service, POST /v1/registration/:service, DELETE /v1/registration/:service/:ip_address"
    );
    assert_eq!(ENV, "production");
}

#[test]
fn registration_reply_wraps_the_hosts() {
    match registration_reply("web", Ok(vec![host("web", "10.0.0.1", 1060)])) {
        Reply::Registration(r) => {
            assert_eq!(r.service, "web");
            assert_eq!(r.env, "production");
            assert_eq!(r.hosts, vec![host("web", "10.0.0.1", 1060)]);
        }
        other => panic!("no registration: {:?}", other),
    }
    let e = build_data_error::<Vec<Host>>("bad row".to_string());
    match registration_reply("web", e) {
        Reply::Failure(e) => assert_eq!(e.to_string(), "bad row"),
        other => panic!("no failure: {:?}", other),
    }
}

#[test]
fn register_and_delete_replies_follow_the_store() {
    assert!(matches!(register_reply(Ok(())), Reply::Accepted));
    assert!(matches!(register_reply(build_data_error("x".to_string())), Reply::Failure(_)));
    assert!(matches!(delete_reply(Ok(Some(host("web", "h", 1)))), Reply::Accepted));
    assert!(matches!(delete_reply(Ok(None)), Reply::HostNotFound));
    assert!(matches!(delete_reply(build_data_error("x".to_string())), Reply::Failure(_)));
}

#[test]
fn a_registered_host_is_read_until_it_expires() {
    let early = Memory::new(1059);
    early.store_item("web", host("web", "10.0.0.1", 1060)).unwrap();
    match get_registration(&early, "web") {
        Reply::Registration(r) => assert_eq!(r.hosts, vec![host("web", "10.0.0.1", 1060)]),
        other => panic!("no registration: {:?}", other),
    }
    let late = Memory { now: 1061, ..early.clone() };
    match get_registration(&late, "web") {
        Reply::Registration(r) => {
            assert_eq!(r.service, "web");
            assert!(r.hosts.is_empty());
        }
        other => panic!("no registration: {:?}", other),
    }
    assert!(matches!(
        delete_host(&late, "web", "10.0.0.1".to_string(), "8080"),
        Reply::HostNotFound
    ));
    assert!(early.rows.lock().unwrap().is_empty());
}

#[test]
fn registration_spans_pages() {
    let m = Memory::new(1000);
    for i in 0..7 {
        let expire_time = if i % 2 == 0 { 2000 } else { 10 };
        m.store_item("web", host("web", &format!("10.0.0.{}", i), expire_time)).unwrap();
    }
    m.store_item("api", host("api", "10.0.1.1", 2000)).unwrap();
    match get_registration(&m, "web") {
        Reply::Registration(r) => {
            let ips: Vec<&str> = r.hosts.iter().map(|h| h.ip_address.as_str()).collect();
            assert_eq!(ips, vec!["10.0.0.0", "10.0.0.2", "10.0.0.4", "10.0.0.6"]);
        }
        other => panic!("no registration: {:?}", other),
    }
}

#[test]
fn register_stores_a_host_with_the_lease_of_the_store() {
    let m = Memory::new(0);
    let before = epoch_seconds().unwrap();
    assert!(matches!(register_hosts(&m, "web", param()), Reply::Accepted));
    let rows = m.rows.lock().unwrap();
    assert_eq!(rows.len(), 1);
    assert_eq!(rows[0].service, "web");
    assert_eq!(rows[0].ip_address, "10.0.0.1");
    assert!(rows[0].expire_time >= before + 60);
}

#[test]
fn register_with_a_lease_without_end_is_refused() {
    let mut m = Memory::new(0);
    m.core.ttl = u64::MAX;
    assert!(matches!(
        register_hosts(&m, "web", param()),
        Reply::StampFailure(StampError::LeaseOverflow)
    ));
    assert!(m.rows.lock().unwrap().is_empty());
}

#[test]
fn register_again_replaces_the_row() {
    let m = Memory::new(0);
    assert!(matches!(register_hosts(&m, "web", param()), Reply::Accepted));
    let mut again = param();
    again.revision = "r2".to_string();
    assert!(matches!(register_hosts(&m, "web", again), Reply::Accepted));
    let rows = m.rows.lock().unwrap();
    assert_eq!(rows.len(), 1);
    assert_eq!(rows[0].revision, "r2");
}

#[test]
fn handlers_pass_failures_of_the_store_on() {
    let m = Memory::failing(1000);
    match get_registration(&m, "web") {
        Reply::Failure(e) => {
            assert_eq!(e.kind(), ErrorKind::ApiError);
            assert_eq!(e.to_string(), "API Error in query: backend is down");
        }
        other => panic!("no failure: {:?}", other),
    }
    match register_hosts(&m, "web", param()) {
        Reply::Failure(e) => assert_eq!(e.to_string(), "API Error in put_item: backend is down"),
        other => panic!("no failure: {:?}", other),
    }
    match delete_host(&m, "web", "10.0.0.1".to_string(), "8080") {
        Reply::Failure(e) => assert_eq!(e.to_string(), "API Error in delete_item: backend is down"),
        other => panic!("no failure: {:?}", other),
    }
    let request = discovery_request(&["web"]);
    assert!(matches!(get_registration_v2(&m, &request), Reply::Failure(_)));
}

#[test]
fn delete_refuses_a_port_that_is_no_number() {
    let m = Memory::new(1000);
    m.store_item("web", host("web", "10.0.0.1", 2000)).unwrap();
    for bad in ["http", "", "-1", "18446744073709551616"] {
        match delete_host(&m, "web", "10.0.0.1".to_string(), bad) {
            Reply::BadRequest(msg) => {
                assert_eq!(msg, format!("Given port is invalid as integer: {}", bad))
            }
            other => panic!("no refusal: {:?}", other),
        }
    }
    assert_eq!(m.rows.lock().unwrap().len(), 1);
}

#[test]
fn delete_removes_a_live_host_once() {
    let m = Memory::new(1000);
    m.store_item("web", host("web", "10.0.0.1", 2000)).unwrap();
    assert!(matches!(delete_host(&m, "web", "10.0.0.1".to_string(), "8080"), Reply::Accepted));
    assert!(matches!(delete_host(&m, "web", "10.0.0.1".to_string(), "8080"), Reply::HostNotFound));
    assert!(matches!(delete_host(&m, "web", "10.0.0.9".to_string(), "8080"), Reply::HostNotFound));
    assert!(matches!(delete_host(&m, "web", "10.0.0.1".to_string(), "70000"), Reply::HostNotFound));
}

fn discovery_request(names: &[&str]) -> DiscoveryRequest {
    DiscoveryRequest {
        version_info: None,
        node: Node { id: "n".to_string(), cluster: "c".to_string() },
        resource_names: names.iter().map(|s| s.to_string()).collect(),
        type_url: None,
        response_nonce: None,
        error_detail: None,
    }
}

#[test]
fn discovery_request_for_one_service_with_one_live_host() {
    let m = Memory::new(1000);
    m.store_item("web", host("web", "10.0.0.1", 1060)).unwrap();
    m.store_item("web", host("web", "10.0.0.2", 999)).unwrap();
    match get_registration_v2(&m, &discovery_request(&["web"])) {
        Reply::Discovery(r) => {
            assert_eq!(r.version_info.len(), 36);
            assert_eq!(r.resources.len(), 1);
            let a = &r.resources[0];
            assert_eq!(a.cluster_name, "web");
            assert_eq!(a.type_url, "type.googleapis.com/envoy.api.v2.ClusterLoadAssignment");
            assert_eq!(a.endpoints.len(), 1);
            assert_eq!(a.endpoints[0].lb_endpoints.len(), 1);
            let le = &a.endpoints[0].lb_endpoints[0];
            assert_eq!(le.endpoint.address.socket_address.address, "10.0.0.1");
            assert_eq!(le.endpoint.address.socket_address.port_value, 8080);
            assert!(le.load_balancing_weight.is_none());
        }
        other => panic!("no discovery: {:?}", other),
    }
}

#[test]
fn discovery_request_names_services_without_hosts_too() {
    let m = Memory::new(1000);
    m.store_item("web", host("web", "10.0.0.1", 1060)).unwrap();
    match get_registration_v2(&m, &discovery_request(&["idle", "web", "idle"])) {
        Reply::Discovery(r) => {
            let names: Vec<&str> = r.resources.iter().map(|a| a.cluster_name.as_str()).collect();
            assert_eq!(names, vec!["idle", "web", "idle"]);
            assert!(r.resources[0].endpoints.is_empty());
            assert_eq!(r.resources[1].endpoints.len(), 1);
            assert!(r.resources[2].endpoints.is_empty());
        }
        other => panic!("no discovery: {:?}", other),
    }
    match get_registration_v2(&m, &discovery_request(&[])) {
        Reply::Discovery(r) => assert!(r.resources.is_empty()),
        other => panic!("no discovery: {:?}", other),
    }
}

#[test]
fn timeout_is_read_from_its_setting() {
    assert_eq!(DEFAULT_TIMEOUT_SECS, 10);
    assert_eq!(get_timeout(None), 10);
    assert_eq!(get_timeout(Some("30")), 30);
    assert_eq!(get_timeout(Some("0")), 0);
    assert_eq!(get_timeout(Some("18446744073709551615")), u64::MAX);
    assert_eq!(get_timeout(Some("soon")), 10);
    assert_eq!(get_timeout(Some("")), 10);
    assert_eq!(get_timeout(Some("-5")), 10);
    assert_eq!(get_timeout(Some("18446744073709551616")), 10);
}

#[test]
fn core_threads_are_read_from_their_setting() {
    assert_eq!(get_core_threads(None), None);
    assert_eq!(get_core_threads(Some("4")), Some(4));
    assert_eq!(get_core_threads(Some("0")), Some(0));
    assert_eq!(get_core_threads(Some("many")), None);
    assert_eq!(get_core_threads(Some("")), None);
    assert_eq!(get_core_threads(Some("99999999999999999999999")), None);
    assert_eq!(get_core_threads(Some("18446744073709551615")), "18446744073709551615".parse::<usize>().ok());
}
