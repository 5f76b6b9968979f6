//! What the request layer decides: which handler a request goes to, what
//! each handler asks of the registry store, and what it replies.

use vstd::prelude::*;
use vstd::string::StringExecFns;
use crate::decimal::{parse_decimal, parse_u64};
use crate::storage::{epoch_seconds, ErrorKind, StorageError, StorageErrorView};
use crate::text::{
    contains_char, split_at_sole, split_sole, strip_last, strip_prefix, without_last,
    without_prefix,
};
use crate::types::{host_views, Host, HostView, Registration, RegistrationView, Storage, Tag, TagView};
use crate::v2xds::{
    answers, discovery_response, DiscoveryRequest, EdsDiscoveryResponse, EdsDiscoveryResponseView,
};

verus! {

/// What `GET /` and `POST /` answer.
pub const USAGE: &'static str =
    "GET /v1/registration/:service, POST /v1/registration/:service, DELETE /v1/registration/:service/:ip_address";

/// The environment label of every registration.
pub const ENV: &'static str = "production";

/// Where the registrations live.
pub const REGISTRATION_PREFIX: &'static str = "/v1/registration/";

/// What a client sends to register a host.
#[derive(Debug, Clone, PartialEq, Eq)]
pub struct RegistrationParam {
    pub ip: String,
    pub port: u16,
    pub revision: String,
    pub tags: Tag,
}

/// What a `RegistrationParam` holds.
pub ghost struct RegistrationParamView {
    pub ip: Seq<char>,
    pub port: u16,
    pub revision: Seq<char>,
    pub tags: TagView,
}

impl View for RegistrationParam {
    type V = RegistrationParamView;

    open spec fn view(&self) -> RegistrationParamView {
        RegistrationParamView {
            ip: self.ip@,
            port: self.port,
            revision: self.revision@,
            tags: self.tags@,
        }
    }
}

/// The handler that a request goes to.
#[derive(Debug, Clone, PartialEq, Eq)]
pub enum Route {
    /// Show how the service is used.
    ShowUsage,
    /// Answer a health check.
    CheckHealth,
    /// Read the registration of a service.
    GetRegistration { service: String },
    /// Answer a discovery request.
    GetRegistrationV2,
    /// Register a host under a service.
    RegisterHosts { service: String },
    /// Delete the host of a service at an address and a port, the port
    /// still as the text of the path.
    DeleteHost { service: String, ip: String, port: String },
    /// No such resource.
    NotFound,
}

/// What a `Route` holds.
pub ghost enum RouteView {
    ShowUsage,
    CheckHealth,
    GetRegistration { service: Seq<char> },
    GetRegistrationV2,
    RegisterHosts { service: Seq<char> },
    DeleteHost { service: Seq<char>, ip: Seq<char>, port: Seq<char> },
    NotFound,
}

impl View for Route {
    type V = RouteView;

    open spec fn view(&self) -> RouteView {
        match self {
            Route::ShowUsage => RouteView::ShowUsage,
            Route::CheckHealth => RouteView::CheckHealth,
            Route::GetRegistration { service } => RouteView::GetRegistration { service: service@ },
            Route::GetRegistrationV2 => RouteView::GetRegistrationV2,
            Route::RegisterHosts { service } => RouteView::RegisterHosts { service: service@ },
            Route::DeleteHost { service, ip, port } => RouteView::DeleteHost {
                service: service@,
                ip: ip@,
                port: port@,
            },
            Route::NotFound => RouteView::NotFound,
        }
    }
}

/// The service that the path of a registration names: what follows
/// `/v1/registration/`, without one trailing slash, if that is at least one
/// character and holds no slash.
pub open spec fn registration_path(path: Seq<char>) -> Option<Seq<char>> {
    match without_prefix(path, REGISTRATION_PREFIX@) {
        None => None,
        Some(rest) => {
            let service = without_last(rest, '/');
            if service.len() > 0 && !service.contains('/') {
                Some(service)
            } else {
                None
            }
        },
    }
}

/// The service, the address and the port that the path of one host names:
/// what follows `/v1/registration/`, without one trailing slash, is the
/// service, a slash, the address, a colon and the port. None of the three
/// is empty, the service holds no slash, and the address and the port hold
/// neither a slash nor a colon.
pub open spec fn host_path(path: Seq<char>) -> Option<(Seq<char>, Seq<char>, Seq<char>)> {
    match without_prefix(path, REGISTRATION_PREFIX@) {
        None => None,
        Some(rest) => match split_sole(without_last(rest, '/'), '/') {
            None => None,
            Some((service, address)) => match split_sole(address, ':') {
                None => None,
                Some((ip, port)) => if service.len() > 0 && ip.len() > 0 && port.len() > 0 {
                    Some((service, ip, port))
                } else {
                    None
                },
            },
        },
    }
}

/// Where a `GET` of `path` goes.
pub open spec fn get_route(path: Seq<char>) -> RouteView {
    if path == "/"@ {
        RouteView::ShowUsage
    } else if path == "/hc"@ {
        RouteView::CheckHealth
    } else {
        match registration_path(path) {
            Some(service) => RouteView::GetRegistration { service },
            None => RouteView::NotFound,
        }
    }
}

/// Where a `POST` of `path` goes.
pub open spec fn post_route(path: Seq<char>) -> RouteView {
    if path == "/"@ {
        RouteView::ShowUsage
    } else if path == "/hc"@ {
        RouteView::CheckHealth
    } else if path == "/v2/discovery:endpoints"@ {
        RouteView::GetRegistrationV2
    } else {
        match registration_path(path) {
            Some(service) => RouteView::RegisterHosts { service },
            None => RouteView::NotFound,
        }
    }
}

/// Where a `DELETE` of `path` goes.
pub open spec fn delete_route(path: Seq<char>) -> RouteView {
    if path == "/"@ {
        RouteView::ShowUsage
    } else if path == "/hc"@ {
        RouteView::CheckHealth
    } else {
        match host_path(path) {
            Some((service, ip, port)) => RouteView::DeleteHost { service, ip, port },
            None => RouteView::NotFound,
        }
    }
}

/// Where a request with the method `method` for `path` goes. Methods other
/// than `GET`, `POST` and `DELETE` find nothing.
pub open spec fn route_of(method: Seq<char>, path: Seq<char>) -> RouteView {
    if method == "GET"@ {
        get_route(path)
    } else if method == "POST"@ {
        post_route(path)
    } else if method == "DELETE"@ {
        delete_route(path)
    } else {
        RouteView::NotFound
    }
}

/// A path names the registration of `service` exactly when it is
/// `/v1/registration/`, then `service`, then nothing or one slash, and
/// `service` is not empty and holds no slash.
pub proof fn lemma_registration_path(path: Seq<char>, service: Seq<char>)
    ensures
        registration_path(path) == Some(service) <==> service.len() > 0 && !service.contains('/')
            && (path == REGISTRATION_PREFIX@ + service || path == REGISTRATION_PREFIX@ + service
            + seq!['/']),
{
    let prefix = REGISTRATION_PREFIX@;
    let n = prefix.len() as int;
    if registration_path(path) == Some(service) {
        let rest = path.skip(n);
        assert(path =~= prefix + rest);
        if rest.len() > 0 && rest.last() == '/' {
            assert(rest =~= service + seq!['/']);
            assert(path =~= prefix + service + seq!['/']);
        }
    }
    if service.len() > 0 && !service.contains('/') {
        if path == prefix + service {
            assert(path.take(n) =~= prefix);
            assert(path.skip(n) =~= service);
            assert(service.contains(service.last()));
        }
        if path == prefix + service + seq!['/'] {
            assert(path.take(n) =~= prefix);
            assert(path.skip(n) =~= service + seq!['/']);
            assert((service + seq!['/']).drop_last() =~= service);
        }
    }
}

/// Reads the service out of the path of a registration.
fn match_registration_path(path: &str) -> (r: Option<String>)
    ensures
        match r {
            Some(service) => registration_path(path@) == Some(service@),
            None => registration_path(path@) is None,
        },
{
    match strip_prefix(path, REGISTRATION_PREFIX) {
        None => None,
        Some(rest) => {
            let service = strip_last(rest.as_str(), '/');
            if !service.as_str().is_empty() && !contains_char(service.as_str(), '/') {
                Some(service)
            } else {
                None
            }
        },
    }
}

/// Reads the service, the address and the port out of the path of a host.
fn match_host_path(path: &str) -> (r: Option<(String, String, String)>)
    ensures
        match r {
            Some((service, ip, port)) => host_path(path@) == Some((service@, ip@, port@)),
            None => host_path(path@) is None,
        },
{
    let rest = match strip_prefix(path, REGISTRATION_PREFIX) {
        Some(rest) => rest,
        None => {
            return None;
        },
    };
    let body = strip_last(rest.as_str(), '/');
    let (service, address) = match split_at_sole(body.as_str(), '/') {
        Some(parts) => parts,
        None => {
            return None;
        },
    };
    let (ip, port) = match split_at_sole(address.as_str(), ':') {
        Some(parts) => parts,
        None => {
            return None;
        },
    };
    if !service.as_str().is_empty() && !ip.as_str().is_empty() && !port.as_str().is_empty() {
        Some((service, ip, port))
    } else {
        None
    }
}

/// Where a `GET` of `path` goes.
pub fn route_get_req(path: &str) -> (r: Route)
    ensures
        r@ == get_route(path@),
{
    if path.eq("/") {
        Route::ShowUsage
    } else if path.eq("/hc") {
        Route::CheckHealth
    } else {
        match match_registration_path(path) {
            Some(service) => Route::GetRegistration { service },
            None => Route::NotFound,
        }
    }
}

/// Where a `POST` of `path` goes.
pub fn route_post_req(path: &str) -> (r: Route)
    ensures
        r@ == post_route(path@),
{
    if path.eq("/") {
        Route::ShowUsage
    } else if path.eq("/hc") {
        Route::CheckHealth
    } else if path.eq("/v2/discovery:endpoints") {
        Route::GetRegistrationV2
    } else {
        match match_registration_path(path) {
            Some(service) => Route::RegisterHosts { service },
            None => Route::NotFound,
        }
    }
}

/// Where a `DELETE` of `path` goes.
pub fn route_delete_req(path: &str) -> (r: Route)
    ensures
        r@ == delete_route(path@),
{
    if path.eq("/") {
        Route::ShowUsage
    } else if path.eq("/hc") {
        Route::CheckHealth
    } else {
        match match_host_path(path) {
            Some((service, ip, port)) => Route::DeleteHost { service, ip, port },
            None => Route::NotFound,
        }
    }
}

/// Where a request with the method `method` for `path` goes.
pub fn route(method: &str, path: &str) -> (r: Route)
    ensures
        r@ == route_of(method@, path@),
{
    if method.eq("GET") {
        route_get_req(path)
    } else if method.eq("POST") {
        route_post_req(path)
    } else if method.eq("DELETE") {
        route_delete_req(path)
    } else {
        Route::NotFound
    }
}

/// How the time of a check-in is written: date, time and offset, as in
/// `2019-01-01 00:00:00+00:00`.
pub const CHECK_IN_FORMAT: &'static str = "%Y-%m-%d %H:%M:%S%:z";

/// The text of the second `secs` after the Unix epoch, in UTC, written by
/// the crate `chrono` after the pattern `pattern`; `None` where `chrono`
/// has no date for that second or cannot write it after that pattern.
pub uninterp spec fn utc_text(secs: int, pattern: Seq<char>) -> Option<Seq<char>>;

/// `DateTime::from_timestamp` of the crate `chrono`, for the second `secs`
/// after the Unix epoch in UTC, written by `format` with `pattern` and
/// `DelayedFormat::write_to`. The answer depends on the two arguments
/// alone: it is `None` where `from_timestamp` has no date for `secs` or
/// `write_to` fails on the pattern, and the text written otherwise. Nothing
/// is claimed of what the text holds.
#[verifier::external_body]
fn write_utc(secs: i64, pattern: &str) -> (r: Option<String>)
    ensures
        crate::attribute::text_view(r) == utc_text(secs as int, pattern@),
{
    let time = chrono::DateTime::from_timestamp(secs, 0)?;
    let mut text = String::new();
    match time.format(pattern).write_to(&mut text) {
        Ok(()) => Some(text),
        Err(_) => None,
    }
}

/// The text of a check-in at the second `now` after the Unix epoch; `None`
/// where that second has no date that can be written.
pub open spec fn check_in_text(now: u64) -> Option<Seq<char>> {
    if now <= i64::MAX {
        utc_text(now as int, CHECK_IN_FORMAT@)
    } else {
        None
    }
}

/// The text of a check-in at the second `now` after the Unix epoch.
pub fn check_in_time(now: u64) -> (r: Option<String>)
    ensures
        crate::attribute::text_view(r) == check_in_text(now),
{
    if now <= i64::MAX as u64 {
        write_utc(now as i64, CHECK_IN_FORMAT)
    } else {
        None
    }
}

/// Why a registration could not be stamped.
#[derive(Debug, Clone, Copy, PartialEq, Eq, Structural)]
pub enum StampError {
    /// The clock could not be read.
    ClockUnreadable,
    /// The time of the clock has no date that can be written down.
    TimeOutOfRange,
    /// The lease would end after the last second that can be written down.
    LeaseOverflow,
}

/// The host that `p` registers under the service `name`, checked in at
/// `last_check_in`, with a lease that ends at `expire_time`.
pub open spec fn registered(
    name: Seq<char>,
    p: RegistrationParamView,
    last_check_in: Seq<char>,
    expire_time: u64,
) -> HostView {
    HostView {
        ip_address: p.ip,
        port: p.port,
        last_check_in,
        expire_time,
        revision: p.revision,
        service: name,
        tags: p.tags,
    }
}

/// The host that `p` registers under the service `name` at the time `now`
/// with a lease of `ttl` seconds: its lease ends at `now + ttl`, whatever
/// the client sent.
pub fn host_from_param(
    name: &str,
    p: RegistrationParam,
    ttl: u64,
    now: u64,
    last_check_in: String,
) -> (h: Host)
    requires
        now + ttl <= u64::MAX,
    ensures
        h.expire_time == now + ttl,
        h@ == registered(name@, p@, last_check_in@, (now + ttl) as u64),
{
    Host {
        ip_address: p.ip,
        port: p.port,
        last_check_in,
        expire_time: now + ttl,
        revision: p.revision,
        service: name.to_owned(),
        tags: p.tags,
    }
}

/// What stamping gives for the registration `p` under the service `name`
/// with a lease of `ttl` seconds, at the time `now`, where `None` stands
/// for a clock that could not be read, with the text `last_check_in` of
/// that time, where `None` stands for a time that cannot be written: the
/// host whose lease ends at `now + ttl`, unless that is later than the
/// last second that an unsigned 64-bit integer can hold.
pub open spec fn stamped(
    name: Seq<char>,
    p: RegistrationParamView,
    ttl: u64,
    now: Option<u64>,
    last_check_in: Option<Seq<char>>,
) -> Result<HostView, StampError> {
    match now {
        None => Err(StampError::ClockUnreadable),
        Some(t) => match last_check_in {
            None => Err(StampError::TimeOutOfRange),
            Some(text) => if t + ttl > u64::MAX {
                Err(StampError::LeaseOverflow)
            } else {
                Ok(registered(name, p, text, (t + ttl) as u64))
            },
        },
    }
}

/// What stamping gives at the time `now`, with the text of that time as
/// `chrono` writes it.
pub open spec fn stamped_at(
    name: Seq<char>,
    p: RegistrationParamView,
    ttl: u64,
    now: Option<u64>,
) -> Result<HostView, StampError> {
    stamped(
        name,
        p,
        ttl,
        now,
        match now {
            Some(t) => check_in_text(t),
            None => None,
        },
    )
}

/// The view of the outcome of stamping.
pub open spec fn stamp_view(r: Result<Host, StampError>) -> Result<HostView, StampError> {
    match r {
        Ok(h) => Ok(h@),
        Err(e) => Err(e),
    }
}

/// The host that `p` registers under the service `name` at the time `now`,
/// where `None` stands for a clock that could not be read, with a lease of
/// `ttl` seconds, checked in at the text `last_check_in` of that time,
/// where `None` stands for a time that cannot be written.
pub fn stamp_param(
    name: &str,
    p: RegistrationParam,
    ttl: u64,
    now: Option<u64>,
    last_check_in: Option<String>,
) -> (r: Result<Host, StampError>)
    ensures
        stamp_view(r) == stamped(name@, p@, ttl, now, crate::attribute::text_view(last_check_in)),
{
    match now {
        None => Err(StampError::ClockUnreadable),
        Some(t) => match last_check_in {
            None => Err(StampError::TimeOutOfRange),
            Some(text) => if ttl > u64::MAX - t {
                Err(StampError::LeaseOverflow)
            } else {
                Ok(host_from_param(name, p, ttl, t, text))
            },
        },
    }
}

/// The host that `p` registers under the service `name` now, with a lease
/// of `ttl` seconds: its lease ends `ttl` seconds after the time that the
/// clock shows, and it is checked in at that same time. The clock is read
/// once.
pub fn convert_param_to_host(name: &str, p: RegistrationParam, ttl: u64) -> (r: Result<
    Host,
    StampError,
>)
    ensures
        exists|now: Option<u64>| stamp_view(r) == #[trigger] stamped_at(name@, p@, ttl, now),
{
    let now = epoch_seconds();
    let last_check_in = match now {
        Some(t) => check_in_time(t),
        None => None,
    };
    let r = stamp_param(name, p, ttl, now, last_check_in);
    assert(stamp_view(r) == stamped_at(name@, p@, ttl, now));
    r
}

/// The read-side answer for the service `name` with the live hosts
/// `hosts`.
pub open spec fn registration_of(name: Seq<char>, hosts: Seq<HostView>) -> RegistrationView {
    RegistrationView { service: name, env: ENV@, hosts }
}

/// What a handler replies.
#[derive(Debug)]
pub enum Reply {
    /// How the service is used.
    Usage,
    /// The service is up.
    Health,
    /// The registration of a service.
    Registration(Registration),
    /// The answer to a discovery request.
    Discovery(EdsDiscoveryResponse),
    /// The request was carried out and there is nothing to say.
    Accepted,
    /// The request makes no sense, for the reason given.
    BadRequest(String),
    /// There was no live host to delete.
    HostNotFound,
    /// No such resource.
    NotFound,
    /// The registry store failed.
    Failure(StorageError),
    /// A registration could not be stamped with its times.
    StampFailure(StampError),
}

/// What a `Reply` holds.
pub ghost enum ReplyView {
    Usage,
    Health,
    Registration(RegistrationView),
    Discovery(EdsDiscoveryResponseView),
    Accepted,
    BadRequest(Seq<char>),
    HostNotFound,
    NotFound,
    Failure(StorageErrorView),
    StampFailure(StampError),
}

impl View for Reply {
    type V = ReplyView;

    open spec fn view(&self) -> ReplyView {
        match self {
            Reply::Usage => ReplyView::Usage,
            Reply::Health => ReplyView::Health,
            Reply::Registration(r) => ReplyView::Registration(r@),
            Reply::Discovery(d) => ReplyView::Discovery(d@),
            Reply::Accepted => ReplyView::Accepted,
            Reply::BadRequest(msg) => ReplyView::BadRequest(msg@),
            Reply::HostNotFound => ReplyView::HostNotFound,
            Reply::NotFound => ReplyView::NotFound,
            Reply::Failure(e) => ReplyView::Failure(e@),
            Reply::StampFailure(e) => ReplyView::StampFailure(*e),
        }
    }
}

/// The transport status of a reply. Malformed input and malformed stored
/// data are answered with a client error; a failed backend call, an
/// unreadable clock and a lease that cannot be written down with a server
/// error.
pub open spec fn status_of(r: ReplyView) -> u16 {
    match r {
        ReplyView::Usage => 200,
        ReplyView::Health => 200,
        ReplyView::Registration(_) => 200,
        ReplyView::Discovery(_) => 200,
        ReplyView::Accepted => 202,
        ReplyView::BadRequest(_) => 400,
        ReplyView::HostNotFound => 400,
        ReplyView::NotFound => 404,
        ReplyView::Failure(e) => match e.kind {
            ErrorKind::DataError => 400,
            ErrorKind::ApiError => 500,
            ErrorKind::SystemError => 500,
        },
        ReplyView::StampFailure(_) => 500,
    }
}

impl Reply {
    /// The transport status of the reply.
    pub fn status(&self) -> (code: u16)
        ensures
            code == status_of(self@),
    {
        match self {
            Reply::Usage => 200,
            Reply::Health => 200,
            Reply::Registration(_) => 200,
            Reply::Discovery(_) => 200,
            Reply::Accepted => 202,
            Reply::BadRequest(_) => 400,
            Reply::HostNotFound => 400,
            Reply::NotFound => 404,
            Reply::Failure(e) => match e.kind() {
                ErrorKind::DataError => 400,
                ErrorKind::ApiError => 500,
                ErrorKind::SystemError => 500,
            },
            Reply::StampFailure(_) => 500,
        }
    }
}

/// The reply to a read of the service `name`, given what the store
/// answered.
pub fn registration_reply(name: &str, found: Result<Vec<Host>, StorageError>) -> (r: Reply)
    ensures
        match found {
            Ok(hosts) => r@ == ReplyView::Registration(
                registration_of(name@, host_views(hosts@)),
            ),
            Err(e) => r@ == ReplyView::Failure(e@),
        },
{
    match found {
        Ok(hosts) => Reply::Registration(
            Registration { service: name.to_owned(), env: ENV.to_owned(), hosts },
        ),
        Err(e) => Reply::Failure(e),
    }
}

/// The reply to a registration, given what the store answered.
pub fn register_reply(stored: Result<(), StorageError>) -> (r: Reply)
    ensures
        match stored {
            Ok(()) => r@ == ReplyView::Accepted,
            Err(e) => r@ == ReplyView::Failure(e@),
        },
{
    match stored {
        Ok(()) => Reply::Accepted,
        Err(e) => Reply::Failure(e),
    }
}

/// The reply to a delete, given what the store answered: a host that was
/// not there, or had expired, was not found.
pub fn delete_reply(deleted: Result<Option<Host>, StorageError>) -> (r: Reply)
    ensures
        match deleted {
            Ok(Some(_)) => r@ == ReplyView::Accepted,
            Ok(None) => r@ == ReplyView::HostNotFound,
            Err(e) => r@ == ReplyView::Failure(e@),
        },
{
    match deleted {
        Ok(Some(_)) => Reply::Accepted,
        Ok(None) => Reply::HostNotFound,
        Err(e) => Reply::Failure(e),
    }
}

/// The refusal of a path whose port is not the text of an unsigned integer.
pub open spec fn invalid_port_reply(port: Seq<char>) -> ReplyView {
    ReplyView::BadRequest("Given port is invalid as integer: "@ + port)
}

/// Reads the registration of the service `name` from the store.
pub fn get_registration<S: Storage<E = StorageError>>(s: &S, name: &str) -> (r: Reply)
    ensures
        r@ is Registration || r@ is Failure,
        r@ matches ReplyView::Registration(v) ==> exists|hosts: Seq<HostView>|
            v == #[trigger] registration_of(name@, hosts),
{
    let found = s.query_items(name);
    registration_reply(name, found)
}

/// `v` answers a request for the services `names` with what the store
/// found for each: `services` pairs each name, in the order of the
/// request, with the hosts found for it.
pub open spec fn answers_request(
    v: EdsDiscoveryResponseView,
    names: Seq<String>,
    services: Seq<(String, Vec<Host>)>,
) -> bool {
    &&& answers(v, services)
    &&& services.len() == names.len()
    &&& forall|i: int| 0 <= i < services.len() ==> (#[trigger] services[i]).0@ == names[i]@
}

/// Answers a discovery request from the store: one assignment for each
/// service named, in the order of the request, unless the store fails on
/// one of them. A request that names no service asks nothing of the store
/// and is answered with no assignment.
pub fn get_registration_v2<S: Storage<E = StorageError>>(s: &S, d_req: &DiscoveryRequest) -> (r:
    Reply)
    ensures
        r@ is Discovery || r@ is Failure,
        r@ matches ReplyView::Discovery(v) ==> v.version_info.len() == 36 && exists|
            services: Seq<(String, Vec<Host>)>,
        | #[trigger] answers_request(v, d_req.resource_names@, services),
        d_req.resource_names@.len() == 0 ==> (r@ matches ReplyView::Discovery(v)
            && v.resources.len() == 0 && v.version_info.len() == 36),
{
    let mut services: Vec<(String, Vec<Host>)> = Vec::new();
    let mut i: usize = 0;
    while i < d_req.resource_names.len()
        invariant
            i <= d_req.resource_names@.len(),
            services@.len() == i,
            forall|j: int|
                0 <= j < i ==> (#[trigger] services@[j]).0@ == d_req.resource_names@[j]@,
        decreases d_req.resource_names@.len() - i,
    {
        let name = d_req.resource_names[i].clone();
        let hosts = match s.query_items(name.as_str()) {
            Ok(v) => v,
            Err(e) => {
                return Reply::Failure(e);
            },
        };
        services.push((name, hosts));
        i = i + 1;
    }
    let ghost asked = services@;
    let response = discovery_response(services);
    proof {
        assert(answers_request(response@, d_req.resource_names@, asked));
    }
    let r = Reply::Discovery(response);
    assert(r@ matches ReplyView::Discovery(v) && answers_request(v, d_req.resource_names@, asked));
    r
}

/// `r` replies to a registration whose stamping gave `stamp`: a stamp that
/// failed is the reply, and with a stamped host the reply is what the store
/// made of it.
pub open spec fn replies_to_stamp(r: ReplyView, stamp: Result<HostView, StampError>) -> bool {
    match stamp {
        Err(e) => r == ReplyView::StampFailure(e),
        Ok(_) => r is Accepted || r is Failure,
    }
}

/// Registers the host that `param` describes under the service `name`,
/// with the lease of the store. Where the host cannot be stamped the store
/// is not asked to keep anything.
pub fn register_hosts<S: Storage<E = StorageError>>(s: &S, name: &str, param: RegistrationParam) -> (r:
    Reply)
    ensures
        r@ is Accepted || r@ is Failure || r@ is StampFailure,
        exists|ttl: u64, now: Option<u64>| #[trigger]
            replies_to_stamp(r@, stamped_at(name@, param@, ttl, now)),
{
    let ttl = s.ttl();
    let stamp = convert_param_to_host(name, param, ttl);
    let ghost now = choose|now: Option<u64>|
        stamp_view(stamp) == #[trigger] stamped_at(name@, param@, ttl, now);
    let host = match stamp {
        Ok(v) => v,
        Err(e) => {
            let r = Reply::StampFailure(e);
            assert(replies_to_stamp(r@, stamped_at(name@, param@, ttl, now)));
            return r;
        },
    };
    let stored = s.store_item(name, host);
    let r = register_reply(stored);
    assert(replies_to_stamp(r@, stamped_at(name@, param@, ttl, now)));
    r
}

/// Deletes the host of the service `name` at `ip` and the port that
/// `port_string` is the decimal text of. A text that is no unsigned 64-bit
/// integer is refused before the store is asked.
pub fn delete_host<S: Storage<E = StorageError>>(
    s: &S,
    name: &str,
    ip: String,
    port_string: &str,
) -> (r: Reply)
    ensures
        match parse_decimal(port_string@, u64::MAX as nat) {
            None => r@ == invalid_port_reply(port_string@),
            Some(_) => r@ is Accepted || r@ is HostNotFound || r@ is Failure,
        },
{
    let port = match parse_u64(port_string) {
        Some(v) => v,
        None => {
            let mut msg = "Given port is invalid as integer: ".to_owned();
            msg.append(port_string);
            return Reply::BadRequest(msg);
        },
    };
    let deleted = s.delete_item(name, ip, port);
    delete_reply(deleted)
}

} // verus!
