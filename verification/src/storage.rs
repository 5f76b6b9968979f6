//! The registry store: how a host is written to and read from a row of the
//! key-value backend, and what the store decides around each backend call.

use vstd::prelude::*;
use vstd::string::StringExecFns;
use crate::attribute::{AttributeMap, AttributeModel, AttributeValue};
use crate::decimal::{
    decimal, lemma_decimal_lacks, lemma_parse_decimal_round_trip, parse_decimal, parse_u16,
    parse_u64, parse_u8, to_decimal,
};
use crate::text::{
    lemma_split_sole_counts, lemma_split_sole_joined, occurrences, split_at_sole, split_sole,
};
use crate::types::{expired_hosts, host_views, live_hosts, Host, HostView, Tag, TagView};

verus! {

/// What went wrong in the store.
#[derive(Debug, Clone, Copy, PartialEq, Eq, Structural)]
pub enum ErrorKind {
    /// The backend call failed or timed out.
    ApiError,
    /// A stored row does not have the expected shape.
    DataError,
    /// The wall clock could not be read.
    SystemError,
}

/// A failure of the store: its kind and a message for people.
#[derive(Debug, Clone)]
pub struct StorageError {
    kind: ErrorKind,
    msg: String,
}

/// What a `StorageError` holds.
pub ghost struct StorageErrorView {
    pub kind: ErrorKind,
    pub msg: Seq<char>,
}

impl View for StorageError {
    type V = StorageErrorView;

    closed spec fn view(&self) -> StorageErrorView {
        StorageErrorView { kind: self.kind, msg: self.msg@ }
    }
}

impl StorageError {
    /// The kind of the failure.
    pub fn kind(&self) -> (k: ErrorKind)
        ensures
            k == self@.kind,
    {
        self.kind
    }

    /// The message of the failure.
    pub fn to_string(&self) -> (s: String)
        ensures
            s@ == self@.msg,
    {
        self.msg.clone()
    }
}

/// The failure of kind `DataError` with the message `msg`.
pub open spec fn data_error(msg: Seq<char>) -> StorageErrorView {
    StorageErrorView { kind: ErrorKind::DataError, msg }
}

/// The failure of kind `ApiError` for the backend operation `op` that
/// failed with `cause`.
pub open spec fn api_error(op: Seq<char>, cause: Seq<char>) -> StorageErrorView {
    StorageErrorView { kind: ErrorKind::ApiError, msg: "API Error in "@ + op + ": "@ + cause }
}

/// The failure of kind `SystemError` for a clock that could not be read.
pub open spec fn clock_error() -> StorageErrorView {
    StorageErrorView { kind: ErrorKind::SystemError, msg: "Cloud not fetch system time"@ }
}

/// The message for a row that lacks the attribute `k`.
pub open spec fn missing_message(k: Seq<char>) -> Seq<char> {
    "Missing required value for key: "@ + k
}

/// The message for an attribute `k` that does not have the backend type
/// called `expected`.
pub open spec fn mistyped_message(k: Seq<char>, expected: Seq<char>) -> Seq<char> {
    "Key \""@ + k + "\" is expected to be a "@ + expected + " but is not"@
}

/// The message for a number attribute `k` whose text `found` is no
/// number of the integer type called `width`.
pub open spec fn not_a_number_message(k: Seq<char>, width: Seq<char>, found: Seq<char>) -> Seq<
    char,
> {
    "Key \""@ + k + "\" is expected to be a Number ("@ + width + ") value but is not: "@ + found
}

/// The message for a sort key that is not one address and one port around
/// a single colon.
pub open spec fn malformed_ip_port_message(found: Seq<char>) -> Seq<char> {
    "\""@ + found + "\" must be formated with colon like \"ip:port\""@
}

/// The message for a port that is no 16-bit unsigned integer.
pub open spec fn invalid_port_message(found: Seq<char>) -> Seq<char> {
    "port value must be a valid integer: "@ + found
}

/// `a` followed by `b`.
fn join2(a: &str, b: &str) -> (s: String)
    ensures
        s@ == a@ + b@,
{
    let mut s = a.to_owned();
    s.append(b);
    s
}

/// The failure of kind `DataError` with the message `msg`, as the error
/// of a result.
pub fn build_data_error<T>(msg: String) -> (r: Result<T, StorageError>)
    ensures
        r matches Err(e) && e@ == data_error(msg@),
{
    Err(StorageError { kind: ErrorKind::DataError, msg })
}

/// The failure of kind `ApiError` for the operation `op` that failed with
/// `cause`.
fn build_api_error(op: &str, cause: &str) -> (e: StorageError)
    ensures
        e@ == api_error(op@, cause@),
{
    let mut msg = join2("API Error in ", op);
    msg.append(": ");
    msg.append(cause);
    StorageError { kind: ErrorKind::ApiError, msg }
}

/// The failure of kind `SystemError` for a clock that could not be read.
fn build_clock_error() -> (e: StorageError)
    ensures
        e@ == clock_error(),
{
    StorageError { kind: ErrorKind::SystemError, msg: "Cloud not fetch system time".to_owned() }
}

fn build_mistyped<T>(k: &str, expected: &str) -> (r: Result<T, StorageError>)
    ensures
        r matches Err(e) && e@ == data_error(mistyped_message(k@, expected@)),
{
    let mut msg = join2("Key \"", k);
    msg.append("\" is expected to be a ");
    msg.append(expected);
    msg.append(" but is not");
    build_data_error(msg)
}

fn build_not_a_number<T>(k: &str, width: &str, found: &str) -> (r: Result<T, StorageError>)
    ensures
        r matches Err(e) && e@ == data_error(not_a_number_message(k@, width@, found@)),
{
    let mut msg = join2("Key \"", k);
    msg.append("\" is expected to be a Number (");
    msg.append(width);
    msg.append(") value but is not: ");
    msg.append(found);
    build_data_error(msg)
}

/// The value of the required attribute `k` of the row `m`.
pub open spec fn value_at(m: Map<Seq<char>, AttributeModel>, k: Seq<char>) -> Result<
    AttributeModel,
    StorageErrorView,
> {
    if m.contains_key(k) {
        Ok(m[k])
    } else {
        Err(data_error(missing_message(k)))
    }
}

/// The text of the required string attribute `k` of the row `m`.
pub open spec fn string_at(m: Map<Seq<char>, AttributeModel>, k: Seq<char>) -> Result<
    Seq<char>,
    StorageErrorView,
> {
    match value_at(m, k) {
        Err(e) => Err(e),
        Ok(v) => match v.s {
            Some(s) => Ok(s),
            None => Err(data_error(mistyped_message(k, "String"@))),
        },
    }
}

/// The value of the required boolean attribute `k` of the row `m`.
pub open spec fn bool_at(m: Map<Seq<char>, AttributeModel>, k: Seq<char>) -> Result<
    bool,
    StorageErrorView,
> {
    match value_at(m, k) {
        Err(e) => Err(e),
        Ok(v) => match v.boolean {
            Some(b) => Ok(b),
            None => Err(data_error(mistyped_message(k, "Boolean"@))),
        },
    }
}

/// The value of the required number attribute `k` of the row `m`, as an
/// unsigned 64-bit integer.
pub open spec fn number_at(m: Map<Seq<char>, AttributeModel>, k: Seq<char>) -> Result<
    u64,
    StorageErrorView,
> {
    match value_at(m, k) {
        Err(e) => Err(e),
        Ok(v) => match v.n {
            Some(t) => match parse_decimal(t, u64::MAX as nat) {
                Some(x) => Ok(x as u64),
                None => Err(data_error(not_a_number_message(k, "u64"@, t))),
            },
            None => Err(data_error(mistyped_message(k, "Number"@))),
        },
    }
}

/// The nested map of the required map attribute `k` of the row `m`.
pub open spec fn map_at(m: Map<Seq<char>, AttributeModel>, k: Seq<char>) -> Result<
    Map<Seq<char>, AttributeModel>,
    StorageErrorView,
> {
    match value_at(m, k) {
        Err(e) => Err(e),
        Ok(v) => match v.m {
            Some(inner) => Ok(inner),
            None => Err(data_error(mistyped_message(k, "Map"@))),
        },
    }
}

/// The value of the optional number attribute `k` of the row `m`, as an
/// unsigned 8-bit integer: `None` where the row has no such attribute.
pub open spec fn small_number_at(m: Map<Seq<char>, AttributeModel>, k: Seq<char>) -> Result<
    Option<u8>,
    StorageErrorView,
> {
    if !m.contains_key(k) {
        Ok(None)
    } else {
        match m[k].n {
            Some(t) => match parse_decimal(t, u8::MAX as nat) {
                Some(x) => Ok(Some(x as u8)),
                None => Err(data_error(not_a_number_message(k, "u8"@, t))),
            },
            None => Err(data_error(mistyped_message(k, "Number"@))),
        }
    }
}

/// Takes the required attribute `k` out of the row.
pub fn extract(m: &mut AttributeMap, k: &str) -> (r: Result<AttributeValue, StorageError>)
    ensures
        final(m)@ == old(m)@.remove(k@),
        match r {
            Ok(v) => value_at(old(m)@, k@) == Ok::<AttributeModel, StorageErrorView>(v@),
            Err(e) => value_at(old(m)@, k@) == Err::<AttributeModel, StorageErrorView>(e@),
        },
{
    match m.remove(k) {
        Some(v) => Ok(v),
        None => build_data_error(join2("Missing required value for key: ", k)),
    }
}

/// Takes the required string attribute `k` out of the row.
pub fn extract_string(m: &mut AttributeMap, k: &str) -> (r: Result<String, StorageError>)
    ensures
        final(m)@ == old(m)@.remove(k@),
        match r {
            Ok(s) => string_at(old(m)@, k@) == Ok::<Seq<char>, StorageErrorView>(s@),
            Err(e) => string_at(old(m)@, k@) == Err::<Seq<char>, StorageErrorView>(e@),
        },
{
    let v = extract(m, k)?;
    match v.s {
        Some(s) => Ok(s),
        None => build_mistyped(k, "String"),
    }
}

/// Takes the required boolean attribute `k` out of the row.
pub fn extract_bool(m: &mut AttributeMap, k: &str) -> (r: Result<bool, StorageError>)
    ensures
        final(m)@ == old(m)@.remove(k@),
        match r {
            Ok(b) => bool_at(old(m)@, k@) == Ok::<bool, StorageErrorView>(b),
            Err(e) => bool_at(old(m)@, k@) == Err::<bool, StorageErrorView>(e@),
        },
{
    let v = extract(m, k)?;
    match v.boolean {
        Some(b) => Ok(b),
        None => build_mistyped(k, "Boolean"),
    }
}

/// Takes the required number attribute `k` out of the row and reads it as
/// an unsigned 64-bit integer.
pub fn extract_number(m: &mut AttributeMap, k: &str) -> (r: Result<u64, StorageError>)
    ensures
        final(m)@ == old(m)@.remove(k@),
        match r {
            Ok(x) => number_at(old(m)@, k@) == Ok::<u64, StorageErrorView>(x),
            Err(e) => number_at(old(m)@, k@) == Err::<u64, StorageErrorView>(e@),
        },
{
    let v = extract(m, k)?;
    match v.n {
        Some(s) => match parse_u64(s.as_str()) {
            Some(u) => Ok(u),
            None => build_not_a_number(k, "u64", s.as_str()),
        },
        None => build_mistyped(k, "Number"),
    }
}

/// Takes the required map attribute `k` out of the row.
pub fn extract_map(m: &mut AttributeMap, k: &str) -> (r: Result<AttributeMap, StorageError>)
    ensures
        final(m)@ == old(m)@.remove(k@),
        match r {
            Ok(inner) => map_at(old(m)@, k@) == Ok::<
                Map<Seq<char>, AttributeModel>,
                StorageErrorView,
            >(inner@),
            Err(e) => map_at(old(m)@, k@) == Err::<
                Map<Seq<char>, AttributeModel>,
                StorageErrorView,
            >(e@),
        },
{
    let v = extract(m, k)?;
    match v.m {
        Some(map) => Ok(map),
        None => build_mistyped(k, "Map"),
    }
}

/// Takes the optional number attribute `k` out of the row and reads it as
/// an unsigned 8-bit integer.
pub fn extract_u8(m: &mut AttributeMap, k: &str) -> (r: Result<Option<u8>, StorageError>)
    ensures
        final(m)@ == old(m)@.remove(k@),
        match r {
            Ok(x) => small_number_at(old(m)@, k@) == Ok::<Option<u8>, StorageErrorView>(x),
            Err(e) => small_number_at(old(m)@, k@) == Err::<Option<u8>, StorageErrorView>(e@),
        },
{
    match m.remove(k) {
        Some(v) => match v.n {
            Some(s) => match parse_u8(s.as_str()) {
                Some(u) => Ok(Some(u)),
                None => build_not_a_number(k, "u8", s.as_str()),
            },
            None => build_mistyped(k, "Number"),
        },
        None => Ok(None),
    }
}

/// The names of the attributes of a row are pairwise different, and so are
/// the names inside its `tags` map.
pub proof fn lemma_names_differ()
    ensures
        "service"@ != "ip_port"@,
        "service"@ != "last_check_in"@,
        "service"@ != "expire_time"@,
        "service"@ != "revision"@,
        "service"@ != "tags"@,
        "ip_port"@ != "last_check_in"@,
        "ip_port"@ != "expire_time"@,
        "ip_port"@ != "revision"@,
        "ip_port"@ != "tags"@,
        "last_check_in"@ != "expire_time"@,
        "last_check_in"@ != "revision"@,
        "last_check_in"@ != "tags"@,
        "expire_time"@ != "revision"@,
        "expire_time"@ != "tags"@,
        "revision"@ != "tags"@,
        "az"@ != "region"@,
        "az"@ != "instance_id"@,
        "az"@ != "canary"@,
        "az"@ != "load_balancing_weight"@,
        "region"@ != "instance_id"@,
        "region"@ != "canary"@,
        "region"@ != "load_balancing_weight"@,
        "instance_id"@ != "canary"@,
        "instance_id"@ != "load_balancing_weight"@,
        "canary"@ != "load_balancing_weight"@,
{
    reveal_strlit("service");
    reveal_strlit("ip_port");
    reveal_strlit("last_check_in");
    reveal_strlit("expire_time");
    reveal_strlit("revision");
    reveal_strlit("tags");
    reveal_strlit("az");
    reveal_strlit("region");
    reveal_strlit("instance_id");
    reveal_strlit("canary");
    reveal_strlit("load_balancing_weight");
    assert("service"@[0] != "ip_port"@[0]);
    assert("region"@[0] != "canary"@[0]);
    assert("service"@.len() == 7);
    assert("ip_port"@.len() == 7);
    assert("last_check_in"@.len() == 13);
    assert("expire_time"@.len() == 11);
    assert("revision"@.len() == 8);
    assert("tags"@.len() == 4);
    assert("az"@.len() == 2);
    assert("region"@.len() == 6);
    assert("instance_id"@.len() == 11);
    assert("canary"@.len() == 6);
    assert("load_balancing_weight"@.len() == 21);
}

/// The tags that the nested map `m` of a row stands for.
pub open spec fn tag_of(m: Map<Seq<char>, AttributeModel>) -> Result<TagView, StorageErrorView> {
    match string_at(m, "az"@) {
        Err(e) => Err(e),
        Ok(az) => match string_at(m, "region"@) {
            Err(e) => Err(e),
            Ok(region) => match string_at(m, "instance_id"@) {
                Err(e) => Err(e),
                Ok(instance_id) => match bool_at(m, "canary"@) {
                    Err(e) => Err(e),
                    Ok(canary) => match small_number_at(m, "load_balancing_weight"@) {
                        Err(e) => Err(e),
                        Ok(load_balancing_weight) => Ok(
                            TagView { az, region, instance_id, canary, load_balancing_weight },
                        ),
                    },
                },
            },
        },
    }
}

/// The address and the port that the sort key `text` stands for: the text
/// holds exactly one colon, the address is what stands before it, and what
/// stands after it is the decimal text of the port.
pub open spec fn address_of(text: Seq<char>) -> Result<(Seq<char>, u16), StorageErrorView> {
    match split_sole(text, ':') {
        None => Err(data_error(malformed_ip_port_message(text))),
        Some((ip, port)) => match parse_decimal(port, u16::MAX as nat) {
            None => Err(data_error(invalid_port_message(port))),
            Some(p) => Ok((ip, p as u16)),
        },
    }
}

/// The host that the row `m`, stored under the service `name`, stands for.
/// A row that cannot be read gives the failure of the first attribute, in
/// the order `tags`, `ip_port`, `last_check_in`, `expire_time`, `revision`,
/// that is missing or malformed.
pub open spec fn host_of(name: Seq<char>, m: Map<Seq<char>, AttributeModel>) -> Result<
    HostView,
    StorageErrorView,
> {
    match map_at(m, "tags"@) {
        Err(e) => Err(e),
        Ok(tag_row) => match tag_of(tag_row) {
            Err(e) => Err(e),
            Ok(tags) => match string_at(m, "ip_port"@) {
                Err(e) => Err(e),
                Ok(text) => match address_of(text) {
                    Err(e) => Err(e),
                    Ok(address) => match string_at(m, "last_check_in"@) {
                        Err(e) => Err(e),
                        Ok(last_check_in) => match number_at(m, "expire_time"@) {
                            Err(e) => Err(e),
                            Ok(expire_time) => match string_at(m, "revision"@) {
                                Err(e) => Err(e),
                                Ok(revision) => Ok(
                                    HostView {
                                        ip_address: address.0,
                                        port: address.1,
                                        last_check_in,
                                        expire_time,
                                        revision,
                                        service: name,
                                        tags,
                                    },
                                ),
                            },
                        },
                    },
                },
            },
        },
    }
}

/// Reads the tags out of the nested map of a row.
pub fn convert_ddb_tags_to_domain_tag(tag_map: AttributeMap) -> (r: Result<Tag, StorageError>)
    ensures
        match r {
            Ok(t) => tag_of(tag_map@) == Ok::<TagView, StorageErrorView>(t@),
            Err(e) => tag_of(tag_map@) == Err::<TagView, StorageErrorView>(e@),
        },
{
    proof {
        lemma_names_differ();
    }
    let mut m = tag_map;
    let az = extract_string(&mut m, "az")?;
    let region = extract_string(&mut m, "region")?;
    let instance_id = extract_string(&mut m, "instance_id")?;
    let canary = extract_bool(&mut m, "canary")?;
    let load_balancing_weight = extract_u8(&mut m, "load_balancing_weight")?;
    Ok(Tag { az, region, instance_id, canary, load_balancing_weight })
}

/// Reads the address and the port out of a sort key.
fn parse_ip_port(text: &str) -> (r: Result<(String, u16), StorageError>)
    ensures
        match r {
            Ok((ip, port)) => address_of(text@) == Ok::<(Seq<char>, u16), StorageErrorView>(
                (ip@, port),
            ),
            Err(e) => address_of(text@) == Err::<(Seq<char>, u16), StorageErrorView>(e@),
        },
{
    match split_at_sole(text, ':') {
        None => {
            let mut msg = join2("\"", text);
            msg.append("\" must be formated with colon like \"ip:port\"");
            build_data_error(msg)
        },
        Some((ip, port_string)) => match parse_u16(port_string.as_str()) {
            Some(port) => Ok((ip, port)),
            None => build_data_error(
                join2("port value must be a valid integer: ", port_string.as_str()),
            ),
        },
    }
}

/// Reads the host out of a row stored under the service `name`.
pub fn convert_ddb_host_to_domain_host(name: &str, h: AttributeMap) -> (r: Result<
    Host,
    StorageError,
>)
    ensures
        match r {
            Ok(host) => host_of(name@, h@) == Ok::<HostView, StorageErrorView>(host@),
            Err(e) => host_of(name@, h@) == Err::<HostView, StorageErrorView>(e@),
        },
{
    proof {
        lemma_names_differ();
    }
    let mut m = h;
    let tags = convert_ddb_tags_to_domain_tag(extract_map(&mut m, "tags")?)?;
    let addr_and_port_string = extract_string(&mut m, "ip_port")?;
    let (ip_address, port) = parse_ip_port(addr_and_port_string.as_str())?;
    let last_check_in = extract_string(&mut m, "last_check_in")?;
    let expire_time = extract_number(&mut m, "expire_time")?;
    let revision = extract_string(&mut m, "revision")?;
    Ok(
        Host {
            ip_address,
            port,
            last_check_in,
            expire_time,
            revision,
            service: name.to_owned(),
            tags,
        },
    )
}

/// The nested map that stands for the tags `t`: `az`, `region` and
/// `instance_id` as strings, `canary` as a boolean, and
/// `load_balancing_weight` as a number where the tags have one.
pub open spec fn tag_row(t: TagView) -> Map<Seq<char>, AttributeModel> {
    let always = Map::<Seq<char>, AttributeModel>::empty().insert(
        "az"@,
        AttributeModel::string(t.az),
    ).insert("region"@, AttributeModel::string(t.region)).insert(
        "instance_id"@,
        AttributeModel::string(t.instance_id),
    ).insert("canary"@, AttributeModel::boolean(t.canary));
    match t.load_balancing_weight {
        Some(w) => always.insert(
            "load_balancing_weight"@,
            AttributeModel::number(decimal(w as nat)),
        ),
        None => always,
    }
}

/// The sort key of the address `ip` and the port `port`.
pub open spec fn ip_port(ip: Seq<char>, port: nat) -> Seq<char> {
    ip + seq![':'] + decimal(port)
}

/// The row that stands for the host `h` registered under the service
/// `name`: the partition key `service`, the sort key `ip_port`, then
/// `last_check_in`, `expire_time`, `revision` and `tags`.
pub open spec fn host_row(name: Seq<char>, h: HostView) -> Map<Seq<char>, AttributeModel> {
    Map::<Seq<char>, AttributeModel>::empty().insert(
        "service"@,
        AttributeModel::string(name),
    ).insert("ip_port"@, AttributeModel::string(ip_port(h.ip_address, h.port as nat))).insert(
        "last_check_in"@,
        AttributeModel::string(h.last_check_in),
    ).insert("expire_time"@, AttributeModel::number(decimal(h.expire_time as nat))).insert(
        "revision"@,
        AttributeModel::string(h.revision),
    ).insert("tags"@, AttributeModel::map(tag_row(h.tags)))
}

/// The string-typed attribute value `s`.
pub fn build_string_attr(s: String) -> (v: AttributeValue)
    ensures
        v@ == AttributeModel::string(s@),
{
    let mut v = AttributeValue::empty();
    v.s = Some(s);
    v
}

/// The number-typed attribute value of `n`.
fn build_number_attr(n: u64) -> (v: AttributeValue)
    ensures
        v@ == AttributeModel::number(decimal(n as nat)),
{
    let mut v = AttributeValue::empty();
    v.n = Some(to_decimal(n));
    v
}

/// The sort key of `ip` and `port`.
fn build_ip_port(ip: &str, port: u64) -> (s: String)
    ensures
        s@ == ip_port(ip@, port as nat),
{
    proof {
        reveal_strlit(":");
        assert(":"@ =~= seq![':']);
    }
    let mut s = join2(ip, ":");
    s.append(to_decimal(port).as_str());
    s
}

/// Writes tags as the nested map of a row.
pub fn convert_domain_tag_to_ddb_tag(tag: Tag) -> (m: AttributeMap)
    ensures
        m@ == tag_row(tag@),
{
    let mut map = AttributeMap::new();
    map.insert("az".to_owned(), build_string_attr(tag.az));
    map.insert("region".to_owned(), build_string_attr(tag.region));
    map.insert("instance_id".to_owned(), build_string_attr(tag.instance_id));
    let mut v = AttributeValue::empty();
    v.boolean = Some(tag.canary);
    map.insert("canary".to_owned(), v);
    if let Some(weight) = tag.load_balancing_weight {
        map.insert("load_balancing_weight".to_owned(), build_number_attr(weight as u64));
    }
    map
}

/// Writes a host as the row stored under the service `name`.
pub fn convert_domain_host_to_ddb_host(name: &str, host: Host) -> (m: AttributeMap)
    ensures
        m@ == host_row(name@, host@),
{
    let mut map = AttributeMap::new();
    map.insert("service".to_owned(), build_string_attr(name.to_owned()));
    let ip_port = build_ip_port(host.ip_address.as_str(), host.port as u64);
    map.insert("ip_port".to_owned(), build_string_attr(ip_port));
    map.insert("last_check_in".to_owned(), build_string_attr(host.last_check_in));
    map.insert("expire_time".to_owned(), build_number_attr(host.expire_time));
    map.insert("revision".to_owned(), build_string_attr(host.revision));
    let mut v = AttributeValue::empty();
    v.m = Some(convert_domain_tag_to_ddb_tag(host.tags));
    map.insert("tags".to_owned(), v);
    map
}

/// Tags written as a nested map read back as the same tags.
pub proof fn lemma_tag_round_trip(t: TagView)
    ensures
        tag_of(tag_row(t)) == Ok::<TagView, StorageErrorView>(t),
{
    lemma_names_differ();
    match t.load_balancing_weight {
        Some(w) => {
            lemma_parse_decimal_round_trip(w as nat, u8::MAX as nat);
        },
        None => {},
    }
}

/// A sort key written from an address without a colon and a port reads
/// back as that address and that port.
pub proof fn lemma_ip_port_round_trip(ip: Seq<char>, port: u16)
    requires
        !ip.contains(':'),
    ensures
        address_of(ip_port(ip, port as nat)) == Ok::<(Seq<char>, u16), StorageErrorView>(
            (ip, port),
        ),
{
    lemma_decimal_lacks(port as nat, ':');
    lemma_split_sole_joined(ip, ':', decimal(port as nat));
    lemma_parse_decimal_round_trip(port as nat, u16::MAX as nat);
}

/// A host written as a row under a service and read back from that row is
/// the same host, registered under that service, with every field as it
/// was and the weight present or absent as it was. This holds of every host
/// whose address has no colon in it.
pub proof fn lemma_row_round_trip(name: Seq<char>, h: HostView)
    requires
        !h.ip_address.contains(':'),
    ensures
        host_of(name, host_row(name, h)) == Ok::<HostView, StorageErrorView>(
            HostView { service: name, ..h },
        ),
{
    lemma_names_differ();
    lemma_tag_round_trip(h.tags);
    lemma_ip_port_round_trip(h.ip_address, h.port);
    lemma_parse_decimal_round_trip(h.expire_time as nat, u64::MAX as nat);
}

/// A sort key is read only if it holds exactly one colon and a port in
/// range after it. With no colon, with two or more, or with anything but
/// a 16-bit unsigned number after the colon, the answer is a failure of
/// kind `DataError` that quotes the text; no port is made up.
pub proof fn lemma_malformed_ip_port(text: Seq<char>)
    ensures
        occurrences(text, ':') != 1 ==> address_of(text) == Err::<
            (Seq<char>, u16),
            StorageErrorView,
        >(data_error(malformed_ip_port_message(text))),
        match split_sole(text, ':') {
            Some(parts) => match parse_decimal(parts.1, u16::MAX as nat) {
                Some(port) => address_of(text) == Ok::<(Seq<char>, u16), StorageErrorView>(
                    (parts.0, port as u16),
                ),
                None => address_of(text) == Err::<(Seq<char>, u16), StorageErrorView>(
                    data_error(invalid_port_message(parts.1)),
                ),
            },
            None => occurrences(text, ':') != 1,
        },
        address_of(text) matches Err(e) ==> e.kind == ErrorKind::DataError,
{
    lemma_split_sole_counts(text, ':');
}

/// A row whose sort key cannot be read is never read as a host: the answer
/// is a failure of kind `DataError`.
pub proof fn lemma_row_with_malformed_ip_port(
    name: Seq<char>,
    m: Map<Seq<char>, AttributeModel>,
    text: Seq<char>,
)
    requires
        string_at(m, "ip_port"@) == Ok::<Seq<char>, StorageErrorView>(text),
        address_of(text) is Err,
    ensures
        host_of(name, m) matches Err(e) && e.kind == ErrorKind::DataError,
{
}

/// Whatever keeps a row from being read, the failure is of kind `DataError`.
pub proof fn lemma_unreadable_row_is_data_error(name: Seq<char>, m: Map<Seq<char>, AttributeModel>)
    ensures
        host_of(name, m) matches Err(e) ==> e.kind == ErrorKind::DataError,
{
}

/// The views of the rows of a page, in order.
pub open spec fn row_views(rows: Seq<AttributeMap>) -> Seq<Map<Seq<char>, AttributeModel>> {
    Seq::new(rows.len(), |i: int| rows[i]@)
}

/// The view of an optional row.
pub open spec fn key_view(key: Option<AttributeMap>) -> Option<Map<Seq<char>, AttributeModel>> {
    match key {
        Some(k) => Some(k@),
        None => None,
    }
}

/// A page request to the backend: the rows of one partition, from the
/// start or from where the page before ended. The continuation token is
/// whatever the backend handed out; it is carried, never read.
#[derive(Debug)]
pub struct QueryInput<Token> {
    pub table_name: String,
    pub key_condition_expression: Option<String>,
    pub expression_attribute_values: Option<AttributeMap>,
    pub exclusive_start_key: Option<Token>,
}

/// What a `QueryInput` holds.
pub ghost struct QueryInputView<Token> {
    pub table_name: Seq<char>,
    pub key_condition_expression: Option<Seq<char>>,
    pub expression_attribute_values: Option<Map<Seq<char>, AttributeModel>>,
    pub exclusive_start_key: Option<Token>,
}

impl<Token> View for QueryInput<Token> {
    type V = QueryInputView<Token>;

    open spec fn view(&self) -> QueryInputView<Token> {
        QueryInputView {
            table_name: self.table_name@,
            key_condition_expression: crate::attribute::text_view(self.key_condition_expression),
            expression_attribute_values: key_view(self.expression_attribute_values),
            exclusive_start_key: self.exclusive_start_key,
        }
    }
}

/// One page of the backend's answer to a query: its rows, where the answer
/// holds a list of rows at all, and the continuation token where more rows
/// remain.
#[derive(Debug)]
pub struct QueryOutput<Token> {
    pub items: Option<Vec<AttributeMap>>,
    pub last_evaluated_key: Option<Token>,
}

/// A full-row write to the backend.
#[derive(Debug)]
pub struct PutItemInput {
    pub table_name: String,
    pub item: AttributeMap,
}

/// What a `PutItemInput` holds.
pub ghost struct PutItemInputView {
    pub table_name: Seq<char>,
    pub item: Map<Seq<char>, AttributeModel>,
}

impl View for PutItemInput {
    type V = PutItemInputView;

    open spec fn view(&self) -> PutItemInputView {
        PutItemInputView { table_name: self.table_name@, item: self.item@ }
    }
}

/// A delete of one row of the backend, by its key.
#[derive(Debug)]
pub struct DeleteItemInput {
    pub table_name: String,
    pub key: AttributeMap,
    pub return_values: Option<String>,
}

/// What a `DeleteItemInput` holds.
pub ghost struct DeleteItemInputView {
    pub table_name: Seq<char>,
    pub key: Map<Seq<char>, AttributeModel>,
    pub return_values: Option<Seq<char>>,
}

impl View for DeleteItemInput {
    type V = DeleteItemInputView;

    open spec fn view(&self) -> DeleteItemInputView {
        DeleteItemInputView {
            table_name: self.table_name@,
            key: self.key@,
            return_values: crate::attribute::text_view(self.return_values),
        }
    }
}

/// The request for the rows of the service `name` in the table `table`,
/// from the row after `start`, or from the first row where there is no
/// `start`.
pub open spec fn query_input<Token>(
    table: Seq<char>,
    name: Seq<char>,
    start: Option<Token>,
) -> QueryInputView<Token> {
    QueryInputView {
        table_name: table,
        key_condition_expression: Some("service = :service_val"@),
        expression_attribute_values: Some(
            Map::<Seq<char>, AttributeModel>::empty().insert(
                ":service_val"@,
                AttributeModel::string(name),
            ),
        ),
        exclusive_start_key: start,
    }
}

/// The write of the host `h` under the service `name` into the table
/// `table`.
pub open spec fn put_item_input(table: Seq<char>, name: Seq<char>, h: HostView) -> PutItemInputView {
    PutItemInputView { table_name: table, item: host_row(name, h) }
}

/// The delete of the row of `(name, ip, port)` from the table `table`,
/// asking the backend for what the row held.
pub open spec fn delete_item_input(
    table: Seq<char>,
    name: Seq<char>,
    ip: Seq<char>,
    port: u64,
) -> DeleteItemInputView {
    DeleteItemInputView {
        table_name: table,
        key: Map::<Seq<char>, AttributeModel>::empty().insert(
            "service"@,
            AttributeModel::string(name),
        ).insert("ip_port"@, AttributeModel::string(ip_port(ip, port as nat))),
        return_values: Some("ALL_OLD"@),
    }
}

/// The request for the first page of the rows of the service `name`.
pub fn build_query_input<Token>(table_name: String, name: &str) -> (input: QueryInput<Token>)
    ensures
        input@ == query_input::<Token>(table_name@, name@, None),
{
    let mut expression_attribute_values = AttributeMap::new();
    expression_attribute_values.insert(
        ":service_val".to_owned(),
        build_string_attr(name.to_owned()),
    );
    QueryInput {
        table_name,
        key_condition_expression: Some("service = :service_val".to_owned()),
        expression_attribute_values: Some(expression_attribute_values),
        exclusive_start_key: None,
    }
}

/// The write of `host` under the service `name`.
pub fn build_put_item_input(table_name: String, name: &str, host: Host) -> (input: PutItemInput)
    ensures
        input@ == put_item_input(table_name@, name@, host@),
{
    PutItemInput { table_name, item: convert_domain_host_to_ddb_host(name, host) }
}

/// The delete of the row of `(name, ip, port)`.
pub fn build_delete_item_input(table_name: String, name: &str, ip: &str, port: u64) -> (input:
    DeleteItemInput)
    ensures
        input@ == delete_item_input(table_name@, name@, ip@, port),
{
    let mut pk = AttributeMap::new();
    pk.insert("service".to_owned(), build_string_attr(name.to_owned()));
    pk.insert("ip_port".to_owned(), build_string_attr(build_ip_port(ip, port)));
    DeleteItemInput { table_name, key: pk, return_values: Some("ALL_OLD".to_owned()) }
}

/// The hosts that the rows `rows`, stored under the service `name`, stand
/// for, in order. One row that cannot be read fails the whole list, with
/// the failure of the first such row.
pub open spec fn hosts_of(name: Seq<char>, rows: Seq<Map<Seq<char>, AttributeModel>>) -> Result<
    Seq<HostView>,
    StorageErrorView,
>
    decreases rows.len(),
{
    if rows.len() == 0 {
        Ok(Seq::empty())
    } else {
        match hosts_of(name, rows.drop_last()) {
            Err(e) => Err(e),
            Ok(hosts) => match host_of(name, rows.last()) {
                Err(e) => Err(e),
                Ok(h) => Ok(hosts.push(h)),
            },
        }
    }
}

/// Once a prefix of the rows cannot be read, the whole list fails in the
/// same way.
pub proof fn lemma_hosts_of_prefix_fails(
    name: Seq<char>,
    rows: Seq<Map<Seq<char>, AttributeModel>>,
    k: int,
)
    requires
        0 <= k <= rows.len(),
        hosts_of(name, rows.take(k)) is Err,
    ensures
        hosts_of(name, rows) == hosts_of(name, rows.take(k)),
    decreases rows.len() - k,
{
    if k == rows.len() {
        assert(rows.take(k) =~= rows);
    } else {
        assert(rows.take(k + 1).drop_last() =~= rows.take(k));
        lemma_hosts_of_prefix_fails(name, rows, k + 1);
    }
}

/// Appending one host to a list appends it to the live ones exactly when
/// it is live.
pub proof fn lemma_live_hosts_push(hosts: Seq<HostView>, h: HostView, now: u64)
    ensures
        live_hosts(hosts.push(h), now) == if h.is_live(now) {
            live_hosts(hosts, now).push(h)
        } else {
            live_hosts(hosts, now)
        },
{
    reveal(Seq::filter);
    assert(hosts.push(h).drop_last() =~= hosts);
}

/// A host is among the live hosts of a list exactly when it is in the list
/// and its lease has not run out: a host that expires at `now` is still
/// among them, one that expired a second earlier is not.
pub proof fn lemma_live_hosts_membership(hosts: Seq<HostView>, now: u64, h: HostView)
    ensures
        live_hosts(hosts, now).contains(h) <==> hosts.contains(h) && h.expire_time >= now,
    decreases hosts.len(),
{
    reveal(Seq::filter);
    if hosts.len() > 0 {
        let front = hosts.drop_last();
        let last = hosts.last();
        lemma_live_hosts_membership(front, now, h);
        assert(hosts =~= front.push(last));
        lemma_live_hosts_push(front, last, now);
        let live = live_hosts(front, now);
        if live_hosts(hosts, now).contains(h) {
            let i = choose|i: int| 0 <= i < live_hosts(hosts, now).len() && live_hosts(hosts, now)[i] == h;
            if last.is_live(now) && i == live.len() {
                assert(hosts[hosts.len() - 1] == h);
            } else {
                assert(live[i] == h);
                let j = choose|j: int| 0 <= j < front.len() && front[j] == h;
                assert(hosts[j] == h);
            }
        }
        if hosts.contains(h) && h.expire_time >= now {
            let j = choose|j: int| 0 <= j < hosts.len() && hosts[j] == h;
            if j == hosts.len() - 1 {
                assert(live.push(last)[live.len() as int] == h);
            } else {
                assert(front[j] == h);
                let i = choose|i: int| 0 <= i < live.len() && live[i] == h;
                assert(live_hosts(hosts, now)[i] == h);
            }
        }
    }
}

/// The live hosts of two lists, one after the other, are the live hosts
/// of the first followed by those of the second.
pub proof fn lemma_live_hosts_of_two_pages(a: Seq<HostView>, b: Seq<HostView>, now: u64)
    ensures
        live_hosts(a + b, now) == live_hosts(a, now) + live_hosts(b, now),
{
    Seq::filter_distributes_over_add(a, b, |h: HostView| h.is_live(now));
}

/// The rows of two pages, one after the other, stand for the hosts of the
/// first followed by those of the second, and fail with the first failure
/// of either.
pub proof fn lemma_hosts_of_two_pages(
    name: Seq<char>,
    a: Seq<Map<Seq<char>, AttributeModel>>,
    b: Seq<Map<Seq<char>, AttributeModel>>,
)
    ensures
        hosts_of(name, a + b) == match hosts_of(name, a) {
            Err(e) => Err(e),
            Ok(x) => match hosts_of(name, b) {
                Err(e) => Err(e),
                Ok(y) => Ok(x + y),
            },
        },
    decreases b.len(),
{
    if b.len() == 0 {
        assert(a + b =~= a);
        if let Ok(x) = hosts_of(name, a) {
            assert(x + Seq::<HostView>::empty() =~= x);
        }
    } else {
        lemma_hosts_of_two_pages(name, a, b.drop_last());
        assert((a + b).drop_last() =~= a + b.drop_last());
        assert((a + b).last() == b.last());
        if let Ok(x) = hosts_of(name, a) {
            if let Ok(y) = hosts_of(name, b.drop_last()) {
                if let Ok(h) = host_of(name, b.last()) {
                    assert((x + y).push(h) =~= x + y.push(h));
                }
            }
        }
    }
}

/// Appending one host to a list appends it to the expired ones exactly
/// when its lease has run out.
pub proof fn lemma_expired_hosts_push(hosts: Seq<HostView>, h: HostView, now: u64)
    ensures
        expired_hosts(hosts.push(h), now) == if h.is_live(now) {
            expired_hosts(hosts, now)
        } else {
            expired_hosts(hosts, now).push(h)
        },
{
    reveal(Seq::filter);
    assert(hosts.push(h).drop_last() =~= hosts);
}

/// The expired hosts of two lists, one after the other, are the expired
/// hosts of the first followed by those of the second.
pub proof fn lemma_expired_hosts_of_two_pages(a: Seq<HostView>, b: Seq<HostView>, now: u64)
    ensures
        expired_hosts(a + b, now) == expired_hosts(a, now) + expired_hosts(b, now),
{
    Seq::filter_distributes_over_add(a, b, |h: HostView| !h.is_live(now));
}

/// Every host is either live or expired: the two lists together are as
/// long as the list they are taken from.
pub proof fn lemma_live_or_expired(hosts: Seq<HostView>, now: u64)
    ensures
        live_hosts(hosts, now).len() + expired_hosts(hosts, now).len() == hosts.len(),
    decreases hosts.len(),
{
    reveal(Seq::filter);
    if hosts.len() > 0 {
        let front = hosts.drop_last();
        lemma_live_or_expired(front, now);
        assert(hosts =~= front.push(hosts.last()));
        lemma_live_hosts_push(front, hosts.last(), now);
        lemma_expired_hosts_push(front, hosts.last(), now);
    }
}

/// Pages do not show in what a query finds: reading one page and then the
/// next leaves the query where reading the rows of both as one page would
/// have left it.
pub proof fn lemma_pages_join<Token>(
    table: Seq<char>,
    progress: QueryProgressView,
    first: Seq<Map<Seq<char>, AttributeModel>>,
    token: Token,
    second: Seq<Map<Seq<char>, AttributeModel>>,
    last: Option<Token>,
)
    ensures
        match next_step(table, progress, Ok((Some(first), Some(token)))) {
            QueryStepView::Fetch(after, _) => next_step(table, after, Ok((Some(second), last)))
                == next_step(table, progress, Ok((Some(first + second), last))),
            QueryStepView::Failed(e) => next_step(
                table,
                progress,
                Ok((Some(first + second), last)),
            ) == QueryStepView::<Token>::Failed(e),
            QueryStepView::Done(_) => false,
        },
{
    lemma_hosts_of_two_pages(progress.name, first, second);
    if let Ok(x) = hosts_of(progress.name, first) {
        if let Ok(y) = hosts_of(progress.name, second) {
            let now = progress.epoch_now;
            lemma_live_hosts_of_two_pages(x, y, now);
            lemma_expired_hosts_of_two_pages(x, y, now);
            assert((progress.hosts + live_hosts(x, now)) + live_hosts(y, now) =~= progress.hosts + (
            live_hosts(x, now) + live_hosts(y, now)));
            assert((progress.expired + expired_hosts(x, now)) + expired_hosts(y, now)
                =~= progress.expired + (expired_hosts(x, now) + expired_hosts(y, now)));
        }
    }
}

/// The rows of the pages `pages`, one page after the other.
pub open spec fn rows_of<Token>(
    pages: Seq<(Seq<Map<Seq<char>, AttributeModel>>, Option<Token>)>,
) -> Seq<Map<Seq<char>, AttributeModel>>
    decreases pages.len(),
{
    if pages.len() == 0 {
        Seq::empty()
    } else {
        rows_of(pages.drop_last()) + pages.last().0
    }
}

/// `pages` is what a backend answers that holds the rows of a service on
/// one page or more: every page but the last comes with a continuation
/// token, and the last comes without one.
pub open spec fn is_paged<Token>(
    pages: Seq<(Seq<Map<Seq<char>, AttributeModel>>, Option<Token>)>,
) -> bool {
    &&& pages.len() >= 1
    &&& forall|i: int| 0 <= i < pages.len() - 1 ==> (#[trigger] pages[i]).1 is Some
    &&& pages.last().1 is None
}

/// Where a query of the service `name`, started at the time `now`, stands
/// after the backend answered its page requests with `pages`, one after the
/// other. Pages that come after the query is over or has failed are not
/// read.
pub open spec fn query_after<Token>(
    table: Seq<char>,
    name: Seq<char>,
    now: u64,
    pages: Seq<(Seq<Map<Seq<char>, AttributeModel>>, Option<Token>)>,
) -> QueryStepView<Token>
    decreases pages.len(),
{
    if pages.len() == 0 {
        first_step(table, name, Some(now))
    } else {
        match query_after(table, name, now, pages.drop_last()) {
            QueryStepView::Fetch(progress, _) => next_step(
                table,
                progress,
                Ok((Some(pages.last().0), pages.last().1)),
            ),
            other => other,
        }
    }
}

/// Where the rows of all pages can be read, so can the rows of the first
/// `k` pages.
proof fn lemma_first_pages_readable<Token>(
    name: Seq<char>,
    pages: Seq<(Seq<Map<Seq<char>, AttributeModel>>, Option<Token>)>,
    k: int,
)
    requires
        hosts_of(name, rows_of(pages)) is Ok,
        0 <= k <= pages.len(),
    ensures
        hosts_of(name, rows_of(pages.take(k))) is Ok,
    decreases pages.len() - k,
{
    if k == pages.len() {
        assert(pages.take(k) =~= pages);
    } else {
        lemma_first_pages_readable(name, pages, k + 1);
        assert(pages.take(k + 1).drop_last() =~= pages.take(k));
        assert(pages.take(k + 1).last() == pages[k]);
        lemma_hosts_of_two_pages(name, rows_of(pages.take(k)), pages[k].0);
    }
}

/// After the first `k` pages of more, a query holds the live and the
/// expired hosts of their rows and asks for the next page.
proof fn lemma_query_under_way<Token>(
    table: Seq<char>,
    name: Seq<char>,
    now: u64,
    pages: Seq<(Seq<Map<Seq<char>, AttributeModel>>, Option<Token>)>,
    k: int,
)
    requires
        is_paged(pages),
        hosts_of(name, rows_of(pages)) is Ok,
        0 <= k < pages.len(),
    ensures
        hosts_of(name, rows_of(pages.take(k))) is Ok,
        query_after(table, name, now, pages.take(k)) matches QueryStepView::Fetch(progress, _)
            && progress == (QueryProgressView {
            name,
            epoch_now: now,
            hosts: live_hosts(hosts_of(name, rows_of(pages.take(k)))->Ok_0, now),
            expired: expired_hosts(hosts_of(name, rows_of(pages.take(k)))->Ok_0, now),
        }),
    decreases k,
{
    reveal(Seq::filter);
    lemma_first_pages_readable(name, pages, k);
    if k == 0 {
        assert(pages.take(0) =~= Seq::empty());
        assert(rows_of(pages.take(0)) =~= Seq::empty());
        assert(live_hosts(Seq::<HostView>::empty(), now) =~= Seq::empty());
        assert(expired_hosts(Seq::<HostView>::empty(), now) =~= Seq::empty());
    } else {
        lemma_query_under_way(table, name, now, pages, k - 1);
        lemma_query_page_read(table, name, now, pages, k);
    }
}

/// What reading the page before `k` adds to a query.
proof fn lemma_query_page_read<Token>(
    table: Seq<char>,
    name: Seq<char>,
    now: u64,
    pages: Seq<(Seq<Map<Seq<char>, AttributeModel>>, Option<Token>)>,
    k: int,
)
    requires
        hosts_of(name, rows_of(pages)) is Ok,
        0 < k <= pages.len(),
        hosts_of(name, rows_of(pages.take(k - 1))) is Ok,
        query_after(table, name, now, pages.take(k - 1)) matches QueryStepView::Fetch(
            progress,
            _,
        ) && progress == (QueryProgressView {
            name,
            epoch_now: now,
            hosts: live_hosts(hosts_of(name, rows_of(pages.take(k - 1)))->Ok_0, now),
            expired: expired_hosts(hosts_of(name, rows_of(pages.take(k - 1)))->Ok_0, now),
        }),
    ensures
        hosts_of(name, rows_of(pages.take(k))) is Ok,
        query_after(table, name, now, pages.take(k)) == next_step(
            table,
            QueryProgressView {
                name,
                epoch_now: now,
                hosts: live_hosts(hosts_of(name, rows_of(pages.take(k - 1)))->Ok_0, now),
                expired: expired_hosts(hosts_of(name, rows_of(pages.take(k - 1)))->Ok_0, now),
            },
            Ok((Some(pages[k - 1].0), pages[k - 1].1)),
        ),
        hosts_of(name, pages[k - 1].0) is Ok,
        live_hosts(hosts_of(name, rows_of(pages.take(k)))->Ok_0, now) == live_hosts(
            hosts_of(name, rows_of(pages.take(k - 1)))->Ok_0,
            now,
        ) + live_hosts(hosts_of(name, pages[k - 1].0)->Ok_0, now),
        expired_hosts(hosts_of(name, rows_of(pages.take(k)))->Ok_0, now) == expired_hosts(
            hosts_of(name, rows_of(pages.take(k - 1)))->Ok_0,
            now,
        ) + expired_hosts(hosts_of(name, pages[k - 1].0)->Ok_0, now),
{
    lemma_first_pages_readable(name, pages, k);
    assert(pages.take(k).drop_last() =~= pages.take(k - 1));
    assert(pages.take(k).last() == pages[k - 1]);
    let before = rows_of(pages.take(k - 1));
    let page = pages[k - 1].0;
    lemma_hosts_of_two_pages(name, before, page);
    let x = hosts_of(name, before)->Ok_0;
    let y = hosts_of(name, page)->Ok_0;
    lemma_live_hosts_of_two_pages(x, y, now);
    lemma_expired_hosts_of_two_pages(x, y, now);
}

/// What a query finds, over however many pages the backend hands out the
/// rows of the service: where every page request succeeds and every row
/// can be read, the query ends with exactly the hosts of the rows whose
/// lease has not run out at the time of the query, each once and in the
/// order of the rows, and sets aside exactly the others. So a host is found
/// exactly when a row stands for it and it expires at that second or
/// later.
pub proof fn lemma_query_finds_every_live_host<Token>(
    table: Seq<char>,
    name: Seq<char>,
    now: u64,
    pages: Seq<(Seq<Map<Seq<char>, AttributeModel>>, Option<Token>)>,
    h: HostView,
)
    requires
        is_paged(pages),
        hosts_of(name, rows_of(pages)) is Ok,
    ensures
        query_after(table, name, now, pages) matches QueryStepView::Done(found) && found.hosts
            == live_hosts(hosts_of(name, rows_of(pages))->Ok_0, now) && found.expired
            == expired_hosts(hosts_of(name, rows_of(pages))->Ok_0, now) && found.hosts.len()
            + found.expired.len() == hosts_of(name, rows_of(pages))->Ok_0.len() && (
        found.hosts.contains(h) <==> hosts_of(name, rows_of(pages))->Ok_0.contains(h)
            && h.expire_time >= now),
{
    let n = pages.len() as int;
    let stored = hosts_of(name, rows_of(pages))->Ok_0;
    lemma_query_under_way(table, name, now, pages, n - 1);
    lemma_query_page_read(table, name, now, pages, n);
    assert(pages.take(n) =~= pages);
    lemma_live_hosts_membership(stored, now, h);
    lemma_live_or_expired(stored, now);
}

/// `std::time::SystemTime`, a reading of the system clock.
#[verifier::external_type_specification]
#[verifier::external_body]
pub struct ExSystemTime(std::time::SystemTime);

/// `std::time::SystemTimeError`, what `duration_since` fails with.
#[verifier::external_type_specification]
#[verifier::external_body]
pub struct ExSystemTimeError(std::time::SystemTimeError);

/// `SystemTime::now` of the standard library reads the system clock.
/// Nothing is claimed of the reading.
pub assume_specification[ std::time::SystemTime::now ]() -> std::time::SystemTime
;

/// `SystemTime::duration_since` of the standard library, asked for the
/// time that passed from `UNIX_EPOCH` to `t`: it fails where `t` lies
/// before the epoch. Nothing is claimed of which it is.
#[verifier::external_body]
fn since_epoch(t: &std::time::SystemTime) -> Result<
    std::time::Duration,
    std::time::SystemTimeError,
> {
    t.duration_since(std::time::UNIX_EPOCH)
}

/// `Duration::as_secs` of the standard library gives the whole seconds of
/// a duration. Nothing is claimed of their number.
pub assume_specification[ std::time::Duration::as_secs ](d: &std::time::Duration) -> u64
;

/// The seconds that have passed since the Unix epoch, or `None` where the
/// clock reads a time before the epoch.
pub fn epoch_seconds() -> Option<u64> {
    match since_epoch(&std::time::SystemTime::now()) {
        Ok(v) => Some(v.as_secs()),
        Err(_) => None,
    }
}

/// The registry store over one table of the backend. It holds what the
/// store is configured with; the backend calls themselves are made by
/// whoever owns the client, between the steps that the store decides.
pub struct StorageImpl<DynamoDb> {
    pub table_name: String,
    pub ttl: u64,
    pub dynamodb_client: DynamoDb,
    pub timeout: std::time::Duration,
}

impl<DynamoDb: Clone> Clone for StorageImpl<DynamoDb> {
    fn clone(&self) -> (copy: Self)
        ensures
            copy.table_name@ == self.table_name@,
            copy.ttl == self.ttl,
            copy.timeout == self.timeout,
    {
        StorageImpl {
            table_name: self.table_name.clone(),
            ttl: self.ttl,
            dynamodb_client: self.dynamodb_client.clone(),
            timeout: self.timeout,
        }
    }
}

/// A query under way or over: the service asked for, the time that the
/// query started at, the live hosts found on the pages read so far, and the
/// hosts found there whose lease had run out. The expired hosts are no part
/// of the answer; they are kept for whoever wants to report them.
#[derive(Debug)]
pub struct QueryProgress {
    pub name: String,
    pub epoch_now: u64,
    pub hosts: Vec<Host>,
    pub expired: Vec<Host>,
}

/// What a `QueryProgress` holds.
pub ghost struct QueryProgressView {
    pub name: Seq<char>,
    pub epoch_now: u64,
    pub hosts: Seq<HostView>,
    pub expired: Seq<HostView>,
}

impl View for QueryProgress {
    type V = QueryProgressView;

    open spec fn view(&self) -> QueryProgressView {
        QueryProgressView {
            name: self.name@,
            epoch_now: self.epoch_now,
            hosts: host_views(self.hosts@),
            expired: host_views(self.expired@),
        }
    }
}

/// What a query does next.
#[derive(Debug)]
pub enum QueryStep<Token> {
    /// Send the request to the backend and hand the answer, with the
    /// progress, to `query_next`.
    Fetch(QueryProgress, QueryInput<Token>),
    /// The query is over: the hosts of the progress are the live hosts of
    /// the service.
    Done(QueryProgress),
    /// The query failed.
    Failed(StorageError),
}

/// What a `QueryStep` holds.
pub ghost enum QueryStepView<Token> {
    Fetch(QueryProgressView, QueryInputView<Token>),
    Done(QueryProgressView),
    Failed(StorageErrorView),
}

impl<Token> View for QueryStep<Token> {
    type V = QueryStepView<Token>;

    open spec fn view(&self) -> QueryStepView<Token> {
        match self {
            QueryStep::Fetch(progress, input) => QueryStepView::Fetch(progress@, input@),
            QueryStep::Done(found) => QueryStepView::Done(found@),
            QueryStep::Failed(e) => QueryStepView::Failed(e@),
        }
    }
}

/// The views of the rows of an answer, where it holds a list of rows.
pub open spec fn items_view(items: Option<Vec<AttributeMap>>) -> Option<
    Seq<Map<Seq<char>, AttributeModel>>,
> {
    match items {
        Some(rows) => Some(row_views(rows@)),
        None => None,
    }
}

/// The backend's answer to one page request as the store reads it: the
/// rows, where the answer holds a list of them, and the continuation token
/// of the page, or the cause of the failure.
pub open spec fn page_view<Token>(page: Result<QueryOutput<Token>, String>) -> Result<
    (Option<Seq<Map<Seq<char>, AttributeModel>>>, Option<Token>),
    Seq<char>,
> {
    match page {
        Ok(out) => Ok((items_view(out.items), out.last_evaluated_key)),
        Err(cause) => Err(cause@),
    }
}

/// The failure of kind `DataError` for an answer to a page request that
/// holds no list of rows.
pub open spec fn missing_items_error() -> StorageErrorView {
    data_error("items of query result is missing"@)
}

/// The backend's answer to a delete as the store reads it: what the row
/// held, if there was a row, or the cause of the failure.
pub open spec fn deleted_view(outcome: Result<Option<AttributeMap>, String>) -> Result<
    Option<Map<Seq<char>, AttributeModel>>,
    Seq<char>,
> {
    match outcome {
        Ok(row) => Ok(key_view(row)),
        Err(cause) => Err(cause@),
    }
}

/// How a query of the service `name` starts, given the reading of the
/// clock: with the request for the first page, or, where the clock could
/// not be read, with a failure of kind `SystemError`.
pub open spec fn first_step<Token>(
    table: Seq<char>,
    name: Seq<char>,
    now: Option<u64>,
) -> QueryStepView<Token> {
    match now {
        None => QueryStepView::Failed(clock_error()),
        Some(t) => QueryStepView::Fetch(
            QueryProgressView { name, epoch_now: t, hosts: Seq::empty(), expired: Seq::empty() },
            query_input(table, name, None),
        ),
    }
}

/// How a query goes on after the backend answered a page request.
///
/// A failed request fails the query with kind `ApiError`. An answer
/// without a list of rows, and a row that cannot be read, fail it with kind
/// `DataError`, whatever the other rows hold. Otherwise the hosts of the
/// page that are live at the time the query started are added, in order,
/// to those found before, and the expired ones to those set aside; then the
/// query asks for the page after the continuation token, or is over where
/// the page came without one.
pub open spec fn next_step<Token>(
    table: Seq<char>,
    progress: QueryProgressView,
    page: Result<(Option<Seq<Map<Seq<char>, AttributeModel>>>, Option<Token>), Seq<char>>,
) -> QueryStepView<Token> {
    match page {
        Err(cause) => QueryStepView::Failed(api_error("query"@, cause)),
        Ok((None, _)) => QueryStepView::Failed(missing_items_error()),
        Ok((Some(rows), token)) => match hosts_of(progress.name, rows) {
            Err(e) => QueryStepView::Failed(e),
            Ok(found) => {
                let after = QueryProgressView {
                    hosts: progress.hosts + live_hosts(found, progress.epoch_now),
                    expired: progress.expired + expired_hosts(found, progress.epoch_now),
                    ..progress
                };
                match token {
                    Some(key) => QueryStepView::Fetch(
                        after,
                        query_input(table, progress.name, Some(key)),
                    ),
                    None => QueryStepView::Done(after),
                }
            },
        },
    }
}

/// What a store answers after the backend answered a delete of a row of
/// the service `name`, given the reading of the clock.
///
/// A failed request is a failure of kind `ApiError`. Where the backend
/// held no such row the answer is `None`. Where it held one, the row is
/// read, and a row that cannot be read is a failure of kind `DataError`;
/// then the clock is needed, and a clock that could not be read is a
/// failure of kind `SystemError`. The host is handed back if it is still
/// live; an expired one is answered with `None`, as if there had been no
/// row.
pub open spec fn deleted(
    name: Seq<char>,
    outcome: Result<Option<Map<Seq<char>, AttributeModel>>, Seq<char>>,
    now: Option<u64>,
) -> Result<Option<HostView>, StorageErrorView> {
    match outcome {
        Err(cause) => Err(api_error("delete_item"@, cause)),
        Ok(None) => Ok(None),
        Ok(Some(row)) => match host_of(name, row) {
            Err(e) => Err(e),
            Ok(h) => match now {
                None => Err(clock_error()),
                Some(t) => if h.is_live(t) {
                    Ok(Some(h))
                } else {
                    Ok(None)
                },
            },
        },
    }
}

/// A delete that finds a row whose lease has run out answers as if there
/// had been no row, although the backend held one and has removed it.
pub proof fn lemma_delete_of_expired_row(
    name: Seq<char>,
    row: Map<Seq<char>, AttributeModel>,
    now: u64,
)
    requires
        host_of(name, row) matches Ok(h) && h.expire_time < now,
    ensures
        deleted(name, Ok(Some(row)), Some(now)) == Ok::<Option<HostView>, StorageErrorView>(None),
{
}

/// A delete that finds no row answers that nothing was found, and never
/// with a failure, whatever the clock reads.
pub proof fn lemma_delete_without_row(name: Seq<char>, now: Option<u64>)
    ensures
        deleted(name, Ok(None), now) == Ok::<Option<HostView>, StorageErrorView>(None),
{
}

/// The view of an optional host.
pub open spec fn host_option_view(h: Option<Host>) -> Option<HostView> {
    match h {
        Some(host) => Some(host@),
        None => None,
    }
}

/// The view of the answer to a delete.
pub open spec fn answer_view(r: Result<Option<Host>, StorageError>) -> Result<
    Option<HostView>,
    StorageErrorView,
> {
    match r {
        Ok(h) => Ok(host_option_view(h)),
        Err(e) => Err(e@),
    }
}

impl<DynamoDb> StorageImpl<DynamoDb> {
    /// The lease, in seconds, that a registration is given.
    pub fn ttl(&self) -> (t: u64)
        ensures
            t == self.ttl,
    {
        self.ttl
    }

    /// Starts a query of the service `name` at the time `now`, where `None`
    /// stands for a clock that could not be read.
    pub fn query_start_at<Token>(&self, name: &str, now: Option<u64>) -> (step: QueryStep<Token>)
        ensures
            step@ == first_step::<Token>(self.table_name@, name@, now),
    {
        match now {
            None => QueryStep::Failed(build_clock_error()),
            Some(epoch_now) => {
                let hosts: Vec<Host> = Vec::new();
                let expired: Vec<Host> = Vec::new();
                assert(host_views(hosts@) =~= Seq::<HostView>::empty());
                assert(host_views(expired@) =~= Seq::<HostView>::empty());
                QueryStep::Fetch(
                    QueryProgress { name: name.to_owned(), epoch_now, hosts, expired },
                    build_query_input(self.table_name.clone(), name),
                )
            },
        }
    }

    /// Starts a query of the service `name` at the time that the clock
    /// shows.
    pub fn query_start<Token>(&self, name: &str) -> (step: QueryStep<Token>)
        ensures
            exists|now: Option<u64>|
                step@ == #[trigger] first_step::<Token>(self.table_name@, name@, now),
    {
        self.query_start_at(name, epoch_seconds())
    }

    /// Goes on with a query after the backend answered the page request of
    /// the step before.
    pub fn query_next<Token>(
        &self,
        progress: QueryProgress,
        page: Result<QueryOutput<Token>, String>,
    ) -> (step: QueryStep<Token>)
        ensures
            step@ == next_step(self.table_name@, progress@, page_view(page)),
    {
        let res = match page {
            Ok(res) => res,
            Err(e) => {
                return QueryStep::Failed(build_api_error("query", e.as_str()));
            },
        };
        let name = progress.name;
        let epoch_now = progress.epoch_now;
        let mut hosts = progress.hosts;
        let mut expired = progress.expired;
        let last_evaluated_key = res.last_evaluated_key;
        let items = match res.items {
            Some(items) => items,
            None => {
                return QueryStep::Failed(
                    StorageError {
                        kind: ErrorKind::DataError,
                        msg: "items of query result is missing".to_owned(),
                    },
                );
            },
        };
        let ghost rows = row_views(items@);
        let ghost before = host_views(hosts@);
        let ghost aside = host_views(expired@);
        let ghost mut found: Seq<HostView> = Seq::empty();
        proof {
            reveal(Seq::filter);
            assert(rows.take(0) =~= Seq::empty());
            assert(before + live_hosts(found, epoch_now) =~= before);
            assert(aside + expired_hosts(found, epoch_now) =~= aside);
        }
        for item in it: items
            invariant
                rows == row_views(it.seq()),
                progress@.name == name@,
                page_view(page) matches Ok(pair) && pair.0 == Some(rows),
                hosts_of(name@, rows.take(it.index())) == Ok::<Seq<HostView>, StorageErrorView>(
                    found,
                ),
                host_views(hosts@) == before + live_hosts(found, epoch_now),
                host_views(expired@) == aside + expired_hosts(found, epoch_now),
        {
            let ghost i = it.index();
            proof {
                assert(rows.take(i + 1).drop_last() =~= rows.take(i));
                assert(rows.take(i + 1).last() == item@);
            }
            match convert_ddb_host_to_domain_host(name.as_str(), item) {
                Err(e) => {
                    proof {
                        lemma_hosts_of_prefix_fails(name@, rows, i + 1);
                    }
                    return QueryStep::Failed(e);
                },
                Ok(host) => {
                    proof {
                        lemma_live_hosts_push(found, host@, epoch_now);
                        lemma_expired_hosts_push(found, host@, epoch_now);
                        found = found.push(host@);
                    }
                    if host.expire_time >= epoch_now {
                        let ghost shown = host_views(hosts@);
                        hosts.push(host);
                        assert(host_views(hosts@) =~= shown.push(host@));
                        assert(before + live_hosts(found, epoch_now) =~= shown.push(host@));
                    } else {
                        let ghost shown = host_views(expired@);
                        expired.push(host);
                        assert(host_views(expired@) =~= shown.push(host@));
                        assert(aside + expired_hosts(found, epoch_now) =~= shown.push(host@));
                    }
                },
            }
        }
        assert(rows.take(rows.len() as int) =~= rows);
        let found = QueryProgress { name, epoch_now, hosts, expired };
        match last_evaluated_key {
            Some(key) => {
                let mut input = build_query_input(self.table_name.clone(), found.name.as_str());
                input.exclusive_start_key = Some(key);
                QueryStep::Fetch(found, input)
            },
            None => QueryStep::Done(found),
        }
    }

    /// The write that registers `host` under the service `name`.
    pub fn store_request(&self, name: &str, host: Host) -> (input: PutItemInput)
        ensures
            input@ == put_item_input(self.table_name@, name@, host@),
    {
        build_put_item_input(self.table_name.clone(), name, host)
    }

    /// What the store answers after the backend answered the write.
    pub fn store_result(&self, outcome: Result<(), String>) -> (r: Result<(), StorageError>)
        ensures
            match r {
                Ok(()) => outcome is Ok,
                Err(e) => outcome matches Err(cause) && e@ == api_error("put_item"@, cause@),
            },
    {
        match outcome {
            Ok(()) => Ok(()),
            Err(e) => Err(build_api_error("put_item", e.as_str())),
        }
    }

    /// The delete of the row of `(name, ip, port)`.
    pub fn delete_request(&self, name: &str, ip: &str, port: u64) -> (input: DeleteItemInput)
        ensures
            input@ == delete_item_input(self.table_name@, name@, ip@, port),
    {
        build_delete_item_input(self.table_name.clone(), name, ip, port)
    }

    /// What the store answers after the backend answered the delete of a
    /// row of the service `name`, at the time `now`, where `None` stands
    /// for a clock that could not be read.
    pub fn delete_result_at(
        &self,
        name: &str,
        outcome: Result<Option<AttributeMap>, String>,
        now: Option<u64>,
    ) -> (r: Result<Option<Host>, StorageError>)
        ensures
            answer_view(r) == deleted(name@, deleted_view(outcome), now),
            outcome matches Ok(None) ==> r matches Ok(None),
            outcome matches Ok(Some(row)) && host_of(name@, row@) matches Ok(h) && now matches Some(
                t,
            ) && h.expire_time < t ==> r matches Ok(None),
    {
        match outcome {
            Ok(Some(m)) => {
                let h = convert_ddb_host_to_domain_host(name, m)?;
                match now {
                    None => Err(build_clock_error()),
                    Some(t) => if h.expire_time >= t {
                        Ok(Some(h))
                    } else {
                        Ok(None)
                    },
                }
            },
            Ok(None) => Ok(None),
            Err(e) => Err(build_api_error("delete_item", e.as_str())),
        }
    }

    /// What the store answers after the backend answered the delete of a
    /// row of the service `name`, at the time that the clock shows. The
    /// clock is read only where the backend held a row that can be read.
    pub fn delete_result(&self, name: &str, outcome: Result<Option<AttributeMap>, String>) -> (r:
        Result<Option<Host>, StorageError>)
        ensures
            exists|now: Option<u64>|
                answer_view(r) == #[trigger] deleted(name@, deleted_view(outcome), now),
            outcome matches Ok(None) ==> r matches Ok(None),
    {
        match outcome {
            Ok(Some(m)) => {
                let ghost row = m@;
                let h = match convert_ddb_host_to_domain_host(name, m) {
                    Ok(h) => h,
                    Err(e) => {
                        assert(deleted(name@, Ok(Some(row)), None) == Err::<
                            Option<HostView>,
                            StorageErrorView,
                        >(e@));
                        return Err(e);
                    },
                };
                let now = epoch_seconds();
                let r = match now {
                    None => Err(build_clock_error()),
                    Some(t) => if h.expire_time >= t {
                        Ok(Some(h))
                    } else {
                        Ok(None)
                    },
                };
                assert(answer_view(r) == deleted(name@, Ok(Some(row)), now));
                r
            },
            Ok(None) => {
                assert(deleted(name@, Ok(None), None) == Ok::<Option<HostView>, StorageErrorView>(
                    None,
                ));
                Ok(None)
            },
            Err(e) => {
                let failure = build_api_error("delete_item", e.as_str());
                assert(deleted(name@, Err(e@), None) == Err::<Option<HostView>, StorageErrorView>(
                    failure@,
                ));
                Err(failure)
            },
        }
    }
}

} // verus!
