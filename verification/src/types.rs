//! The records of the registry: a registered host, its tags, and the
//! capability through which request handlers reach a registry store.

use vstd::prelude::*;

verus! {

/// Listener settings of the daemon.
#[derive(Debug, Clone)]
pub struct Config {
    pub listen_port: u16,
}

/// Metadata attached to a registration.
#[derive(Debug, Clone, PartialEq, Eq)]
pub struct Tag {
    pub az: String,
    pub region: String,
    pub instance_id: String,
    pub canary: bool,
    pub load_balancing_weight: Option<u8>,
}

/// What a `Tag` holds.
pub ghost struct TagView {
    pub az: Seq<char>,
    pub region: Seq<char>,
    pub instance_id: Seq<char>,
    pub canary: bool,
    pub load_balancing_weight: Option<u8>,
}

impl View for Tag {
    type V = TagView;

    open spec fn view(&self) -> TagView {
        TagView {
            az: self.az@,
            region: self.region@,
            instance_id: self.instance_id@,
            canary: self.canary,
            load_balancing_weight: self.load_balancing_weight,
        }
    }
}

/// One registered instance of a service. Its identity is
/// `(service, ip_address, port)`.
#[derive(Debug, Clone, PartialEq, Eq)]
pub struct Host {
    pub ip_address: String,
    pub port: u16,
    pub last_check_in: String,
    pub expire_time: u64,
    pub revision: String,
    pub service: String,
    pub tags: Tag,
}

/// What a `Host` holds.
pub ghost struct HostView {
    pub ip_address: Seq<char>,
    pub port: u16,
    pub last_check_in: Seq<char>,
    pub expire_time: u64,
    pub revision: Seq<char>,
    pub service: Seq<char>,
    pub tags: TagView,
}

impl View for Host {
    type V = HostView;

    open spec fn view(&self) -> HostView {
        HostView {
            ip_address: self.ip_address@,
            port: self.port,
            last_check_in: self.last_check_in@,
            expire_time: self.expire_time,
            revision: self.revision@,
            service: self.service@,
            tags: self.tags@,
        }
    }
}

impl HostView {
    /// A host is live at `now` as long as its lease has not run out; the
    /// instant of expiry itself still counts as live.
    pub open spec fn is_live(self, now: u64) -> bool {
        self.expire_time >= now
    }
}

/// The views of a list of hosts, in order.
pub open spec fn host_views(hosts: Seq<Host>) -> Seq<HostView> {
    Seq::new(hosts.len(), |i: int| hosts[i]@)
}

/// The hosts of `hosts` that are live at `now`, in their order.
pub open spec fn live_hosts(hosts: Seq<HostView>, now: u64) -> Seq<HostView> {
    hosts.filter(|h: HostView| h.is_live(now))
}

/// The hosts of `hosts` whose lease has run out at `now`, in their order.
pub open spec fn expired_hosts(hosts: Seq<HostView>, now: u64) -> Seq<HostView> {
    hosts.filter(|h: HostView| !h.is_live(now))
}

/// The read-side answer for one service: its name, the environment label
/// and the hosts that are live.
#[derive(Debug, Clone, PartialEq, Eq)]
pub struct Registration {
    pub service: String,
    pub env: String,
    pub hosts: Vec<Host>,
}

/// What a `Registration` holds.
pub ghost struct RegistrationView {
    pub service: Seq<char>,
    pub env: Seq<char>,
    pub hosts: Seq<HostView>,
}

impl View for Registration {
    type V = RegistrationView;

    open spec fn view(&self) -> RegistrationView {
        RegistrationView {
            service: self.service@,
            env: self.env@,
            hosts: host_views(self.hosts@),
        }
    }
}

/// A registry store as request handlers see it. Nothing is promised of an
/// implementation here: a handler states what it does with whatever the
/// store hands back.
pub trait Storage: Send + Sync + Clone + 'static {
    type E;

    /// Every live host registered under `name`.
    fn query_items(&self, name: &str) -> Result<Vec<Host>, Self::E>;

    /// Registers `host` under `name`, replacing an earlier row of the same
    /// address and port.
    fn store_item(&self, name: &str, host: Host) -> Result<(), Self::E>;

    /// Removes the row of `(name, ip, port)` and hands back what it held,
    /// unless that had expired already.
    fn delete_item(&self, name: &str, ip: String, port: u64) -> Result<Option<Host>, Self::E>;

    /// The lease, in seconds, that a registration is given.
    fn ttl(&self) -> u64;
}

} // verus!
