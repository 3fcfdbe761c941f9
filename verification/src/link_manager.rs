//! The device-link manager's bookkeeping: discovered mDNS records, devices
//! whose identity the Native API handshake confirmed, the mapping between
//! provisional (hostname) and canonical (MAC) ids, snapshot-restored
//! devices, live sessions and per-device security settings.
//!
//! Each manager message is a method here that updates the records and says
//! what the actor has to do (spawn a session, stop sessions); the actor
//! itself only performs those actions and answers the caller.
use vstd::prelude::*;
use crate::device_link::{
    DeviceId, DeviceSecurityConfig, mac_digits, clean_hostname, first_label, trim_hostname, first_label_of,
    device_id_from_mac, device_id_from_hostname,
};
use crate::raw::opt_view;
use crate::keyed::{key_index, lemma_key_index, lemma_key_index_distinct, kv_map, lemma_kv_push, lemma_kv_update, lemma_kv_remove, lemma_kv_at};
use crate::text::{str_eq, owned, strs_view};

verus! {

/// Maximum number of mDNS discovery records retained by the manager.
pub const MAX_DISCOVERED: usize = 256;
/// Maximum number of simultaneously active device sessions.
pub const MAX_ACTIVE_SESSIONS: usize = 128;
/// Seconds after which stale discovery records without a confirmed device are evicted.
pub const STALE_EVICTION_SECS: u64 = 600;
/// Milliseconds without an announcement after which a record is stale.
pub const STALE_AFTER_MS: u64 = 90_000;

/// A device discovered via mDNS browsing `_esphomelib._tcp.local.`.
#[derive(Debug)]
pub struct DiscoveredDevice {
    /// Provisional id: `esphome-host:<hostname>`.
    pub device_id: DeviceId,
    /// Fully-qualified mDNS service name.
    pub service_fullname: String,
    /// Hostname without `.local.` suffix.
    pub hostname: String,
    /// Resolved IP address, as text.
    pub ip: String,
    /// TCP port (usually 6053).
    pub port: u16,
    /// mDNS instance name.
    pub name: String,
    /// ESPHome firmware version from the TXT record.
    pub version: String,
    /// Friendly name from the TXT record.
    pub friendly_name: Option<String>,
    /// When the device was first seen (milliseconds since the Unix epoch).
    pub first_seen_at: u64,
    /// When the device was last announced (milliseconds since the Unix epoch).
    pub last_seen_at: u64,
    /// No announcement for at least 90 seconds.
    pub is_stale: bool,
}

/// What an mDNS resolution of an ESPHome service reports: the full service
/// name, the host name, the first resolved address (as text), the port and
/// the `version`, `friendly_name` and `mac` TXT properties.
#[derive(Debug)]
pub struct ServiceRecord {
    pub fullname: String,
    pub hostname: String,
    pub address: Option<String>,
    pub port: u16,
    pub version: Option<String>,
    pub friendly_name: Option<String>,
    pub mac: Option<String>,
}

/// The id a discovery record gets: from the `mac` TXT property when there is
/// one, else from the cleaned host name.
pub open spec fn discovered_id(r: ServiceRecord) -> Seq<char> {
    match r.mac {
        Some(m) => "esphome:"@ + mac_digits(m@, m@.len() as int),
        None => "esphome-host:"@ + clean_hostname(clean_hostname(r.hostname@)),
    }
}

/// Build the discovery record of a resolved service seen at `now_ms`; `None`
/// when the service has no address.
pub fn build_discovered(info: &ServiceRecord, now_ms: u64) -> (r: Option<DiscoveredDevice>)
    ensures
        r is None <==> info.address is None,
        r matches Some(d) ==> {
            &&& d.device_id.0@ == discovered_id(*info)
            &&& d.service_fullname@ == info.fullname@
            &&& d.hostname@ == clean_hostname(info.hostname@)
            &&& d.ip@ == info.address->Some_0@
            &&& d.port == info.port
            &&& d.name@ == first_label(info.fullname@)
            &&& d.version@ == match info.version {
                Some(v) => v@,
                None => "unknown"@,
            }
            &&& opt_view(d.friendly_name) == opt_view(info.friendly_name)
            &&& d.first_seen_at == now_ms
            &&& d.last_seen_at == now_ms
            &&& !d.is_stale
        },
{
    let ip = match &info.address {
        Some(a) => a.clone(),
        None => {
            return None;
        },
    };
    let hostname = trim_hostname(info.hostname.as_str());
    let version = match &info.version {
        Some(v) => v.clone(),
        None => owned("unknown"),
    };
    let friendly_name = match &info.friendly_name {
        Some(f) => Some(f.clone()),
        None => None,
    };
    let device_id = match &info.mac {
        Some(m) => device_id_from_mac(m.as_str()),
        None => device_id_from_hostname(hostname.as_str()),
    };
    let name = first_label_of(info.fullname.as_str());
    Some(
        DiscoveredDevice {
            device_id,
            service_fullname: info.fullname.clone(),
            hostname,
            ip,
            port: info.port,
            name,
            version,
            friendly_name,
            first_seen_at: now_ms,
            last_seen_at: now_ms,
            is_stale: false,
        },
    )
}

/// A security configuration set for a device is the one looked up for it
/// afterwards: the map `set_security_config` leaves holds it under the
/// device's id, which `security_config_for` returns.
pub proof fn lemma_security_config_read_back(r: LinkRegistry, id: Seq<char>, cfg: DeviceSecurityConfig)
    ensures
        r.security_map().insert(id, cfg).dom().contains(id),
        r.security_map().insert(id, cfg)[id] == cfg,
{
}

/// Session connectivity status for one device link.
#[derive(Debug, Clone, Copy, PartialEq, Eq, Structural)]
pub enum SessionStatus {
    /// Discovered via mDNS; no session identified yet.
    Discovered,
    /// TCP connect in progress.
    Connecting,
    /// Native API handshake in progress.
    Handshaking,
    /// Handshake complete; subscribed to state updates.
    Active,
    /// Connection lost; waiting before the next attempt.
    Backoff { attempt: u32, delay_secs: u64 },
    /// The device requires password authentication, which is not supported.
    UnsupportedAuth,
    /// Intentionally stopped.
    Unavailable,
}

/// A device whose identity the Native API handshake confirmed.
#[derive(Debug)]
pub struct ConnectedDevice {
    /// Canonical id (`esphome:<mac>`, or `esphome-host:<hostname>` without a MAC).
    pub device_id: DeviceId,
    /// The discovery record the session was started from.
    pub discovered: DiscoveredDevice,
    /// Name from the device info.
    pub name: String,
    /// Friendly name from the device info.
    pub friendly_name: Option<String>,
    /// MAC address from the device info.
    pub mac_address: Option<String>,
    /// Model from the device info.
    pub model: Option<String>,
    /// Firmware version from the device info.
    pub sw_version: Option<String>,
    /// Current session status.
    pub status: SessionStatus,
    /// Number of entities registered for the device.
    pub entity_count: usize,
    /// Authentication mode (`"cleartext"` or `"noise"`).
    pub auth_mode: Option<String>,
    /// Last connection error, if any.
    pub last_error: Option<String>,
}

/// Live status of one device link.
#[derive(Debug)]
pub struct DeviceLinkStatus {
    pub device_id: String,
    pub name: String,
    pub hostname: String,
    pub ip: String,
    pub port: u16,
    pub version: String,
    pub status: SessionStatus,
    pub entity_count: usize,
    pub mac_address: Option<String>,
    pub model: Option<String>,
    pub sw_version: Option<String>,
    pub friendly_name: Option<String>,
    pub auth_mode: Option<String>,
    pub last_error: Option<String>,
}

/// Current resource utilisation.
#[derive(Debug, PartialEq, Eq, Structural)]
pub struct ResourceUsage {
    pub discovered_count: usize,
    pub discovered_cap: usize,
    pub active_sessions: usize,
    pub session_cap: usize,
}

/// Runtime limits of the device-link ingress.
#[derive(Debug, Clone, Copy, PartialEq, Eq, Structural)]
pub struct DeviceLinkLimits {
    pub max_devices: usize,
    pub max_entities: usize,
    pub max_connections_per_device: usize,
}

impl Default for DeviceLinkLimits {
    /// 100 devices, 10 000 entities, one connection per device.
    fn default() -> (r: Self)
        ensures
            r == (DeviceLinkLimits { max_devices: 100, max_entities: 10_000, max_connections_per_device: 1 }),
    {
        DeviceLinkLimits { max_devices: 100, max_entities: 10_000, max_connections_per_device: 1 }
    }
}

fn copy_opt_string(o: &Option<String>) -> (r: Option<String>)
    ensures
        r == *o,
{
    match o {
        Some(s) => Some(s.clone()),
        None => None,
    }
}

impl DiscoveredDevice {
    /// A copy of the record.
    pub fn copy(&self) -> (r: Self)
        ensures
            r == *self,
    {
        DiscoveredDevice {
            device_id: DeviceId(self.device_id.0.clone()),
            service_fullname: self.service_fullname.clone(),
            hostname: self.hostname.clone(),
            ip: self.ip.clone(),
            port: self.port,
            name: self.name.clone(),
            version: self.version.clone(),
            friendly_name: copy_opt_string(&self.friendly_name),
            first_seen_at: self.first_seen_at,
            last_seen_at: self.last_seen_at,
            is_stale: self.is_stale,
        }
    }
}

impl ConnectedDevice {
    /// A copy of the record.
    pub fn copy(&self) -> (r: Self)
        ensures
            r == *self,
    {
        ConnectedDevice {
            device_id: DeviceId(self.device_id.0.clone()),
            discovered: self.discovered.copy(),
            name: self.name.clone(),
            friendly_name: copy_opt_string(&self.friendly_name),
            mac_address: copy_opt_string(&self.mac_address),
            model: copy_opt_string(&self.model),
            sw_version: copy_opt_string(&self.sw_version),
            status: self.status,
            entity_count: self.entity_count,
            auth_mode: copy_opt_string(&self.auth_mode),
            last_error: copy_opt_string(&self.last_error),
        }
    }
}

/// `r` is the status of a confirmed device.
pub open spec fn status_of_connected(r: DeviceLinkStatus, cd: ConnectedDevice) -> bool {
    &&& r.device_id == cd.device_id.0
    &&& r.name == cd.name
    &&& r.hostname == cd.discovered.hostname
    &&& r.ip == cd.discovered.ip
    &&& r.port == cd.discovered.port
    &&& r.version == cd.discovered.version
    &&& r.status == cd.status
    &&& r.entity_count == cd.entity_count
    &&& r.mac_address == cd.mac_address
    &&& r.model == cd.model
    &&& r.sw_version == cd.sw_version
    &&& r.friendly_name == cd.friendly_name
    &&& r.auth_mode == cd.auth_mode
    &&& r.last_error == cd.last_error
}

/// `r` is the status of a discovery record not yet confirmed.
pub open spec fn status_of_discovered(r: DeviceLinkStatus, d: DiscoveredDevice) -> bool {
    &&& r.device_id == d.device_id.0
    &&& r.name == d.name
    &&& r.hostname == d.hostname
    &&& r.ip == d.ip
    &&& r.port == d.port
    &&& r.version == d.version
    &&& r.status == SessionStatus::Discovered
    &&& r.entity_count == 0
    &&& r.mac_address is None
    &&& r.model is None
    &&& r.sw_version is None
    &&& r.friendly_name == d.friendly_name
    &&& r.auth_mode is None
    &&& r.last_error is None
}

/// The status of a confirmed device.
pub fn status_from_connected(cd: &ConnectedDevice) -> (r: DeviceLinkStatus)
    ensures
        status_of_connected(r, *cd),
{
    DeviceLinkStatus {
        device_id: cd.device_id.0.clone(),
        name: cd.name.clone(),
        hostname: cd.discovered.hostname.clone(),
        ip: cd.discovered.ip.clone(),
        port: cd.discovered.port,
        version: cd.discovered.version.clone(),
        status: cd.status,
        entity_count: cd.entity_count,
        mac_address: copy_opt_string(&cd.mac_address),
        model: copy_opt_string(&cd.model),
        sw_version: copy_opt_string(&cd.sw_version),
        friendly_name: copy_opt_string(&cd.friendly_name),
        auth_mode: copy_opt_string(&cd.auth_mode),
        last_error: copy_opt_string(&cd.last_error),
    }
}

/// The status of a discovery record before the handshake.
pub fn status_from_discovered(d: &DiscoveredDevice) -> (r: DeviceLinkStatus)
    ensures
        status_of_discovered(r, *d),
{
    DeviceLinkStatus {
        device_id: d.device_id.0.clone(),
        name: d.name.clone(),
        hostname: d.hostname.clone(),
        ip: d.ip.clone(),
        port: d.port,
        version: d.version.clone(),
        status: SessionStatus::Discovered,
        entity_count: 0,
        mac_address: None,
        model: None,
        sw_version: None,
        friendly_name: copy_opt_string(&d.friendly_name),
        auth_mode: None,
        last_error: None,
    }
}

// ── Keys ──────────────────────────────────────────────────────────────────────

/// The ids of discovery records.
pub open spec fn disc_keys(ds: Seq<DiscoveredDevice>) -> Seq<Seq<char>> {
    Seq::new(ds.len(), |i: int| ds[i].device_id.0@)
}

/// The ids of confirmed devices.
pub open spec fn conn_keys(cs: Seq<ConnectedDevice>) -> Seq<Seq<char>> {
    Seq::new(cs.len(), |i: int| cs[i].device_id.0@)
}

/// The keys of an id-to-id table.
pub open spec fn pair_keys(ps: Seq<(String, String)>) -> Seq<Seq<char>> {
    Seq::new(ps.len(), |i: int| ps[i].0@)
}

/// The values of an id-to-id table.
pub open spec fn pair_vals(ps: Seq<(String, String)>) -> Seq<Seq<char>> {
    Seq::new(ps.len(), |i: int| ps[i].1@)
}

/// The keys of the security table.
pub open spec fn sec_keys(ps: Seq<(String, DeviceSecurityConfig)>) -> Seq<Seq<char>> {
    Seq::new(ps.len(), |i: int| ps[i].0@)
}

/// The values of the security table.
pub open spec fn sec_vals(ps: Seq<(String, DeviceSecurityConfig)>) -> Seq<DeviceSecurityConfig> {
    Seq::new(ps.len(), |i: int| ps[i].1)
}

fn find_disc(ds: &Vec<DiscoveredDevice>, id: &str) -> (r: usize)
    ensures
        r == key_index(disc_keys(ds@), id@),
{
    let ghost ks = disc_keys(ds@);
    let mut i: usize = 0;
    while i < ds.len()
        invariant
            i <= ds@.len(),
            ks == disc_keys(ds@),
            forall|j: int| 0 <= j < i ==> ks[j] != id@,
        decreases ds@.len() - i,
    {
        if str_eq(ds[i].device_id.0.as_str(), id) {
            proof {
                lemma_key_index(ks, id@);
                let p = key_index(ks, id@);
                if p < i {
                    assert(ks[p] != id@);
                }
                if i < p {
                    assert(ks[i as int] == id@);
                }
            }
            return i;
        }
        i = i + 1;
    }
    proof {
        lemma_key_index(ks, id@);
        let p = key_index(ks, id@);
        if p < i {
            assert(ks[p] != id@);
        }
    }
    i
}

fn find_conn(cs: &Vec<ConnectedDevice>, id: &str) -> (r: usize)
    ensures
        r == key_index(conn_keys(cs@), id@),
{
    let ghost ks = conn_keys(cs@);
    let mut i: usize = 0;
    while i < cs.len()
        invariant
            i <= cs@.len(),
            ks == conn_keys(cs@),
            forall|j: int| 0 <= j < i ==> ks[j] != id@,
        decreases cs@.len() - i,
    {
        if str_eq(cs[i].device_id.0.as_str(), id) {
            proof {
                lemma_key_index(ks, id@);
                let p = key_index(ks, id@);
                if p < i {
                    assert(ks[p] != id@);
                }
                if i < p {
                    assert(ks[i as int] == id@);
                }
            }
            return i;
        }
        i = i + 1;
    }
    proof {
        lemma_key_index(ks, id@);
        let p = key_index(ks, id@);
        if p < i {
            assert(ks[p] != id@);
        }
    }
    i
}

fn find_pair(ps: &Vec<(String, String)>, id: &str) -> (r: usize)
    ensures
        r == key_index(pair_keys(ps@), id@),
{
    let ghost ks = pair_keys(ps@);
    let mut i: usize = 0;
    while i < ps.len()
        invariant
            i <= ps@.len(),
            ks == pair_keys(ps@),
            forall|j: int| 0 <= j < i ==> ks[j] != id@,
        decreases ps@.len() - i,
    {
        if str_eq(ps[i].0.as_str(), id) {
            proof {
                lemma_key_index(ks, id@);
                let p = key_index(ks, id@);
                if p < i {
                    assert(ks[p] != id@);
                }
                if i < p {
                    assert(ks[i as int] == id@);
                }
            }
            return i;
        }
        i = i + 1;
    }
    proof {
        lemma_key_index(ks, id@);
        let p = key_index(ks, id@);
        if p < i {
            assert(ks[p] != id@);
        }
    }
    i
}

fn find_sec(ps: &Vec<(String, DeviceSecurityConfig)>, id: &str) -> (r: usize)
    ensures
        r == key_index(sec_keys(ps@), id@),
{
    let ghost ks = sec_keys(ps@);
    let mut i: usize = 0;
    while i < ps.len()
        invariant
            i <= ps@.len(),
            ks == sec_keys(ps@),
            forall|j: int| 0 <= j < i ==> ks[j] != id@,
        decreases ps@.len() - i,
    {
        if str_eq(ps[i].0.as_str(), id) {
            proof {
                lemma_key_index(ks, id@);
                let p = key_index(ks, id@);
                if p < i {
                    assert(ks[p] != id@);
                }
                if i < p {
                    assert(ks[i as int] == id@);
                }
            }
            return i;
        }
        i = i + 1;
    }
    proof {
        lemma_key_index(ks, id@);
        let p = key_index(ks, id@);
        if p < i {
            assert(ks[p] != id@);
        }
    }
    i
}

fn find_session(ss: &Vec<String>, id: &str) -> (r: usize)
    ensures
        r == key_index(strs_view(ss@), id@),
{
    let ghost ks = strs_view(ss@);
    let mut i: usize = 0;
    while i < ss.len()
        invariant
            i <= ss@.len(),
            ks == strs_view(ss@),
            forall|j: int| 0 <= j < i ==> ks[j] != id@,
        decreases ss@.len() - i,
    {
        if str_eq(ss[i].as_str(), id) {
            proof {
                lemma_key_index(ks, id@);
                let p = key_index(ks, id@);
                if p < i {
                    assert(ks[p] != id@);
                }
                if i < p {
                    assert(ks[i as int] == id@);
                }
            }
            return i;
        }
        i = i + 1;
    }
    proof {
        lemma_key_index(ks, id@);
        let p = key_index(ks, id@);
        if p < i {
            assert(ks[p] != id@);
        }
    }
    i
}

// ── Registry ──────────────────────────────────────────────────────────────────

/// The manager's records. Every table holds each key at most once.
#[derive(Debug)]
pub struct LinkRegistry {
    /// Discovery records, keyed by provisional id.
    pub discovered: Vec<DiscoveredDevice>,
    /// Confirmed devices, keyed by canonical id.
    pub canonical: Vec<ConnectedDevice>,
    /// Provisional id → canonical id.
    pub provisional_to_canonical: Vec<(String, String)>,
    /// Canonical id → provisional id.
    pub canonical_to_provisional: Vec<(String, String)>,
    /// Snapshot-restored devices without a live session, keyed by canonical id.
    pub restored: Vec<ConnectedDevice>,
    /// Provisional ids that have a live session.
    pub sessions: Vec<String>,
    /// Security configurations, keyed by provisional id.
    pub security_configs: Vec<(String, DeviceSecurityConfig)>,
    /// Runtime limits.
    pub limits: DeviceLinkLimits,
}

/// The session cap: the device limit, at most `MAX_ACTIVE_SESSIONS`.
pub open spec fn session_cap_spec(l: DeviceLinkLimits) -> nat {
    if l.max_devices < 128 {
        l.max_devices as nat
    } else {
        128
    }
}

/// Milliseconds from `last` to `now`; the maximum when `last` lies in the future.
pub open spec fn elapsed_ms(last: u64, now: u64) -> u64 {
    if now >= last {
        (now - last) as u64
    } else {
        u64::MAX
    }
}

impl LinkRegistry {
    /// Every table holds each key at most once; at most `MAX_DISCOVERED`
    /// discovery records are kept, and the live sessions never exceed the
    /// session cap.
    pub open spec fn wf(&self) -> bool {
        &&& self.discovered@.len() <= MAX_DISCOVERED
        &&& self.sessions@.len() <= session_cap_spec(self.limits)
        &&& disc_keys(self.discovered@).no_duplicates()
        &&& conn_keys(self.canonical@).no_duplicates()
        &&& pair_keys(self.provisional_to_canonical@).no_duplicates()
        &&& pair_keys(self.canonical_to_provisional@).no_duplicates()
        &&& conn_keys(self.restored@).no_duplicates()
        &&& strs_view(self.sessions@).no_duplicates()
        &&& sec_keys(self.security_configs@).no_duplicates()
    }

    /// Discovery records by provisional id.
    pub open spec fn discovered_map(&self) -> Map<Seq<char>, DiscoveredDevice> {
        kv_map(disc_keys(self.discovered@), self.discovered@)
    }

    /// Confirmed devices by canonical id.
    pub open spec fn canonical_map(&self) -> Map<Seq<char>, ConnectedDevice> {
        kv_map(conn_keys(self.canonical@), self.canonical@)
    }

    /// Restored devices by canonical id.
    pub open spec fn restored_map(&self) -> Map<Seq<char>, ConnectedDevice> {
        kv_map(conn_keys(self.restored@), self.restored@)
    }

    /// Provisional id → canonical id.
    pub open spec fn p2c_map(&self) -> Map<Seq<char>, Seq<char>> {
        kv_map(pair_keys(self.provisional_to_canonical@), pair_vals(self.provisional_to_canonical@))
    }

    /// Canonical id → provisional id.
    pub open spec fn c2p_map(&self) -> Map<Seq<char>, Seq<char>> {
        kv_map(pair_keys(self.canonical_to_provisional@), pair_vals(self.canonical_to_provisional@))
    }

    /// Security configurations by provisional id.
    pub open spec fn security_map(&self) -> Map<Seq<char>, DeviceSecurityConfig> {
        kv_map(sec_keys(self.security_configs@), sec_vals(self.security_configs@))
    }

    /// The provisional ids with a live session.
    pub open spec fn session_ids(&self) -> Seq<Seq<char>> {
        strs_view(self.sessions@)
    }

    /// A new session may be spawned for `id`: it has none, sessions are
    /// enabled, and the session cap is not reached.
    pub open spec fn may_spawn(&self, id: Seq<char>) -> bool {
        &&& !self.session_ids().contains(id)
        &&& self.limits.max_connections_per_device != 0
        &&& session_cap_spec(self.limits) != 0
        &&& self.sessions@.len() < session_cap_spec(self.limits)
    }

    /// Resource bounds: a well-formed registry (which `new` gives and every
    /// update keeps) holds at most `MAX_DISCOVERED` discovery records and at
    /// most the session cap of live sessions, and that cap is at most
    /// `MAX_ACTIVE_SESSIONS`.
    pub proof fn lemma_usage_within_caps(&self)
        requires
            self.wf(),
        ensures
            self.discovered@.len() <= MAX_DISCOVERED,
            self.sessions@.len() <= session_cap_spec(self.limits),
            session_cap_spec(self.limits) <= MAX_ACTIVE_SESSIONS,
    {
    }

    /// Empty records with the given limits.
    pub fn new(limits: DeviceLinkLimits) -> (r: Self)
        ensures
            r.wf(),
            r.limits == limits,
            r.discovered@.len() == 0,
            r.canonical@.len() == 0,
            r.provisional_to_canonical@.len() == 0,
            r.canonical_to_provisional@.len() == 0,
            r.restored@.len() == 0,
            r.sessions@.len() == 0,
            r.security_configs@.len() == 0,
    {
        let r = LinkRegistry {
            discovered: Vec::new(),
            canonical: Vec::new(),
            provisional_to_canonical: Vec::new(),
            canonical_to_provisional: Vec::new(),
            restored: Vec::new(),
            sessions: Vec::new(),
            security_configs: Vec::new(),
            limits,
        };
        proof {
            assert(disc_keys(r.discovered@) =~= Seq::<Seq<char>>::empty());
            assert(conn_keys(r.canonical@) =~= Seq::<Seq<char>>::empty());
            assert(pair_keys(r.provisional_to_canonical@) =~= Seq::<Seq<char>>::empty());
            assert(pair_keys(r.canonical_to_provisional@) =~= Seq::<Seq<char>>::empty());
            assert(conn_keys(r.restored@) =~= Seq::<Seq<char>>::empty());
            assert(strs_view(r.sessions@) =~= Seq::<Seq<char>>::empty());
            assert(sec_keys(r.security_configs@) =~= Seq::<Seq<char>>::empty());
        }
        r
    }

    /// The session cap.
    pub fn session_cap(&self) -> (r: usize)
        ensures
            r == session_cap_spec(self.limits),
    {
        if self.limits.max_devices < MAX_ACTIVE_SESSIONS {
            self.limits.max_devices
        } else {
            MAX_ACTIVE_SESSIONS
        }
    }

    /// Current resource utilisation.
    pub fn resource_usage(&self) -> (r: ResourceUsage)
        ensures
            r == (ResourceUsage {
                discovered_count: self.discovered@.len() as usize,
                discovered_cap: MAX_DISCOVERED,
                active_sessions: self.sessions@.len() as usize,
                session_cap: session_cap_spec(self.limits) as usize,
            }),
    {
        ResourceUsage {
            discovered_count: self.discovered.len(),
            discovered_cap: MAX_DISCOVERED,
            active_sessions: self.sessions.len(),
            session_cap: self.session_cap(),
        }
    }

    /// The security configuration for a provisional id (the default when none is set).
    pub fn security_config_for(&self, id: &str) -> (r: DeviceSecurityConfig)
        requires
            self.wf(),
        ensures
            self.security_map().dom().contains(id@) ==> r == self.security_map()[id@],
            !self.security_map().dom().contains(id@) ==> r.noise_psk is None,
    {
        let i = find_sec(&self.security_configs, id);
        proof {
            lemma_key_index(sec_keys(self.security_configs@), id@);
        }
        if i < self.security_configs.len() {
            proof {
                lemma_kv_at(sec_keys(self.security_configs@), sec_vals(self.security_configs@), i as int);
            }
            self.security_configs[i].1.copy()
        } else {
            DeviceSecurityConfig::default()
        }
    }

    /// An mDNS announcement of `device` at time `now` (milliseconds): a known
    /// record is refreshed (last seen, no longer stale); a new one is ignored
    /// when the record cap is reached, else it is recorded and a session is
    /// registered for it when one may be spawned. Returns whether the actor
    /// must spawn that session.
    pub fn device_discovered(&mut self, device: DiscoveredDevice, now: u64) -> (spawn: bool)
        requires
            old(self).wf(),
        ensures
            final(self).wf(),
            final(self).canonical == old(self).canonical,
            final(self).provisional_to_canonical == old(self).provisional_to_canonical,
            final(self).canonical_to_provisional == old(self).canonical_to_provisional,
            final(self).restored == old(self).restored,
            final(self).security_configs == old(self).security_configs,
            final(self).limits == old(self).limits,
            ({
                let id = device.device_id.0@;
                if old(self).discovered_map().dom().contains(id) {
                    &&& final(self).discovered_map() == old(self).discovered_map().insert(
                        id,
                        DiscoveredDevice { last_seen_at: now, is_stale: false, ..old(self).discovered_map()[id] },
                    )
                    &&& !spawn
                    &&& final(self).sessions == old(self).sessions
                } else if old(self).discovered@.len() >= MAX_DISCOVERED {
                    &&& final(self).discovered == old(self).discovered
                    &&& !spawn
                    &&& final(self).sessions == old(self).sessions
                } else {
                    &&& final(self).discovered_map() == old(self).discovered_map().insert(id, device)
                    &&& spawn == old(self).may_spawn(id)
                    &&& final(self).session_ids() == if spawn {
                        old(self).session_ids().push(id)
                    } else {
                        old(self).session_ids()
                    }
                }
            }),
    {
        let ghost id = device.device_id.0@;
        let ghost ks = disc_keys(self.discovered@);
        let i = find_disc(&self.discovered, device.device_id.0.as_str());
        proof {
            lemma_key_index(ks, id);
        }
        if i < self.discovered.len() {
            let mut rec = self.discovered[i].copy();
            rec.last_seen_at = now;
            rec.is_stale = false;
            let ghost old_d = self.discovered@;
            self.discovered.set(i, rec);
            proof {
                assert(disc_keys(self.discovered@) =~= ks);
                lemma_kv_at(ks, old_d, i as int);
                lemma_kv_update(ks, old_d, i as int, rec);
                assert(self.discovered@ == old_d.update(i as int, rec));
            }
            return false;
        }
        if self.discovered.len() >= MAX_DISCOVERED {
            return false;
        }
        let cap = self.session_cap();
        let j = find_session(&self.sessions, device.device_id.0.as_str());
        proof {
            lemma_key_index(strs_view(self.sessions@), id);
        }
        let spawn = j == self.sessions.len() && self.limits.max_connections_per_device != 0 && cap != 0
            && self.sessions.len() < cap;
        if spawn {
            let ghost ss = strs_view(self.sessions@);
            self.sessions.push(device.device_id.0.clone());
            proof {
                assert(strs_view(self.sessions@) =~= ss.push(id));
                lemma_kv_push(ss, ss, id, id);
            }
        }
        let ghost old_d = self.discovered@;
        self.discovered.push(device);
        proof {
            assert(disc_keys(self.discovered@) =~= ks.push(id));
            lemma_kv_push(ks, old_d, id, device);
        }
        spawn
    }

    /// Whether the device behind provisional id `id` has an active session.
    pub open spec fn session_is_active(&self, id: Seq<char>) -> bool {
        &&& self.p2c_map().dom().contains(id)
        &&& self.canonical_map().dom().contains(self.p2c_map()[id])
        &&& self.canonical_map()[self.p2c_map()[id]].status == SessionStatus::Active
    }

    /// Remove the entry for `id` from the provisional/canonical tables and
    /// the confirmed devices.
    fn forget_mapping(&mut self, id: &str)
        requires
            old(self).wf(),
        ensures
            final(self).wf(),
            final(self).discovered == old(self).discovered,
            final(self).restored == old(self).restored,
            final(self).sessions == old(self).sessions,
            final(self).security_configs == old(self).security_configs,
            final(self).limits == old(self).limits,
            if old(self).p2c_map().dom().contains(id@) {
                let cid = old(self).p2c_map()[id@];
                &&& final(self).p2c_map() == old(self).p2c_map().remove(id@)
                &&& final(self).c2p_map() == old(self).c2p_map().remove(cid)
                &&& final(self).canonical_map() == old(self).canonical_map().remove(cid)
            } else {
                &&& final(self).provisional_to_canonical == old(self).provisional_to_canonical
                &&& final(self).canonical_to_provisional == old(self).canonical_to_provisional
                &&& final(self).canonical == old(self).canonical
            },
    {
        let ghost pk = pair_keys(self.provisional_to_canonical@);
        let ghost pv = pair_vals(self.provisional_to_canonical@);
        let i = find_pair(&self.provisional_to_canonical, id);
        proof {
            lemma_key_index(pk, id@);
        }
        if i < self.provisional_to_canonical.len() {
            let (_, cid) = self.provisional_to_canonical.remove(i);
            proof {
                lemma_kv_at(pk, pv, i as int);
                assert(cid@ == pv[i as int]);
                lemma_kv_remove(pk, pv, i as int);
                assert(pair_keys(self.provisional_to_canonical@) =~= pk.remove(i as int));
                assert(pair_vals(self.provisional_to_canonical@) =~= pv.remove(i as int));
            }
            let ghost ck = pair_keys(self.canonical_to_provisional@);
            let ghost cv = pair_vals(self.canonical_to_provisional@);
            let j = find_pair(&self.canonical_to_provisional, cid.as_str());
            proof {
                lemma_key_index(ck, cid@);
            }
            if j < self.canonical_to_provisional.len() {
                self.canonical_to_provisional.remove(j);
                proof {
                    lemma_kv_remove(ck, cv, j as int);
                    assert(pair_keys(self.canonical_to_provisional@) =~= ck.remove(j as int));
                    assert(pair_vals(self.canonical_to_provisional@) =~= cv.remove(j as int));
                }
            } else {
                proof {
                    assert(kv_map(ck, cv).remove(cid@) =~= kv_map(ck, cv));
                }
            }
            let ghost nk = conn_keys(self.canonical@);
            let ghost nv = self.canonical@;
            let k = find_conn(&self.canonical, cid.as_str());
            proof {
                lemma_key_index(nk, cid@);
            }
            if k < self.canonical.len() {
                self.canonical.remove(k);
                proof {
                    lemma_kv_remove(nk, nv, k as int);
                    assert(conn_keys(self.canonical@) =~= nk.remove(k as int));
                }
            } else {
                proof {
                    assert(kv_map(nk, nv).remove(cid@) =~= kv_map(nk, nv));
                }
            }
        }
    }

    /// Remove `id` from the live sessions; returns whether it had one.
    fn drop_session(&mut self, id: &str) -> (had: bool)
        requires
            old(self).wf(),
        ensures
            final(self).wf(),
            had == old(self).session_ids().contains(id@),
            forall|k: Seq<char>| final(self).session_ids().contains(k) <==> (old(self).session_ids().contains(k) && k != id@),
            final(self).sessions@.len() == if had { old(self).sessions@.len() - 1 } else { old(self).sessions@.len() as int },
            final(self).discovered == old(self).discovered,
            final(self).canonical == old(self).canonical,
            final(self).provisional_to_canonical == old(self).provisional_to_canonical,
            final(self).canonical_to_provisional == old(self).canonical_to_provisional,
            final(self).restored == old(self).restored,
            final(self).security_configs == old(self).security_configs,
            final(self).limits == old(self).limits,
    {
        let ghost ss = strs_view(self.sessions@);
        let j = find_session(&self.sessions, id);
        proof {
            lemma_key_index(ss, id@);
        }
        if j < self.sessions.len() {
            self.sessions.remove(j);
            proof {
                assert(strs_view(self.sessions@) =~= ss.remove(j as int));
                lemma_kv_remove(ss, ss, j as int);
                assert forall|k: Seq<char>| ss.remove(j as int).contains(k) <==> (ss.contains(k) && k != id@) by {
                    if ss.remove(j as int).contains(k) {
                        let q = choose|q: int| 0 <= q < ss.len() - 1 && ss.remove(j as int)[q] == k;
                        let q0 = if q < j { q } else { q + 1 };
                        assert(ss[q0] == k);
                        assert(q0 != j);
                    }
                    if ss.contains(k) && k != id@ {
                        let q = choose|q: int| 0 <= q < ss.len() && ss[q] == k;
                        if q < j {
                            assert(ss.remove(j as int)[q] == k);
                        } else {
                            assert(q != j);
                            assert(ss.remove(j as int)[q - 1] == k);
                        }
                    }
                }
            }
            true
        } else {
            false
        }
    }

    /// The mDNS record of provisional id `id` disappeared. A device with an
    /// active session keeps everything (its record, if any, is marked stale);
    /// otherwise the record, its provisional/canonical mapping and its
    /// confirmed entry are dropped, and its session (if any) is dropped too.
    /// Returns whether the actor must stop that session.
    pub fn device_removed(&mut self, id: &str) -> (stop: bool)
        requires
            old(self).wf(),
        ensures
            final(self).wf(),
            final(self).restored == old(self).restored,
            final(self).security_configs == old(self).security_configs,
            final(self).limits == old(self).limits,
            if old(self).session_is_active(id@) {
                &&& final(self).discovered_map() == if old(self).discovered_map().dom().contains(id@) {
                    old(self).discovered_map().insert(id@, DiscoveredDevice { is_stale: true, ..old(self).discovered_map()[id@] })
                } else {
                    old(self).discovered_map()
                }
                &&& !stop
                &&& final(self).sessions == old(self).sessions
                &&& final(self).canonical == old(self).canonical
                &&& final(self).provisional_to_canonical == old(self).provisional_to_canonical
                &&& final(self).canonical_to_provisional == old(self).canonical_to_provisional
            } else {
                &&& final(self).discovered_map() == old(self).discovered_map().remove(id@)
                &&& if old(self).p2c_map().dom().contains(id@) {
                    let cid = old(self).p2c_map()[id@];
                    &&& final(self).p2c_map() == old(self).p2c_map().remove(id@)
                    &&& final(self).c2p_map() == old(self).c2p_map().remove(cid)
                    &&& final(self).canonical_map() == old(self).canonical_map().remove(cid)
                } else {
                    &&& final(self).provisional_to_canonical == old(self).provisional_to_canonical
                    &&& final(self).canonical_to_provisional == old(self).canonical_to_provisional
                    &&& final(self).canonical == old(self).canonical
                }
                &&& stop == old(self).session_ids().contains(id@)
                &&& forall|k: Seq<char>| final(self).session_ids().contains(k) <==> (old(self).session_ids().contains(k) && k != id@)
            },
    {
        let ghost pk = pair_keys(self.provisional_to_canonical@);
        let ghost pv = pair_vals(self.provisional_to_canonical@);
        let ghost nk = conn_keys(self.canonical@);
        let i = find_pair(&self.provisional_to_canonical, id);
        proof {
            lemma_key_index(pk, id@);
        }
        let mut active = false;
        if i < self.provisional_to_canonical.len() {
            let k = find_conn(&self.canonical, self.provisional_to_canonical[i].1.as_str());
            proof {
                lemma_kv_at(pk, pv, i as int);
                lemma_key_index(nk, pv[i as int]);
                if k < self.canonical.len() {
                    lemma_kv_at(nk, self.canonical@, k as int);
                }
            }
            if k < self.canonical.len() {
                active = self.canonical[k].status == SessionStatus::Active;
            }
        }
        let ghost dk = disc_keys(self.discovered@);
        let ghost dv = self.discovered@;
        let d = find_disc(&self.discovered, id);
        proof {
            lemma_key_index(dk, id@);
        }
        if active {
            if d < self.discovered.len() {
                let mut rec = self.discovered[d].copy();
                rec.is_stale = true;
                self.discovered.set(d, rec);
                proof {
                    assert(disc_keys(self.discovered@) =~= dk);
                    lemma_kv_at(dk, dv, d as int);
                    lemma_kv_update(dk, dv, d as int, rec);
                }
            }
            return false;
        }
        if d < self.discovered.len() {
            self.discovered.remove(d);
            proof {
                assert(disc_keys(self.discovered@) =~= dk.remove(d as int));
                lemma_kv_remove(dk, dv, d as int);
            }
        } else {
            proof {
                assert(kv_map(dk, dv).remove(id@) =~= kv_map(dk, dv));
            }
        }
        self.forget_mapping(id);
        self.drop_session(id)
    }

    /// Store the security configuration of provisional id `id`.
    pub fn set_security_config(&mut self, id: &str, config: DeviceSecurityConfig)
        requires
            old(self).wf(),
        ensures
            final(self).wf(),
            final(self).security_map() == old(self).security_map().insert(id@, config),
            final(self).discovered == old(self).discovered,
            final(self).canonical == old(self).canonical,
            final(self).provisional_to_canonical == old(self).provisional_to_canonical,
            final(self).canonical_to_provisional == old(self).canonical_to_provisional,
            final(self).restored == old(self).restored,
            final(self).sessions == old(self).sessions,
            final(self).limits == old(self).limits,
    {
        let ghost sk = sec_keys(self.security_configs@);
        let ghost sv = sec_vals(self.security_configs@);
        let i = find_sec(&self.security_configs, id);
        proof {
            lemma_key_index(sk, id@);
        }
        if i < self.security_configs.len() {
            self.security_configs.set(i, (owned(id), config));
            proof {
                assert(sec_keys(self.security_configs@) =~= sk);
                assert(sec_vals(self.security_configs@) =~= sv.update(i as int, config));
                lemma_kv_update(sk, sv, i as int, config);
            }
        } else {
            self.security_configs.push((owned(id), config));
            proof {
                assert(sec_keys(self.security_configs@) =~= sk.push(id@));
                assert(sec_vals(self.security_configs@) =~= sv.push(config));
                lemma_kv_push(sk, sv, id@, config);
            }
        }
    }

    /// Record a snapshot-restored device so its status survives restarts.
    pub fn seed_restored(&mut self, device: ConnectedDevice)
        requires
            old(self).wf(),
        ensures
            final(self).wf(),
            final(self).restored_map() == old(self).restored_map().insert(device.device_id.0@, device),
            final(self).discovered == old(self).discovered,
            final(self).canonical == old(self).canonical,
            final(self).provisional_to_canonical == old(self).provisional_to_canonical,
            final(self).canonical_to_provisional == old(self).canonical_to_provisional,
            final(self).sessions == old(self).sessions,
            final(self).security_configs == old(self).security_configs,
            final(self).limits == old(self).limits,
    {
        let ghost rk = conn_keys(self.restored@);
        let ghost rv = self.restored@;
        let ghost id = device.device_id.0@;
        let i = find_conn(&self.restored, device.device_id.0.as_str());
        proof {
            lemma_key_index(rk, id);
        }
        if i < self.restored.len() {
            self.restored.set(i, device);
            proof {
                assert(conn_keys(self.restored@) =~= rk);
                lemma_kv_update(rk, rv, i as int, device);
            }
        } else {
            self.restored.push(device);
            proof {
                assert(conn_keys(self.restored@) =~= rk.push(id));
                lemma_kv_push(rk, rv, id, device);
            }
        }
    }

    /// The authentication mode a session of provisional id `id` uses.
    pub open spec fn auth_mode_for(&self, id: Seq<char>) -> Seq<char> {
        if self.security_map().dom().contains(id) && self.security_map()[id].noise_psk is Some {
            "noise"@
        } else {
            "cleartext"@
        }
    }

    /// Remove the restored entry for `cid`, if there is one.
    fn forget_restored(&mut self, cid: &str)
        requires
            old(self).wf(),
        ensures
            final(self).wf(),
            final(self).restored_map() == old(self).restored_map().remove(cid@),
            final(self).discovered == old(self).discovered,
            final(self).canonical == old(self).canonical,
            final(self).provisional_to_canonical == old(self).provisional_to_canonical,
            final(self).canonical_to_provisional == old(self).canonical_to_provisional,
            final(self).sessions == old(self).sessions,
            final(self).security_configs == old(self).security_configs,
            final(self).limits == old(self).limits,
    {
        let ghost rk = conn_keys(self.restored@);
        let ghost rv = self.restored@;
        let i = find_conn(&self.restored, cid);
        proof {
            lemma_key_index(rk, cid@);
        }
        if i < self.restored.len() {
            self.restored.remove(i);
            proof {
                assert(conn_keys(self.restored@) =~= rk.remove(i as int));
                lemma_kv_remove(rk, rv, i as int);
            }
        } else {
            proof {
                assert(kv_map(rk, rv).remove(cid@) =~= kv_map(rk, rv));
            }
        }
    }

    /// Set `key → value` in an id-to-id table.
    fn put_pair(ps: &mut Vec<(String, String)>, key: &str, value: &str)
        requires
            pair_keys(old(ps)@).no_duplicates(),
        ensures
            pair_keys(final(ps)@).no_duplicates(),
            kv_map(pair_keys(final(ps)@), pair_vals(final(ps)@)) == kv_map(pair_keys(old(ps)@), pair_vals(old(ps)@)).insert(
                key@,
                value@,
            ),
    {
        let ghost pk = pair_keys(ps@);
        let ghost pv = pair_vals(ps@);
        let i = find_pair(ps, key);
        proof {
            lemma_key_index(pk, key@);
        }
        if i < ps.len() {
            ps.set(i, (owned(key), owned(value)));
            proof {
                assert(pair_keys(ps@) =~= pk);
                assert(pair_vals(ps@) =~= pv.update(i as int, value@));
                lemma_kv_update(pk, pv, i as int, value@);
            }
        } else {
            ps.push((owned(key), owned(value)));
            proof {
                assert(pair_keys(ps@) =~= pk.push(key@));
                assert(pair_vals(ps@) =~= pv.push(value@));
                lemma_kv_push(pk, pv, key@, value@);
            }
        }
    }

    /// The session of provisional id `provisional` finished the device-info
    /// exchange: the device's canonical id is `canonical_id`. Any restored
    /// entry for it is dropped. When another session already owns the
    /// canonical id, nothing else changes and the redundant session (if
    /// live) must be stopped. When the discovery record is gone, nothing
    /// else changes. Otherwise the device is confirmed (handshaking, no
    /// entities yet, the authentication mode from its security settings)
    /// and both id mappings are recorded. Returns whether the actor must
    /// stop the provisional session.
    pub fn identity_resolved(
        &mut self,
        provisional: &str,
        canonical_id: &str,
        name: String,
        friendly_name: Option<String>,
        mac_address: Option<String>,
        model: Option<String>,
        sw_version: Option<String>,
    ) -> (stop: bool)
        requires
            old(self).wf(),
        ensures
            final(self).wf(),
            final(self).restored_map() == old(self).restored_map().remove(canonical_id@),
            final(self).discovered == old(self).discovered,
            final(self).sessions == old(self).sessions,
            final(self).security_configs == old(self).security_configs,
            final(self).limits == old(self).limits,
            if old(self).canonical_map().dom().contains(canonical_id@) {
                &&& stop == old(self).session_ids().contains(provisional@)
                &&& final(self).canonical == old(self).canonical
                &&& final(self).provisional_to_canonical == old(self).provisional_to_canonical
                &&& final(self).canonical_to_provisional == old(self).canonical_to_provisional
            } else if !old(self).discovered_map().dom().contains(provisional@) {
                &&& !stop
                &&& final(self).canonical == old(self).canonical
                &&& final(self).provisional_to_canonical == old(self).provisional_to_canonical
                &&& final(self).canonical_to_provisional == old(self).canonical_to_provisional
            } else {
                let cd = final(self).canonical_map()[canonical_id@];
                &&& !stop
                &&& final(self).canonical_map().dom() == old(self).canonical_map().dom().insert(canonical_id@)
                &&& final(self).canonical_map().remove(canonical_id@) == old(self).canonical_map()
                &&& cd.device_id.0@ == canonical_id@
                &&& cd.discovered == old(self).discovered_map()[provisional@]
                &&& cd.name == name
                &&& cd.friendly_name == friendly_name
                &&& cd.mac_address == mac_address
                &&& cd.model == model
                &&& cd.sw_version == sw_version
                &&& cd.status == SessionStatus::Handshaking
                &&& cd.entity_count == 0
                &&& cd.auth_mode is Some && cd.auth_mode->Some_0@ == old(self).auth_mode_for(provisional@)
                &&& cd.last_error is None
                &&& final(self).p2c_map() == old(self).p2c_map().insert(provisional@, canonical_id@)
                &&& final(self).c2p_map() == old(self).c2p_map().insert(canonical_id@, provisional@)
            },
    {
        self.forget_restored(canonical_id);
        let ghost nk = conn_keys(self.canonical@);
        let ghost nv = self.canonical@;
        let c = find_conn(&self.canonical, canonical_id);
        proof {
            lemma_key_index(nk, canonical_id@);
        }
        if c < self.canonical.len() {
            let j = find_session(&self.sessions, provisional);
            proof {
                lemma_key_index(strs_view(self.sessions@), provisional@);
            }
            return j < self.sessions.len();
        }
        let ghost dk = disc_keys(self.discovered@);
        let d = find_disc(&self.discovered, provisional);
        proof {
            lemma_key_index(dk, provisional@);
        }
        if d >= self.discovered.len() {
            return false;
        }
        let discovered = self.discovered[d].copy();
        proof {
            lemma_kv_at(dk, self.discovered@, d as int);
        }
        let ghost sk = sec_keys(self.security_configs@);
        let ghost sv = sec_vals(self.security_configs@);
        let si = find_sec(&self.security_configs, provisional);
        proof {
            lemma_key_index(sk, provisional@);
        }
        let noise = if si < self.security_configs.len() {
            proof {
                lemma_kv_at(sk, sv, si as int);
            }
            self.security_configs[si].1.noise_psk.is_some()
        } else {
            false
        };
        let auth_mode = if noise {
            owned("noise")
        } else {
            owned("cleartext")
        };
        let connected = ConnectedDevice {
            device_id: DeviceId(owned(canonical_id)),
            discovered,
            name,
            friendly_name,
            mac_address,
            model,
            sw_version,
            status: SessionStatus::Handshaking,
            entity_count: 0,
            auth_mode: Some(auth_mode),
            last_error: None,
        };
        let ghost cv = connected;
        self.canonical.push(connected);
        proof {
            assert(conn_keys(self.canonical@) =~= nk.push(canonical_id@));
            lemma_kv_push(nk, nv, canonical_id@, cv);
            let m = kv_map(conn_keys(self.canonical@), self.canonical@);
            assert(m.remove(canonical_id@) =~= kv_map(nk, nv));
            assert(m.dom() =~= kv_map(nk, nv).dom().insert(canonical_id@));
        }
        Self::put_pair(&mut self.provisional_to_canonical, provisional, canonical_id);
        Self::put_pair(&mut self.canonical_to_provisional, canonical_id, provisional);
        false
    }

    /// The session of provisional id `provisional` reports a new status and
    /// entity count; they are recorded on the confirmed device it maps to
    /// (or whose canonical id is `provisional` itself), if there is one.
    pub fn status_changed(&mut self, provisional: &str, status: SessionStatus, entity_count: usize)
        requires
            old(self).wf(),
        ensures
            final(self).wf(),
            ({
                let cid = if old(self).p2c_map().dom().contains(provisional@) {
                    old(self).p2c_map()[provisional@]
                } else {
                    provisional@
                };
                final(self).canonical_map() == if old(self).canonical_map().dom().contains(cid) {
                    old(self).canonical_map().insert(
                        cid,
                        ConnectedDevice { status, entity_count, ..old(self).canonical_map()[cid] },
                    )
                } else {
                    old(self).canonical_map()
                }
            }),
            final(self).discovered == old(self).discovered,
            final(self).provisional_to_canonical == old(self).provisional_to_canonical,
            final(self).canonical_to_provisional == old(self).canonical_to_provisional,
            final(self).restored == old(self).restored,
            final(self).sessions == old(self).sessions,
            final(self).security_configs == old(self).security_configs,
            final(self).limits == old(self).limits,
    {
        let ghost pk = pair_keys(self.provisional_to_canonical@);
        let ghost pv = pair_vals(self.provisional_to_canonical@);
        let i = find_pair(&self.provisional_to_canonical, provisional);
        proof {
            lemma_key_index(pk, provisional@);
        }
        let cid = if i < self.provisional_to_canonical.len() {
            proof {
                lemma_kv_at(pk, pv, i as int);
            }
            self.provisional_to_canonical[i].1.clone()
        } else {
            owned(provisional)
        };
        let ghost nk = conn_keys(self.canonical@);
        let ghost nv = self.canonical@;
        let c = find_conn(&self.canonical, cid.as_str());
        proof {
            lemma_key_index(nk, cid@);
        }
        if c < self.canonical.len() {
            let mut rec = self.canonical[c].copy();
            rec.status = status;
            rec.entity_count = entity_count;
            self.canonical.set(c, rec);
            proof {
                assert(conn_keys(self.canonical@) =~= nk);
                lemma_kv_at(nk, nv, c as int);
                lemma_kv_update(nk, nv, c as int, rec);
            }
        }
    }

    /// The provisional id whose session a command for `device_id` goes to:
    /// the id mapped to it when it is a canonical id, else `device_id`
    /// itself; `None` when that id has no live session.
    pub fn dispatch_target(&self, device_id: &str) -> (r: Option<String>)
        requires
            self.wf(),
        ensures
            ({
                let pid = if self.c2p_map().dom().contains(device_id@) {
                    self.c2p_map()[device_id@]
                } else {
                    device_id@
                };
                match r {
                    Some(p) => p@ == pid && self.session_ids().contains(pid),
                    None => !self.session_ids().contains(pid),
                }
            }),
    {
        let ghost pk = pair_keys(self.canonical_to_provisional@);
        let ghost pv = pair_vals(self.canonical_to_provisional@);
        let i = find_pair(&self.canonical_to_provisional, device_id);
        proof {
            lemma_key_index(pk, device_id@);
        }
        let pid = if i < self.canonical_to_provisional.len() {
            proof {
                lemma_kv_at(pk, pv, i as int);
            }
            self.canonical_to_provisional[i].1.clone()
        } else {
            owned(device_id)
        };
        let j = find_session(&self.sessions, pid.as_str());
        proof {
            lemma_key_index(strs_view(self.sessions@), pid@);
        }
        if j < self.sessions.len() {
            Some(pid)
        } else {
            None
        }
    }

    /// Stop everything: every live session is returned (the actor stops
    /// them) and forgotten, and the confirmed, restored and mapping tables
    /// are cleared; discovery records and security settings stay.
    pub fn stop_all(&mut self) -> (stopped: Vec<String>)
        requires
            old(self).wf(),
        ensures
            final(self).wf(),
            stopped@ == old(self).sessions@,
            final(self).sessions@.len() == 0,
            final(self).canonical@.len() == 0,
            final(self).restored@.len() == 0,
            final(self).provisional_to_canonical@.len() == 0,
            final(self).canonical_to_provisional@.len() == 0,
            final(self).discovered == old(self).discovered,
            final(self).security_configs == old(self).security_configs,
            final(self).limits == old(self).limits,
    {
        let mut stopped: Vec<String> = Vec::new();
        std::mem::swap(&mut stopped, &mut self.sessions);
        self.canonical = Vec::new();
        self.restored = Vec::new();
        self.provisional_to_canonical = Vec::new();
        self.canonical_to_provisional = Vec::new();
        proof {
            assert(strs_view(self.sessions@) =~= Seq::<Seq<char>>::empty());
            assert(conn_keys(self.canonical@) =~= Seq::<Seq<char>>::empty());
            assert(conn_keys(self.restored@) =~= Seq::<Seq<char>>::empty());
            assert(pair_keys(self.provisional_to_canonical@) =~= Seq::<Seq<char>>::empty());
            assert(pair_keys(self.canonical_to_provisional@) =~= Seq::<Seq<char>>::empty());
        }
        stopped
    }

    /// Copies of all discovery records.
    pub fn list_discovered(&self) -> (r: Vec<DiscoveredDevice>)
        ensures
            r@ == self.discovered@,
    {
        let mut out: Vec<DiscoveredDevice> = Vec::new();
        let mut i: usize = 0;
        while i < self.discovered.len()
            invariant
                i <= self.discovered@.len(),
                out@ == self.discovered@.subrange(0, i as int),
            decreases self.discovered@.len() - i,
        {
            out.push(self.discovered[i].copy());
            i = i + 1;
            proof {
                assert(out@ =~= self.discovered@.subrange(0, i as int));
            }
        }
        proof {
            assert(out@ =~= self.discovered@);
        }
        out
    }

    /// Copies of all confirmed devices, then of the restored devices that
    /// are not confirmed.
    pub fn list_connected(&self) -> (r: Vec<ConnectedDevice>)
        ensures
            r@ == self.canonical@ + restored_extra(self.restored@, conn_keys(self.canonical@), self.restored@.len() as int),
    {
        let mut out: Vec<ConnectedDevice> = Vec::new();
        let mut i: usize = 0;
        while i < self.canonical.len()
            invariant
                i <= self.canonical@.len(),
                out@ == self.canonical@.subrange(0, i as int),
            decreases self.canonical@.len() - i,
        {
            out.push(self.canonical[i].copy());
            i = i + 1;
            proof {
                assert(out@ =~= self.canonical@.subrange(0, i as int));
            }
        }
        proof {
            assert(self.canonical@.subrange(0, i as int) =~= self.canonical@);
        }
        let ghost ck = conn_keys(self.canonical@);
        let mut j: usize = 0;
        while j < self.restored.len()
            invariant
                j <= self.restored@.len(),
                ck == conn_keys(self.canonical@),
                out@ == self.canonical@ + restored_extra(self.restored@, ck, j as int),
            decreases self.restored@.len() - j,
        {
            let c = find_conn(&self.canonical, self.restored[j].device_id.0.as_str());
            proof {
                lemma_key_index(ck, self.restored@[j as int].device_id.0@);
            }
            if c >= self.canonical.len() {
                out.push(self.restored[j].copy());
            }
            j = j + 1;
            proof {
                assert(out@ =~= self.canonical@ + restored_extra(self.restored@, ck, j as int));
            }
        }
        out
    }

    /// The status of `id`: the confirmed device with that canonical id; else
    /// the confirmed device its provisional id maps to; else its discovery
    /// record; else the restored device with that id; else some restored
    /// device discovered under that provisional id; else `None`.
    pub fn get_status(&self, id: &str) -> (r: Option<DeviceLinkStatus>)
        requires
            self.wf(),
        ensures
            if self.canonical_map().dom().contains(id@) {
                r is Some && status_of_connected(r->Some_0, self.canonical_map()[id@])
            } else if self.p2c_map().dom().contains(id@) && self.canonical_map().dom().contains(self.p2c_map()[id@]) {
                r is Some && status_of_connected(r->Some_0, self.canonical_map()[self.p2c_map()[id@]])
            } else if self.discovered_map().dom().contains(id@) {
                r is Some && status_of_discovered(r->Some_0, self.discovered_map()[id@])
            } else if self.restored_map().dom().contains(id@) {
                r is Some && status_of_connected(r->Some_0, self.restored_map()[id@])
            } else if exists|j: int| 0 <= j < self.restored@.len() && #[trigger] self.restored@[j].discovered.device_id.0@ == id@ {
                r is Some && exists|j: int|
                    0 <= j < self.restored@.len() && #[trigger] self.restored@[j].discovered.device_id.0@ == id@
                        && status_of_connected(r->Some_0, self.restored@[j])
            } else {
                r is None
            },
    {
        let ghost nk = conn_keys(self.canonical@);
        let c = find_conn(&self.canonical, id);
        proof {
            lemma_key_index(nk, id@);
        }
        if c < self.canonical.len() {
            proof {
                lemma_kv_at(nk, self.canonical@, c as int);
            }
            return Some(status_from_connected(&self.canonical[c]));
        }
        let ghost pk = pair_keys(self.provisional_to_canonical@);
        let ghost pv = pair_vals(self.provisional_to_canonical@);
        let p = find_pair(&self.provisional_to_canonical, id);
        proof {
            lemma_key_index(pk, id@);
        }
        if p < self.provisional_to_canonical.len() {
            proof {
                lemma_kv_at(pk, pv, p as int);
            }
            let c2 = find_conn(&self.canonical, self.provisional_to_canonical[p].1.as_str());
            proof {
                lemma_key_index(nk, pv[p as int]);
            }
            if c2 < self.canonical.len() {
                proof {
                    lemma_kv_at(nk, self.canonical@, c2 as int);
                }
                return Some(status_from_connected(&self.canonical[c2]));
            }
        }
        let ghost dk = disc_keys(self.discovered@);
        let d = find_disc(&self.discovered, id);
        proof {
            lemma_key_index(dk, id@);
        }
        if d < self.discovered.len() {
            proof {
                lemma_kv_at(dk, self.discovered@, d as int);
            }
            return Some(status_from_discovered(&self.discovered[d]));
        }
        let ghost rk = conn_keys(self.restored@);
        let r = find_conn(&self.restored, id);
        proof {
            lemma_key_index(rk, id@);
        }
        if r < self.restored.len() {
            proof {
                lemma_kv_at(rk, self.restored@, r as int);
            }
            return Some(status_from_connected(&self.restored[r]));
        }
        let mut j: usize = 0;
        while j < self.restored.len()
            invariant
                self.wf(),
                !self.canonical_map().dom().contains(id@),
                !(self.p2c_map().dom().contains(id@) && self.canonical_map().dom().contains(self.p2c_map()[id@])),
                !self.discovered_map().dom().contains(id@),
                !self.restored_map().dom().contains(id@),
                j <= self.restored@.len(),
                forall|q: int| 0 <= q < j ==> #[trigger] self.restored@[q].discovered.device_id.0@ != id@,
            decreases self.restored@.len() - j,
        {
            if str_eq(self.restored[j].discovered.device_id.0.as_str(), id) {
                let st = status_from_connected(&self.restored[j]);
                proof {
                    assert(self.restored@[j as int].discovered.device_id.0@ == id@);
                }
                return Some(st);
            }
            j = j + 1;
        }
        None
    }

    /// The periodic staleness check at time `now` (milliseconds): a record
    /// not announced for 90 seconds is marked stale; a stale record not
    /// announced for ten minutes whose device is not confirmed is evicted,
    /// and its session (if any) is dropped. Returns the sessions the actor
    /// must stop.
    pub fn check_staleness(&mut self, now: u64) -> (stopped: Vec<String>)
        requires
            old(self).wf(),
        ensures
            final(self).wf(),
            forall|k: Seq<char>|
                #[trigger] final(self).discovered_map().dom().contains(k) <==> (old(self).discovered_map().dom().contains(k)
                    && !evicted(old(self).discovered_map()[k], now, old(self).p2c_map())),
            forall|k: Seq<char>|
                #[trigger] final(self).discovered_map().dom().contains(k) ==> final(self).discovered_map()[k] == marked(
                    old(self).discovered_map()[k],
                    now,
                ),
            strs_view(stopped@).no_duplicates(),
            forall|k: Seq<char>|
                #[trigger] strs_view(stopped@).contains(k) <==> (old(self).discovered_map().dom().contains(k) && evicted(
                    old(self).discovered_map()[k],
                    now,
                    old(self).p2c_map(),
                ) && old(self).session_ids().contains(k)),
            forall|k: Seq<char>|
                #[trigger] final(self).session_ids().contains(k) <==> (old(self).session_ids().contains(k)
                    && !strs_view(stopped@).contains(k)),
            final(self).canonical == old(self).canonical,
            final(self).provisional_to_canonical == old(self).provisional_to_canonical,
            final(self).canonical_to_provisional == old(self).canonical_to_provisional,
            final(self).restored == old(self).restored,
            final(self).security_configs == old(self).security_configs,
            final(self).limits == old(self).limits,
    {
        let ghost s0 = *self;
        let ghost dk = disc_keys(self.discovered@);
        let ghost dv = self.discovered@;
        let ghost p2c = self.p2c_map();
        let mut kept: Vec<DiscoveredDevice> = Vec::new();
        let mut evict_ids: Vec<String> = Vec::new();
        let mut i: usize = 0;
        while i < self.discovered.len()
            invariant
                i <= dv.len(),
                self.discovered@ == dv,
                dk == disc_keys(dv),
                dk.no_duplicates(),
                p2c == self.p2c_map(),
                self.provisional_to_canonical == s0.provisional_to_canonical,
                disc_keys(kept@).no_duplicates(),
                kept@.len() <= i,
                forall|q: int| 0 <= q < kept@.len() ==> exists|j: int|
                    0 <= j < i && #[trigger] kept@[q] == marked(dv[j], now) && !evicted(dv[j], now, p2c),
                forall|k: Seq<char>|
                    #[trigger] disc_keys(kept@).contains(k) <==> exists|j: int|
                        0 <= j < i && dk[j] == k && !evicted(dv[j], now, p2c),
                strs_view(evict_ids@).no_duplicates(),
                forall|k: Seq<char>|
                    #[trigger] strs_view(evict_ids@).contains(k) <==> exists|j: int|
                        0 <= j < i && dk[j] == k && evicted(dv[j], now, p2c),
            decreases dv.len() - i,
        {
            let rec0 = &self.discovered[i];
            let elapsed: u64 = if now >= rec0.last_seen_at { now - rec0.last_seen_at } else { u64::MAX };
            let mut rec = rec0.copy();
            if elapsed >= STALE_AFTER_MS {
                rec.is_stale = true;
            }
            let p = find_pair(&self.provisional_to_canonical, rec.device_id.0.as_str());
            proof {
                lemma_key_index(pair_keys(self.provisional_to_canonical@), dk[i as int]);
                assert(rec == marked(dv[i as int], now));
            }
            let evict = rec.is_stale && elapsed >= STALE_EVICTION_SECS * 1000
                && p >= self.provisional_to_canonical.len();
            proof {
                assert(evict == evicted(dv[i as int], now, p2c));
            }
            let ghost kb = disc_keys(kept@);
            let ghost eb = strs_view(evict_ids@);
            if evict {
                evict_ids.push(rec.device_id.0.clone());
                proof {
                    assert(strs_view(evict_ids@) =~= eb.push(dk[i as int]));
                    if eb.contains(dk[i as int]) {
                        let j = choose|j: int| 0 <= j < i && dk[j] == dk[i as int] && evicted(dv[j], now, p2c);
                    }
                    lemma_kv_push(eb, eb, dk[i as int], dk[i as int]);
                }
            } else {
                let ghost rv = rec;
                kept.push(rec);
                proof {
                    assert(disc_keys(kept@) =~= kb.push(dk[i as int]));
                    if kb.contains(dk[i as int]) {
                        let j = choose|j: int| 0 <= j < i && dk[j] == dk[i as int] && !evicted(dv[j], now, p2c);
                    }
                    lemma_kv_push(kb, kb, dk[i as int], dk[i as int]);
                }
            }
            proof {
                let kn = disc_keys(kept@);
                let en = strs_view(evict_ids@);
                assert forall|q: int| 0 <= q < kept@.len() implies exists|j: int|
                    0 <= j < i + 1 && #[trigger] kept@[q] == marked(dv[j], now) && !evicted(dv[j], now, p2c) by {
                    if q < kb.len() {
                        let j = choose|j: int| 0 <= j < i && #[trigger] kept@[q] == marked(dv[j], now) && !evicted(dv[j], now, p2c);
                    } else {
                        assert(kept@[q] == marked(dv[i as int], now));
                    }
                }
                assert forall|k: Seq<char>| #[trigger] kn.contains(k) <==> exists|j: int| 0 <= j < i + 1 && dk[j] == k && !evicted(dv[j], now, p2c) by {
                    if kn.contains(k) {
                        let q = choose|q: int| 0 <= q < kn.len() && kn[q] == k;
                        if q < kb.len() {
                            assert(kb[q] == k);
                            assert(kb.contains(k));
                        }
                    }
                    if exists|j: int| 0 <= j < i + 1 && dk[j] == k && !evicted(dv[j], now, p2c) {
                        let j = choose|j: int| 0 <= j < i + 1 && dk[j] == k && !evicted(dv[j], now, p2c);
                        if j < i {
                            assert(kb.contains(k));
                            let q = choose|q: int| 0 <= q < kb.len() && kb[q] == k;
                            assert(kn[q] == k);
                        } else {
                            assert(kn[kn.len() - 1] == k);
                        }
                    }
                }
                assert forall|k: Seq<char>| #[trigger] en.contains(k) <==> exists|j: int| 0 <= j < i + 1 && dk[j] == k && evicted(dv[j], now, p2c) by {
                    if en.contains(k) {
                        let q = choose|q: int| 0 <= q < en.len() && en[q] == k;
                        if q < eb.len() {
                            assert(eb[q] == k);
                            assert(eb.contains(k));
                        }
                    }
                    if exists|j: int| 0 <= j < i + 1 && dk[j] == k && evicted(dv[j], now, p2c) {
                        let j = choose|j: int| 0 <= j < i + 1 && dk[j] == k && evicted(dv[j], now, p2c);
                        if j < i {
                            assert(eb.contains(k));
                            let q = choose|q: int| 0 <= q < eb.len() && eb[q] == k;
                            assert(en[q] == k);
                        } else {
                            assert(en[en.len() - 1] == k);
                        }
                    }
                }
            }
            i = i + 1;
        }
        self.discovered = kept;
        let ghost fd = self.discovered;
        proof {
            let fm = self.discovered_map();
            let om = s0.discovered_map();
            assert forall|k: Seq<char>| #[trigger] fm.dom().contains(k) <==> (om.dom().contains(k) && !evicted(om[k], now, p2c)) by {
                if fm.dom().contains(k) {
                    let j = choose|j: int| 0 <= j < dv.len() && dk[j] == k && !evicted(dv[j], now, p2c);
                    lemma_kv_at(dk, dv, j);
                }
                if om.dom().contains(k) && !evicted(om[k], now, p2c) {
                    lemma_key_index(dk, k);
                    let j = key_index(dk, k);
                    lemma_kv_at(dk, dv, j);
                    assert(disc_keys(self.discovered@).contains(k));
                }
            }
            assert forall|k: Seq<char>| #[trigger] fm.dom().contains(k) implies fm[k] == marked(om[k], now) by {
                let kk = disc_keys(self.discovered@);
                lemma_key_index(kk, k);
                let q = key_index(kk, k);
                lemma_kv_at(kk, self.discovered@, q);
                let j = choose|j: int| 0 <= j < i && #[trigger] self.discovered@[q] == marked(dv[j], now) && !evicted(dv[j], now, p2c);
                assert(kk[q] == self.discovered@[q].device_id.0@);
                assert(dk[j] == dv[j].device_id.0@);
                assert(marked(dv[j], now).device_id == dv[j].device_id);
                lemma_kv_at(dk, dv, j);
            }
        }
        let mut stopped: Vec<String> = Vec::new();
        let mut e: usize = 0;
        let ghost ev = strs_view(evict_ids@);
        while e < evict_ids.len()
            invariant
                e <= evict_ids@.len(),
                ev == strs_view(evict_ids@),
                ev.no_duplicates(),
                self.wf(),
                self.discovered == fd,
                self.canonical == s0.canonical,
                self.provisional_to_canonical == s0.provisional_to_canonical,
                self.canonical_to_provisional == s0.canonical_to_provisional,
                self.restored == s0.restored,
                self.security_configs == s0.security_configs,
                self.limits == s0.limits,
                strs_view(stopped@).no_duplicates(),
                forall|k: Seq<char>|
                    #[trigger] strs_view(stopped@).contains(k) <==> (ev.subrange(0, e as int).contains(k)
                        && s0.session_ids().contains(k)),
                forall|k: Seq<char>|
                    #[trigger] self.session_ids().contains(k) <==> (s0.session_ids().contains(k)
                        && !ev.subrange(0, e as int).contains(k)),
            decreases evict_ids@.len() - e,
        {
            let ghost sb = strs_view(stopped@);
            let ghost before = self.session_ids();
            let had = self.drop_session(evict_ids[e].as_str());
            if had {
                stopped.push(evict_ids[e].clone());
                proof {
                    assert(strs_view(stopped@) =~= sb.push(ev[e as int]));
                    if sb.contains(ev[e as int]) {
                        let q = choose|q: int| 0 <= q < e && ev.subrange(0, e as int)[q] == ev[e as int];
                        assert(ev[q] == ev[e as int]);
                    }
                    lemma_kv_push(sb, sb, ev[e as int], ev[e as int]);
                }
            }
            proof {
                let s1 = ev.subrange(0, e + 1);
                let s0e = ev.subrange(0, e as int);
                assert forall|k: Seq<char>| s1.contains(k) <==> (s0e.contains(k) || k == ev[e as int]) by {
                    if s1.contains(k) {
                        let q = choose|q: int| 0 <= q < s1.len() && s1[q] == k;
                        if q < e {
                            assert(s0e[q] == k);
                        }
                    }
                    if s0e.contains(k) {
                        let q = choose|q: int| 0 <= q < s0e.len() && s0e[q] == k;
                        assert(s1[q] == k);
                    }
                    if k == ev[e as int] {
                        assert(s1[e as int] == k);
                    }
                }
                assert forall|k: Seq<char>| #[trigger] strs_view(stopped@).contains(k) <==> (s1.contains(k) && s0.session_ids().contains(k)) by {
                    if strs_view(stopped@).contains(k) && !sb.contains(k) {
                        let q = choose|q: int| 0 <= q < strs_view(stopped@).len() && strs_view(stopped@)[q] == k;
                        if q < sb.len() {
                            assert(sb[q] == k);
                        }
                    }
                    if sb.contains(k) {
                        let q = choose|q: int| 0 <= q < sb.len() && sb[q] == k;
                        assert(strs_view(stopped@)[q] == k);
                    }
                    if had && k == ev[e as int] {
                        assert(strs_view(stopped@)[strs_view(stopped@).len() - 1] == k);
                    }
                }
            }
            e = e + 1;
        }
        proof {
            assert(ev.subrange(0, e as int) =~= ev);
            assert forall|k: Seq<char>| #[trigger] ev.contains(k) <==> (s0.discovered_map().dom().contains(k) && evicted(s0.discovered_map()[k], now, p2c)) by {
                if ev.contains(k) {
                    let j = choose|j: int| 0 <= j < dv.len() && dk[j] == k && evicted(dv[j], now, p2c);
                    lemma_kv_at(dk, dv, j);
                }
                if s0.discovered_map().dom().contains(k) && evicted(s0.discovered_map()[k], now, p2c) {
                    lemma_key_index(dk, k);
                    let j = key_index(dk, k);
                    lemma_kv_at(dk, dv, j);
                }
            }
        }
        stopped
    }
}

/// The restored devices among the first `n` whose id no confirmed device has.
pub open spec fn restored_extra(rs: Seq<ConnectedDevice>, ck: Seq<Seq<char>>, n: int) -> Seq<ConnectedDevice>
    decreases n,
{
    if n <= 0 || n > rs.len() {
        Seq::empty()
    } else if ck.contains(rs[n - 1].device_id.0@) {
        restored_extra(rs, ck, n - 1)
    } else {
        restored_extra(rs, ck, n - 1).push(rs[n - 1])
    }
}

/// The record after the staleness mark: stale when not announced for 90 seconds.
pub open spec fn marked(d: DiscoveredDevice, now: u64) -> DiscoveredDevice {
    if elapsed_ms(d.last_seen_at, now) >= STALE_AFTER_MS {
        DiscoveredDevice { is_stale: true, ..d }
    } else {
        d
    }
}

/// The record is evicted: stale after the mark, not announced for ten
/// minutes, and its device not confirmed.
pub open spec fn evicted(d: DiscoveredDevice, now: u64, p2c: Map<Seq<char>, Seq<char>>) -> bool {
    &&& marked(d, now).is_stale
    &&& elapsed_ms(d.last_seen_at, now) >= STALE_EVICTION_SECS * 1000
    &&& !p2c.dom().contains(d.device_id.0@)
}

} // verus!
