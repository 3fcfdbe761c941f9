//! The decisions of a device session: the Native API handshake as a state
//! machine from phase and received frame to next state and actions, the
//! entity-import limits, and the reconnect status.
//!
//! The session's transport, protobuf decoding and entity actors live with
//! the caller, which reads each frame into a [`HandshakeFrame`], performs the
//! returned actions in order, and feeds the next frame.
use vstd::prelude::*;
use crate::device_link::{DeviceId, device_id_from_mac, mac_digits, opt_str, backoff_delay_secs, backoff_spec};
use crate::link_manager::SessionStatus;
use crate::raw::opt_view;
use crate::text::{concat3};

verus! {

/// The entities a single device may export at most.
pub const MAX_ENTITIES_PER_DEVICE: usize = 512;

/// What a device reports in its device-info response.
#[derive(Debug)]
pub struct DeviceInfo {
    pub name: String,
    pub friendly_name: String,
    pub mac_address: String,
    pub model: String,
    pub esphome_version: String,
    pub uses_password: bool,
}

/// An entity a device listed, as far as the session imports it.
#[derive(Debug)]
pub struct ListedEntity {
    /// The device's key for the entity.
    pub key: u32,
    /// The device's object id.
    pub object_id: String,
    /// The device's unique id, when it sent a non-empty one.
    pub unique_id: Option<String>,
    /// Display name.
    pub name: String,
    /// Domain wire type (`"sensor"`, `"switch"`, …).
    pub domain: String,
}

/// The handshake's phase.
#[derive(Debug)]
pub enum HandshakePhase {
    /// Hello sent; waiting for the hello response.
    AwaitHello,
    /// Device info requested; waiting for it.
    AwaitDeviceInfo,
    /// Entity list requested; collecting the listed entities.
    CollectingEntities(Vec<ListedEntity>),
}

/// A frame received during the handshake, as the session reads it.
#[derive(Debug)]
pub enum HandshakeFrame {
    /// The hello response.
    HelloResponse,
    /// A decoded device-info response.
    DeviceInfo(DeviceInfo),
    /// A device-info response that did not decode.
    BadDeviceInfo,
    /// The end of the entity list.
    ListEntitiesDone,
    /// Any other frame, with the entity it lists when it is an entity-list
    /// frame of an imported domain.
    Listed(Option<ListedEntity>),
}

/// The identity a device-info response resolves.
#[derive(Debug)]
pub struct SessionIdentity {
    /// From the MAC address when the device sent one, else the provisional id.
    pub canonical_id: DeviceId,
    pub name: String,
    pub friendly_name: Option<String>,
    pub mac_address: Option<String>,
    pub model: Option<String>,
    pub sw_version: Option<String>,
}

/// What the session does after a frame, in order.
#[derive(Debug)]
pub enum HandshakeAction {
    /// Send the device-info request.
    SendDeviceInfoRequest,
    /// Send the list-entities request.
    SendListEntitiesRequest,
    /// Record the identity and report it to the manager.
    ReportIdentity(SessionIdentity),
    /// Report that the device requires password authentication.
    ReportUnsupportedAuth,
    /// Stop the session for good.
    StopSession,
    /// Schedule a reconnect with backoff.
    ScheduleReconnect,
    /// Import the listed entities.
    FinalizeEntities(Vec<ListedEntity>),
    /// Subscribe to state updates.
    SubscribeStates,
    /// Reset the backoff, report the session active and start pinging.
    MarkActive,
}

/// Where the session stands after a frame.
#[derive(Debug)]
pub enum HandshakeNext {
    /// Still in the handshake.
    Handshake(HandshakePhase),
    /// The handshake completed.
    Active,
    /// The session is reconnecting or stopping.
    Reconnecting,
}

/// The identity a device-info response resolves for a session whose
/// provisional id is `provisional`.
pub open spec fn identity_of(info: DeviceInfo, provisional: Seq<char>, id: SessionIdentity) -> bool {
    &&& id.canonical_id.0@ == if info.mac_address@.len() > 0 {
        "esphome:"@ + mac_digits(info.mac_address@, info.mac_address@.len() as int)
    } else {
        provisional
    }
    &&& id.name@ == info.name@
    &&& opt_view(id.friendly_name) == nonempty(info.friendly_name@)
    &&& opt_view(id.mac_address) == nonempty(info.mac_address@)
    &&& opt_view(id.model) == nonempty(info.model@)
    &&& opt_view(id.sw_version) == nonempty(info.esphome_version@)
}

/// `None` for an empty text, else the text.
pub open spec fn nonempty(s: Seq<char>) -> Option<Seq<char>> {
    if s.len() == 0 {
        None
    } else {
        Some(s)
    }
}

fn opt_text(s: &String) -> (r: Option<String>)
    ensures
        opt_view(r) == nonempty(s@),
{
    match opt_str(s.clone()) {
        Some(t) => Some(t),
        None => None,
    }
}

fn identity(info: &DeviceInfo, provisional: &DeviceId) -> (r: SessionIdentity)
    ensures
        identity_of(*info, provisional.0@, r),
{
    let canonical_id = if info.mac_address.unicode_len() > 0 {
        device_id_from_mac(info.mac_address.as_str())
    } else {
        DeviceId(provisional.0.clone())
    };
    SessionIdentity {
        canonical_id,
        name: info.name.clone(),
        friendly_name: opt_text(&info.friendly_name),
        mac_address: opt_text(&info.mac_address),
        model: opt_text(&info.model),
        sw_version: opt_text(&info.esphome_version),
    }
}

/// One handshake step: from the phase and a received frame to the next
/// state and the actions to perform, in order.
///
/// The hello response moves on to requesting device info; a device-info
/// response resolves the identity and either stops the session (password
/// authentication is not supported) or requests the entity list; an
/// undecodable one schedules a reconnect; listed entities are collected
/// until the end of the list, which imports them, subscribes to states and
/// marks the session active. Any other frame leaves the phase unchanged.
pub fn handshake_step(phase: HandshakePhase, frame: HandshakeFrame, provisional: &DeviceId) -> (r: (
    HandshakeNext,
    Vec<HandshakeAction>,
))
    ensures
        match (phase, frame) {
            (HandshakePhase::AwaitHello, HandshakeFrame::HelloResponse) => {
                &&& r.0 == HandshakeNext::Handshake(HandshakePhase::AwaitDeviceInfo)
                &&& r.1@ == seq![HandshakeAction::SendDeviceInfoRequest]
            },
            (HandshakePhase::AwaitDeviceInfo, HandshakeFrame::BadDeviceInfo) => {
                &&& r.0 == HandshakeNext::Reconnecting
                &&& r.1@ == seq![HandshakeAction::ScheduleReconnect]
            },
            (HandshakePhase::AwaitDeviceInfo, HandshakeFrame::DeviceInfo(info)) => {
                &&& r.1@.len() >= 2
                &&& r.1@[0] matches HandshakeAction::ReportIdentity(id) && identity_of(info, provisional.0@, id)
                &&& if info.uses_password {
                    &&& r.0 == HandshakeNext::Reconnecting
                    &&& r.1@.len() == 3
                    &&& r.1@[1] == HandshakeAction::ReportUnsupportedAuth
                    &&& r.1@[2] == HandshakeAction::StopSession
                } else {
                    &&& r.0 matches HandshakeNext::Handshake(HandshakePhase::CollectingEntities(now)) && now@.len() == 0
                    &&& r.1@.len() == 2
                    &&& r.1@[1] == HandshakeAction::SendListEntitiesRequest
                }
            },
            (HandshakePhase::CollectingEntities(es), HandshakeFrame::ListEntitiesDone) => {
                &&& r.0 == HandshakeNext::Active
                &&& r.1@ == seq![
                    HandshakeAction::FinalizeEntities(es),
                    HandshakeAction::SubscribeStates,
                    HandshakeAction::MarkActive,
                ]
            },
            (HandshakePhase::CollectingEntities(es), HandshakeFrame::Listed(Some(e))) => {
                &&& r.0 matches HandshakeNext::Handshake(HandshakePhase::CollectingEntities(now)) && now@ == es@.push(e)
                &&& r.1@.len() == 0
            },
            (p, _) => r.0 == HandshakeNext::Handshake(p) && r.1@.len() == 0,
        },
{
    let mut actions: Vec<HandshakeAction> = Vec::new();
    match phase {
        HandshakePhase::AwaitHello => match frame {
            HandshakeFrame::HelloResponse => {
                actions.push(HandshakeAction::SendDeviceInfoRequest);
                (HandshakeNext::Handshake(HandshakePhase::AwaitDeviceInfo), actions)
            },
            _ => (HandshakeNext::Handshake(HandshakePhase::AwaitHello), actions),
        },
        HandshakePhase::AwaitDeviceInfo => match frame {
            HandshakeFrame::BadDeviceInfo => {
                actions.push(HandshakeAction::ScheduleReconnect);
                (HandshakeNext::Reconnecting, actions)
            },
            HandshakeFrame::DeviceInfo(info) => {
                let id = identity(&info, provisional);
                actions.push(HandshakeAction::ReportIdentity(id));
                if info.uses_password {
                    actions.push(HandshakeAction::ReportUnsupportedAuth);
                    actions.push(HandshakeAction::StopSession);
                    (HandshakeNext::Reconnecting, actions)
                } else {
                    actions.push(HandshakeAction::SendListEntitiesRequest);
                    (HandshakeNext::Handshake(HandshakePhase::CollectingEntities(Vec::new())), actions)
                }
            },
            _ => (HandshakeNext::Handshake(HandshakePhase::AwaitDeviceInfo), actions),
        },
        HandshakePhase::CollectingEntities(mut es) => match frame {
            HandshakeFrame::ListEntitiesDone => {
                actions.push(HandshakeAction::FinalizeEntities(es));
                actions.push(HandshakeAction::SubscribeStates);
                actions.push(HandshakeAction::MarkActive);
                (HandshakeNext::Active, actions)
            },
            HandshakeFrame::Listed(Some(e)) => {
                es.push(e);
                (HandshakeNext::Handshake(HandshakePhase::CollectingEntities(es)), actions)
            },
            _ => (HandshakeNext::Handshake(HandshakePhase::CollectingEntities(es)), actions),
        },
    }
}

// ── Entity import ─────────────────────────────────────────────────────────────

/// Whether a device's listed entities may be imported.
#[derive(Debug, Clone, Copy, PartialEq, Eq, Structural)]
pub enum ImportDecision {
    /// Import them.
    Import,
    /// The device lists more than its per-device cap.
    OverDeviceCap,
    /// Importing would exceed the configured entity limit.
    OverEntityLimit,
}

/// The import decision: the per-device cap is the smaller of the configured
/// entity limit and [`MAX_ENTITIES_PER_DEVICE`]; the listed count may not
/// exceed it, and the current entities plus the new ones needed (a sum
/// that saturates at `usize::MAX`) may not exceed the configured limit.
pub open spec fn import_decision_spec(listed: nat, max_entities: nat, current: nat, new_needed: nat) -> ImportDecision {
    let cap = if max_entities < MAX_ENTITIES_PER_DEVICE { max_entities } else { MAX_ENTITIES_PER_DEVICE as nat };
    if listed > cap {
        ImportDecision::OverDeviceCap
    } else if (if current + new_needed > usize::MAX { usize::MAX as nat } else { current + new_needed })
        > max_entities {
        ImportDecision::OverEntityLimit
    } else {
        ImportDecision::Import
    }
}

/// Decide whether `listed` entities may be imported when `current` entities
/// exist and `new_needed` of the listed ones are new.
pub fn import_decision(listed: usize, max_entities: usize, current: usize, new_needed: usize) -> (r: ImportDecision)
    ensures
        r == import_decision_spec(listed as nat, max_entities as nat, current as nat, new_needed as nat),
{
    let cap = if max_entities < MAX_ENTITIES_PER_DEVICE {
        max_entities
    } else {
        MAX_ENTITIES_PER_DEVICE
    };
    if listed > cap {
        ImportDecision::OverDeviceCap
    } else if current.saturating_add(new_needed) > max_entities {
        ImportDecision::OverEntityLimit
    } else {
        ImportDecision::Import
    }
}

/// The local object id of an imported entity: the device slug, `__`, and
/// the device's object id.
pub fn entity_object_id(slug: &str, object_id: &str) -> (r: String)
    ensures
        r@ == slug@ + "__"@ + object_id@,
{
    concat3(slug, "__", object_id)
}

/// The status a session reports when it schedules its `attempt`-th reconnect.
pub fn reconnect_status(attempt: u32) -> (r: SessionStatus)
    ensures
        r == (SessionStatus::Backoff { attempt, delay_secs: backoff_spec(attempt) }),
{
    SessionStatus::Backoff { attempt, delay_secs: backoff_delay_secs(attempt) }
}

} // verus!
