use vstd::prelude::*;

use crate::names::{lowercase, lower_of, matches_folded, contains_seq};
use crate::protocol::{ARANET4_SERVICE, SCAN_DWELL_SECS, SENSOR_CHARACTERISTIC};

verus! {

/// A service that a connected peripheral exposes: its identifier and the
/// identifiers of its characteristics, in the order the peripheral lists them.
#[derive(Clone, Debug)]
pub struct ServiceInfo {
    pub uuid: u128,
    pub characteristics: Vec<u128>,
}

/// A peripheral seen during a scan whose advertised local name matches the
/// filter (compared case-insensitively as a substring).
pub open spec fn advertised_match(name: Option<String>, filter: Seq<char>) -> bool {
    match name {
        Some(n) => contains_seq(lower_of(n@), lower_of(filter)),
        None => false,
    }
}

/// `i` is the first of `names` that matches the filter.
pub open spec fn is_first_match(names: Seq<Option<String>>, filter: Seq<char>, i: int) -> bool {
    &&& 0 <= i < names.len()
    &&& advertised_match(names[i], filter)
    &&& forall|j: int| 0 <= j < i ==> !advertised_match(#[trigger] names[j], filter)
}

/// No name matches the filter.
pub open spec fn no_match(names: Seq<Option<String>>, filter: Seq<char>) -> bool {
    forall|j: int| 0 <= j < names.len() ==> !advertised_match(#[trigger] names[j], filter)
}

/// The first peripheral, in enumeration order, whose advertised name
/// contains the filter, ignoring case. Peripherals without a name are passed
/// over.
pub fn select_device(names: &Vec<Option<String>>, filter: &str) -> (r: Option<usize>)
    ensures
        match r {
            Some(i) => is_first_match(names@, filter@, i as int),
            None => no_match(names@, filter@),
        },
{
    let filter_lower = lowercase(filter);
    let mut i: usize = 0;
    while i < names.len()
        invariant
            i <= names@.len(),
            filter_lower@ == lower_of(filter@),
            forall|j: int| 0 <= j < i ==> !advertised_match(#[trigger] names@[j], filter@),
        decreases names@.len() - i,
    {
        match &names[i] {
            Some(n) => {
                let n_lower = lowercase(n.as_str());
                if matches_folded(n_lower.as_str(), filter_lower.as_str()) {
                    return Some(i);
                }
            },
            None => {},
        }
        i = i + 1;
    }
    None
}

/// Service `s` has identifier `service` and its characteristic `c` has
/// identifier `characteristic`.
pub open spec fn locates(services: Seq<ServiceInfo>, service: u128, characteristic: u128, s: int, c: int) -> bool {
    &&& 0 <= s < services.len()
    &&& services[s].uuid == service
    &&& 0 <= c < services[s].characteristics@.len()
    &&& services[s].characteristics@[c] == characteristic
}

/// `(s, c)` comes before `(s2, c2)` in enumeration order.
pub open spec fn before(s: int, c: int, s2: int, c2: int) -> bool {
    s < s2 || (s == s2 && c < c2)
}

/// The first characteristic, in enumeration order, with identifier
/// `characteristic` inside a service with identifier `service`, as a pair
/// of positions.
pub fn find_characteristic(services: &Vec<ServiceInfo>, service: u128, characteristic: u128) -> (r: Option<(usize, usize)>)
    ensures
        match r {
            Some((s, c)) => {
                &&& locates(services@, service, characteristic, s as int, c as int)
                &&& forall|s2: int, c2: int| #[trigger] locates(services@, service, characteristic, s2, c2)
                        ==> !before(s2, c2, s as int, c as int)
            },
            None => forall|s2: int, c2: int| !#[trigger] locates(services@, service, characteristic, s2, c2),
        },
{
    let mut s: usize = 0;
    while s < services.len()
        invariant
            s <= services@.len(),
            forall|s2: int, c2: int| #[trigger] locates(services@, service, characteristic, s2, c2) ==> s2 >= s,
        decreases services@.len() - s,
    {
        if services[s].uuid == service {
            let chars = &services[s].characteristics;
            let mut c: usize = 0;
            while c < chars.len()
                invariant
                    s < services@.len(),
                    services@[s as int].uuid == service,
                    chars@ == services@[s as int].characteristics@,
                    c <= chars@.len(),
                    forall|s2: int, c2: int| #[trigger] locates(services@, service, characteristic, s2, c2) ==> s2 >= s,
                    forall|c2: int| 0 <= c2 < c ==> chars@[c2] != characteristic,
                decreases chars@.len() - c,
            {
                if chars[c] == characteristic {
                    return Some((s, c));
                }
                c = c + 1;
            }
        }
        s = s + 1;
    }
    None
}

/// Why a session failed.
#[derive(Clone, Debug, PartialEq, Eq)]
pub enum SessionError {
    /// The host has no radio adapter.
    NoAdapter,
    /// No peripheral seen during the scan advertised a matching name.
    NoMatch { filter: String },
    /// The connection request to the selected peripheral failed.
    ConnectFailed,
    /// Service discovery on the connected peripheral failed.
    DiscoveryFailed,
    /// The peripheral lacks the sensor service or its characteristic.
    CharacteristicNotFound { service: u128, characteristic: u128 },
    /// Releasing the connection failed.
    DisconnectFailed,
}

/// Where a session stands.
#[derive(Clone, Debug, PartialEq, Eq)]
pub enum SessionState {
    Idle,
    Scanning,
    Found { device: usize },
    Connected { device: usize },
    ServiceDiscovered { device: usize },
    Ready { device: usize, service: usize, characteristic: usize },
    Disconnected,
    Failed { error: SessionError },
}

/// What the radio layer reports back to the session.
#[derive(Clone, Debug)]
pub enum SessionEvent {
    /// The host's adapters were enumerated.
    AdaptersListed { count: usize },
    /// The scan ended; the advertised local name of each peripheral seen,
    /// in enumeration order.
    ScanFinished { names: Vec<Option<String>> },
    /// The connection request finished.
    ConnectFinished { ok: bool },
    /// Service discovery finished.
    DiscoveryFinished { ok: bool },
    /// The services of the connected peripheral, in enumeration order.
    ServicesListed { services: Vec<ServiceInfo> },
    /// The caller is done with the session.
    Release,
    /// The disconnect request finished.
    DisconnectFinished { ok: bool },
}

/// What the session asks the radio layer to do next.
#[derive(Clone, Copy, Debug, PartialEq, Eq, Structural)]
pub enum SessionAction {
    /// Scan on the given adapter for the given time, without a radio filter,
    /// then stop the scan and enumerate the peripherals seen.
    Scan { adapter: usize, dwell_secs: u64 },
    /// Connect to the given peripheral.
    Connect { device: usize },
    /// Ask the peripheral for its services and characteristics.
    DiscoverServices,
    /// Enumerate the discovered services.
    ListServices,
    /// The sensor characteristic is located: it may be read.
    Read { service: usize, characteristic: usize },
    /// Release the connection.
    Disconnect,
    /// Nothing more is to be done: the session is over.
    Stop,
}

/// States in which a connection is held.
pub open spec fn holds_link(st: SessionState) -> bool {
    st is Connected || st is ServiceDiscovered || st is Ready
}

/// What a step asks for once it has settled on a state: a held connection
/// is never left behind by `Stop`.
pub open spec fn settle(linked: bool, act: SessionAction) -> bool {
    act == if linked { SessionAction::Disconnect } else { SessionAction::Stop }
}

/// One transition of the session: from `st` (with `linked` telling whether
/// a connection is held) on event `ev` to `st2` and `linked2`, asking for `act`.
pub open spec fn step_spec(
    st: SessionState,
    linked: bool,
    filter: Seq<char>,
    ev: SessionEvent,
    st2: SessionState,
    linked2: bool,
    act: SessionAction,
) -> bool {
    match ev {
        SessionEvent::AdaptersListed { count } => if st is Idle {
            if count == 0 {
                st2 == (SessionState::Failed { error: SessionError::NoAdapter }) && !linked2
                    && act == SessionAction::Stop
            } else {
                st2 == SessionState::Scanning && !linked2
                    && act == (SessionAction::Scan { adapter: 0, dwell_secs: SCAN_DWELL_SECS })
            }
        } else {
            st2 == st && linked2 == linked && settle(linked, act)
        },
        SessionEvent::ScanFinished { names } => if st is Scanning {
            !linked2 && match st2 {
                SessionState::Found { device } => is_first_match(names@, filter, device as int)
                    && act == (SessionAction::Connect { device }),
                SessionState::Failed { error } => no_match(names@, filter)
                    && (error matches SessionError::NoMatch { filter: f } && f@ == filter)
                    && act == SessionAction::Stop,
                _ => false,
            }
        } else {
            st2 == st && linked2 == linked && settle(linked, act)
        },
        SessionEvent::ConnectFinished { ok } => match st {
            SessionState::Found { device } => if ok {
                st2 == (SessionState::Connected { device }) && linked2
                    && act == SessionAction::DiscoverServices
            } else {
                st2 == (SessionState::Failed { error: SessionError::ConnectFailed }) && !linked2
                    && act == SessionAction::Stop
            },
            _ => st2 == st && linked2 == linked && settle(linked, act),
        },
        SessionEvent::DiscoveryFinished { ok } => match st {
            SessionState::Connected { device } => linked2 && if ok {
                st2 == (SessionState::ServiceDiscovered { device })
                    && act == SessionAction::ListServices
            } else {
                st2 == (SessionState::Failed { error: SessionError::DiscoveryFailed })
                    && act == SessionAction::Disconnect
            },
            _ => st2 == st && linked2 == linked && settle(linked, act),
        },
        SessionEvent::ServicesListed { services } => match st {
            SessionState::ServiceDiscovered { device } => linked2 && match st2 {
                SessionState::Ready { device: d, service, characteristic } => d == device
                    && locates(services@, ARANET4_SERVICE, SENSOR_CHARACTERISTIC, service as int, characteristic as int)
                    && (forall|s2: int, c2: int| #[trigger] locates(services@, ARANET4_SERVICE, SENSOR_CHARACTERISTIC, s2, c2)
                        ==> !before(s2, c2, service as int, characteristic as int))
                    && act == (SessionAction::Read { service, characteristic }),
                SessionState::Failed { error } =>
                    (forall|s2: int, c2: int| !#[trigger] locates(services@, ARANET4_SERVICE, SENSOR_CHARACTERISTIC, s2, c2))
                    && error == (SessionError::CharacteristicNotFound {
                        service: ARANET4_SERVICE,
                        characteristic: SENSOR_CHARACTERISTIC,
                    })
                    && act == SessionAction::Disconnect,
                _ => false,
            },
            _ => st2 == st && linked2 == linked && settle(linked, act),
        },
        SessionEvent::Release => st2 == st && linked2 == linked && settle(linked, act),
        SessionEvent::DisconnectFinished { ok } => if linked {
            !linked2 && act == SessionAction::Stop && if st is Failed {
                st2 == st
            } else if ok {
                st2 == SessionState::Disconnected
            } else {
                st2 == (SessionState::Failed { error: SessionError::DisconnectFailed })
            }
        } else {
            st2 == st && !linked2 && act == SessionAction::Stop
        },
    }
}

/// A discovery and connection session with one sensor.
pub struct DeviceSession {
    filter: String,
    state: SessionState,
    linked: bool,
}

impl DeviceSession {
    /// The name filter the session was opened with.
    pub closed spec fn filter_spec(&self) -> Seq<char> {
        self.filter@
    }

    pub closed spec fn state_spec(&self) -> SessionState {
        self.state
    }

    /// A connection is held that must still be released.
    pub closed spec fn linked_spec(&self) -> bool {
        self.linked
    }

    /// A connection is held exactly in the connected states, and in a failed
    /// state whose disconnect has not finished yet.
    pub open spec fn wf(&self) -> bool {
        &&& holds_link(self.state_spec()) ==> self.linked_spec()
        &&& self.linked_spec() ==> (holds_link(self.state_spec()) || self.state_spec() is Failed)
    }

    /// A session about to look for a peripheral whose advertised name
    /// contains `filter`, ignoring case. Its first event is the list of
    /// the host's adapters.
    pub fn new(filter: &str) -> (r: DeviceSession)
        ensures
            r.wf(),
            r.filter_spec() == filter@,
            r.state_spec() == SessionState::Idle,
            !r.linked_spec(),
    {
        DeviceSession { filter: filter.to_string(), state: SessionState::Idle, linked: false }
    }

    pub fn state(&self) -> (r: &SessionState)
        ensures
            *r == self.state_spec(),
    {
        &self.state
    }

    pub fn is_linked(&self) -> (r: bool)
        ensures
            r == self.linked_spec(),
    {
        self.linked
    }

    fn settle_action(&self) -> (r: SessionAction)
        ensures
            settle(self.linked_spec(), r),
    {
        if self.linked {
            SessionAction::Disconnect
        } else {
            SessionAction::Stop
        }
    }

    /// Feeds one event to the session and returns what to do next. An event
    /// the current state does not await changes nothing; the session then
    /// asks to disconnect if it holds a connection, else to stop.
    pub fn step(&mut self, event: SessionEvent) -> (act: SessionAction)
        requires
            old(self).wf(),
        ensures
            final(self).wf(),
            final(self).filter_spec() == old(self).filter_spec(),
            step_spec(
                old(self).state_spec(),
                old(self).linked_spec(),
                old(self).filter_spec(),
                event,
                final(self).state_spec(),
                final(self).linked_spec(),
                act,
            ),
            act == SessionAction::Stop ==> !final(self).linked_spec(),
            act == SessionAction::Disconnect ==> final(self).linked_spec(),
    {
        match event {
            SessionEvent::AdaptersListed { count } => {
                if !matches!(self.state, SessionState::Idle) {
                    return self.settle_action();
                }
                if count == 0 {
                    self.state = SessionState::Failed { error: SessionError::NoAdapter };
                    SessionAction::Stop
                } else {
                    self.state = SessionState::Scanning;
                    SessionAction::Scan { adapter: 0, dwell_secs: SCAN_DWELL_SECS }
                }
            },
            SessionEvent::ScanFinished { names } => {
                if !matches!(self.state, SessionState::Scanning) {
                    return self.settle_action();
                }
                match select_device(&names, self.filter.as_str()) {
                    Some(device) => {
                        self.state = SessionState::Found { device };
                        SessionAction::Connect { device }
                    },
                    None => {
                        self.state = SessionState::Failed {
                            error: SessionError::NoMatch { filter: self.filter.clone() },
                        };
                        SessionAction::Stop
                    },
                }
            },
            SessionEvent::ConnectFinished { ok } => {
                match self.state {
                    SessionState::Found { device } => {
                        if ok {
                            self.state = SessionState::Connected { device };
                            self.linked = true;
                            SessionAction::DiscoverServices
                        } else {
                            self.state = SessionState::Failed { error: SessionError::ConnectFailed };
                            SessionAction::Stop
                        }
                    },
                    _ => self.settle_action(),
                }
            },
            SessionEvent::DiscoveryFinished { ok } => {
                match self.state {
                    SessionState::Connected { device } => {
                        if ok {
                            self.state = SessionState::ServiceDiscovered { device };
                            SessionAction::ListServices
                        } else {
                            self.state = SessionState::Failed { error: SessionError::DiscoveryFailed };
                            SessionAction::Disconnect
                        }
                    },
                    _ => self.settle_action(),
                }
            },
            SessionEvent::ServicesListed { services } => {
                match self.state {
                    SessionState::ServiceDiscovered { device } => {
                        match find_characteristic(&services, ARANET4_SERVICE, SENSOR_CHARACTERISTIC) {
                            Some((service, characteristic)) => {
                                self.state = SessionState::Ready { device, service, characteristic };
                                SessionAction::Read { service, characteristic }
                            },
                            None => {
                                self.state = SessionState::Failed {
                                    error: SessionError::CharacteristicNotFound {
                                        service: ARANET4_SERVICE,
                                        characteristic: SENSOR_CHARACTERISTIC,
                                    },
                                };
                                SessionAction::Disconnect
                            },
                        }
                    },
                    _ => self.settle_action(),
                }
            },
            SessionEvent::Release => self.settle_action(),
            SessionEvent::DisconnectFinished { ok } => {
                if self.linked {
                    self.linked = false;
                    if !matches!(self.state, SessionState::Failed { .. }) {
                        if ok {
                            self.state = SessionState::Disconnected;
                        } else {
                            self.state = SessionState::Failed { error: SessionError::DisconnectFailed };
                        }
                    }
                }
                SessionAction::Stop
            },
        }
    }
}

} // verus!
