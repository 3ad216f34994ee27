//! The discovery agent: a state machine fed with resolved service records.
//! One agent runs per role; each resolved record yields a device id and an
//! address committed into that role's registry partition. A malformed
//! instance name is skipped — logged by the caller, never fatal — and only a
//! backend failure or an orderly shutdown stops the agent. The transient
//! `Committing` state of the machine lives inside one `step` call, which
//! always returns to `Browsing`.

use vstd::prelude::*;
use vstd::string::StrSliceExecFns;
use vstd::string::StringExecFns;

use crate::device::Id;
use crate::error::{DiscoveryError, ParseError, ParseErrorKind};
use crate::registry::{upsert_view, Address, AddressView, Role, State};
use crate::text::{find_char, scan_for_char, trim_trailing_dots};

verus! {

/// A resolved service record, as the discovery backend hands it over.
#[derive(PartialEq, Eq, Clone, Debug)]
pub struct ServiceRecord {
    /// The advertised instance name, e.g. `sensor_abc._sensor._tcp.local.`.
    pub fullname: String,
    /// The advertised host, possibly with trailing dots.
    pub host: String,
    pub port: u16,
}

/// Ghost image of a `ServiceRecord`.
pub ghost struct ServiceRecordView {
    pub fullname: Seq<char>,
    pub host: Seq<char>,
    pub port: u16,
}

impl View for ServiceRecord {
    type V = ServiceRecordView;

    open spec fn view(&self) -> ServiceRecordView {
        ServiceRecordView { fullname: self.fullname@, host: self.host@, port: self.port }
    }
}

/// The device id a discovery instance name advertises: the name's first
/// `'.'`-delimited segment, split on `'_'`, second token. A name whose first
/// segment has no `'_'` advertises no id.
pub open spec fn device_id_of(fullname: Seq<char>) -> Option<Seq<char>> {
    let seg = fullname.subrange(0, find_char(fullname, '.'));
    let u = find_char(seg, '_');
    if u == seg.len() {
        None
    } else {
        let rest = seg.subrange(u + 1, seg.len() as int);
        Some(rest.subrange(0, find_char(rest, '_')))
    }
}

/// Reads the device id out of an advertised instance name, rejecting names
/// that advertise none as a `DeviceName` parse error carrying the name.
pub fn extract_device_id(fullname: &str) -> (r: Result<Id, ParseError>)
    ensures
        (match r {
            Ok(id) => device_id_of(fullname@) == Some(id@),
            Err(e) => device_id_of(fullname@) is None && e@.kind == ParseErrorKind::DeviceName
                && e@.text == fullname@,
        }),
{
    let n = fullname.unicode_len();
    let dot = scan_for_char(fullname, 0, '.');
    proof {
        crate::text::lemma_find_char_is(fullname@, '.', dot as int);
    }
    let ghost seg = fullname@.subrange(0, dot as int);
    let u = scan_for_char(fullname, 0, '_');
    proof {
        if u < dot {
            assert(seg[u as int] == '_');
            crate::text::lemma_find_char_is(seg, '_', u as int);
        } else {
            assert forall|k: int| 0 <= k < seg.len() implies seg[k] != '_' by {
                assert(seg[k] == fullname@[k]);
            }
            crate::text::lemma_find_char_is(seg, '_', seg.len() as int);
        }
    }
    if u >= dot {
        return Err(ParseError::new(ParseErrorKind::DeviceName, String::from_str(fullname)));
    }
    let ghost rest = seg.subrange(u as int + 1, seg.len() as int);
    let v = scan_for_char(fullname, u + 1, '_');
    let end = if v < dot {
        v
    } else {
        dot
    };
    proof {
        assert forall|k: int| 0 <= k < end - u - 1 implies rest[k] != '_' by {
            assert(rest[k] == fullname@[k + u + 1]);
        }
        if end < dot {
            assert(rest[end - u - 1] == fullname@[end as int]);
        }
        crate::text::lemma_find_char_is(rest, '_', end - u - 1);
    }
    let tok = fullname.substring_char(u + 1, end);
    proof {
        assert(tok@ =~= rest.subrange(0, find_char(rest, '_')));
    }
    Ok(Id::new(tok))
}

/// The observable states of a discovery agent.
#[derive(Structural, PartialEq, Eq, Clone, Copy, Debug)]
pub enum AgentState {
    /// Created, not yet watching the network.
    Idle,
    /// Watching the network for resolved records.
    Browsing,
    /// Stopped for good: backend failure or process shutdown.
    Stopped,
}

/// What the discovery backend hands the agent.
#[derive(PartialEq, Eq, Clone, Debug)]
pub enum DiscoveryEvent {
    /// A service was resolved on the network.
    Resolved(ServiceRecord),
    /// The backend failed; fatal to this agent only.
    BackendFailed,
    /// The process asked the agent to stop.
    Shutdown,
}

/// What one step of the agent did.
#[derive(PartialEq, Eq, Clone, Debug)]
pub enum StepOutcome {
    /// The record's device was committed to the registry.
    Committed(Id, Address),
    /// The record's instance name advertised no id; skipped, to be logged.
    Skipped(ParseError),
    /// The event arrived while the agent was not browsing; nothing happened.
    Ignored,
    /// The agent stopped; carries the backend error if one caused it.
    Stopped(Option<DiscoveryError>),
}

/// A discovery agent for one role, owning that role's half of the registry.
pub struct Agent {
    pub role: Role,
    pub state: AgentState,
}

impl Agent {
    pub fn new(role: Role) -> (r: Agent)
        ensures
            r.role == role,
            r.state == AgentState::Idle,
    {
        Agent { role, state: AgentState::Idle }
    }

    /// Starts watching the network: `Idle` becomes `Browsing`; any other
    /// state is unchanged.
    pub fn start(&mut self)
        ensures
            final(self).role == old(self).role,
            final(self).state == (if old(self).state == AgentState::Idle {
                AgentState::Browsing
            } else {
                old(self).state
            }),
    {
        if let AgentState::Idle = self.state {
            self.state = AgentState::Browsing;
        }
    }

    /// Feeds one backend event to the agent. A resolved record while
    /// browsing commits `(id, stripped host, port)` into this role's
    /// partition — or, when its name advertises no id, changes nothing and
    /// reports the parse error. A backend failure or a shutdown stops the
    /// agent; nothing else changes the registry.
    pub fn step(&mut self, event: DiscoveryEvent, registry: &mut State) -> (r: StepOutcome)
        requires
            old(registry).wf(),
        ensures
            final(registry).wf(),
            final(self).role == old(self).role,
            (match event {
                DiscoveryEvent::Resolved(rec) => {
                    if old(self).state == AgentState::Browsing {
                        match device_id_of(rec.fullname@) {
                            Some(idtext) => {
                                &&& final(self).state == AgentState::Browsing
                                &&& final(registry)@ == upsert_view(
                                    old(registry)@,
                                    old(self).role,
                                    idtext,
                                    (AddressView {
                                        host: trim_trailing_dots(rec.host@),
                                        port: rec.port,
                                    }),
                                )
                                &&& (r matches StepOutcome::Committed(id, a) && id@ == idtext
                                    && a@.host == trim_trailing_dots(rec.host@) && a@.port
                                    == rec.port)
                            },
                            None => {
                                &&& final(self).state == AgentState::Browsing
                                &&& final(registry)@ == old(registry)@
                                &&& (r matches StepOutcome::Skipped(e) && e@.kind
                                    == ParseErrorKind::DeviceName && e@.text == rec.fullname@)
                            },
                        }
                    } else {
                        &&& final(self).state == old(self).state
                        &&& final(registry)@ == old(registry)@
                        &&& r == StepOutcome::Ignored
                    }
                },
                DiscoveryEvent::BackendFailed => {
                    &&& final(self).state == AgentState::Stopped
                    &&& final(registry)@ == old(registry)@
                    &&& r == StepOutcome::Stopped(Some(DiscoveryError::Backend))
                },
                DiscoveryEvent::Shutdown => {
                    &&& final(self).state == AgentState::Stopped
                    &&& final(registry)@ == old(registry)@
                    &&& r == StepOutcome::Stopped(None)
                },
            }),
    {
        match event {
            DiscoveryEvent::Resolved(rec) => {
                if let AgentState::Browsing = self.state {
                    match extract_device_id(rec.fullname.as_str()) {
                        Ok(id) => {
                            let address = Address::new(rec.host.as_str(), rec.port);
                            let out_id = id.clone();
                            let out_address = address.clone();
                            registry.upsert(self.role, id, address);
                            StepOutcome::Committed(out_id, out_address)
                        },
                        Err(e) => StepOutcome::Skipped(e),
                    }
                } else {
                    StepOutcome::Ignored
                }
            },
            DiscoveryEvent::BackendFailed => {
                self.state = AgentState::Stopped;
                StepOutcome::Stopped(Some(DiscoveryError::Backend))
            },
            DiscoveryEvent::Shutdown => {
                self.state = AgentState::Stopped;
                StepOutcome::Stopped(None)
            },
        }
    }
}

} // verus!
