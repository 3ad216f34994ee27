//! The control loop's brain. On each cycle the caller snapshots the sensor
//! partition, fetches each sensor over the network, and hands the raw
//! results here: `plan_cycle` decides, per sensor and from that sensor's
//! own fetch alone, whether to record, dispatch a corrective command to the
//! paired actuator, or skip. No error for one sensor touches another's
//! outcome, and a sensor without a paired actuator is valid state, not an
//! error. Dispatching and sleeping stay with the caller; afterwards
//! `record_cycle` appends every fetched reading to the history, so that
//! fetch and dispatch for an id happen before its history update.

use vstd::prelude::*;

use crate::command::{dec_of_int, TemperatureActuatorCommand};
use crate::datum::{decode_err, decode_text, Datum, DatumValue, Decimal};
use crate::device::{Device, Id, Name};
use crate::error::{ParseError, ParseErrorKind, TransportError};
use crate::registry::{Address, AddressView, Role, State};
use crate::transport::sensor_datum_text;

verus! {

/// The acceptable band for a sensor's numeric readings.
#[derive(Structural, PartialEq, Eq, Clone, Copy, Debug)]
pub struct Range {
    pub lo: Decimal,
    pub hi: Decimal,
}

/// The decimal a reading is compared as: integers count as themselves,
/// booleans have no numeric value.
pub open spec fn value_as_dec(v: DatumValue) -> Option<Decimal> {
    match v {
        DatumValue::Bool(_) => None,
        DatumValue::Int(i) => Some(dec_of_int(i as int)),
        DatumValue::Float(d) => Some(d),
    }
}

impl Range {
    pub open spec fn wf(self) -> bool {
        self.lo.wf() && self.hi.wf()
    }

    /// Whether a reading lies inside the band. A reading with no numeric
    /// value never counts as outside, so it never triggers a dispatch.
    pub open spec fn spec_contains(self, v: DatumValue) -> bool {
        match value_as_dec(v) {
            None => true,
            Some(d) => self.lo.spec_le(d) && d.spec_le(self.hi),
        }
    }

    pub fn new(lo: Decimal, hi: Decimal) -> (r: Range)
        requires
            lo.wf(),
            hi.wf(),
        ensures
            r == (Range { lo, hi }),
            r.wf(),
    {
        Range { lo, hi }
    }

    pub fn contains(&self, v: &DatumValue) -> (r: bool)
        requires
            self.wf(),
            v.wf(),
        ensures
            r == self.spec_contains(*v),
    {
        let d = match v {
            DatumValue::Bool(_) => {
                return true;
            },
            DatumValue::Int(i) => Decimal::from_int(*i),
            DatumValue::Float(d) => *d,
        };
        self.lo.le(&d) && d.le(&self.hi)
    }
}

/// The corrective command for an out-of-range reading: cap at the nearer
/// bound — the lower one when the reading fell below the band, the upper
/// one otherwise.
pub open spec fn corrective_command(range: Range, v: DatumValue) -> TemperatureActuatorCommand {
    match value_as_dec(v) {
        Some(d) => {
            if !range.lo.spec_le(d) {
                TemperatureActuatorCommand::SetMaxTemperature(range.lo)
            } else {
                TemperatureActuatorCommand::SetMaxTemperature(range.hi)
            }
        },
        None => TemperatureActuatorCommand::SetMaxTemperature(range.hi),
    }
}

/// What the control loop decided for one sensor in one cycle.
#[derive(PartialEq, Eq, Debug)]
pub enum DeviceOutcome {
    /// The fetch failed; this sensor is skipped for the cycle, logged.
    FetchFailed(TransportError),
    /// The response held no readable datum; skipped, logged.
    ParseFailed(ParseError),
    /// The reading lies in the band (or is non-numeric): recorded only.
    InRange(Datum),
    /// Out of range with a paired actuator: record, and dispatch the
    /// command to the address.
    Dispatch(Datum, Address, TemperatureActuatorCommand),
    /// Out of range but no actuator of this id is registered: valid state,
    /// recorded, nothing dispatched, nothing failed.
    Unpaired(Datum),
}

/// Ghost image of a `DeviceOutcome`.
pub ghost enum DeviceOutcomeView {
    FetchFailed(TransportError),
    ParseFailed(crate::error::ParseErrorView),
    InRange(Datum),
    Dispatch(Datum, AddressView, TemperatureActuatorCommand),
    Unpaired(Datum),
}

impl View for DeviceOutcome {
    type V = DeviceOutcomeView;

    open spec fn view(&self) -> DeviceOutcomeView {
        match self {
            DeviceOutcome::FetchFailed(e) => DeviceOutcomeView::FetchFailed(*e),
            DeviceOutcome::ParseFailed(e) => DeviceOutcomeView::ParseFailed(e@),
            DeviceOutcome::InRange(d) => DeviceOutcomeView::InRange(*d),
            DeviceOutcome::Dispatch(d, a, c) => DeviceOutcomeView::Dispatch(*d, a@, *c),
            DeviceOutcome::Unpaired(d) => DeviceOutcomeView::Unpaired(*d),
        }
    }
}

/// The decision once a datum is in hand: record when in range, dispatch to
/// the paired actuator when out of range, and record without dispatch or
/// error when no actuator of the id is registered.
pub open spec fn decide(
    actuators: Map<Seq<char>, AddressView>,
    range: Range,
    id: Seq<char>,
    d: Datum,
) -> DeviceOutcomeView {
    if range.spec_contains(d.value) {
        DeviceOutcomeView::InRange(d)
    } else if actuators.contains_key(id) {
        DeviceOutcomeView::Dispatch(d, actuators[id], corrective_command(range, d.value))
    } else {
        DeviceOutcomeView::Unpaired(d)
    }
}

/// The whole per-sensor rule, from the sensor's own fetch result alone:
/// transport failures and unreadable responses skip the sensor, a readable
/// datum goes to `decide`.
pub open spec fn outcome_for(
    actuators: Map<Seq<char>, AddressView>,
    range: Range,
    id: Seq<char>,
    fetch: Result<Seq<char>, TransportError>,
) -> DeviceOutcomeView {
    match fetch {
        Err(te) => DeviceOutcomeView::FetchFailed(te),
        Ok(text) => match sensor_datum_text(text) {
            None => DeviceOutcomeView::ParseFailed(
                (crate::error::ParseErrorView { kind: ParseErrorKind::Structure, text }),
            ),
            Some(line) => match decode_text(line) {
                None => DeviceOutcomeView::ParseFailed(decode_err(line)),
                Some(d) => decide(actuators, range, id, d),
            },
        },
    }
}

/// A fetch result as the specification sees it.
pub open spec fn fetch_view(r: Result<String, TransportError>) -> Result<Seq<char>, TransportError> {
    match r {
        Ok(s) => Ok(s@),
        Err(e) => Err(e),
    }
}

/// Whether an outcome carries a datum to record.
pub open spec fn recorded_datum(o: DeviceOutcomeView) -> Option<Datum> {
    match o {
        DeviceOutcomeView::InRange(d) => Some(d),
        DeviceOutcomeView::Dispatch(d, _, _) => Some(d),
        DeviceOutcomeView::Unpaired(d) => Some(d),
        _ => None,
    }
}

/// Best-effort memory of what was fetched: a log of `(id, datum)` records
/// in arrival order. Kept only for introspection.
pub struct History {
    entries: Vec<(Id, Datum)>,
}

impl View for History {
    type V = Seq<(Seq<char>, Datum)>;

    closed spec fn view(&self) -> Seq<(Seq<char>, Datum)> {
        Seq::new(self.entries@.len(), |i: int| (self.entries@[i].0@, self.entries@[i].1))
    }
}

/// The latest datum recorded for an id, if any.
pub open spec fn latest_of(h: Seq<(Seq<char>, Datum)>, id: Seq<char>) -> Option<Datum>
    decreases h.len(),
{
    if h.len() == 0 {
        None
    } else if h.last().0 == id {
        Some(h.last().1)
    } else {
        latest_of(h.drop_last(), id)
    }
}

impl History {
    pub fn new() -> (r: History)
        ensures
            r@ == Seq::<(Seq<char>, Datum)>::empty(),
    {
        History { entries: Vec::new() }
    }

    /// Appends one record.
    pub fn record(&mut self, id: Id, datum: Datum)
        ensures
            final(self)@ == old(self)@.push((id@, datum)),
    {
        self.entries.push((id, datum));
        proof {
            assert(final(self)@ =~= old(self)@.push((id@, datum)));
        }
    }

    /// The most recent datum recorded under `id`.
    pub fn latest(&self, id: &Id) -> (r: Option<&Datum>)
        ensures
            (match r {
                Some(d) => latest_of(self@, id@) == Some(*d),
                None => latest_of(self@, id@) is None,
            }),
    {
        let n = self.entries.len();
        let mut i: usize = n;
        proof {
            assert(self@.subrange(0, n as int) =~= self@);
        }
        while i > 0
            invariant
                0 <= i <= n == self.entries.len(),
                latest_of(self@, id@) == latest_of(self@.subrange(0, i as int), id@),
            decreases i,
        {
            proof {
                assert(self@.subrange(0, i as int).drop_last() =~= self@.subrange(0, i - 1));
                assert(self@.subrange(0, i as int).last() == (self.entries@[i - 1].0@, self.entries@[i - 1].1));
            }
            if self.entries[i - 1].0 == *id {
                return Some(&self.entries[i - 1].1);
            }
            i = i - 1;
        }
        proof {
            assert(self@.subrange(0, 0) =~= Seq::<(Seq<char>, Datum)>::empty());
        }
        None
    }

    pub fn len(&self) -> (r: usize)
        ensures
            r == self@.len(),
    {
        self.entries.len()
    }
}

/// The history after recording a cycle's first `i` outcomes over a
/// snapshot: every outcome that carries a datum appends `(id, datum)` in
/// snapshot order.
pub open spec fn history_after(
    h: Seq<(Seq<char>, Datum)>,
    snapshot: Seq<(Id, Address)>,
    outcomes: Seq<DeviceOutcome>,
    i: int,
) -> Seq<(Seq<char>, Datum)>
    decreases i,
{
    if i <= 0 {
        h
    } else {
        let h0 = history_after(h, snapshot, outcomes, i - 1);
        match recorded_datum(outcomes[i - 1]@) {
            Some(d) => h0.push((snapshot[i - 1].0@, d)),
            None => h0,
        }
    }
}

/// The controller: queries sensors for data and commands actuators. It
/// ties a sensor to its actuator through their shared id, holds the
/// contact registry as its shared state, and remembers fetched readings in
/// a best-effort history.
pub struct Controller {
    pub name: Name,
    pub id: Id,
    /// The contact registry both discovery agents and the control loop
    /// share.
    pub state: State,
    /// Fetched readings, newest last.
    pub history: History,
    /// The globally-configured acceptable band.
    pub range: Range,
}

impl Device for Controller {
    fn get_name(&self) -> &Name {
        &self.name
    }

    fn get_id(&self) -> &Id {
        &self.id
    }
}

impl Controller {
    pub open spec fn wf(&self) -> bool {
        self.state.wf() && self.range.wf()
    }

    /// A fresh controller: empty registry, empty history, and the default
    /// band of 0.0 to 100.0.
    pub fn new() -> (r: Controller)
        ensures
            r.wf(),
            r.name@ == "controller"@,
            r.id@ == "controller"@,
            r.state@.sensors == Map::<Seq<char>, AddressView>::empty(),
            r.state@.actuators == Map::<Seq<char>, AddressView>::empty(),
            r.history@ == Seq::<(Seq<char>, Datum)>::empty(),
            r.range == (Range {
                lo: (Decimal { neg: false, mantissa: 0, scale: 1 }),
                hi: (Decimal { neg: false, mantissa: 1000, scale: 1 }),
            }),
    {
        Controller {
            name: Name::new("controller"),
            id: Id::new("controller"),
            state: State::new(),
            history: History::new(),
            range: Range::new(Decimal::new(false, 0, 1), Decimal::new(false, 1000, 1)),
        }
    }

    /// Reconfigures the acceptable band.
    pub fn set_range(&mut self, range: Range)
        requires
            range.wf(),
        ensures
            final(self).range == range,
            final(self).state == old(self).state,
            final(self).history == old(self).history,
            final(self).name == old(self).name,
            final(self).id == old(self).id,
    {
        self.range = range;
    }

    /// Decides the whole cycle: one outcome per snapshot entry, each a
    /// function of that sensor's own fetch result alone. Nothing here
    /// touches the network or the registry lock.
    pub fn plan_cycle(
        &self,
        snapshot: &Vec<(Id, Address)>,
        responses: &Vec<Result<String, TransportError>>,
    ) -> (out: Vec<DeviceOutcome>)
        requires
            self.wf(),
            responses@.len() == snapshot@.len(),
        ensures
            out@.len() == snapshot@.len(),
            forall|i: int|
                0 <= i < out@.len() ==> #[trigger] out@[i]@ == outcome_for(
                    self.state@.actuators,
                    self.range,
                    snapshot@[i].0@,
                    fetch_view(responses@[i]),
                ),
    {
        let n = snapshot.len();
        let mut out: Vec<DeviceOutcome> = Vec::new();
        let mut i: usize = 0;
        while i < n
            invariant
                self.wf(),
                n == snapshot@.len() == responses@.len(),
                out@.len() == i <= n,
                forall|k: int|
                    0 <= k < i ==> #[trigger] out@[k]@ == outcome_for(
                        self.state@.actuators,
                        self.range,
                        snapshot@[k].0@,
                        fetch_view(responses@[k]),
                    ),
            decreases n - i,
        {
            let outcome = match &responses[i] {
                Err(te) => DeviceOutcome::FetchFailed(*te),
                Ok(text) => match crate::transport::parse_sensor_response(text.as_str()) {
                    Err(pe) => DeviceOutcome::ParseFailed(pe),
                    Ok(datum) => {
                        if self.range.contains(&datum.value) {
                            DeviceOutcome::InRange(datum)
                        } else {
                            let command = match &datum.value {
                                DatumValue::Bool(_) => TemperatureActuatorCommand::SetMaxTemperature(
                                    self.range.hi,
                                ),
                                DatumValue::Int(v) => {
                                    let d = Decimal::from_int(*v);
                                    if !self.range.lo.le(&d) {
                                        TemperatureActuatorCommand::SetMaxTemperature(self.range.lo)
                                    } else {
                                        TemperatureActuatorCommand::SetMaxTemperature(self.range.hi)
                                    }
                                },
                                DatumValue::Float(d) => {
                                    if !self.range.lo.le(d) {
                                        TemperatureActuatorCommand::SetMaxTemperature(self.range.lo)
                                    } else {
                                        TemperatureActuatorCommand::SetMaxTemperature(self.range.hi)
                                    }
                                },
                            };
                            match self.state.get(Role::Actuator, &snapshot[i].0) {
                                Some(address) => DeviceOutcome::Dispatch(
                                    datum,
                                    address.clone(),
                                    command,
                                ),
                                None => DeviceOutcome::Unpaired(datum),
                            }
                        }
                    },
                },
            };
            out.push(outcome);
            i = i + 1;
        }
        out
    }

    /// Appends every fetched reading of the cycle to the history, in
    /// snapshot order. Callers perform the cycle's dispatches first, so
    /// that fetch and dispatch for an id happen before its history update.
    pub fn record_cycle(&mut self, snapshot: &Vec<(Id, Address)>, outcomes: &Vec<DeviceOutcome>)
        requires
            outcomes@.len() == snapshot@.len(),
        ensures
            final(self).history@ == history_after(
                old(self).history@,
                snapshot@,
                outcomes@,
                snapshot@.len() as int,
            ),
            final(self).state == old(self).state,
            final(self).range == old(self).range,
            final(self).name == old(self).name,
            final(self).id == old(self).id,
    {
        let n = snapshot.len();
        let mut i: usize = 0;
        while i < n
            invariant
                n == snapshot@.len() == outcomes@.len(),
                0 <= i <= n,
                self.history@ == history_after(old(self).history@, snapshot@, outcomes@, i as int),
                self.state == old(self).state,
                self.range == old(self).range,
                self.name == old(self).name,
                self.id == old(self).id,
            decreases n - i,
        {
            match &outcomes[i] {
                DeviceOutcome::InRange(d) => {
                    self.history.record(snapshot[i].0.clone(), *d);
                },
                DeviceOutcome::Dispatch(d, _, _) => {
                    self.history.record(snapshot[i].0.clone(), *d);
                },
                DeviceOutcome::Unpaired(d) => {
                    self.history.record(snapshot[i].0.clone(), *d);
                },
                DeviceOutcome::FetchFailed(_) => {
                },
                DeviceOutcome::ParseFailed(_) => {
                },
            }
            i = i + 1;
        }
    }
}

impl Default for Controller {
    fn default() -> (r: Controller)
        ensures
            r.wf(),
            r.name@ == "controller"@,
            r.id@ == "controller"@,
    {
        Controller::new()
    }
}

/// Isolation: in one cycle the outcome for a sensor is a function of that
/// sensor's own fetch alone — two cycles whose fetches agree at an index
/// agree on that index's outcome, however the other sensors' fetches went.
pub proof fn lemma_cycle_isolation(
    actuators: Map<Seq<char>, AddressView>,
    range: Range,
    ids: Seq<Seq<char>>,
    fa: Seq<Result<Seq<char>, TransportError>>,
    fb: Seq<Result<Seq<char>, TransportError>>,
    i: int,
)
    requires
        fa.len() == ids.len(),
        fb.len() == ids.len(),
        0 <= i < ids.len(),
        fa[i] == fb[i],
    ensures
        outcome_for(actuators, range, ids[i], fa[i]) == outcome_for(actuators, range, ids[i], fb[i]),
{
}

/// Pairing: an out-of-range reading whose id has no registered actuator is
/// recorded as `Unpaired` — no dispatch is produced and no error aborts the
/// cycle.
pub proof fn lemma_unpaired_no_dispatch(
    actuators: Map<Seq<char>, AddressView>,
    range: Range,
    id: Seq<char>,
    d: Datum,
)
    requires
        !range.spec_contains(d.value),
        !actuators.contains_key(id),
    ensures
        decide(actuators, range, id, d) == DeviceOutcomeView::Unpaired(d),
{
}

} // verus!
