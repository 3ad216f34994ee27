//! The contact registry: the controller's shared address book, mapping a
//! device id to the network address where it was last seen, partitioned by
//! role. Entries are overwritten on re-discovery and never expire. The two
//! partitions are independent: a sensor entry never touches an actuator
//! entry for the same id.

use vstd::prelude::*;
use vstd::string::StringExecFns;

use crate::device::Id;
use crate::text::{dec_digits, push_u64, trim_trailing_dots};

verus! {

/// Where a device can be reached: a host and a port. Hosts coming from
/// discovery may carry trailing dots; they are stripped on construction.
#[derive(Eq, Debug)]
pub struct Address {
    pub host: String,
    pub port: u16,
}

/// Ghost image of an `Address`.
pub ghost struct AddressView {
    pub host: Seq<char>,
    pub port: u16,
}

impl View for Address {
    type V = AddressView;

    open spec fn view(&self) -> AddressView {
        AddressView { host: self.host@, port: self.port }
    }
}

impl Clone for Address {
    fn clone(&self) -> (r: Address)
        ensures
            r@ == self@,
    {
        Address { host: self.host.clone(), port: self.port }
    }
}

impl PartialEq for Address {
    fn eq(&self, other: &Address) -> (r: bool) {
        self.host == other.host && self.port == other.port
    }
}

impl vstd::std_specs::cmp::PartialEqSpecImpl for Address {
    open spec fn obeys_eq_spec() -> bool {
        true
    }

    open spec fn eq_spec(&self, other: &Address) -> bool {
        self@ == other@
    }
}

impl Address {
    /// Builds an address, stripping any trailing `'.'` characters that
    /// discovery responses append to host names.
    pub fn new(host: &str, port: u16) -> (r: Address)
        ensures
            r@.host == trim_trailing_dots(host@),
            r@.port == port,
    {
        let n = host.unicode_len();
        let mut end: usize = n;
        let mut stop = false;
        while end > 0 && !stop
            invariant
                0 <= end <= n == host@.len(),
                forall|k: int| end <= k < n ==> host@[k] == '.',
                stop ==> end > 0 && host@[end - 1] != '.',
            decreases end + (if stop {
                0int
            } else {
                1int
            }),
        {
            if host.get_char(end - 1) == '.' {
                end = end - 1;
            } else {
                stop = true;
            }
        }
        proof {
            crate::text::lemma_trim_trailing_dots_is(host@, end as int);
        }
        let trimmed = host.substring_char(0, end);
        Address { host: String::from_str(trimmed), port }
    }

    /// The `host:port` authority text used to reach the device.
    pub fn to_string(&self) -> (r: String)
        ensures
            r@ == self@.host + seq![':'] + dec_digits(self@.port as nat),
    {
        let mut out = self.host.clone();
        out.append(":");
        proof {
            reveal_strlit(":");
        }
        push_u64(&mut out, self.port as u64);
        proof {
            assert(out@ =~= self@.host + seq![':'] + dec_digits(self@.port as nat));
        }
        out
    }
}

/// Which partition of the registry a device lives in.
#[derive(Structural, PartialEq, Eq, Clone, Copy, Debug)]
pub enum Role {
    Sensor,
    Actuator,
}

/// The map an entry list denotes, later entries winning.
pub open spec fn map_of(s: Seq<(Id, Address)>) -> Map<Seq<char>, AddressView>
    decreases s.len(),
{
    if s.len() == 0 {
        Map::<Seq<char>, AddressView>::empty()
    } else {
        map_of(s.drop_last()).insert(s.last().0@, s.last().1@)
    }
}

/// No two entries share an id.
pub open spec fn distinct_keys(s: Seq<(Id, Address)>) -> bool {
    forall|i: int, j: int| 0 <= i < j < s.len() ==> s[i].0@ != s[j].0@
}

proof fn lemma_map_of_index(s: Seq<(Id, Address)>, i: int)
    requires
        distinct_keys(s),
        0 <= i < s.len(),
    ensures
        map_of(s).contains_key(s[i].0@),
        map_of(s)[s[i].0@] == s[i].1@,
    decreases s.len(),
{
    if i == s.len() - 1 {
    } else {
        let s0 = s.drop_last();
        assert(distinct_keys(s0));
        assert(s0[i] == s[i]);
        lemma_map_of_index(s0, i);
        assert(s.last().0@ != s[i].0@);
    }
}

proof fn lemma_map_of_dom(s: Seq<(Id, Address)>)
    ensures
        forall|k: Seq<char>|
            map_of(s).contains_key(k) <==> exists|i: int| 0 <= i < s.len() && s[i].0@ == k,
    decreases s.len(),
{
    if s.len() == 0 {
    } else {
        let s0 = s.drop_last();
        lemma_map_of_dom(s0);
        assert forall|k: Seq<char>| map_of(s).contains_key(k) implies exists|i: int|
            0 <= i < s.len() && s[i].0@ == k by {
            if k == s.last().0@ {
                assert(s[s.len() - 1].0@ == k);
            } else {
                assert(map_of(s0).contains_key(k));
                let i = choose|i: int| 0 <= i < s0.len() && s0[i].0@ == k;
                assert(s[i].0@ == k);
            }
        }
        assert forall|k: Seq<char>| (exists|i: int| 0 <= i < s.len() && s[i].0@ == k) implies map_of(
            s,
        ).contains_key(k) by {
            let i = choose|i: int| 0 <= i < s.len() && s[i].0@ == k;
            if i < s.len() - 1 {
                assert(s0[i].0@ == k);
                assert(map_of(s0).contains_key(k));
            }
        }
    }
}

proof fn lemma_map_of_update(s: Seq<(Id, Address)>, i: int, id: Id, address: Address)
    requires
        distinct_keys(s),
        0 <= i < s.len(),
        s[i].0@ == id@,
    ensures
        map_of(s.update(i, (id, address))) =~= map_of(s).insert(id@, address@),
        distinct_keys(s.update(i, (id, address))),
    decreases s.len(),
{
    let u = s.update(i, (id, address));
    assert forall|p: int, q: int| 0 <= p < q < u.len() implies u[p].0@ != u[q].0@ by {
        assert(s[p].0@ != s[q].0@);
    }
    if i == s.len() - 1 {
        assert(u.drop_last() =~= s.drop_last());
        assert(map_of(u) == map_of(s.drop_last()).insert(id@, address@));
        assert(map_of(s) == map_of(s.drop_last()).insert(s.last().0@, s.last().1@));
        assert(map_of(s.drop_last()).insert(s.last().0@, s.last().1@).insert(id@, address@)
            =~= map_of(s.drop_last()).insert(id@, address@));
    } else {
        let s0 = s.drop_last();
        assert(distinct_keys(s0));
        assert(s0[i] == s[i]);
        lemma_map_of_update(s0, i, id, address);
        assert(u.drop_last() =~= s0.update(i, (id, address)));
        assert(u.last() == s.last());
        assert(s.last().0@ != id@);
        assert(map_of(u) == map_of(s0.update(i, (id, address))).insert(s.last().0@, s.last().1@));
        assert(map_of(s0).insert(id@, address@).insert(s.last().0@, s.last().1@) =~= map_of(
            s0,
        ).insert(s.last().0@, s.last().1@).insert(id@, address@));
    }
}

/// One partition of the registry: an association list with distinct ids,
/// seen abstractly as a map from id to address.
pub struct ContactMap {
    entries: Vec<(Id, Address)>,
}

impl View for ContactMap {
    type V = Map<Seq<char>, AddressView>;

    closed spec fn view(&self) -> Map<Seq<char>, AddressView> {
        map_of(self.entries@)
    }
}

impl ContactMap {
    pub closed spec fn wf(&self) -> bool {
        distinct_keys(self.entries@)
    }

    pub fn new() -> (r: ContactMap)
        ensures
            r.wf(),
            r@ == Map::<Seq<char>, AddressView>::empty(),
    {
        ContactMap { entries: Vec::new() }
    }

    /// Inserts or overwrites the entry for `id`.
    pub fn upsert(&mut self, id: Id, address: Address)
        requires
            old(self).wf(),
        ensures
            final(self).wf(),
            final(self)@ == old(self)@.insert(id@, address@),
    {
        let n = self.entries.len();
        let mut i: usize = 0;
        while i < n
            invariant
                n == self.entries.len(),
                self.entries@ == old(self).entries@,
                distinct_keys(self.entries@),
                forall|k: int| 0 <= k < i ==> self.entries@[k].0@ != id@,
            decreases n - i,
        {
            if self.entries[i].0 == id {
                proof {
                    lemma_map_of_update(self.entries@, i as int, id, address);
                }
                self.entries[i] = (id, address);
                return ;
            }
            i = i + 1;
        }
        proof {
            lemma_map_of_dom(self.entries@);
        }
        self.entries.push((id, address));
        proof {
            assert(self.entries@.drop_last() =~= old(self).entries@);
            assert forall|p: int, q: int|
                0 <= p < q < self.entries@.len() implies self.entries@[p].0@
                != self.entries@[q].0@ by {
                if q < self.entries@.len() - 1 {
                    assert(old(self).entries@[p].0@ != old(self).entries@[q].0@);
                }
            }
        }
    }

    /// Looks an id up in this partition.
    pub fn get(&self, id: &Id) -> (r: Option<&Address>)
        requires
            self.wf(),
        ensures
            (match r {
                Some(a) => self@.contains_key(id@) && a@ == self@[id@],
                None => !self@.contains_key(id@),
            }),
    {
        let n = self.entries.len();
        let mut i: usize = 0;
        while i < n
            invariant
                n == self.entries.len(),
                distinct_keys(self.entries@),
                forall|k: int| 0 <= k < i ==> self.entries@[k].0@ != id@,
            decreases n - i,
        {
            if self.entries[i].0 == *id {
                proof {
                    lemma_map_of_index(self.entries@, i as int);
                }
                return Some(&self.entries[i].1);
            }
            i = i + 1;
        }
        proof {
            lemma_map_of_dom(self.entries@);
        }
        None
    }

    /// Copies the entries out, so that no caller ever holds the registry
    /// while doing anything slow. The copy carries exactly the entries of
    /// the map, each id once, in no promised order.
    pub fn snapshot(&self) -> (r: Vec<(Id, Address)>)
        requires
            self.wf(),
        ensures
            forall|i: int|
                0 <= i < r@.len() ==> self@.contains_key(#[trigger] r@[i].0@) && r@[i].1@
                    == self@[r@[i].0@],
            forall|i: int, j: int| 0 <= i < j < r@.len() ==> r@[i].0@ != r@[j].0@,
            forall|k: Seq<char>|
                #[trigger] self@.contains_key(k) ==> exists|i: int|
                    0 <= i < r@.len() && r@[i].0@ == k,
    {
        let n = self.entries.len();
        let mut out: Vec<(Id, Address)> = Vec::new();
        let mut i: usize = 0;
        while i < n
            invariant
                n == self.entries.len(),
                out@.len() == i <= n,
                forall|k: int|
                    0 <= k < i ==> #[trigger] out@[k].0@ == self.entries@[k].0@ && out@[k].1@
                        == self.entries@[k].1@,
            decreases n - i,
        {
            let id = self.entries[i].0.clone();
            let address = self.entries[i].1.clone();
            out.push((id, address));
            i = i + 1;
        }
        proof {
            lemma_map_of_dom(self.entries@);
            assert forall|i: int|
                0 <= i < out@.len() implies self@.contains_key(#[trigger] out@[i].0@)
                && out@[i].1@ == self@[out@[i].0@] by {
                lemma_map_of_index(self.entries@, i);
            }
            assert forall|k: Seq<char>| #[trigger]
                self@.contains_key(k) implies exists|i: int|
                0 <= i < out@.len() && out@[i].0@ == k by {
                let i = choose|i: int| 0 <= i < self.entries@.len() && self.entries@[i].0@ == k;
                assert(out@[i].0@ == k);
            }
        }
        out
    }
}

/// Ghost image of the whole registry: one map per role.
pub ghost struct StateView {
    pub sensors: Map<Seq<char>, AddressView>,
    pub actuators: Map<Seq<char>, AddressView>,
}

/// The map the given role's partition holds.
pub open spec fn role_map(v: StateView, role: Role) -> Map<Seq<char>, AddressView> {
    match role {
        Role::Sensor => v.sensors,
        Role::Actuator => v.actuators,
    }
}

/// What upserting does to the registry, seen abstractly: the named role's
/// partition gains the entry, the other partition is untouched.
pub open spec fn upsert_view(v: StateView, role: Role, id: Seq<char>, address: AddressView) -> StateView {
    match role {
        Role::Sensor => StateView { sensors: v.sensors.insert(id, address), actuators: v.actuators },
        Role::Actuator => StateView { sensors: v.sensors, actuators: v.actuators.insert(id, address) },
    }
}

/// The controller's shared state: the two independently held partitions of
/// the contact registry. Each partition is locked separately by the caller
/// that shares it, and only for the duration of a mutation or a copy.
pub struct State {
    sensors: ContactMap,
    actuators: ContactMap,
}

impl View for State {
    type V = StateView;

    closed spec fn view(&self) -> StateView {
        StateView { sensors: self.sensors@, actuators: self.actuators@ }
    }
}

impl State {
    pub closed spec fn wf(&self) -> bool {
        self.sensors.wf() && self.actuators.wf()
    }

    pub fn new() -> (r: State)
        ensures
            r.wf(),
            r@.sensors == Map::<Seq<char>, AddressView>::empty(),
            r@.actuators == Map::<Seq<char>, AddressView>::empty(),
    {
        State { sensors: ContactMap::new(), actuators: ContactMap::new() }
    }

    /// Commits a discovered device into its role's partition, overwriting
    /// any earlier address for the same id; the other partition is
    /// untouched.
    pub fn upsert(&mut self, role: Role, id: Id, address: Address)
        requires
            old(self).wf(),
        ensures
            final(self).wf(),
            final(self)@ == upsert_view(old(self)@, role, id@, address@),
    {
        match role {
            Role::Sensor => self.sensors.upsert(id, address),
            Role::Actuator => self.actuators.upsert(id, address),
        }
    }

    /// Looks a device up in its role's partition.
    pub fn get(&self, role: Role, id: &Id) -> (r: Option<&Address>)
        requires
            self.wf(),
        ensures
            (match r {
                Some(a) => role_map(self@, role).contains_key(id@) && a@ == role_map(self@, role)[id@],
                None => !role_map(self@, role).contains_key(id@),
            }),
    {
        match role {
            Role::Sensor => self.sensors.get(id),
            Role::Actuator => self.actuators.get(id),
        }
    }

    /// Copies one partition out; the caller then works on the copy with no
    /// lock held.
    pub fn snapshot(&self, role: Role) -> (r: Vec<(Id, Address)>)
        requires
            self.wf(),
        ensures
            forall|i: int|
                0 <= i < r@.len() ==> role_map(self@, role).contains_key(#[trigger] r@[i].0@)
                    && r@[i].1@ == role_map(self@, role)[r@[i].0@],
            forall|i: int, j: int| 0 <= i < j < r@.len() ==> r@[i].0@ != r@[j].0@,
            forall|k: Seq<char>|
                #[trigger] role_map(self@, role).contains_key(k) ==> exists|i: int|
                    0 <= i < r@.len() && r@[i].0@ == k,
    {
        match role {
            Role::Sensor => self.sensors.snapshot(),
            Role::Actuator => self.actuators.snapshot(),
        }
    }
}

impl Default for State {
    fn default() -> (r: State)
        ensures
            r.wf(),
            r@.sensors == Map::<Seq<char>, AddressView>::empty(),
            r@.actuators == Map::<Seq<char>, AddressView>::empty(),
    {
        State::new()
    }
}

/// Upserting the same `(role, id, address)` twice leaves exactly what one
/// upsert leaves: one entry for the id, holding the latest address.
pub proof fn lemma_upsert_idempotent(v: StateView, role: Role, id: Seq<char>, address: AddressView)
    ensures
        upsert_view(upsert_view(v, role, id, address), role, id, address) == upsert_view(
            v,
            role,
            id,
            address,
        ),
        role_map(upsert_view(v, role, id, address), role)[id] == address,
{
    let once = upsert_view(v, role, id, address);
    let twice = upsert_view(once, role, id, address);
    assert(role_map(twice, role) =~= role_map(once, role));
    match role {
        Role::Sensor => {
            assert(twice == StateView { sensors: role_map(twice, Role::Sensor), actuators: v.actuators });
            assert(once == StateView { sensors: role_map(once, Role::Sensor), actuators: v.actuators });
        },
        Role::Actuator => {
            assert(twice == StateView { sensors: v.sensors, actuators: role_map(twice, Role::Actuator) });
            assert(once == StateView { sensors: v.sensors, actuators: role_map(once, Role::Actuator) });
        },
    }
}

/// The two role partitions never collide: upserting an id under one role
/// leaves the other role's partition, and every lookup in it, unchanged.
pub proof fn lemma_upsert_roles_independent(
    v: StateView,
    role: Role,
    id: Seq<char>,
    address: AddressView,
)
    ensures
        role == Role::Sensor ==> upsert_view(v, role, id, address).actuators == v.actuators,
        role == Role::Actuator ==> upsert_view(v, role, id, address).sensors == v.sensors,
        role_map(upsert_view(v, role, id, address), role)[id] == address,
{
}

/// Registering the same id under both roles keeps both entries: a sensor
/// and its paired actuator share an id without ever colliding.
pub proof fn lemma_same_id_both_roles(
    v: StateView,
    id: Seq<char>,
    sensor_address: AddressView,
    actuator_address: AddressView,
)
    ensures
        ({
            let after = upsert_view(
                upsert_view(v, Role::Sensor, id, sensor_address),
                Role::Actuator,
                id,
                actuator_address,
            );
            &&& after.sensors.contains_key(id)
            &&& after.actuators.contains_key(id)
            &&& after.sensors[id] == sensor_address
            &&& after.actuators[id] == actuator_address
        }),
{
}

} // verus!
