//! Device identity: a human-readable name and an opaque, globally-unique id.
//! The id is the join key between a sensor and its paired actuator; equality
//! is by value.

use vstd::prelude::*;
use vstd::string::StringExecFns;

verus! {

/// A human-readable device label; no uniqueness is implied.
#[derive(Eq, Debug, Hash)]
pub struct Name(pub String);

impl View for Name {
    type V = Seq<char>;

    open spec fn view(&self) -> Seq<char> {
        self.0@
    }
}

impl Clone for Name {
    fn clone(&self) -> (r: Name)
        ensures
            r@ == self@,
    {
        Name(self.0.clone())
    }
}

impl PartialEq for Name {
    fn eq(&self, other: &Name) -> (r: bool) {
        self.0 == other.0
    }
}

impl vstd::std_specs::cmp::PartialEqSpecImpl for Name {
    open spec fn obeys_eq_spec() -> bool {
        true
    }

    open spec fn eq_spec(&self, other: &Name) -> bool {
        self.0@ == other.0@
    }
}

impl Name {
    pub fn new(name: &str) -> (r: Name)
        ensures
            r@ == name@,
    {
        Name(String::from_str(name))
    }
}

/// An opaque, immutable, globally-unique device identity.
#[derive(Eq, Debug, Hash)]
pub struct Id(pub String);

impl View for Id {
    type V = Seq<char>;

    open spec fn view(&self) -> Seq<char> {
        self.0@
    }
}

impl Clone for Id {
    fn clone(&self) -> (r: Id)
        ensures
            r@ == self@,
    {
        Id(self.0.clone())
    }
}

impl PartialEq for Id {
    fn eq(&self, other: &Id) -> (r: bool) {
        self.0 == other.0
    }
}

impl vstd::std_specs::cmp::PartialEqSpecImpl for Id {
    open spec fn obeys_eq_spec() -> bool {
        true
    }

    open spec fn eq_spec(&self, other: &Id) -> bool {
        self.0@ == other.0@
    }
}

impl Id {
    pub fn new(id: &str) -> (r: Id)
        ensures
            r@ == id@,
    {
        Id(String::from_str(id))
    }
}

/// Anything that exists on the network under a name and an id.
pub trait Device {
    fn get_name(&self) -> &Name;

    fn get_id(&self) -> &Id;
}

} // verus!
