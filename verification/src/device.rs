//! Devices: named entities that can be plugged into a room.

use vstd::prelude::*;
use vstd::string::StringExecFns;

verus! {

/// Capability: a stable string identity, used for uniqueness checks and
/// lookup throughout the model.
pub trait Named {
    /// The identity of the entity, as a sequence of characters.
    spec fn id(&self) -> Seq<char>;

    /// The name of the entity.
    fn name(&self) -> (r: &str)
        ensures
            r@ == self.id(),
    ;
}

/// Capability marking an entity as eligible for insertion into a room's
/// device collection. Device variants defined outside this crate may
/// implement it as well.
pub trait Pluggable: Named {

}

/// The one-line rendering of a socket with the given name.
pub open spec fn socket_line(name: Seq<char>) -> Seq<char> {
    "----> Device: Socket["@ + name + "]\n"@
}

/// The one-line rendering of a thermometer with the given name.
pub open spec fn thermometer_line(name: Seq<char>) -> Seq<char> {
    "----> Device: Thermometer["@ + name + "]\n"@
}

/// A socket, identified by its name.
#[derive(Debug, Clone)]
pub struct SmartSocket {
    name: String,
}

impl SmartSocket {
    pub fn new(name: String) -> (r: Self)
        ensures
            r.id() == name@,
    {
        SmartSocket { name }
    }

    /// The line a report prints for this socket.
    pub fn display_line(&self) -> (r: String)
        ensures
            r@ == socket_line(self.id()),
    {
        let mut line = String::from_str("----> Device: Socket[");
        line.append(self.name.as_str());
        line.append("]\n");
        proof {
            assert(line@ =~= socket_line(self.id()));
        }
        line
    }
}

impl Named for SmartSocket {
    closed spec fn id(&self) -> Seq<char> {
        self.name@
    }

    fn name(&self) -> &str {
        self.name.as_str()
    }
}

impl Pluggable for SmartSocket {

}

/// A thermometer, identified by its name.
#[derive(Debug, Clone)]
pub struct SmartThermometer {
    name: String,
}

impl SmartThermometer {
    pub fn new(name: String) -> (r: Self)
        ensures
            r.id() == name@,
    {
        SmartThermometer { name }
    }

    /// The line a report prints for this thermometer.
    pub fn display_line(&self) -> (r: String)
        ensures
            r@ == thermometer_line(self.id()),
    {
        let mut line = String::from_str("----> Device: Thermometer[");
        line.append(self.name.as_str());
        line.append("]\n");
        proof {
            assert(line@ =~= thermometer_line(self.id()));
        }
        line
    }
}

impl Named for SmartThermometer {
    closed spec fn id(&self) -> Seq<char> {
        self.name@
    }

    fn name(&self) -> &str {
        self.name.as_str()
    }
}

impl Pluggable for SmartThermometer {

}

} // verus!
