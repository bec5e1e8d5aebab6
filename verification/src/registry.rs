//! Connection registry: the mapping from identifier to live connection.
//!
//! Entry existence here is the sole authority for "is this connection
//! live": the dispatcher consults it on every readiness event, and a
//! stale event for a removed identifier is answered with "absent".

use std::collections::HashMap;
use vstd::prelude::*;

use crate::connection::Connection;
use crate::connection::ConnectionView;

verus! {

broadcast use vstd::std_specs::hash::group_hash_axioms;

/// Internal-consistency fault surfaced by the registry: reported, not
/// silently ignored.
#[derive(Clone, Copy, Debug, PartialEq, Eq, Structural)]
pub enum RegistryFault {
    /// An insert was asked for an identifier that is already live.
    DuplicateIdentifier,
}

/// Mapping from identifier to open connection state; keys unique.
pub struct Registry {
    map: HashMap<u64, Connection>,
}

impl View for Registry {
    type V = Map<u64, ConnectionView>;

    closed spec fn view(&self) -> Map<u64, ConnectionView> {
        self.map@.map_values(|c: Connection| c@)
    }
}

impl Registry {
    pub fn new() -> (r: Registry)
        ensures
            r@ == Map::<u64, ConnectionView>::empty(),
            r@.dom().finite(),
    {
        let map = HashMap::new();
        let r = Registry { map };
        proof {
            assert(r@ =~= Map::<u64, ConnectionView>::empty());
        }
        r
    }

    pub fn contains(&self, id: u64) -> (r: bool)
        ensures
            r == self@.dom().contains(id),
    {
        self.map.contains_key(&id)
    }

    /// Number of live connections.
    pub fn len(&self) -> (n: usize)
        ensures
            n == self@.dom().len(),
    {
        proof {
            assert(self@.dom() =~= self.map@.dom());
        }
        self.map.len()
    }

    /// Adds a connection under `id`. An identifier that is already live
    /// is a programmer error: the registry refuses it and stays
    /// unchanged.
    pub fn insert(&mut self, id: u64, conn: Connection) -> (r: Result<(), RegistryFault>)
        ensures
            r matches Ok(_) <==> !old(self)@.dom().contains(id),
            r matches Ok(_) ==> final(self)@ == old(self)@.insert(id, conn@),
            r matches Err(_) ==> final(self)@ == old(self)@,
    {
        if self.map.contains_key(&id) {
            Err(RegistryFault::DuplicateIdentifier)
        } else {
            self.map.insert(id, conn);
            proof {
                assert(final(self)@ =~= old(self)@.insert(id, conn@));
            }
            Ok(())
        }
    }

    /// Takes the connection for `id` out, if it is live. Absence is not
    /// a fault: close and event delivery can race, and the caller treats
    /// a stale event as a no-op.
    pub fn remove(&mut self, id: u64) -> (r: Option<Connection>)
        ensures
            match r {
                Some(conn) => {
                    &&& old(self)@.dom().contains(id)
                    &&& conn@ == old(self)@[id]
                    &&& final(self)@ == old(self)@.remove(id)
                },
                None => {
                    &&& !old(self)@.dom().contains(id)
                    &&& final(self)@ == old(self)@
                },
            },
    {
        let r = self.map.remove(&id);
        proof {
            if old(self)@.dom().contains(id) {
                assert(final(self)@ =~= old(self)@.remove(id));
            } else {
                assert(final(self)@ =~= old(self)@);
            }
        }
        r
    }

    /// Read-only view of the connection for `id`, if it is live.
    pub fn get(&self, id: u64) -> (r: Option<&Connection>)
        ensures
            match r {
                Some(conn) => self@.dom().contains(id) && conn@ == self@[id],
                None => !self@.dom().contains(id),
            },
    {
        self.map.get(&id)
    }
}

} // verus!
