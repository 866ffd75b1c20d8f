//! The clients that greeted the server, by the IP they greeted from.

use std::collections::HashSet;
use vstd::prelude::*;
use crate::model::ClientID;

verus! {

/// A client that greeted the server.
#[derive(Debug, Clone, Copy, PartialEq, Eq, Structural)]
pub struct Client {
    pub id: ClientID,
}

/// The known clients: for each IP the client that greeted last from it.
/// Entries are added and replaced, never removed.
#[derive(Debug)]
pub struct KnownClients {
    entries: Vec<(String, Client)>,
}

impl View for KnownClients {
    type V = Map<Seq<char>, ClientID>;

    closed spec fn view(&self) -> Map<Seq<char>, ClientID> {
        Map::new(
            |ip: Seq<char>| self.position(ip) is Some,
            |ip: Seq<char>| self.entries@[self.position(ip).unwrap()].1.id,
        )
    }
}

impl KnownClients {
    /// Where the entry of `ip` stands, if there is one.
    spec fn position(&self, ip: Seq<char>) -> Option<int> {
        if exists|i: int| 0 <= i < self.entries@.len() && (#[trigger] self.entries@[i]).0@ == ip {
            Some(choose|i: int| 0 <= i < self.entries@.len() && (#[trigger] self.entries@[i]).0@ == ip)
        } else {
            None
        }
    }

    /// No IP has two entries.
    pub closed spec fn wf(&self) -> bool {
        forall|i: int, j: int|
            0 <= i < j < self.entries@.len() ==> (#[trigger] self.entries@[i]).0@
                != (#[trigger] self.entries@[j]).0@
    }

    /// The ids of the known clients.
    pub open spec fn ids(&self) -> Set<ClientID> {
        self@.values()
    }

    proof fn lemma_position(&self, i: int)
        requires
            self.wf(),
            0 <= i < self.entries@.len(),
        ensures
            self.position(self.entries@[i].0@) == Some(i),
            self@.contains_key(self.entries@[i].0@),
            self@[self.entries@[i].0@] == self.entries@[i].1.id,
    {
    }

    /// No client is known.
    pub fn new() -> (clients: KnownClients)
        ensures
            clients.wf(),
            clients@ == Map::<Seq<char>, ClientID>::empty(),
    {
        let clients = KnownClients { entries: Vec::new() };
        assert(clients@ =~= Map::<Seq<char>, ClientID>::empty());
        clients
    }

    /// Where `ip` stands among the entries, or their number.
    fn find(&self, ip: &String) -> (at: usize)
        requires
            self.wf(),
        ensures
            at <= self.entries@.len(),
            at < self.entries@.len() ==> self.position(ip@) == Some(at as int),
            at == self.entries@.len() ==> self.position(ip@) is None,
    {
        let mut at: usize = 0;
        while at < self.entries.len()
            invariant
                self.wf(),
                at <= self.entries@.len(),
                forall|i: int| 0 <= i < at ==> (#[trigger] self.entries@[i]).0@ != ip@,
            decreases self.entries.len() - at,
        {
            if self.entries[at].0 == *ip {
                proof {
                    self.lemma_position(at as int);
                }
                return at;
            }
            at += 1;
        }
        at
    }

    /// The client that greeted from `ip`, if one did.
    pub fn get(&self, ip: &str) -> (client: Option<ClientID>)
        requires
            self.wf(),
        ensures
            client == if self@.contains_key(ip@) {
                Some(self@[ip@])
            } else {
                None
            },
    {
        let key = ip.to_owned();
        let at = self.find(&key);
        if at < self.entries.len() {
            Some(self.entries[at].1.id)
        } else {
            None
        }
    }

    /// Puts `client` under `ip`, in place of the one that stood there.
    pub fn insert(&mut self, ip: String, client: Client)
        requires
            old(self).wf(),
        ensures
            final(self).wf(),
            final(self)@ == old(self)@.insert(ip@, client.id),
    {
        let at = self.find(&ip);
        let ghost before = *self;
        if at < self.entries.len() {
            self.entries.set(at, (ip, client));
        } else {
            self.entries.push((ip, client));
        }
        proof {
            let key = ip@;
            assert(self.entries@[at as int].0@ == key);
            assert(self.wf());
            self.lemma_position(at as int);
            assert forall|other: Seq<char>| other != key implies self.position(other)
                == before.position(other) by {
                if before.position(other) is Some {
                    let i = before.position(other).unwrap();
                    assert(self.entries@[i].0@ == other);
                    self.lemma_position(i);
                }
                if self.position(other) is Some {
                    let i = self.position(other).unwrap();
                    assert(before.entries@[i].0@ == other);
                    before.lemma_position(i);
                }
            }
            assert(self@ =~= before@.insert(key, client.id));
        }
    }

    /// The ids of the known clients, as numbers.
    pub fn id_set(&self) -> (ids: HashSet<usize>)
        requires
            self.wf(),
        ensures
            forall|id: usize| ids@.contains(id) <==> self.ids().contains(ClientID(id)),
    {
        let mut ids: HashSet<usize> = HashSet::new();
        let mut at: usize = 0;
        while at < self.entries.len()
            invariant
                self.wf(),
                at <= self.entries@.len(),
                forall|id: usize|
                    ids@.contains(id) <==> exists|i: int|
                        0 <= i < at && (#[trigger] self.entries@[i]).1.id == ClientID(id),
            decreases self.entries.len() - at,
        {
            let id = self.entries[at].1.id.0;
            ids.insert(id);
            proof {
                let ghost n = at as int;
                assert(self.entries@[n].1.id == ClientID(id));
            }
            at += 1;
        }
        proof {
            assert forall|id: usize| ids@.contains(id) implies self.ids().contains(
                ClientID(id),
            ) by {
                let i = choose|i: int|
                    0 <= i < at && (#[trigger] self.entries@[i]).1.id == ClientID(id);
                self.lemma_position(i);
            }
            assert forall|id: usize| self.ids().contains(ClientID(id)) implies ids@.contains(
                id,
            ) by {
                let ip = choose|ip: Seq<char>| self@.contains_key(ip) && self@[ip] == ClientID(id);
                let i = self.position(ip).unwrap();
                assert(self.entries@[i].1.id == ClientID(id));
            }
        }
        ids
    }
}

} // verus!
