//! The server's state and its transitions: greeting, submission, reset and
//! the barrier that ends a reset once every known client has seen it.

use std::collections::HashSet;
use vstd::prelude::*;
use crate::clients::{Client, KnownClients};
use crate::merge::merged;
use crate::model::{ClientID, Drawing, Flag, SPos2, SendLines};
use crate::route::Route;

verus! {

/// What the server holds, as mathematics.
pub struct Server {
    /// The strokes by line id.
    pub lines: Map<usize, Seq<SPos2>>,
    /// `Clear` while a reset is in flight.
    pub flag: Flag,
    /// The client that greeted from each IP.
    pub clients: Map<Seq<char>, ClientID>,
    /// The barrier of a reset in flight: the clients that have not yet seen it.
    pub pending: Option<Set<ClientID>>,
}

impl Server {
    /// The state at start: no strokes, no clients, no reset in flight.
    pub open spec fn start() -> Server {
        Server { lines: Map::empty(), flag: Flag::Unset, clients: Map::empty(), pending: None }
    }

    /// The flag reads `Clear` exactly while the barrier is there.
    pub open spec fn consistent(self) -> bool {
        (self.flag == Flag::Clear) <==> (self.pending is Some)
    }

    /// The state after the client `id` greeted from `ip`.
    pub open spec fn greeted(self, ip: Seq<char>, id: ClientID) -> Server {
        Server { clients: self.clients.insert(ip, id), ..self }
    }

    /// The state after the strokes of `batch` were submitted.
    pub open spec fn submitted(self, batch: Map<usize, Seq<SPos2>>) -> Server {
        Server { lines: merged(self.lines, batch), ..self }
    }

    /// The state after a reset was asked for: no strokes, the flag `Clear`,
    /// and a barrier of every known client.
    pub open spec fn cleared(self) -> Server {
        Server {
            lines: Map::empty(),
            flag: Flag::Clear,
            pending: Some(self.clients.values()),
            ..self
        }
    }

    /// The state after `client` asked for the state. Under a barrier the
    /// client leaves it, if it was in it; a barrier that is then empty goes
    /// and the flag reads `Unset` again. Without a barrier nothing changes.
    pub open spec fn polled(self, client: Option<ClientID>) -> Server {
        match self.pending {
            None => self,
            Some(pending) => {
                let left = match client {
                    Some(id) => pending.remove(id),
                    None => pending,
                };
                if left.is_empty() {
                    Server { flag: Flag::Unset, pending: None, ..self }
                } else {
                    Server { pending: Some(left), ..self }
                }
            },
        }
    }

    /// The state after the clients of `polls` asked for the state, one after another.
    pub open spec fn polled_by(self, polls: Seq<Option<ClientID>>) -> Server
        decreases polls.len(),
    {
        if polls.len() == 0 {
            self
        } else {
            self.polled_by(polls.drop_last()).polled(polls.last())
        }
    }

    /// What a client is sent that asks for the state.
    pub open spec fn drawing(self) -> Drawing {
        Drawing { lines: self.lines, flag: self.flag }
    }

    /// The client that greeted from `ip`, if one did.
    pub open spec fn client_of(self, ip: Seq<char>) -> Option<ClientID> {
        if self.clients.contains_key(ip) {
            Some(self.clients[ip])
        } else {
            None
        }
    }

    /// The state after the handler of `route` ran on a request from
    /// `peer_ip` whose content was decoded to `payload`. The greeting takes
    /// the client's id, the submission the strokes; the request for the
    /// state counts for the client that is known under `peer_ip`. The routes
    /// that serve files leave the state as it is, and so does a handler
    /// whose payload is not of its kind.
    pub open spec fn handled(self, route: Route, peer_ip: Seq<char>, payload: PayloadView) -> Server {
        match (route, payload) {
            (Route::Hello, PayloadView::Client(id)) => self.greeted(peer_ip, id),
            (Route::SendLines, PayloadView::Lines(batch)) => self.submitted(batch.lines),
            (Route::GetLines, _) => self.polled(self.client_of(peer_ip)),
            (Route::ClearLines, _) => self.cleared(),
            _ => self,
        }
    }
}

/// What the content of a request was decoded to.
#[derive(Debug)]
pub enum Payload {
    /// The request has no content, or its content is not read.
    Nothing,
    /// The id of a client that greets.
    Client(ClientID),
    /// The strokes that a client submits.
    Lines(SendLines),
}

/// What a payload holds.
pub enum PayloadView {
    Nothing,
    Client(ClientID),
    Lines(Drawing),
}

impl View for Payload {
    type V = PayloadView;

    open spec fn view(&self) -> PayloadView {
        match self {
            Payload::Nothing => PayloadView::Nothing,
            Payload::Client(id) => PayloadView::Client(*id),
            Payload::Lines(lines) => PayloadView::Lines(lines@),
        }
    }
}

/// The clients that asked for the state at least once in `polls`.
pub open spec fn acknowledged(polls: Seq<Option<ClientID>>) -> Set<ClientID> {
    Set::new(|id: ClientID| polls.contains(Some(id)))
}

/// The start state is consistent, and every transition keeps a state consistent.
pub proof fn lemma_consistent(
    state: Server,
    ip: Seq<char>,
    id: ClientID,
    batch: Map<usize, Seq<SPos2>>,
    client: Option<ClientID>,
)
    requires
        state.consistent(),
    ensures
        Server::start().consistent(),
        state.greeted(ip, id).consistent(),
        state.submitted(batch).consistent(),
        state.cleared().consistent(),
        state.polled(client).consistent(),
{
}

/// Whatever handler runs, a consistent state stays consistent.
pub proof fn lemma_handled_consistent(
    state: Server,
    route: Route,
    peer_ip: Seq<char>,
    payload: PayloadView,
)
    requires
        state.consistent(),
    ensures
        state.handled(route, peer_ip, payload).consistent(),
{
}

/// No handler forgets a client, and no handler but the reset touches a
/// stroke that the state holds.
pub proof fn lemma_handled_keeps(
    state: Server,
    route: Route,
    peer_ip: Seq<char>,
    payload: PayloadView,
)
    ensures
        state.clients.dom().subset_of(state.handled(route, peer_ip, payload).clients.dom()),
        route != Route::ClearLines ==> forall|id: usize| #[trigger]
            state.lines.contains_key(id) ==> {
                let after = state.handled(route, peer_ip, payload);
                after.lines.contains_key(id) && after.lines[id] == state.lines[id]
            },
{
}

/// A barrier only shrinks: a client that asks for the state takes nobody
/// into it, and what is left of a barrier is not empty.
pub proof fn lemma_barrier_shrinks(state: Server, client: Option<ClientID>)
    ensures
        state.polled(client).pending matches Some(left) ==> {
            &&& state.pending is Some
            &&& left.subset_of(state.pending.unwrap())
            &&& !left.is_empty()
        },
        state.pending is None ==> state.polled(client) == state,
{
}

/// To ask twice is to ask once: the second of two calls by one client
/// changes nothing.
pub proof fn lemma_poll_idempotent(state: Server, client: Option<ClientID>)
    ensures
        state.polled(client).polled(client) == state.polled(client),
{
    let once = state.polled(client);
    match once.pending {
        None => {},
        Some(left) => {
            match client {
                Some(id) => {
                    assert(left.remove(id) =~= left);
                },
                None => {},
            }
        },
    }
}

/// Under a barrier that still awaits somebody, a client that is not in it
/// (an unknown one, or one that has acknowledged) changes nothing by asking.
pub proof fn lemma_poll_outside_barrier(state: Server, client: Option<ClientID>)
    requires
        state.pending matches Some(pending) && !pending.is_empty() && (client matches Some(id)
            ==> !pending.contains(id)),
    ensures
        state.polled(client) == state,
{
    match client {
        Some(id) => {
            assert(state.pending.unwrap().remove(id) =~= state.pending.unwrap());
        },
        None => {},
    }
}

/// The state that a reset and the calls of `polls` after it lead to. The
/// strokes stay empty and the known clients as they were. Once a client has
/// asked, the flag reads `Unset` if and only if every client that was known
/// at the reset has asked; until then the barrier holds exactly the known
/// clients that have not.
pub proof fn lemma_barrier_converges(state: Server, polls: Seq<Option<ClientID>>)
    ensures
        ({
            let after = state.cleared().polled_by(polls);
            let known = state.clients.values();
            let done = known.subset_of(acknowledged(polls));
            &&& after.lines == Map::<usize, Seq<SPos2>>::empty()
            &&& after.clients == state.clients
            &&& polls.len() == 0 ==> after == state.cleared()
            &&& polls.len() > 0 && done ==> after.flag == Flag::Unset && after.pending is None
            &&& polls.len() > 0 && !done ==> after.flag == Flag::Clear && after.pending == Some(
                known.difference(acknowledged(polls)),
            )
        }),
    decreases polls.len(),
{
    let known = state.clients.values();
    if polls.len() > 0 {
        let earlier = polls.drop_last();
        let last = polls.last();
        lemma_barrier_converges(state, earlier);
        let mid = state.cleared().polled_by(earlier);
        let after = mid.polled(last);
        assert(after == state.cleared().polled_by(polls));
        assert forall|id: ClientID|
            acknowledged(polls).contains(id) <==> acknowledged(earlier).contains(id) || last
                == Some(id) by {
            if earlier.contains(Some(id)) {
                let i = choose|i: int| 0 <= i < earlier.len() && earlier[i] == Some(id);
                assert(polls[i] == Some(id));
            }
            if last == Some(id) {
                assert(polls[polls.len() - 1] == Some(id));
            }
            if polls.contains(Some(id)) {
                let i = choose|i: int| 0 <= i < polls.len() && polls[i] == Some(id);
                if i < earlier.len() {
                    assert(earlier[i] == Some(id));
                }
            }
        }
        match mid.pending {
            None => {
                assert(earlier.len() > 0);
            },
            Some(pending) => {
                let left = match last {
                    Some(id) => pending.remove(id),
                    None => pending,
                };
                assert(left =~= known.difference(acknowledged(polls)));
                if left.is_empty() {
                    assert forall|id: ClientID| known.contains(id) implies acknowledged(
                        polls,
                    ).contains(id) by {
                        assert(!left.contains(id));
                    }
                } else {
                    let id = choose|id: ClientID| left.contains(id);
                    assert(left.contains(id));
                    assert(known.contains(id) && !acknowledged(polls).contains(id));
                }
            },
        }
    }
}

/// After a reset, a client that has asked for the state before changes
/// nothing by asking again, however many others have asked in between.
pub proof fn lemma_repeated_poll(
    state: Server,
    polls: Seq<Option<ClientID>>,
    client: Option<ClientID>,
)
    requires
        polls.contains(client),
    ensures
        state.cleared().polled_by(polls).polled(client) == state.cleared().polled_by(polls),
{
    lemma_barrier_converges(state, polls);
    let after = state.cleared().polled_by(polls);
    match after.pending {
        None => {},
        Some(pending) => {
            let known = state.clients.values();
            assert(!known.subset_of(acknowledged(polls)));
            let missing = choose|id: ClientID|
                known.contains(id) && !acknowledged(polls).contains(id);
            assert(pending.contains(missing));
            lemma_poll_outside_barrier(after, client);
        },
    }
}

/// Where each known client asks once and nobody else does, the flag reads
/// `Clear` after every call but the last and `Unset` after the last.
pub proof fn lemma_barrier_ends_with_last(state: Server, polls: Seq<Option<ClientID>>, calls: int)
    requires
        polls.len() > 0,
        polls.no_duplicates(),
        forall|id: ClientID| state.clients.values().contains(id) <==> polls.contains(Some(id)),
        forall|i: int| 0 <= i < polls.len() ==> polls[i] is Some,
        0 <= calls <= polls.len(),
    ensures
        state.cleared().polled_by(polls.take(calls)).flag == if calls == polls.len() {
            Flag::Unset
        } else {
            Flag::Clear
        },
{
    let known = state.clients.values();
    let made = polls.take(calls);
    lemma_barrier_converges(state, made);
    if calls == polls.len() {
        assert(made =~= polls);
        assert(known.subset_of(acknowledged(made)));
    } else if calls > 0 {
        let id = polls[calls].unwrap();
        assert(polls.contains(Some(id)));
        assert(known.contains(id));
        if made.contains(Some(id)) {
            let i = choose|i: int| 0 <= i < made.len() && made[i] == Some(id);
            assert(polls[i] == polls[calls]);
        }
        assert(!acknowledged(made).contains(id));
        assert(!known.subset_of(acknowledged(made)));
    }
}

/// The server's state: the strokes with their flag, the known clients, and
/// the barrier of a reset in flight.
#[derive(Debug)]
pub struct State {
    lines: SendLines,
    clients: KnownClients,
    clear_sync: Option<HashSet<usize>>,
}

impl View for State {
    type V = Server;

    closed spec fn view(&self) -> Server {
        Server {
            lines: self.lines@.lines,
            flag: self.lines@.flag,
            clients: self.clients@,
            pending: match self.clear_sync {
                Some(ids) => Some(Set::new(|id: ClientID| ids@.contains(id.0))),
                None => None,
            },
        }
    }
}

impl State {
    /// The state is sound: no IP is known twice, and the flag reads `Clear`
    /// exactly while the barrier is there.
    pub closed spec fn wf(&self) -> bool {
        &&& self.clients.wf()
        &&& self@.consistent()
    }

    /// A sound state is consistent.
    pub proof fn lemma_wf(&self)
        requires
            self.wf(),
        ensures
            self@.consistent(),
    {
    }

    /// The state at start.
    pub fn new() -> (state: State)
        ensures
            state.wf(),
            state@ == Server::start(),
    {
        State { lines: SendLines::default(), clients: KnownClients::new(), clear_sync: None }
    }

    /// The strokes and the flag, as they stand.
    pub fn lines(&self) -> (lines: &SendLines)
        ensures
            lines@ == self@.drawing(),
    {
        &self.lines
    }

    /// Whether a reset is in flight.
    pub fn is_clearing(&self) -> (clearing: bool)
        ensures
            clearing == (self@.pending is Some),
    {
        self.clear_sync.is_some()
    }

    /// Whether a reset is in flight that `id` has not yet seen.
    pub fn is_pending(&self, id: ClientID) -> (pending: bool)
        ensures
            pending == (self@.pending matches Some(ids) && ids.contains(id)),
    {
        match &self.clear_sync {
            Some(ids) => ids.contains(&id.0),
            None => false,
        }
    }

    /// The client that greeted from `ip`, if one did.
    pub fn client_id(&self, ip: &str) -> (client: Option<ClientID>)
        requires
            self.wf(),
        ensures
            client == if self@.clients.contains_key(ip@) {
                Some(self@.clients[ip@])
            } else {
                None
            },
    {
        self.clients.get(ip)
    }

    /// A client greets from `ip` under the id `id`: it is known from now on.
    pub fn hello(&mut self, ip: &str, id: ClientID)
        requires
            old(self).wf(),
        ensures
            final(self).wf(),
            final(self)@ == old(self)@.greeted(ip@, id),
    {
        self.clients.insert(ip.to_owned(), Client { id });
    }

    /// A client submits strokes: they are merged into the server's, first
    /// writer wins. The flag of `batch` is not read.
    pub fn send_lines(&mut self, batch: SendLines)
        requires
            old(self).wf(),
        ensures
            final(self).wf(),
            final(self)@ == old(self)@.submitted(batch@.lines),
    {
        self.lines.merge(batch);
    }

    /// A client asks for the state. Under a barrier this is its
    /// acknowledgment of the reset; the strokes and the flag are returned as
    /// they stand afterwards. A client that is unknown, or that has
    /// acknowledged before, changes nothing by asking.
    pub fn get_lines(&mut self, client: Option<ClientID>) -> (lines: SendLines)
        requires
            old(self).wf(),
        ensures
            final(self).wf(),
            final(self)@ == old(self)@.polled(client),
            lines@ == final(self)@.drawing(),
    {
        let ghost before = self@;
        match self.clear_sync.take() {
            Some(mut ids) => {
                let ghost pending = before.pending.unwrap();
                if let Some(id) = client {
                    ids.remove(&id.0);
                }
                let ghost left = Set::new(|id: ClientID| ids@.contains(id.0));
                proof {
                    match client {
                        Some(id) => {
                            assert(left =~= pending.remove(id));
                        },
                        None => {
                            assert(left =~= pending);
                        },
                    }
                }
                if ids.is_empty() {
                    assert(left =~= Set::<ClientID>::empty());
                    self.lines.flag = Flag::Unset;
                } else {
                    proof {
                        let id = choose|id: usize| ids@.contains(id);
                        assert(ids@ !== Set::<usize>::empty());
                        assert(ids@.contains(id));
                        assert(left.contains(ClientID(id)));
                    }
                    self.clear_sync = Some(ids);
                }
            },
            None => {},
        }
        self.lines.clone()
    }

    /// Runs the handler of `route` on a request from `peer_ip` whose content
    /// was decoded to `payload`. Returns the state that is to be sent, which
    /// is there for the request for the state and for no other.
    pub fn dispatch(&mut self, route: Route, peer_ip: &str, payload: Payload) -> (sent: Option<
        SendLines,
    >)
        requires
            old(self).wf(),
        ensures
            final(self).wf(),
            final(self)@ == old(self)@.handled(route, peer_ip@, payload@),
            match sent {
                Some(lines) => route == Route::GetLines && lines@ == final(self)@.drawing(),
                None => route != Route::GetLines,
            },
    {
        match (route, payload) {
            (Route::Hello, Payload::Client(id)) => {
                self.hello(peer_ip, id);
                None
            },
            (Route::SendLines, Payload::Lines(batch)) => {
                self.send_lines(batch);
                None
            },
            (Route::GetLines, _) => {
                let client = self.client_id(peer_ip);
                Some(self.get_lines(client))
            },
            (Route::ClearLines, _) => {
                self.clear_lines();
                None
            },
            _ => None,
        }
    }

    /// A client asks for a reset: the strokes go, the flag reads `Clear`,
    /// and a barrier is set up of every client that is known.
    pub fn clear_lines(&mut self)
        requires
            old(self).wf(),
        ensures
            final(self).wf(),
            final(self)@ == old(self)@.cleared(),
    {
        let ids = self.clients.id_set();
        proof {
            let pending = Set::new(|id: ClientID| ids@.contains(id.0));
            assert(pending =~= self@.clients.values());
        }
        self.lines = SendLines { lines: std::collections::HashMap::new(), flag: Flag::Clear };
        self.clear_sync = Some(ids);
        assert(self@.lines =~= Map::<usize, Seq<SPos2>>::empty());
    }
}

} // verus!
