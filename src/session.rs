//! The session store: at most one live session, the events rendered for it,
//! and the decisions of the bridge operations `connect`, `send`,
//! `get_events` and `close`.
//!
//! Each connection attempt reserves an id before its drain task starts; the
//! task hands events in under that id, and they are kept only while the
//! session of that id is the published one.

use vstd::prelude::*;

use crate::codec::{evt_to_json, record_of, EndpointEvent};

verus! {

/// Why a bridge operation failed.
pub enum BridgeError {
    /// An address was malformed; the parser's message.
    Parse(String),
    /// The endpoint could not obtain a listening address.
    ConnectionFailed,
    /// No session is published.
    NoConnection,
    /// The transport failed; its message.
    Transport(String),
}

impl BridgeError {
    /// The human-readable message of this error.
    pub fn message(&self) -> (r: String)
        ensures
            r@ == match self {
                BridgeError::Parse(m) => m@,
                BridgeError::ConnectionFailed => "Connection Failed"@,
                BridgeError::NoConnection => "No Connection"@,
                BridgeError::Transport(m) => m@,
            },
    {
        match self {
            BridgeError::Parse(m) => m.clone(),
            BridgeError::ConnectionFailed => String::from_str("Connection Failed"),
            BridgeError::NoConnection => String::from_str("No Connection"),
            BridgeError::Transport(m) => m.clone(),
        }
    }
}

/// The published session: its id, its endpoint and its buffered records.
struct Session<E> {
    id: u64,
    endpoint: E,
    events: Vec<String>,
}

/// What a published session is: its id and its buffered records, oldest first.
pub ghost struct SessionView {
    pub id: u64,
    pub events: Seq<Seq<char>>,
}

/// What a session store is: the published session, if any, and the id that
/// the next connection attempt gets.
pub ghost struct StoreView {
    pub session: Option<SessionView>,
    pub next_id: u64,
}

/// The id reserved after `n`.
pub open spec fn next_after(n: u64) -> u64 {
    if n == u64::MAX {
        0
    } else {
        (n + 1) as u64
    }
}

impl StoreView {
    /// A store with no session.
    pub open spec fn empty() -> StoreView {
        StoreView { session: None, next_id: 0 }
    }

    pub open spec fn has_session(self) -> bool {
        self.session is Some
    }

    /// The buffered records: none where no session is published.
    pub open spec fn events(self) -> Seq<Seq<char>> {
        match self.session {
            Some(s) => s.events,
            None => Seq::empty(),
        }
    }

    /// After a connection attempt reserved its id.
    pub open spec fn reserved(self) -> StoreView {
        StoreView { next_id: next_after(self.next_id), ..self }
    }

    /// After the attempt of `id` ended: published where it obtained a
    /// listening address, unchanged where it did not.
    pub open spec fn connected(self, id: u64, listening: bool) -> StoreView {
        if listening {
            StoreView { session: Some(SessionView { id, events: Seq::empty() }), ..self }
        } else {
            self
        }
    }

    /// After the drain task of `id` handed in `e`: its record is kept only if
    /// the session of `id` is the published one.
    pub open spec fn delivered(self, id: u64, e: EndpointEvent) -> StoreView {
        match self.session {
            Some(s) => if s.id == id {
                StoreView {
                    session: Some(SessionView { id, events: s.events.push(record_of(e)) }),
                    ..self
                }
            } else {
                self
            },
            None => self,
        }
    }

    /// After the drain task of `id` handed in `events`, in that order.
    pub open spec fn delivered_all(self, id: u64, events: Seq<EndpointEvent>) -> StoreView
        decreases events.len(),
    {
        if events.len() == 0 {
            self
        } else {
            self.delivered_all(id, events.drop_last()).delivered(id, events.last())
        }
    }

    /// After the buffered records were taken.
    pub open spec fn drained(self) -> StoreView {
        match self.session {
            Some(s) => StoreView {
                session: Some(SessionView { id: s.id, events: Seq::empty() }),
                ..self
            },
            None => self,
        }
    }

    /// After the session, if any, was taken down.
    pub open spec fn closed(self) -> StoreView {
        StoreView { session: None, ..self }
    }
}

/// The records of `events`, in order.
pub open spec fn records_of(events: Seq<EndpointEvent>) -> Seq<Seq<char>> {
    events.map_values(|e: EndpointEvent| record_of(e))
}

/// Owner of the single session slot of a bridge; `E` is the endpoint handle.
pub struct SessionStore<E> {
    slot: Option<Session<E>>,
    next_id: u64,
}

impl<E> View for SessionStore<E> {
    type V = StoreView;

    closed spec fn view(&self) -> StoreView {
        StoreView {
            session: match self.slot {
                Some(s) => Some(
                    SessionView { id: s.id, events: s.events@.map_values(|x: String| x@) },
                ),
                None => None,
            },
            next_id: self.next_id,
        }
    }
}

impl<E> SessionStore<E> {
    /// The endpoint of the published session.
    pub closed spec fn endpoint(&self) -> Option<E> {
        match self.slot {
            Some(s) => Some(s.endpoint),
            None => None,
        }
    }

    /// A store with no session.
    pub fn new() -> (r: Self)
        ensures
            r@ == StoreView::empty(),
            r.endpoint() is None,
    {
        SessionStore { slot: None, next_id: 0 }
    }

    /// Reserves the id of a new connection attempt; its drain task hands
    /// events in under it.
    pub fn begin_connect(&mut self) -> (id: u64)
        ensures
            id == old(self)@.next_id,
            final(self)@ == old(self)@.reserved(),
            final(self).endpoint() == old(self).endpoint(),
    {
        let id = self.next_id;
        self.next_id = if id == u64::MAX {
            0
        } else {
            id + 1
        };
        id
    }

    /// Ends the connection attempt `id`, whose endpoint obtained
    /// `listen_url` or none. With an address the session is published, in
    /// place of any earlier one, with nothing buffered, and the address is
    /// returned; without one the store is left as it was.
    pub fn connect(&mut self, id: u64, endpoint: E, listen_url: Option<String>) -> (r: Result<
        String,
        BridgeError,
    >)
        ensures
            final(self)@ == old(self)@.connected(id, listen_url is Some),
            match listen_url {
                Some(u) => r == Ok::<String, BridgeError>(u) && final(self).endpoint() == Some(
                    endpoint,
                ),
                None => r == Err::<String, BridgeError>(BridgeError::ConnectionFailed)
                    && final(self).endpoint() == old(self).endpoint(),
            },
    {
        match listen_url {
            Some(u) => {
                self.slot = Some(Session { id, endpoint, events: Vec::new() });
                proof {
                    assert(self@.session->0.events =~= Seq::<Seq<char>>::empty());
                }
                Ok(u)
            },
            None => Err(BridgeError::ConnectionFailed),
        }
    }

    /// The endpoint that `send` goes through: that of the published session.
    pub fn endpoint_for_send(&self) -> (r: Result<&E, BridgeError>)
        ensures
            r is Ok <==> self@.has_session(),
            r matches Ok(e) ==> self.endpoint() == Some(*e),
            r matches Err(e) ==> e == BridgeError::NoConnection,
    {
        match &self.slot {
            Some(s) => Ok(&s.endpoint),
            None => Err(BridgeError::NoConnection),
        }
    }

    /// Hands in an event that the drain task of attempt `id` received.
    pub fn deliver(&mut self, id: u64, evt: &EndpointEvent)
        ensures
            final(self)@ == old(self)@.delivered(id, *evt),
            final(self).endpoint() == old(self).endpoint(),
    {
        match &mut self.slot {
            Some(s) => {
                if s.id == id {
                    let record = evt_to_json(evt);
                    s.events.push(record);
                    proof {
                        assert(s.events@.map_values(|x: String| x@) =~= old(self)@.events().push(
                            record_of(*evt),
                        ));
                    }
                }
            },
            None => {},
        }
    }

    /// Takes every buffered record, oldest first.
    pub fn get_events(&mut self) -> (r: Vec<String>)
        ensures
            r@.map_values(|x: String| x@) == old(self)@.events(),
            final(self)@ == old(self)@.drained(),
            final(self).endpoint() == old(self).endpoint(),
    {
        let mut out: Vec<String> = Vec::new();
        match &mut self.slot {
            Some(s) => {
                std::mem::swap(&mut out, &mut s.events);
                proof {
                    assert(s.events@.map_values(|x: String| x@) =~= Seq::<Seq<char>>::empty());
                }
            },
            None => {},
        }
        proof {
            assert(out@.map_values(|x: String| x@) =~= old(self)@.events());
        }
        out
    }

    /// Takes the session down and hands back its endpoint, if one was
    /// published.
    pub fn close(&mut self) -> (r: Option<E>)
        ensures
            r == old(self).endpoint(),
            r is Some <==> old(self)@.has_session(),
            final(self)@ == old(self)@.closed(),
            final(self).endpoint() is None,
    {
        match self.slot.take() {
            Some(s) => Some(s.endpoint),
            None => None,
        }
    }
}

/// Whatever events the drain task of a just-published session hands in,
/// the records that `get_events` then returns are those events rendered by
/// the codec, in the order in which they came.
pub proof fn lemma_events_arrive_in_order(s: StoreView, id: u64, events: Seq<EndpointEvent>)
    ensures
        s.connected(id, true).delivered_all(id, events).events() == records_of(events),
        s.connected(id, true).delivered_all(id, events).session->0.id == id,
    decreases events.len(),
{
    if events.len() > 0 {
        lemma_events_arrive_in_order(s, id, events.drop_last());
        assert(records_of(events) =~= records_of(events.drop_last()).push(record_of(events.last())));
    } else {
        assert(records_of(events) =~= Seq::<Seq<char>>::empty());
    }
}

/// Taking the buffered records leaves none: a second `get_events` with
/// nothing handed in between returns an empty sequence and changes nothing.
pub proof fn lemma_drain_twice(s: StoreView)
    ensures
        s.drained().events() == Seq::<Seq<char>>::empty(),
        s.drained().drained() == s.drained(),
{
}

/// `send` fails with `NoConnection` before any connection attempt
/// succeeded and after `close`: neither state has a session.
pub proof fn lemma_no_session_to_send(s: StoreView, id: u64)
    ensures
        !StoreView::empty().has_session(),
        !StoreView::empty().reserved().connected(id, false).has_session(),
        !s.closed().has_session(),
{
}

/// A connection attempt that obtains no listening address leaves the store
/// as it was: from an empty store, nothing is buffered and `send` has no
/// session to go through.
pub proof fn lemma_failed_connect_changes_nothing(s: StoreView, id: u64)
    ensures
        s.connected(id, false) == s,
        !s.has_session() ==> !s.connected(id, false).has_session() && s.connected(
            id,
            false,
        ).events() == Seq::<Seq<char>>::empty(),
{
}

/// A second `close` right after a first changes nothing.
pub proof fn lemma_close_twice(s: StoreView)
    ensures
        s.closed().closed() == s.closed(),
        !s.closed().has_session(),
        s.closed().events() == Seq::<Seq<char>>::empty(),
{
}

} // verus!
