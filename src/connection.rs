//! The connection handler: what to do with each inbound frame, and the
//! registry of the relays that a connection has dispatched.
use crate::conversation::{
    decode_conversation, decode_outcome, lemma_decode_deterministic, Conversation, DecodeError,
};
use vstd::prelude::*;

verus! {

/// A frame read from the client.
#[derive(Clone, Debug)]
pub enum Inbound {
    Text(String),
    Binary(Vec<u8>),
    Ping(Vec<u8>),
    Pong(Vec<u8>),
    Close,
}

/// A frame that the connection handler writes to the client itself.
#[derive(Clone, Debug)]
pub enum Outbound {
    Binary(Vec<u8>),
    Pong(Vec<u8>),
}

/// What the connection handler is told.
#[derive(Clone, Debug)]
pub enum Event {
    /// The client sent a frame.
    Frame(Inbound),
    /// The inbound frame sequence ended (client gone, transport error).
    InboundEnded,
    /// A write on the send side failed.
    WriteFailed,
    /// The relay with this identifier has terminated.
    RelayFinished { id: u64 },
}

/// What the connection handler asks the runtime to do.
#[derive(Debug)]
pub enum Action {
    /// Nothing to do.
    Nothing,
    /// Write this frame to the client now.
    Reply(Outbound),
    /// Start a new, independently scheduled relay for this conversation.
    Dispatch { id: u64, conversation: Conversation },
    /// Stop the connection and cancel these relays.
    Shutdown { cancel: Vec<u64> },
}

/// The lifecycle state of a connection once the handshake is done.
#[derive(Clone, Copy, Debug, PartialEq, Eq, Structural)]
pub enum ConnState {
    Open,
    Closed,
}

/// One open (or closed) client connection.
#[derive(Debug)]
pub struct Connection {
    state: ConnState,
    active: Vec<u64>,
    next_id: u64,
}

impl Connection {
    pub closed spec fn spec_state(&self) -> ConnState {
        self.state
    }

    /// The identifiers of the relays dispatched and not yet finished, oldest first.
    pub closed spec fn spec_active(&self) -> Seq<u64> {
        self.active@
    }

    /// The identifier the next dispatched relay receives.
    pub closed spec fn spec_next_id(&self) -> u64 {
        self.next_id
    }

    /// Every active relay has an identifier handed out before, no two are
    /// equal, and a closed connection has none.
    pub open spec fn wf(&self) -> bool {
        &&& self.spec_active().no_duplicates()
        &&& forall|i: int|
            0 <= i < self.spec_active().len() ==> #[trigger] self.spec_active()[i]
                < self.spec_next_id()
        &&& self.spec_state() == ConnState::Closed ==> self.spec_active().len() == 0
    }

    /// A connection whose handshake has just succeeded.
    pub fn new() -> (r: Connection)
        ensures
            r.wf(),
            r.spec_state() == ConnState::Open,
            r.spec_active() == Seq::<u64>::empty(),
            r.spec_next_id() == 0,
    {
        Connection { state: ConnState::Open, active: Vec::new(), next_id: 0 }
    }

    pub fn state(&self) -> (r: ConnState)
        ensures
            r == self.spec_state(),
    {
        self.state
    }

    pub fn is_open(&self) -> (r: bool)
        ensures
            r == (self.spec_state() == ConnState::Open),
    {
        self.state == ConnState::Open
    }

    /// The identifier the next dispatched relay will receive.
    pub fn next_relay_id(&self) -> (r: u64)
        ensures
            r == self.spec_next_id(),
    {
        self.next_id
    }

    /// The identifiers of the active relays, oldest first.
    pub fn active_relays(&self) -> (r: Vec<u64>)
        ensures
            r@ == self.spec_active(),
    {
        self.active.clone()
    }

    /// Decides what one event does to the connection. Relay identifiers are
    /// drawn from a `u64` counter, which must not be exhausted.
    pub fn handle(&mut self, ev: Event) -> (r: Action)
        requires
            old(self).wf(),
            old(self).spec_next_id() < u64::MAX,
        ensures
            final(self).wf(),
            handle_post(*old(self), ev, *final(self), r),
    {
        if self.state == ConnState::Closed {
            return Action::Nothing;
        }
        match ev {
            Event::Frame(Inbound::Text(t)) => {
                match decode_conversation(&t) {
                    Ok(conversation) => {
                        let id = self.next_id;
                        assert(!self.active@.contains(id));
                        self.active.push(id);
                        self.next_id = id + 1;
                        proof {
                            assert forall|i: int| 0 <= i < self.active@.len() implies
                                #[trigger] self.active@[i] < self.next_id by {
                                if i < old(self).active@.len() {
                                    assert(self.active@[i] == old(self).active@[i]);
                                }
                            }
                        }
                        Action::Dispatch { id, conversation }
                    },
                    Err(_) => Action::Nothing,
                }
            },
            Event::Frame(Inbound::Binary(b)) => Action::Reply(Outbound::Binary(b)),
            Event::Frame(Inbound::Ping(p)) => Action::Reply(Outbound::Pong(p)),
            Event::RelayFinished { id } => {
                let kept = without(&self.active, id);
                proof {
                    assert forall|i: int| 0 <= i < kept@.len() implies #[trigger] kept@[i]
                        < self.next_id by {
                        assert(self.active@.contains(kept@[i]));
                    }
                }
                self.active = kept;
                Action::Nothing
            },
            _ => {
                let mut cancel: Vec<u64> = Vec::new();
                std::mem::swap(&mut cancel, &mut self.active);
                self.state = ConnState::Closed;
                Action::Shutdown { cancel }
            },
        }
    }
}

/// Whether the event `ev` terminates an open connection: a close frame, any
/// frame outside text, binary and ping, the end of the inbound sequence, or a
/// failed write.
pub open spec fn terminates(ev: Event) -> bool {
    match ev {
        Event::Frame(Inbound::Text(_)) => false,
        Event::Frame(Inbound::Binary(_)) => false,
        Event::Frame(Inbound::Ping(_)) => false,
        Event::RelayFinished { .. } => false,
        _ => true,
    }
}

/// What `Connection::handle` does: `s` before, `t` after, `a` the action.
pub open spec fn handle_post(s: Connection, ev: Event, t: Connection, a: Action) -> bool {
    if s.spec_state() == ConnState::Closed {
        t == s && a is Nothing
    } else {
        match ev {
            Event::Frame(Inbound::Text(text)) => match a {
                Action::Dispatch { id, conversation } => {
                    &&& decode_outcome(text@, Ok(conversation@))
                    &&& conversation.wf()
                    &&& id == s.spec_next_id()
                    &&& t.spec_state() == ConnState::Open
                    &&& t.spec_active() == s.spec_active().push(id)
                    &&& t.spec_next_id() == s.spec_next_id() + 1
                },
                Action::Nothing => {
                    &&& t == s
                    &&& exists|e| decode_outcome(text@, Err(e))
                },
                _ => false,
            },
            Event::Frame(Inbound::Binary(b)) => t == s && a == Action::Reply(Outbound::Binary(b)),
            Event::Frame(Inbound::Ping(p)) => t == s && a == Action::Reply(Outbound::Pong(p)),
            Event::RelayFinished { id } => {
                &&& a is Nothing
                &&& t.spec_state() == ConnState::Open
                &&& t.spec_next_id() == s.spec_next_id()
                &&& t.spec_active() == s.spec_active().filter(other_than(id))
            },
            _ => {
                &&& t.spec_state() == ConnState::Closed
                &&& t.spec_next_id() == s.spec_next_id()
                &&& t.spec_active() == Seq::<u64>::empty()
                &&& a matches Action::Shutdown { cancel } && cancel@ == s.spec_active()
            },
        }
    }
}

/// A ping on an open connection is answered at once by one pong with the
/// same payload, whatever relays are in flight, and changes nothing else.
pub proof fn lemma_ping_answered_at_once(s: Connection, p: Vec<u8>, t: Connection, a: Action)
    requires
        s.wf(),
        s.spec_state() == ConnState::Open,
        handle_post(s, Event::Frame(Inbound::Ping(p)), t, a),
    ensures
        a == Action::Reply(Outbound::Pong(p)),
        t == s,
{
}

/// A binary frame on an open connection is echoed at once with the same
/// bytes, before any later frame is handled.
pub proof fn lemma_binary_echoed(s: Connection, b: Vec<u8>, t: Connection, a: Action)
    requires
        s.wf(),
        s.spec_state() == ConnState::Open,
        handle_post(s, Event::Frame(Inbound::Binary(b)), t, a),
    ensures
        a == Action::Reply(Outbound::Binary(b)),
        t == s,
{
}

/// The same text sent twice on an open connection is either dropped both
/// times or starts two relays, with distinct identifiers, both active, for
/// conversations with the same messages.
pub proof fn lemma_same_text_twice(
    s0: Connection,
    text: String,
    s1: Connection,
    a1: Action,
    s2: Connection,
    a2: Action,
)
    requires
        s0.wf(),
        s0.spec_state() == ConnState::Open,
        handle_post(s0, Event::Frame(Inbound::Text(text)), s1, a1),
        handle_post(s1, Event::Frame(Inbound::Text(text)), s2, a2),
    ensures
        a1 is Dispatch <==> a2 is Dispatch,
        a1 is Nothing <==> a2 is Nothing,
        a1 is Dispatch ==> {
            &&& a1->id != a2->id
            &&& a1->conversation@ == a2->conversation@
            &&& s2.spec_active() == s0.spec_active().push(a1->id).push(a2->id)
        },
{
    match (a1, a2) {
        (Action::Dispatch { conversation: c1, .. }, Action::Dispatch { conversation: c2, .. }) => {
            lemma_decode_deterministic(text@, Ok(c1@), Ok(c2@));
        },
        (Action::Dispatch { conversation: c1, .. }, _) => {
            let e = choose|e: DecodeError| decode_outcome(text@, Err(e));
            lemma_decode_deterministic(text@, Ok(c1@), Err(e));
        },
        (_, Action::Dispatch { conversation: c2, .. }) => {
            let e = choose|e: DecodeError| decode_outcome(text@, Err(e));
            lemma_decode_deterministic(text@, Ok(c2@), Err(e));
        },
        _ => {},
    }
}

/// Whether `states` and `acts` are a run of the connection over the events
/// `evs`: `acts[i]` is what it did on `evs[i]`, from `states[i]` to `states[i + 1]`.
pub open spec fn connection_run(evs: Seq<Event>, states: Seq<Connection>, acts: Seq<Action>) -> bool {
    &&& states.len() == evs.len() + 1
    &&& acts.len() == evs.len()
    &&& forall|i: int|
        0 <= i < evs.len() ==> handle_post(states[i], evs[i], states[i + 1], #[trigger] acts[i])
}

/// The reply that an open connection owes the client for an event: a pong
/// with the payload of a ping, the bytes of a binary frame.
pub open spec fn owed_reply(ev: Event) -> Option<Outbound> {
    match ev {
        Event::Frame(Inbound::Ping(p)) => Some(Outbound::Pong(p)),
        Event::Frame(Inbound::Binary(b)) => Some(Outbound::Binary(b)),
        _ => None,
    }
}

proof fn lemma_stays_open(evs: Seq<Event>, states: Seq<Connection>, acts: Seq<Action>, i: int)
    requires
        connection_run(evs, states, acts),
        states[0].spec_state() == ConnState::Open,
        forall|j: int| 0 <= j < evs.len() ==> !terminates(#[trigger] evs[j]),
        0 <= i <= evs.len(),
    ensures
        states[i].spec_state() == ConnState::Open,
    decreases i,
{
    if i > 0 {
        lemma_stays_open(evs, states, acts, i - 1);
        assert(handle_post(states[i - 1], evs[i - 1], states[i], acts[i - 1]));
        assert(!terminates(evs[i - 1]));
    }
}

/// Over any sequence of frames that does not end the connection, each ping
/// and each binary frame gets its reply (a pong with the same payload, the
/// same bytes) on the step that reads it, before any later frame is handled,
/// whatever relays are in flight; and no other frame gets a reply. So the
/// pongs come one per ping, in ping order.
pub proof fn lemma_replies_follow_frames(evs: Seq<Event>, states: Seq<Connection>, acts: Seq<Action>)
    requires
        connection_run(evs, states, acts),
        states[0].spec_state() == ConnState::Open,
        forall|j: int| 0 <= j < evs.len() ==> !terminates(#[trigger] evs[j]),
    ensures
        forall|i: int|
            0 <= i < evs.len() ==> (#[trigger] owed_reply(evs[i]) matches Some(o) ==> acts[i]
                == Action::Reply(o)),
        forall|i: int|
            0 <= i < evs.len() ==> (#[trigger] acts[i] matches Action::Reply(o) ==> owed_reply(evs[i])
                == Some(o)),
{
    assert forall|i: int| 0 <= i < evs.len() implies (#[trigger] owed_reply(evs[i]) matches Some(o)
        ==> acts[i] == Action::Reply(o)) by {
        lemma_stays_open(evs, states, acts, i);
        assert(handle_post(states[i], evs[i], states[i + 1], acts[i]));
    }
    assert forall|i: int| 0 <= i < evs.len() implies (#[trigger] acts[i] matches Action::Reply(o)
        ==> owed_reply(evs[i]) == Some(o)) by {
        lemma_stays_open(evs, states, acts, i);
        assert(handle_post(states[i], evs[i], states[i + 1], acts[i]));
    }
}

/// Holds of every identifier but `id`.
pub open spec fn other_than(id: u64) -> spec_fn(u64) -> bool {
    |x: u64| x != id
}

/// The identifiers of `v` other than `id`, in order.
fn without(v: &Vec<u64>, id: u64) -> (r: Vec<u64>)
    requires
        v@.no_duplicates(),
    ensures
        r@ == v@.filter(other_than(id)),
        r@.no_duplicates(),
        forall|k: int| 0 <= k < r@.len() ==> v@.contains(#[trigger] r@[k]),
{
    let mut r: Vec<u64> = Vec::new();
    let ghost mut idx: Seq<int> = Seq::empty();
    let mut i: usize = 0;
    while i < v.len()
        invariant
            0 <= i <= v@.len(),
            v@.no_duplicates(),
            r@ == v@.subrange(0, i as int).filter(other_than(id)),
            idx.len() == r@.len(),
            forall|k: int| 0 <= k < r@.len() ==> 0 <= #[trigger] idx[k] < i && r@[k] == v@[idx[k]],
            forall|k1: int, k2: int| 0 <= k1 < k2 < r@.len() ==> idx[k1] < idx[k2],
        decreases v@.len() - i,
    {
        let ghost pre = v@.subrange(0, i + 1);
        proof {
            reveal(Seq::filter);
        }
        assert(pre.drop_last() == v@.subrange(0, i as int));
        assert(pre.last() == v@[i as int]);
        if v[i] != id {
            r.push(v[i]);
            proof {
                idx = idx.push(i as int);
            }
        }
        i = i + 1;
        assert(r@ == pre.filter(other_than(id)));
    }
    assert(v@.subrange(0, v@.len() as int) == v@);
    assert forall|k: int| 0 <= k < r@.len() implies v@.contains(#[trigger] r@[k]) by {
        assert(r@[k] == v@[idx[k]]);
    }
    assert forall|k1: int, k2: int| 0 <= k1 < r@.len() && 0 <= k2 < r@.len() && k1 != k2 implies
        r@[k1] != r@[k2] by {
        if k1 < k2 {
            assert(idx[k1] < idx[k2]);
        } else {
            assert(idx[k2] < idx[k1]);
        }
    }
    r
}

} // verus!
