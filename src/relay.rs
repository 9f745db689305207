//! The generation relay: pumps one backend response stream into outbound
//! text frames, one fragment at a time and in the order the backend emitted
//! them.
use crate::conversation::RoleTag;
use ollama_rs::generation::chat::{
    ChatMessage, ChatMessageFinalResponseData, ChatMessageResponse, MessageRole,
};
use vstd::prelude::*;

verus! {

/// The statistics the backend attaches to the last fragment of a response.
#[derive(Clone, Copy, Debug, PartialEq, Eq, Structural)]
pub struct FinalData {
    pub total_duration: u64,
    pub prompt_eval_count: u16,
    pub prompt_eval_duration: u64,
    pub eval_count: u16,
    pub eval_duration: u64,
}

/// One increment of a backend response, in the backend's own chat response
/// shape.
#[derive(Clone, Debug, PartialEq, Eq)]
pub struct Fragment {
    pub model: String,
    pub created_at: String,
    pub role: RoleTag,
    pub content: String,
    pub done: bool,
    pub final_data: Option<FinalData>,
}

/// The value a fragment holds.
pub struct FragmentView {
    pub model: Seq<char>,
    pub created_at: Seq<char>,
    pub role: RoleTag,
    pub content: Seq<char>,
    pub done: bool,
    pub final_data: Option<FinalData>,
}

impl View for Fragment {
    type V = FragmentView;

    open spec fn view(&self) -> FragmentView {
        FragmentView {
            model: self.model@,
            created_at: self.created_at@,
            role: self.role,
            content: self.content@,
            done: self.done,
            final_data: self.final_data,
        }
    }
}

/// The JSON text of a fragment, encoded as an `ollama_rs` chat response.
pub uninterp spec fn fragment_json(f: FragmentView) -> Seq<char>;

/// The text frames that carry the fragments `fs`, one frame per fragment, in order.
pub open spec fn frames_of(fs: Seq<FragmentView>) -> Seq<Seq<char>> {
    fs.map_values(|f: FragmentView| fragment_json(f))
}

/// Why a relay stopped before the backend stream ended.
#[derive(Clone, Copy, Debug, PartialEq, Eq, Structural)]
pub enum RelayError {
    /// The backend request could not be established.
    Submit,
    /// The backend stream yielded an error.
    Backend,
    /// A write to the client failed: the connection is no longer usable.
    Write,
    /// The connection closed while the relay was running.
    Cancelled,
}

/// Where a relay stands.
#[derive(Clone, Copy, Debug, PartialEq, Eq, Structural)]
pub enum RelayPhase {
    /// The backend request is being established.
    Submitting,
    /// Waiting for the next fragment from the backend.
    Streaming,
    /// Waiting for the write of the last fragment to complete.
    Writing,
    /// The backend stream ended and every fragment was written.
    Finished,
    /// Stopped early.
    Failed(RelayError),
}

/// What the relay is told.
#[derive(Debug)]
pub enum RelayEvent {
    /// The backend request was established (`true`) or failed (`false`).
    Submitted(bool),
    /// The next item of the backend stream; `None` when the stream ended.
    Fragment(Option<Result<Fragment, ()>>),
    /// The write of the last fragment completed (`true`) or failed (`false`).
    Written(bool),
    /// The connection closed.
    Cancel,
}

/// What the relay asks the runtime to do next.
#[derive(Debug, PartialEq, Eq)]
pub enum RelayAction {
    /// Pull the next item from the backend stream.
    Pull,
    /// Write this text frame to the client, then report the outcome.
    Write(String),
    /// The relay is over: `Ok` when the backend stream ended normally.
    Stop(Result<(), RelayError>),
    /// Nothing to do: the event does not apply in the current phase.
    Nothing,
}

/// One relay, for one conversation.
pub struct Relay {
    phase: RelayPhase,
    /// The fragments taken from the backend, in order.
    pulled: Ghost<Seq<FragmentView>>,
    /// The fragments whose write completed, in order.
    written: Ghost<Seq<FragmentView>>,
}

impl Relay {
    pub closed spec fn spec_phase(&self) -> RelayPhase {
        self.phase
    }

    /// The fragments taken from the backend so far, in the order it emitted
    /// them.
    pub closed spec fn pulled(&self) -> Seq<FragmentView> {
        self.pulled@
    }

    /// The fragments whose frame was written to the client so far, in order.
    pub closed spec fn written(&self) -> Seq<FragmentView> {
        self.written@
    }

    /// Whether the relay is over.
    pub open spec fn is_terminal(&self) -> bool {
        self.spec_phase() is Finished || self.spec_phase() is Failed
    }

    /// The written fragments are the first pulled ones, in order; at most one
    /// pulled fragment is unwritten, and only while its write is pending or
    /// after the relay stopped.
    pub open spec fn wf(&self) -> bool {
        let p = self.pulled();
        let w = self.written();
        &&& w.len() <= p.len() <= w.len() + 1
        &&& w == p.take(w.len() as int)
        &&& self.spec_phase() is Writing ==> p.len() == w.len() + 1
        &&& p.len() == w.len() + 1 ==> (self.spec_phase() is Writing || self.spec_phase() is Failed)
        &&& self.spec_phase() is Submitting ==> p.len() == 0
    }

    /// A relay whose backend request is about to be submitted.
    pub fn new() -> (r: Relay)
        ensures
            r.wf(),
            r.spec_phase() == RelayPhase::Submitting,
            r.pulled() == Seq::<FragmentView>::empty(),
            r.written() == Seq::<FragmentView>::empty(),
    {
        let r = Relay {
            phase: RelayPhase::Submitting,
            pulled: Ghost(Seq::empty()),
            written: Ghost(Seq::empty()),
        };
        assert(r.written() =~= r.pulled().take(0));
        r
    }

    pub fn phase(&self) -> (r: RelayPhase)
        ensures
            r == self.spec_phase(),
    {
        self.phase
    }

    /// Decides what one event does to the relay.
    pub fn step(&mut self, ev: RelayEvent) -> (r: RelayAction)
        requires
            old(self).wf(),
        ensures
            final(self).wf(),
            step_post(*old(self), ev, *final(self), r),
    {
        match (self.phase, ev) {
            (RelayPhase::Finished, _) | (RelayPhase::Failed(_), _) => RelayAction::Nothing,
            (_, RelayEvent::Cancel) => {
                self.phase = RelayPhase::Failed(RelayError::Cancelled);
                RelayAction::Stop(Err(RelayError::Cancelled))
            },
            (RelayPhase::Submitting, RelayEvent::Submitted(true)) => {
                self.phase = RelayPhase::Streaming;
                RelayAction::Pull
            },
            (RelayPhase::Submitting, RelayEvent::Submitted(false)) => {
                self.phase = RelayPhase::Failed(RelayError::Submit);
                RelayAction::Stop(Err(RelayError::Submit))
            },
            (RelayPhase::Streaming, RelayEvent::Fragment(None)) => {
                self.phase = RelayPhase::Finished;
                RelayAction::Stop(Ok(()))
            },
            (RelayPhase::Streaming, RelayEvent::Fragment(Some(Err(())))) => {
                self.phase = RelayPhase::Failed(RelayError::Backend);
                RelayAction::Stop(Err(RelayError::Backend))
            },
            (RelayPhase::Streaming, RelayEvent::Fragment(Some(Ok(f)))) => {
                match encode_fragment(&f) {
                    Ok(text) => {
                        self.phase = RelayPhase::Writing;
                        self.pulled = Ghost(self.pulled@.push(f@));
                        proof {
                            assert(self.written@ =~= self.pulled@.take(self.written@.len() as int));
                        }
                        RelayAction::Write(text)
                    },
                    Err(_) => RelayAction::Nothing,
                }
            },
            (RelayPhase::Writing, RelayEvent::Written(true)) => {
                self.phase = RelayPhase::Streaming;
                let ghost w0 = self.written@;
                self.written = Ghost(self.pulled@);
                proof {
                    assert(self.pulled@ =~= w0.push(self.pulled@.last()));
                    assert(self.pulled@.take(self.pulled@.len() as int) =~= self.pulled@);
                }
                RelayAction::Pull
            },
            (RelayPhase::Writing, RelayEvent::Written(false)) => {
                self.phase = RelayPhase::Failed(RelayError::Write);
                RelayAction::Stop(Err(RelayError::Write))
            },
            _ => RelayAction::Nothing,
        }
    }
}

/// What `Relay::step` does: `s` before, `t` after, `a` the action.
pub open spec fn step_post(s: Relay, ev: RelayEvent, t: Relay, a: RelayAction) -> bool {
    if s.is_terminal() {
        t == s && a == RelayAction::Nothing
    } else {
        match ev {
            RelayEvent::Cancel => {
                &&& t.spec_phase() == RelayPhase::Failed(RelayError::Cancelled)
                &&& t.pulled() == s.pulled() && t.written() == s.written()
                &&& a == RelayAction::Stop(Err(RelayError::Cancelled))
            },
            RelayEvent::Submitted(ok) => if s.spec_phase() is Submitting {
                &&& t.pulled() == s.pulled() && t.written() == s.written()
                &&& ok ==> t.spec_phase() == RelayPhase::Streaming && a == RelayAction::Pull
                &&& !ok ==> t.spec_phase() == RelayPhase::Failed(RelayError::Submit) && a
                    == RelayAction::Stop(Err(RelayError::Submit))
            } else {
                t == s && a == RelayAction::Nothing
            },
            RelayEvent::Fragment(item) => if s.spec_phase() is Streaming {
                &&& t.written() == s.written()
                &&& match item {
                    None => {
                        &&& t.spec_phase() == RelayPhase::Finished
                        &&& t.pulled() == s.pulled()
                        &&& a == RelayAction::Stop(Ok(()))
                    },
                    Some(Err(())) => {
                        &&& t.spec_phase() == RelayPhase::Failed(RelayError::Backend)
                        &&& t.pulled() == s.pulled()
                        &&& a == RelayAction::Stop(Err(RelayError::Backend))
                    },
                    Some(Ok(f)) => {
                        &&& a matches RelayAction::Write(text) && text@ == fragment_json(f@)
                        &&& t.spec_phase() == RelayPhase::Writing
                        &&& t.pulled() == s.pulled().push(f@)
                    },
                }
            } else {
                t == s && a == RelayAction::Nothing
            },
            RelayEvent::Written(ok) => if s.spec_phase() is Writing {
                &&& t.pulled() == s.pulled()
                &&& ok ==> t.spec_phase() == RelayPhase::Streaming && a == RelayAction::Pull
                    && t.written() == s.written().push(s.pulled().last())
                &&& !ok ==> t.spec_phase() == RelayPhase::Failed(RelayError::Write) && a
                    == RelayAction::Stop(Err(RelayError::Write)) && t.written() == s.written()
            } else {
                t == s && a == RelayAction::Nothing
            },
        }
    }
}

/// Fragments reach the client in the order the backend emitted them: the
/// written fragments are exactly the first pulled ones, and at most one
/// pulled fragment waits for its write.
pub proof fn lemma_written_in_backend_order(r: Relay)
    requires
        r.wf(),
    ensures
        r.written().len() <= r.pulled().len() <= r.written().len() + 1,
        forall|i: int| 0 <= i < r.written().len() ==> #[trigger] r.written()[i] == r.pulled()[i],
{
    assert forall|i: int| 0 <= i < r.written().len() implies #[trigger] r.written()[i]
        == r.pulled()[i] by {
        assert(r.written() == r.pulled().take(r.written().len() as int));
    }
}

/// The relay asks for the next backend fragment only once every fragment it
/// pulled has been written: a slow client slows the backend stream down.
pub proof fn lemma_pull_only_when_drained(s: Relay, ev: RelayEvent, t: Relay)
    requires
        s.wf(),
        t.wf(),
        step_post(s, ev, t, RelayAction::Pull),
    ensures
        t.written() == t.pulled(),
{
    if s.spec_phase() is Writing {
        assert(s.written() == s.pulled().take(s.written().len() as int));
        assert(t.written() =~= t.pulled());
    } else {
        assert(t.written() =~= t.pulled());
    }
}

/// Once a relay has stopped (a failed write, a closed connection, a backend
/// failure or the end of the stream), no event makes it pull from the backend
/// or write to the client again.
pub proof fn lemma_stopped_stays_stopped(s: Relay, ev: RelayEvent, t: Relay, a: RelayAction)
    requires
        s.is_terminal(),
        step_post(s, ev, t, a),
    ensures
        a == RelayAction::Nothing,
        t == s,
{
}

/// Whether `states` and `acts` are a run of the relay over the events `evs`:
/// `acts[i]` is what the relay did on `evs[i]`, from `states[i]` to `states[i + 1]`.
pub open spec fn relay_run(evs: Seq<RelayEvent>, states: Seq<Relay>, acts: Seq<RelayAction>) -> bool {
    &&& states.len() == evs.len() + 1
    &&& acts.len() == evs.len()
    &&& forall|i: int| 0 <= i <= evs.len() ==> (#[trigger] states[i]).wf()
    &&& forall|i: int|
        0 <= i < evs.len() ==> step_post(states[i], evs[i], states[i + 1], #[trigger] acts[i])
}

/// The texts of the frames that the actions `acts` write, in order.
pub open spec fn write_texts(acts: Seq<RelayAction>) -> Seq<Seq<char>>
    decreases acts.len(),
{
    if acts.len() == 0 {
        Seq::empty()
    } else {
        let w = write_texts(acts.drop_last());
        match acts.last() {
            RelayAction::Write(text) => w.push(text@),
            _ => w,
        }
    }
}

/// The events of a relay whose request is accepted, whose backend emits
/// `frags` and then ends, and whose writes all succeed.
pub open spec fn streamed_events(frags: Seq<Fragment>) -> Seq<RelayEvent> {
    Seq::new(
        2 * frags.len() + 2,
        |i: int|
            if i == 0 {
                RelayEvent::Submitted(true)
            } else if i == 2 * frags.len() + 1 {
                RelayEvent::Fragment(None)
            } else if i % 2 == 1 {
                RelayEvent::Fragment(Some(Ok(frags[(i - 1) / 2])))
            } else {
                RelayEvent::Written(true)
            },
    )
}

proof fn lemma_streamed_prefix(
    frags: Seq<Fragment>,
    evs: Seq<RelayEvent>,
    states: Seq<Relay>,
    acts: Seq<RelayAction>,
    j: int,
)
    requires
        relay_run(evs, states, acts),
        states[0].spec_phase() is Submitting,
        0 <= j <= frags.len(),
        2 * j + 1 <= evs.len(),
        forall|i: int| 0 <= i < 2 * j + 1 ==> evs[i] == #[trigger] streamed_events(frags)[i],
    ensures
        states[2 * j + 1].spec_phase() is Streaming,
        states[2 * j + 1].pulled() == frags.take(j).map_values(|f: Fragment| f@),
        states[2 * j + 1].written() == states[2 * j + 1].pulled(),
        write_texts(acts.take(2 * j + 1)) == frames_of(frags.take(j).map_values(|f: Fragment| f@)),
    decreases j,
{
    if j == 0 {
        assert(evs[0] == streamed_events(frags)[0]);
        assert(step_post(states[0], evs[0], states[1], acts[0]));
        assert(states[0].pulled().len() == 0);
        assert(states[1].pulled() =~= frags.take(0).map_values(|f: Fragment| f@));
        assert(states[1].written() =~= states[1].pulled());
        assert(acts.take(1).drop_last() =~= acts.take(0));
        assert(write_texts(acts.take(0)) == Seq::<Seq<char>>::empty());
        assert(write_texts(acts.take(1)) =~= frames_of(frags.take(0).map_values(|f: Fragment| f@)));
    } else {
        lemma_streamed_prefix(frags, evs, states, acts, j - 1);
        let k = 2 * j - 1;
        assert(evs[k] == streamed_events(frags)[k]);
        assert(evs[k + 1] == streamed_events(frags)[k + 1]);
        let f = frags[j - 1];
        assert(evs[k] == RelayEvent::Fragment(Some(Ok::<Fragment, ()>(f))));
        assert(evs[k + 1] == RelayEvent::Written(true));
        assert(step_post(states[k], evs[k], states[k + 1], acts[k]));
        assert(step_post(states[k + 1], evs[k + 1], states[k + 2], acts[k + 1]));
        let prev = frags.take(j - 1).map_values(|f: Fragment| f@);
        let cur = frags.take(j).map_values(|f: Fragment| f@);
        assert(cur =~= prev.push(f@));
        assert(states[k + 2].pulled() =~= cur);
        assert(states[k + 2].written() =~= states[k + 2].pulled());
        assert(acts.take(k + 1).drop_last() =~= acts.take(k));
        assert(acts.take(k + 2).drop_last() =~= acts.take(k + 1));
        assert(frames_of(cur) =~= frames_of(prev).push(fragment_json(f@)));
        assert(acts.take(k + 1).last() == acts[k]);
        assert(acts.take(k + 2).last() == acts[k + 1]);
        assert(acts[k + 1] == RelayAction::Pull);
        assert(acts[k]->Write_0@ == fragment_json(f@));
        assert(write_texts(acts.take(k + 1)) == write_texts(acts.take(k)).push(fragment_json(f@)));
        assert(write_texts(acts.take(k + 2)) == write_texts(acts.take(k + 1)));
    }
}

/// A relay whose request is accepted, whose backend emits `frags` and then
/// ends, and whose writes all succeed, writes exactly one text frame per
/// fragment, that fragment's JSON, in the order the backend emitted them, and
/// then finishes.
pub proof fn lemma_stream_relayed_in_order(
    frags: Seq<Fragment>,
    states: Seq<Relay>,
    acts: Seq<RelayAction>,
)
    requires
        relay_run(streamed_events(frags), states, acts),
        states[0].spec_phase() is Submitting,
    ensures
        write_texts(acts) == frames_of(frags.map_values(|f: Fragment| f@)),
        states.last().spec_phase() is Finished,
        acts.last() == RelayAction::Stop(Ok(())),
{
    let n = frags.len() as int;
    let evs = streamed_events(frags);
    lemma_streamed_prefix(frags, evs, states, acts, n);
    assert(evs[2 * n + 1] == RelayEvent::Fragment(None));
    assert(step_post(states[2 * n + 1], evs[2 * n + 1], states[2 * n + 2], acts[2 * n + 1]));
    assert(frags.take(n) =~= frags);
    assert(acts.take(2 * n + 2) =~= acts);
    assert(acts.take(2 * n + 2).drop_last() =~= acts.take(2 * n + 1));
}

/// Actions that write nothing add no frame.
proof fn lemma_no_more_writes(acts: Seq<RelayAction>, m: int)
    requires
        0 <= m <= acts.len(),
        forall|i: int| m <= i < acts.len() ==> !(#[trigger] acts[i] is Write),
    ensures
        write_texts(acts) == write_texts(acts.take(m)),
    decreases acts.len(),
{
    if acts.len() > m {
        let d = acts.drop_last();
        assert forall|i: int| m <= i < d.len() implies !(#[trigger] d[i] is Write) by {
            assert(d[i] == acts[i]);
        }
        lemma_no_more_writes(d, m);
        assert(d.take(m) =~= acts.take(m));
    } else {
        assert(acts.take(m) =~= acts);
    }
}

/// A relay whose request is accepted, whose backend emits `frags`, and whose
/// writes succeed until the write of the last of them fails, has written
/// exactly those fragments' frames, in order; the failure stops it with a
/// write error, and whatever events follow, it neither pulls from the
/// backend nor writes again.
#[verifier::rlimit(40)]
pub proof fn lemma_failed_write_stops_relay(
    frags: Seq<Fragment>,
    evs: Seq<RelayEvent>,
    states: Seq<Relay>,
    acts: Seq<RelayAction>,
)
    requires
        frags.len() > 0,
        relay_run(evs, states, acts),
        states[0].spec_phase() is Submitting,
        evs.len() >= 2 * frags.len() + 1,
        forall|i: int| 0 <= i < 2 * frags.len() ==> evs[i] == #[trigger] streamed_events(frags)[i],
        evs[2 * frags.len() as int] == RelayEvent::Written(false),
    ensures
        write_texts(acts) == frames_of(frags.map_values(|f: Fragment| f@)),
        acts[2 * frags.len() as int] == RelayAction::Stop(Err(RelayError::Write)),
        forall|i: int| 2 * frags.len() < i < acts.len() ==> #[trigger] acts[i] == RelayAction::Nothing,
{
    let n = frags.len() - 1;
    lemma_streamed_prefix(frags, evs, states, acts, n);
    let k = 2 * n + 1;
    let f = frags[n];
    assert(evs[k] == streamed_events(frags)[k]);
    assert(evs[k] == RelayEvent::Fragment(Some(Ok::<Fragment, ()>(f))));
    assert(step_post(states[k], evs[k], states[k + 1], acts[k]));
    assert(step_post(states[k + 1], evs[k + 1], states[k + 2], acts[k + 1]));
    let m = k + 2;
    assert(states[m].is_terminal());
    assert forall|i: int| m <= i < acts.len() implies #[trigger] acts[i] == RelayAction::Nothing by {
        lemma_stopped_run(evs, states, acts, m, i);
    }
    lemma_no_more_writes(acts, m);
    let prev = frags.take(n).map_values(|f: Fragment| f@);
    assert(frags.map_values(|f: Fragment| f@) =~= prev.push(f@));
    assert(frames_of(prev.push(f@)) =~= frames_of(prev).push(fragment_json(f@)));
    assert(acts.take(k + 1).drop_last() =~= acts.take(k));
    assert(acts.take(k + 2).drop_last() =~= acts.take(k + 1));
    assert(acts.take(k + 1).last() == acts[k]);
    assert(acts.take(k + 2).last() == acts[k + 1]);
    assert(acts[k]->Write_0@ == fragment_json(f@));
    assert(write_texts(acts.take(k + 1)) == write_texts(acts.take(k)).push(fragment_json(f@)));
    assert(write_texts(acts.take(k + 2)) == write_texts(acts.take(k + 1)));
}

/// From a stopped state on, a run stays in that state and does nothing.
proof fn lemma_stopped_run(
    evs: Seq<RelayEvent>,
    states: Seq<Relay>,
    acts: Seq<RelayAction>,
    m: int,
    i: int,
)
    requires
        relay_run(evs, states, acts),
        0 <= m <= i <= evs.len(),
        states[m].is_terminal(),
    ensures
        states[i] == states[m],
        i < evs.len() ==> acts[i] == RelayAction::Nothing,
    decreases i - m,
{
    if i > m {
        lemma_stopped_run(evs, states, acts, m, i - 1);
        assert(step_post(states[i - 1], evs[i - 1], states[i], acts[i - 1]));
    }
    if i < evs.len() {
        assert(step_post(states[i], evs[i], states[i + 1], acts[i]));
    }
}

/// Relies on serde_json::to_string on the `ollama_rs` `ChatMessageResponse`
/// that the fragment holds: its JSON text. The derived `Serialize` of that
/// type holds no map with non-string keys, so the encoding does not fail.
#[verifier::external_body]
fn encode_fragment(f: &Fragment) -> (r: Result<String, serde_json::Error>)
    ensures
        r is Ok,
        r is Ok ==> r->Ok_0@ == fragment_json(f@),
{
    let role = match f.role {
        RoleTag::System => MessageRole::System,
        RoleTag::User => MessageRole::User,
        RoleTag::Assistant => MessageRole::Assistant,
        RoleTag::Tool => MessageRole::Tool,
    };
    let final_data = f.final_data.map(|d| ChatMessageFinalResponseData { total_duration: d.total_duration,
        prompt_eval_count: d.prompt_eval_count, prompt_eval_duration: d.prompt_eval_duration,
        eval_count: d.eval_count, eval_duration: d.eval_duration });
    let message = ChatMessage::new(role, f.content.clone());
    serde_json::to_string(&ChatMessageResponse { model: f.model.clone(), created_at: f.created_at.clone(),
        message, done: f.done, final_data })
}

} // verus!
