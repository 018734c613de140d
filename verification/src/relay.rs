//! The per-connection relay: one state machine merging the watch pipeline
//! and the inbound frame stream.
//!
//! Exactly one driver owns a connection's transport and feeds this machine
//! one wakeup at a time — the next change event or the next inbound frame,
//! whichever is ready first. Each step returns the single action the driver
//! owes: send a frame, apply a write under the base directory, report a
//! request-scoped error, or nothing. Request-scoped failures leave the
//! connection active; end-of-stream, a send failure or a closed watch queue
//! close it.

use vstd::prelude::*;
use crate::NEWLINE;
use crate::bytescan::first_at;
use crate::codec::spec_encode;
use crate::codec::encode_event;
use crate::codec::decode_frame;
use crate::codec::lemma_frame_round_trip;
use crate::errors::Error;
use crate::event::ChangeEvent;
use crate::resolve::resolvable;
use crate::resolve::joined;
use crate::resolve::resolve;

verus! {

/// The lifecycle of one connection: `Idle` before the peer arrives,
/// `Active` while both sources are relayed, `Closed` once either side
/// ended. `Closed` is terminal; a new connection starts a new machine.
#[derive(Clone, Copy, Debug, PartialEq, Eq, Structural)]
pub enum RelayState {
    Idle,
    Active,
    Closed,
}

/// One wakeup of the merge point.
#[derive(Debug)]
pub enum RelayInput {
    /// The peer's connection was accepted.
    Connected,
    /// The watch pipeline delivered a normalized change event.
    Watch(ChangeEvent),
    /// The watch mechanism reported an error for one notification.
    WatchError,
    /// The watch pipeline's queue closed.
    WatchClosed,
    /// The transport delivered one inbound frame.
    Inbound(Vec<u8>),
    /// The transport reached end-of-stream.
    InboundClosed,
    /// A previous outbound send failed; the transport is unusable.
    SendFailed,
}

/// The single action the driver owes after one step.
#[derive(Debug)]
pub enum RelayAction {
    /// Nothing to do.
    Nothing,
    /// Write this frame to the transport.
    Send(Vec<u8>),
    /// Create `path`'s parent directories and write `content` to `path`.
    Apply { path: Vec<u8>, content: Vec<u8> },
    /// Report this request-scoped error to the peer.
    Reject(Error),
}

/// The mathematical shadow of a `RelayAction`, over byte sequences.
pub enum SpecAction {
    Nothing,
    Send(Seq<u8>),
    Apply { path: Seq<u8>, content: Seq<u8> },
    Reject(Error),
}

impl View for RelayAction {
    type V = SpecAction;

    open spec fn view(&self) -> SpecAction {
        match self {
            RelayAction::Nothing => SpecAction::Nothing,
            RelayAction::Send(frame) => SpecAction::Send(frame@),
            RelayAction::Apply { path, content } => SpecAction::Apply {
                path: path@,
                content: content@,
            },
            RelayAction::Reject(e) => SpecAction::Reject(*e),
        }
    }
}

/// The action owed for one inbound frame: apply the write when the frame
/// splits at its first newline into a resolvable path and a content, and
/// reject the single request otherwise.
pub open spec fn spec_inbound(base: Seq<u8>, frame: Seq<u8>) -> SpecAction {
    if !frame.contains(NEWLINE) {
        SpecAction::Reject(Error::NoNewlineToSeparatePath)
    } else {
        let rel = frame.subrange(0, first_at(frame, NEWLINE));
        let content = frame.subrange(first_at(frame, NEWLINE) + 1, frame.len() as int);
        if resolvable(rel) {
            SpecAction::Apply { path: joined(base, rel), content }
        } else {
            SpecAction::Reject(Error::InvalidPath)
        }
    }
}

/// One transition of the relay machine: the next state and the action the
/// driver owes. A malformed watch event — a path holding the separator —
/// is a fatal protocol error and closes the connection; every inbound
/// error is request-scoped and leaves it active.
pub open spec fn spec_step(state: RelayState, base: Seq<u8>, input: RelayInput) -> (RelayState,
    SpecAction,
) {
    match state {
        RelayState::Idle => match input {
            RelayInput::Connected => (RelayState::Active, SpecAction::Nothing),
            _ => (RelayState::Idle, SpecAction::Nothing),
        },
        RelayState::Closed => (RelayState::Closed, SpecAction::Nothing),
        RelayState::Active => match input {
            RelayInput::Connected => (RelayState::Active, SpecAction::Nothing),
            RelayInput::Watch(ev) => if ev.wf() {
                (RelayState::Active, SpecAction::Send(spec_encode(ev)))
            } else {
                (RelayState::Closed, SpecAction::Reject(Error::InvalidPath))
            },
            RelayInput::WatchError => (RelayState::Active, SpecAction::Reject(Error::WatchFailure)),
            RelayInput::WatchClosed => (RelayState::Closed, SpecAction::Nothing),
            RelayInput::Inbound(frame) => (RelayState::Active, spec_inbound(base, frame@)),
            RelayInput::InboundClosed => (RelayState::Closed, SpecAction::Nothing),
            RelayInput::SendFailed => (RelayState::Closed, SpecAction::Nothing),
        },
    }
}

/// One peer connection's relay: the base directory every write is
/// confined to, and the lifecycle state.
pub struct Relay {
    pub base_dir: Vec<u8>,
    pub state: RelayState,
}

impl Relay {
    /// A fresh machine for one connection, confined to `base_dir`.
    pub fn new(base_dir: Vec<u8>) -> (r: Relay)
        ensures
            r.state == RelayState::Idle,
            r.base_dir == base_dir,
    {
        Relay { base_dir, state: RelayState::Idle }
    }

    /// Process one wakeup, exactly as `spec_step` says.
    pub fn step(&mut self, input: RelayInput) -> (action: RelayAction)
        ensures
            ({
                let (next, owed) = spec_step(old(self).state, old(self).base_dir@, input);
                &&& final(self).state == next
                &&& action@ == owed
                &&& final(self).base_dir@ == old(self).base_dir@
            }),
    {
        match self.state {
            RelayState::Idle => match input {
                RelayInput::Connected => {
                    self.state = RelayState::Active;
                    RelayAction::Nothing
                },
                _ => RelayAction::Nothing,
            },
            RelayState::Closed => RelayAction::Nothing,
            RelayState::Active => match input {
                RelayInput::Connected => RelayAction::Nothing,
                RelayInput::Watch(ev) => {
                    if ev.check_wf() {
                        RelayAction::Send(encode_event(&ev))
                    } else {
                        self.state = RelayState::Closed;
                        RelayAction::Reject(Error::InvalidPath)
                    }
                },
                RelayInput::WatchError => RelayAction::Reject(Error::WatchFailure),
                RelayInput::WatchClosed => {
                    self.state = RelayState::Closed;
                    RelayAction::Nothing
                },
                RelayInput::Inbound(frame) => match decode_frame(frame.as_slice()) {
                    Ok(req) => {
                        proof {
                            lemma_frame_round_trip(req.relative_path@, req.content@);
                        }
                        match resolve(self.base_dir.as_slice(), req.relative_path.as_slice()) {
                            Ok(path) => RelayAction::Apply { path, content: req.content },
                            Err(_) => RelayAction::Reject(Error::InvalidPath),
                        }
                    },
                    Err(e) => RelayAction::Reject(e),
                },
                RelayInput::InboundClosed => {
                    self.state = RelayState::Closed;
                    RelayAction::Nothing
                },
                RelayInput::SendFailed => {
                    self.state = RelayState::Closed;
                    RelayAction::Nothing
                },
            },
        }
    }
}

/// The final state and the actions of a whole run, one input after the
/// other.
pub open spec fn spec_run(state: RelayState, base: Seq<u8>, inputs: Seq<RelayInput>) -> (RelayState,
    Seq<SpecAction>,
)
    decreases inputs.len(),
{
    if inputs.len() == 0 {
        (state, Seq::empty())
    } else {
        let (mid, first) = spec_step(state, base, inputs[0]);
        let (last, rest) = spec_run(mid, base, inputs.drop_first());
        (last, seq![first] + rest)
    }
}

/// A run answers every input with exactly one action.
pub proof fn lemma_run_length(state: RelayState, base: Seq<u8>, inputs: Seq<RelayInput>)
    ensures
        spec_run(state, base, inputs).1.len() == inputs.len(),
    decreases inputs.len(),
{
    if inputs.len() > 0 {
        let (mid, _) = spec_step(state, base, inputs[0]);
        lemma_run_length(mid, base, inputs.drop_first());
    }
}

/// Law: round trip of an inbound write. A frame built from a newline-free,
/// resolvable relative path and any content is applied — never rejected —
/// at exactly the path joined under the base directory, with exactly that
/// content.
pub proof fn lemma_inbound_round_trip(base: Seq<u8>, rel: Seq<u8>, content: Seq<u8>)
    requires
        !rel.contains(NEWLINE),
        resolvable(rel),
    ensures
        spec_inbound(base, rel + seq![NEWLINE] + content) == (SpecAction::Apply {
            path: joined(base, rel),
            content,
        }),
{
    lemma_frame_round_trip(rel, content);
}

/// Law: while the connection is active, a run of well-formed watch events
/// stays active and sends exactly their frames, in the order the events
/// were observed.
pub proof fn lemma_watch_order_preserved(base: Seq<u8>, inputs: Seq<RelayInput>)
    requires
        forall|i: int|
            0 <= i < inputs.len() ==> ((#[trigger] inputs[i]) matches RelayInput::Watch(ev)
                && ev.wf()),
    ensures
        spec_run(RelayState::Active, base, inputs).0 == RelayState::Active,
        spec_run(RelayState::Active, base, inputs).1.len() == inputs.len(),
        forall|i: int|
            0 <= i < inputs.len() ==> ((#[trigger] inputs[i]) matches RelayInput::Watch(ev)
                ==> spec_run(RelayState::Active, base, inputs).1[i] == SpecAction::Send(
                spec_encode(ev),
            )),
    decreases inputs.len(),
{
    if inputs.len() > 0 {
        assert(inputs[0] matches RelayInput::Watch(ev) && ev.wf());
        let rest = inputs.drop_first();
        assert forall|i: int|
            0 <= i < rest.len() implies (#[trigger] rest[i]) matches RelayInput::Watch(ev)
            && ev.wf() by {
            assert(inputs[i + 1] matches RelayInput::Watch(ev) && ev.wf());
        }
        lemma_watch_order_preserved(base, rest);
        assert forall|i: int|
            0 <= i < inputs.len() implies ((#[trigger] inputs[i]) matches RelayInput::Watch(ev)
            ==> spec_run(RelayState::Active, base, inputs).1[i] == SpecAction::Send(
            spec_encode(ev),
        )) by {
            if i > 0 {
                assert(rest[i - 1] == inputs[i]);
                assert(spec_run(RelayState::Active, base, inputs).1[i] == spec_run(
                    RelayState::Active,
                    base,
                    rest,
                ).1[i - 1]);
            }
        }
    }
}

/// Law: a continuous stream of inbound writes does not starve the watch
/// side. After any number of inbound frames the machine is still active,
/// and a well-formed change event delivered next is still framed and
/// sent. When the driver hands every ready wakeup to the machine, only
/// the scheduling of that hand-off remains outside this statement.
pub proof fn lemma_watch_not_starved(base: Seq<u8>, frames: Seq<RelayInput>, ev: ChangeEvent)
    requires
        forall|i: int| 0 <= i < frames.len() ==> ((#[trigger] frames[i]) is Inbound),
        ev.wf(),
    ensures
        spec_run(RelayState::Active, base, frames).0 == RelayState::Active,
        spec_run(RelayState::Active, base, frames.push(RelayInput::Watch(ev))).1.last()
            == SpecAction::Send(spec_encode(ev)),
    decreases frames.len(),
{
    let whole = frames.push(RelayInput::Watch(ev));
    if frames.len() == 0 {
        assert(whole[0] == RelayInput::Watch(ev));
        assert(whole.drop_first() =~= Seq::<RelayInput>::empty());
        let (mid, sent) = spec_step(RelayState::Active, base, whole[0]);
        assert(spec_run(mid, base, whole.drop_first()).1 =~= Seq::<SpecAction>::empty());
        assert(spec_run(RelayState::Active, base, whole).1 =~= seq![sent]);
    } else {
        assert(frames[0] is Inbound);
        let rest = frames.drop_first();
        assert forall|i: int| 0 <= i < rest.len() implies ((#[trigger] rest[i]) is Inbound) by {
            assert(rest[i] == frames[i + 1]);
        }
        lemma_watch_not_starved(base, rest, ev);
        assert(whole[0] == frames[0]);
        assert(whole.drop_first() =~= rest.push(RelayInput::Watch(ev)));
        lemma_run_length(RelayState::Active, base, whole.drop_first());
        let (_, tail_actions) = spec_run(RelayState::Active, base, whole.drop_first());
        assert(tail_actions.len() > 0);
        assert(spec_run(RelayState::Active, base, whole).1.last() == tail_actions.last());
    }
}

/// Law: a continuous stream of change events does not starve the inbound
/// side. After any number of well-formed watch events the machine is
/// still active, and an inbound frame delivered next still gets exactly
/// the outcome `spec_inbound` owes it — applied when its path resolves,
/// rejected otherwise.
pub proof fn lemma_inbound_not_starved(base: Seq<u8>, watches: Seq<RelayInput>, frame: Vec<u8>)
    requires
        forall|i: int|
            0 <= i < watches.len() ==> ((#[trigger] watches[i]) matches RelayInput::Watch(ev)
                && ev.wf()),
    ensures
        spec_run(RelayState::Active, base, watches.push(RelayInput::Inbound(frame))).1.last()
            == spec_inbound(base, frame@),
    decreases watches.len(),
{
    let whole = watches.push(RelayInput::Inbound(frame));
    if watches.len() == 0 {
        assert(whole[0] == RelayInput::Inbound(frame));
        assert(whole.drop_first() =~= Seq::<RelayInput>::empty());
        let (mid, outcome) = spec_step(RelayState::Active, base, whole[0]);
        assert(spec_run(mid, base, whole.drop_first()).1 =~= Seq::<SpecAction>::empty());
        assert(spec_run(RelayState::Active, base, whole).1 =~= seq![outcome]);
    } else {
        assert(watches[0] matches RelayInput::Watch(ev) && ev.wf());
        let rest = watches.drop_first();
        assert forall|i: int|
            0 <= i < rest.len() implies ((#[trigger] rest[i]) matches RelayInput::Watch(ev)
            && ev.wf()) by {
            assert(rest[i] == watches[i + 1]);
        }
        lemma_inbound_not_starved(base, rest, frame);
        assert(whole[0] == watches[0]);
        assert(whole.drop_first() =~= rest.push(RelayInput::Inbound(frame)));
        lemma_run_length(RelayState::Active, base, whole.drop_first());
        let (_, tail_actions) = spec_run(RelayState::Active, base, whole.drop_first());
        assert(tail_actions.len() > 0);
        assert(spec_run(RelayState::Active, base, whole).1.last() == tail_actions.last());
    }
}

} // verus!
