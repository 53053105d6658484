//! The negotiation coordinator: a state machine that drives the
//! offer/answer/ICE exchange over the relay.
//!
//! The coordinator owns no browser object.  Every peer-connection or
//! transport event is handed in as an [`Event`]; the coordinator updates the
//! [`Session`] and returns the [`Action`]s the surrounding glue must
//! perform (create an offer, apply a description, send an envelope, ...).
//! The whole transition function is the specification `step`; the
//! executable `handle_event` is proved equal to it, and the laws at the end
//! of this module are proved over `step` and `run`.
//!
//! Known limitation: there is no glare resolution.  If both peers trigger
//! negotiation at once, each side simply ignores further local triggers
//! while its own exchange is in flight; conflicting offers are left to the
//! peer-connection layer.  Completing an answer round does not itself
//! return the coordinator to `Idle`: the flag is recomputed only from
//! signaling-state-change reports, which is what eventually reopens the
//! gate.

use vstd::prelude::*;

use crate::codec::{decode_envelope, spec_decode, DecodeError};
use crate::protocol::{
    Candidate, CandidateView, Participant, Room, SdpMessage, SdpMessageView, SdpType,
    SignalEnvelope, SignalEnvelopeView, SignalingMessage, SignalingMessageView,
};

verus! {

/// Whether an offer/answer exchange is currently in flight.
#[derive(Clone, Copy, Debug, PartialEq, Eq, Structural)]
pub enum NegotiationState {
    Idle,
    Negotiating,
}

/// One occurrence the coordinator reacts to: a decoded relay envelope, or
/// an event of the peer-connection primitive.
#[derive(Clone, Debug, PartialEq, Eq)]
pub enum Event {
    /// A decoded envelope arrived from the relay.
    Inbound { envelope: SignalEnvelope },
    /// The peer connection asks for a (re)negotiation.
    NegotiationNeeded,
    /// The peer connection's signaling state changed; `stable` reports
    /// whether it is now stable.
    SignalingStateChanged { stable: bool },
    /// A local ICE candidate was discovered.  Fields that the browser did
    /// not supply arrive as `None`.
    LocalCandidate { candidate: String, sdp_mid: Option<String>, sdp_m_line_index: Option<u16> },
    /// Offer creation succeeded.
    OfferCreated { sdp: String },
    /// Answer creation succeeded.
    AnswerCreated { sdp: String },
    /// The local description was set; carries that description.
    LocalDescriptionSet { sdp_type: SdpType, sdp: String },
    /// The remote description was applied; carries its type.
    RemoteDescriptionApplied { sdp_type: SdpType },
    /// An asynchronous peer-connection operation failed.  Non-fatal: the
    /// session continues unchanged and may be restarted by a fresh
    /// negotiation trigger.
    OperationFailed,
}

pub ghost enum EventView {
    Inbound { envelope: SignalEnvelopeView },
    NegotiationNeeded,
    SignalingStateChanged { stable: bool },
    LocalCandidate {
        candidate: Seq<char>,
        sdp_mid: Option<Seq<char>>,
        sdp_m_line_index: Option<u16>,
    },
    OfferCreated { sdp: Seq<char> },
    AnswerCreated { sdp: Seq<char> },
    LocalDescriptionSet { sdp_type: SdpType, sdp: Seq<char> },
    RemoteDescriptionApplied { sdp_type: SdpType },
    OperationFailed,
}

impl View for Event {
    type V = EventView;

    open spec fn view(&self) -> EventView {
        match self {
            Event::Inbound { envelope } => EventView::Inbound { envelope: envelope@ },
            Event::NegotiationNeeded => EventView::NegotiationNeeded,
            Event::SignalingStateChanged { stable } => EventView::SignalingStateChanged {
                stable: *stable,
            },
            Event::LocalCandidate { candidate, sdp_mid, sdp_m_line_index } => {
                EventView::LocalCandidate {
                    candidate: candidate@,
                    sdp_mid: sdp_mid.deep_view(),
                    sdp_m_line_index: *sdp_m_line_index,
                }
            },
            Event::OfferCreated { sdp } => EventView::OfferCreated { sdp: sdp@ },
            Event::AnswerCreated { sdp } => EventView::AnswerCreated { sdp: sdp@ },
            Event::LocalDescriptionSet { sdp_type, sdp } => EventView::LocalDescriptionSet {
                sdp_type: *sdp_type,
                sdp: sdp@,
            },
            Event::RemoteDescriptionApplied { sdp_type } => EventView::RemoteDescriptionApplied {
                sdp_type: *sdp_type,
            },
            Event::OperationFailed => EventView::OperationFailed,
        }
    }
}

impl DeepView for Event {
    type V = EventView;

    open spec fn deep_view(&self) -> EventView {
        self.view()
    }
}

/// What the surrounding glue must do next, in order.
#[derive(Clone, Debug, PartialEq, Eq)]
pub enum Action {
    /// Encode this envelope and send it over the relay.
    Send { envelope: SignalEnvelope },
    /// Ask the peer connection for an offer.
    CreateOffer,
    /// Ask the peer connection for an answer.
    CreateAnswer,
    /// Set this description as the local description.
    SetLocalDescription { sdp_type: SdpType, sdp: String },
    /// Apply this description as the remote description.
    ApplyRemoteDescription { sdp_type: SdpType, sdp: String },
    /// Hand this candidate to the peer connection.
    AddIceCandidate { candidate: Candidate },
    /// Create the negotiated data channel with this label and id.
    CreateDataChannel { label: String, channel_id: u16 },
    /// Surface a decode error (the offending frame was discarded).
    ReportDecodeError,
}

pub ghost enum ActionView {
    Send { envelope: SignalEnvelopeView },
    CreateOffer,
    CreateAnswer,
    SetLocalDescription { sdp_type: SdpType, sdp: Seq<char> },
    ApplyRemoteDescription { sdp_type: SdpType, sdp: Seq<char> },
    AddIceCandidate { candidate: CandidateView },
    CreateDataChannel { label: Seq<char>, channel_id: u16 },
    ReportDecodeError,
}

impl View for Action {
    type V = ActionView;

    open spec fn view(&self) -> ActionView {
        match self {
            Action::Send { envelope } => ActionView::Send { envelope: envelope@ },
            Action::CreateOffer => ActionView::CreateOffer,
            Action::CreateAnswer => ActionView::CreateAnswer,
            Action::SetLocalDescription { sdp_type, sdp } => ActionView::SetLocalDescription {
                sdp_type: *sdp_type,
                sdp: sdp@,
            },
            Action::ApplyRemoteDescription { sdp_type, sdp } => {
                ActionView::ApplyRemoteDescription { sdp_type: *sdp_type, sdp: sdp@ }
            },
            Action::AddIceCandidate { candidate } => ActionView::AddIceCandidate {
                candidate: candidate@,
            },
            Action::CreateDataChannel { label, channel_id } => ActionView::CreateDataChannel {
                label: label@,
                channel_id: *channel_id,
            },
            Action::ReportDecodeError => ActionView::ReportDecodeError,
        }
    }
}

impl DeepView for Action {
    type V = ActionView;

    open spec fn deep_view(&self) -> ActionView {
        self.view()
    }
}

/// The single per-client session: the assigned room, the data-channel
/// guard, the negotiation flag, whether a remote description has been
/// applied, and the buffer of candidates that arrived too early.
#[derive(Debug)]
pub struct Session {
    pub room: Option<Room>,
    pub channel_established: bool,
    pub negotiation: NegotiationState,
    pub remote_description_set: bool,
    pub pending_candidates: Vec<Candidate>,
}

#[verifier::ext_equal]
pub ghost struct SessionView {
    pub room: Option<Seq<char>>,
    pub channel_established: bool,
    pub negotiation: NegotiationState,
    pub remote_description_set: bool,
    pub pending_candidates: Seq<CandidateView>,
}

impl View for Session {
    type V = SessionView;

    open spec fn view(&self) -> SessionView {
        SessionView {
            room: self.room.deep_view(),
            channel_established: self.channel_established,
            negotiation: self.negotiation,
            remote_description_set: self.remote_description_set,
            pending_candidates: self.pending_candidates.deep_view(),
        }
    }
}

// ---------------------------------------------------------------------------
// The transition function (specification level)
// ---------------------------------------------------------------------------

pub open spec fn ice_event(c: CandidateView) -> EventView {
    EventView::Inbound {
        envelope: SignalEnvelopeView::SignalToClient {
            content: SignalingMessageView::ICECandidate { message: c },
        },
    }
}

pub open spec fn add_ice_action(c: CandidateView) -> ActionView {
    ActionView::AddIceCandidate { candidate: c }
}

/// The transition taken on a decoded inbound envelope.
pub open spec fn step_inbound(s: SessionView, envelope: SignalEnvelopeView) -> (
    SessionView,
    Seq<ActionView>,
) {
    match envelope {
        SignalEnvelopeView::NewUser { .. } => (s, Seq::empty()),
        SignalEnvelopeView::SignalFromClient { .. } => (s, Seq::empty()),
        SignalEnvelopeView::JoinedRoom { room } => (
            (SessionView { room: Some(room), ..s }),
            Seq::empty(),
        ),
        SignalEnvelopeView::SignalToClient { content } => match content {
            SignalingMessageView::UserHere { message } => if s.channel_established {
                (s, Seq::empty())
            } else {
                match s.room {
                    Some(room) => (
                        (SessionView { channel_established: true, ..s }),
                        seq![
                            ActionView::CreateDataChannel { label: room, channel_id: message },
                        ],
                    ),
                    None => (s, Seq::empty()),
                }
            },
            SignalingMessageView::ICECandidate { message } => if !s.remote_description_set {
                (
                    (SessionView {
                        pending_candidates: s.pending_candidates.push(message),
                        ..s
                    }),
                    Seq::empty(),
                )
            } else {
                (s, seq![add_ice_action(message)])
            },
            SignalingMessageView::SDP { message } => (
                s,
                seq![
                    ActionView::ApplyRemoteDescription {
                        sdp_type: message.sdp_type,
                        sdp: message.sdp,
                    },
                ],
            ),
        },
    }
}

/// The coordinator's whole transition function: one event in, the new
/// session and the actions out.
pub open spec fn step(s: SessionView, e: EventView) -> (SessionView, Seq<ActionView>) {
    match e {
        EventView::Inbound { envelope } => step_inbound(s, envelope),
        EventView::NegotiationNeeded => if s.negotiation == NegotiationState::Negotiating {
            (s, Seq::empty())
        } else {
            (
                (SessionView { negotiation: NegotiationState::Negotiating, ..s }),
                seq![ActionView::CreateOffer],
            )
        },
        EventView::SignalingStateChanged { stable } => (
            (SessionView {
                negotiation: if stable {
                    NegotiationState::Idle
                } else {
                    NegotiationState::Negotiating
                },
                ..s
            }),
            Seq::empty(),
        ),
        EventView::LocalCandidate { candidate, sdp_mid, sdp_m_line_index } => {
            match (sdp_mid, sdp_m_line_index) {
                (Some(mid), Some(idx)) => if candidate.len() > 0 {
                    (
                        s,
                        seq![
                            ActionView::Send {
                                envelope: SignalEnvelopeView::SignalFromClient {
                                    content: SignalingMessageView::ICECandidate {
                                        message: CandidateView {
                                            candidate: candidate,
                                            sdp_mid: mid,
                                            sdp_m_line_index: idx,
                                        },
                                    },
                                },
                            },
                        ],
                    )
                } else {
                    (s, Seq::empty())
                },
                _ => (s, Seq::empty()),
            }
        },
        EventView::OfferCreated { sdp } => (
            s,
            seq![
                ActionView::SetLocalDescription { sdp_type: SdpType::Offer, sdp: sdp },
            ],
        ),
        EventView::AnswerCreated { sdp } => (
            s,
            seq![
                ActionView::SetLocalDescription { sdp_type: SdpType::Answer, sdp: sdp },
            ],
        ),
        EventView::LocalDescriptionSet { sdp_type, sdp } => (
            s,
            seq![
                ActionView::Send {
                    envelope: SignalEnvelopeView::SignalFromClient {
                        content: SignalingMessageView::SDP {
                            message: SdpMessageView { sdp_type: sdp_type, sdp: sdp },
                        },
                    },
                },
            ],
        ),
        EventView::RemoteDescriptionApplied { sdp_type } => (
            (SessionView {
                remote_description_set: true,
                pending_candidates: Seq::empty(),
                ..s
            }),
            s.pending_candidates.map_values(|c: CandidateView| add_ice_action(c)) + (
            if sdp_type == SdpType::Offer {
                seq![ActionView::CreateAnswer]
            } else {
                Seq::<ActionView>::empty()
            }),
        ),
        EventView::OperationFailed => (s, Seq::empty()),
    }
}

/// The state a session starts in: no room, no channel, idle, nothing
/// buffered.
pub open spec fn initial_session() -> SessionView {
    SessionView {
        room: None,
        channel_established: false,
        negotiation: NegotiationState::Idle,
        remote_description_set: false,
        pending_candidates: Seq::empty(),
    }
}

fn clone_candidate(c: &Candidate) -> (r: Candidate)
    ensures
        r@ == c@,
{
    Candidate {
        candidate: c.candidate.clone(),
        sdp_mid: c.sdp_mid.clone(),
        sdp_m_line_index: c.sdp_m_line_index,
    }
}

impl Session {
    /// A fresh session, before anything has happened.
    pub fn new() -> (s: Session)
        ensures
            s@ == initial_session(),
    {
        let s = Session {
            room: None,
            channel_established: false,
            negotiation: NegotiationState::Idle,
            remote_description_set: false,
            pending_candidates: Vec::new(),
        };
        proof {
            assert(s@.pending_candidates =~= initial_session().pending_candidates);
            assert(s@ =~= initial_session());
        }
        s
    }

    /// The first envelope of a connection: announce this participant to the
    /// relay.  The caller sends it once the transport is up.
    pub fn connect(&self, participant: Participant) -> (actions: Vec<Action>)
        ensures
            actions.deep_view() == seq![
                ActionView::Send {
                    envelope: SignalEnvelopeView::NewUser { participant: participant@ },
                },
            ],
    {
        let ghost p = participant@;
        let mut actions: Vec<Action> = Vec::new();
        actions.push(Action::Send { envelope: SignalEnvelope::NewUser { participant } });
        proof {
            assert(actions.deep_view() =~= seq![
                ActionView::Send { envelope: SignalEnvelopeView::NewUser { participant: p } },
            ]);
        }
        actions
    }

    /// Whether an offer/answer exchange is currently in flight.
    pub fn is_negotiating(&self) -> (b: bool)
        ensures
            b == (self@.negotiation == NegotiationState::Negotiating),
    {
        self.negotiation == NegotiationState::Negotiating
    }

    /// Whether the data channel has been created for this session.
    pub fn channel_established(&self) -> (b: bool)
        ensures
            b == self@.channel_established,
    {
        self.channel_established
    }

    /// Whether a remote description has been applied yet.
    pub fn remote_description_set(&self) -> (b: bool)
        ensures
            b == self@.remote_description_set,
    {
        self.remote_description_set
    }

    /// How many inbound candidates are waiting for a remote description.
    pub fn pending_candidate_count(&self) -> (n: usize)
        ensures
            n == self@.pending_candidates.len(),
    {
        self.pending_candidates.len()
    }

    /// The room the relay assigned, if any.
    pub fn room(&self) -> (r: &Option<Room>)
        ensures
            r.deep_view() == self@.room,
    {
        &self.room
    }

    /// Feed one event through the transition function `step`.
    pub fn handle_event(&mut self, event: Event) -> (actions: Vec<Action>)
        ensures
            final(self)@ == step(old(self)@, event@).0,
            actions.deep_view() == step(old(self)@, event@).1,
    {
        let ghost s0 = self@;
        let ghost e = event@;
        let mut actions: Vec<Action> = Vec::new();
        match event {
            Event::Inbound { envelope } => match envelope {
                SignalEnvelope::NewUser { .. } => {},
                SignalEnvelope::SignalFromClient { .. } => {},
                SignalEnvelope::JoinedRoom { room } => {
                    self.room = Some(room);
                },
                SignalEnvelope::SignalToClient { content } => match content {
                    SignalingMessage::UserHere { message } => {
                        if !self.channel_established {
                            match &self.room {
                                Some(room) => {
                                    let label = room.room.clone();
                                    self.channel_established = true;
                                    actions.push(
                                        Action::CreateDataChannel { label, channel_id: message },
                                    );
                                },
                                None => {},
                            }
                        }
                    },
                    SignalingMessage::ICECandidate { message } => {
                        if !self.remote_description_set {
                            self.pending_candidates.push(message);
                            proof {
                                assert(self@.pending_candidates =~= s0.pending_candidates.push(
                                    step_inbound(s0, e->Inbound_envelope).0.pending_candidates.last(),
                                ));
                            }
                        } else {
                            actions.push(Action::AddIceCandidate { candidate: message });
                        }
                    },
                    SignalingMessage::SDP { message } => {
                        let SdpMessage { sdp_type, sdp } = message;
                        actions.push(Action::ApplyRemoteDescription { sdp_type, sdp });
                    },
                },
            },
            Event::NegotiationNeeded => {
                if !self.is_negotiating() {
                    self.negotiation = NegotiationState::Negotiating;
                    actions.push(Action::CreateOffer);
                }
            },
            Event::SignalingStateChanged { stable } => {
                self.negotiation = if stable {
                    NegotiationState::Idle
                } else {
                    NegotiationState::Negotiating
                };
            },
            Event::LocalCandidate { candidate, sdp_mid, sdp_m_line_index } => {
                match (sdp_mid, sdp_m_line_index) {
                    (Some(mid), Some(idx)) => {
                        if !candidate.as_str().is_empty() {
                            actions.push(
                                Action::Send {
                                    envelope: SignalEnvelope::SignalFromClient {
                                        content: SignalingMessage::ICECandidate {
                                            message: Candidate {
                                                candidate,
                                                sdp_mid: mid,
                                                sdp_m_line_index: idx,
                                            },
                                        },
                                    },
                                },
                            );
                        }
                    },
                    _ => {},
                }
            },
            Event::OfferCreated { sdp } => {
                actions.push(Action::SetLocalDescription { sdp_type: SdpType::Offer, sdp });
            },
            Event::AnswerCreated { sdp } => {
                actions.push(Action::SetLocalDescription { sdp_type: SdpType::Answer, sdp });
            },
            Event::LocalDescriptionSet { sdp_type, sdp } => {
                actions.push(
                    Action::Send {
                        envelope: SignalEnvelope::SignalFromClient {
                            content: SignalingMessage::SDP {
                                message: SdpMessage { sdp_type, sdp },
                            },
                        },
                    },
                );
            },
            Event::RemoteDescriptionApplied { sdp_type } => {
                let ghost buffered = s0.pending_candidates;
                let mut k: usize = 0;
                while k < self.pending_candidates.len()
                    invariant
                        k <= self.pending_candidates.len(),
                        self@ == s0,
                        buffered == s0.pending_candidates,
                        actions@.len() == k as int,
                        forall|j: int|
                            0 <= j < k ==> (#[trigger] actions@[j]).deep_view() == add_ice_action(
                                buffered[j],
                            ),
                    decreases self.pending_candidates.len() - k,
                {
                    let cand = clone_candidate(&self.pending_candidates[k]);
                    proof {
                        assert(cand@ == buffered[k as int]);
                    }
                    let ghost prev = actions@;
                    actions.push(Action::AddIceCandidate { candidate: cand });
                    proof {
                        assert forall|j: int|
                            0 <= j < k + 1 implies (#[trigger] actions@[j]).deep_view()
                                == add_ice_action(buffered[j]) by {
                            if j == k as int {
                                assert(actions@[j] == (Action::AddIceCandidate {
                                    candidate: cand,
                                }));
                            } else {
                                assert(actions@[j] == prev[j]);
                            }
                        }
                    }
                    k += 1;
                }
                self.remote_description_set = true;
                self.pending_candidates = Vec::new();
                let ghost base = actions@;
                if sdp_type == SdpType::Offer {
                    actions.push(Action::CreateAnswer);
                }
                proof {
                    let target = step(s0, e).1;
                    let mapped = buffered.map_values(|c: CandidateView| add_ice_action(c));
                    assert(self@.pending_candidates =~= Seq::<CandidateView>::empty());
                    assert(self@ =~= step(s0, e).0);
                    assert forall|j: int|
                        0 <= j < actions@.len() implies actions.deep_view()[j] == target[j] by {
                        if j < base.len() {
                            assert(mapped[j] == add_ice_action(buffered[j]));
                            assert(actions@[j] == base[j]);
                            assert(base[j].deep_view() == add_ice_action(buffered[j]));
                            assert(target[j] == mapped[j]);
                        } else {
                            assert(actions@[j] == Action::CreateAnswer);
                            assert(target[j] == ActionView::CreateAnswer);
                        }
                    }
                    assert(actions.deep_view() =~= target);
                }
            },
            Event::OperationFailed => {},
        }
        proof {
            assert(self@.pending_candidates =~= step(s0, e).0.pending_candidates);
            assert(self@ =~= step(s0, e).0);
            assert(actions.deep_view() =~= step(s0, e).1);
        }
        actions
    }

    /// Feed one raw relay frame through decoding and then `step`.  A frame
    /// that does not decode leaves the session exactly as it was and yields
    /// only a decode-error report.
    pub fn handle_frame(&mut self, frame: &str) -> (actions: Vec<Action>)
        ensures
            (match spec_decode(frame@) {
                Some(envelope) => final(self)@ == step(
                    old(self)@,
                    EventView::Inbound { envelope },
                ).0 && actions.deep_view() == step(
                    old(self)@,
                    EventView::Inbound { envelope },
                ).1,
                None => final(self)@ == old(self)@ && actions.deep_view() == seq![
                    ActionView::ReportDecodeError,
                ],
            }),
    {
        match decode_envelope(frame) {
            Ok(envelope) => self.handle_event(Event::Inbound { envelope }),
            Err(DecodeError::Malformed) => {
                let mut actions: Vec<Action> = Vec::new();
                actions.push(Action::ReportDecodeError);
                proof {
                    assert(actions.deep_view() =~= seq![ActionView::ReportDecodeError]);
                }
                actions
            },
        }
    }
}

/// `step`, folded over a sequence of events; actions accumulate in order.
pub open spec fn run(s: SessionView, events: Seq<EventView>) -> (SessionView, Seq<ActionView>)
    decreases events.len(),
{
    if events.len() == 0 {
        (s, Seq::empty())
    } else {
        let first = step(s, events[0]);
        let rest = run(first.0, events.subrange(1, events.len() as int));
        (rest.0, first.1 + rest.1)
    }
}

// ---------------------------------------------------------------------------
// Laws of the coordinator
// ---------------------------------------------------------------------------

pub open spec fn user_here_event(id: u16) -> EventView {
    EventView::Inbound {
        envelope: SignalEnvelopeView::SignalToClient {
            content: SignalingMessageView::UserHere { message: id },
        },
    }
}

/// Candidates that arrive while no remote description is set are not
/// handed to the peer connection: they are appended to the buffer, in
/// arrival order, and nothing else changes.
pub proof fn lemma_candidates_buffered(s: SessionView, cands: Seq<CandidateView>)
    requires
        !s.remote_description_set,
    ensures
        ({
            let r = run(s, cands.map_values(|c: CandidateView| ice_event(c)));
            &&& r.1 == Seq::<ActionView>::empty()
            &&& r.0 == (SessionView {
                pending_candidates: s.pending_candidates + cands,
                ..s
            })
        }),
    decreases cands.len(),
{
    let evs = cands.map_values(|c: CandidateView| ice_event(c));
    if cands.len() == 0 {
        assert(evs.len() == 0);
        assert(s.pending_candidates + cands =~= s.pending_candidates);
        assert(run(s, evs).0 =~= (SessionView {
            pending_candidates: s.pending_candidates + cands,
            ..s
        }));
    } else {
        let c0 = cands[0];
        assert(evs[0] == ice_event(c0));
        let s1 = step(s, evs[0]).0;
        assert(step(s, evs[0]).1 =~= Seq::<ActionView>::empty());
        assert(s1 == (SessionView {
            pending_candidates: s.pending_candidates.push(c0),
            ..s
        }));
        let rest = cands.subrange(1, cands.len() as int);
        assert(evs.subrange(1, evs.len() as int) =~= rest.map_values(
            |c: CandidateView| ice_event(c),
        ));
        lemma_candidates_buffered(s1, rest);
        let r1 = run(s1, rest.map_values(|c: CandidateView| ice_event(c)));
        assert(s.pending_candidates.push(c0) + rest =~= s.pending_candidates + cands);
        assert(run(s, evs).1 =~= Seq::<ActionView>::empty());
        assert(run(s, evs).0 =~= (SessionView {
            pending_candidates: s.pending_candidates + cands,
            ..s
        }));
    }
}

/// Applying a remote description hands the peer connection exactly the
/// buffered candidates, in order, and empties the buffer; if the applied
/// description was an offer, an answer is requested afterwards.
pub proof fn lemma_flush_on_remote_description(s: SessionView, t: SdpType)
    ensures
        ({
            let r = step(s, EventView::RemoteDescriptionApplied { sdp_type: t });
            &&& r.1 == s.pending_candidates.map_values(|c: CandidateView| add_ice_action(c)) + (
            if t == SdpType::Offer {
                seq![ActionView::CreateAnswer]
            } else {
                Seq::<ActionView>::empty()
            })
            &&& r.0 == (SessionView {
                remote_description_set: true,
                pending_candidates: Seq::empty(),
                ..s
            })
        }),
{
    let r = step(s, EventView::RemoteDescriptionApplied { sdp_type: t });
    assert(r.1 =~= s.pending_candidates.map_values(|c: CandidateView| add_ice_action(c)) + (
    if t == SdpType::Offer {
        seq![ActionView::CreateAnswer]
    } else {
        Seq::<ActionView>::empty()
    }));
}

/// Once a remote description is set, an inbound candidate goes straight to
/// the peer connection, exactly once, and is not buffered.
pub proof fn lemma_late_candidate_passes_through(s: SessionView, c: CandidateView)
    requires
        s.remote_description_set,
    ensures
        step(s, ice_event(c)) == (s, seq![add_ice_action(c)]),
{
}

/// The candidate-buffering policy as one statement: for every sequence of
/// inbound candidates arriving before the remote description, the peer
/// connection receives nothing early; the moment the remote description is
/// applied it receives exactly those candidates, in arrival order, exactly
/// once; and the buffer is empty afterwards.
pub proof fn lemma_early_candidates_flushed_in_order(
    s: SessionView,
    cands: Seq<CandidateView>,
    t: SdpType,
)
    requires
        !s.remote_description_set,
        s.pending_candidates == Seq::<CandidateView>::empty(),
    ensures
        ({
            let buffered = run(s, cands.map_values(|c: CandidateView| ice_event(c)));
            let flushed = step(buffered.0, EventView::RemoteDescriptionApplied { sdp_type: t });
            &&& buffered.1 == Seq::<ActionView>::empty()
            &&& flushed.1 == cands.map_values(|c: CandidateView| add_ice_action(c)) + (
            if t == SdpType::Offer {
                seq![ActionView::CreateAnswer]
            } else {
                Seq::<ActionView>::empty()
            })
            &&& flushed.0.pending_candidates == Seq::<CandidateView>::empty()
            &&& flushed.0.remote_description_set
        }),
{
    lemma_candidates_buffered(s, cands);
    let buffered = run(s, cands.map_values(|c: CandidateView| ice_event(c)));
    assert(buffered.0.pending_candidates =~= cands);
    lemma_flush_on_remote_description(buffered.0, t);
    let flushed = step(buffered.0, EventView::RemoteDescriptionApplied { sdp_type: t });
    assert(flushed.1 =~= cands.map_values(|c: CandidateView| add_ice_action(c)) + (
    if t == SdpType::Offer {
        seq![ActionView::CreateAnswer]
    } else {
        Seq::<ActionView>::empty()
    }));
}

/// Events that cannot end a negotiation round: everything except the
/// signaling state becoming stable.
pub open spec fn keeps_negotiating(e: EventView) -> bool {
    !(e matches EventView::SignalingStateChanged { stable: true })
}

proof fn lemma_step_no_offer(s: SessionView, e: EventView)
    requires
        s.negotiation == NegotiationState::Negotiating,
        keeps_negotiating(e),
    ensures
        step(s, e).0.negotiation == NegotiationState::Negotiating,
        forall|j: int|
            0 <= j < step(s, e).1.len() ==> (#[trigger] step(s, e).1[j]) != ActionView::CreateOffer,
{
    let r = step(s, e);
    if let EventView::RemoteDescriptionApplied { sdp_type } = e {
        let mapped = s.pending_candidates.map_values(|c: CandidateView| add_ice_action(c));
        assert forall|j: int| 0 <= j < r.1.len() implies (#[trigger] r.1[j])
            != ActionView::CreateOffer by {
            if j < mapped.len() {
                assert(r.1[j] == mapped[j]);
                assert(mapped[j] == add_ice_action(s.pending_candidates[j]));
            } else {
                assert(r.1[j] == ActionView::CreateAnswer);
            }
        }
    }
}

/// While a negotiation round is in flight, further negotiation-needed
/// triggers produce no offer at all: any event sequence that never reports
/// a stable signaling state leaves the coordinator `Negotiating` and emits
/// zero offer-creation actions.
pub proof fn lemma_no_offer_while_negotiating(s: SessionView, events: Seq<EventView>)
    requires
        s.negotiation == NegotiationState::Negotiating,
        forall|i: int| 0 <= i < events.len() ==> keeps_negotiating(#[trigger] events[i]),
    ensures
        ({
            let r = run(s, events);
            &&& r.0.negotiation == NegotiationState::Negotiating
            &&& forall|j: int|
                0 <= j < r.1.len() ==> (#[trigger] r.1[j]) != ActionView::CreateOffer
        }),
    decreases events.len(),
{
    if events.len() > 0 {
        let first = step(s, events[0]);
        lemma_step_no_offer(s, events[0]);
        let tail = events.subrange(1, events.len() as int);
        lemma_no_offer_while_negotiating(first.0, tail);
        let rest = run(first.0, tail);
        assert forall|j: int| 0 <= j < run(s, events).1.len() implies (#[trigger] run(
            s,
            events,
        ).1[j]) != ActionView::CreateOffer by {
            if j < first.1.len() {
                assert(run(s, events).1[j] == first.1[j]);
            } else {
                assert(run(s, events).1[j] == rest.1[j - first.1.len()]);
            }
        }
    }
}

proof fn lemma_step_no_second_channel(s: SessionView, e: EventView)
    requires
        s.channel_established,
    ensures
        step(s, e).0.channel_established,
        forall|j: int|
            0 <= j < step(s, e).1.len() ==> !((#[trigger] step(s, e).1[j]) matches
                ActionView::CreateDataChannel { .. }),
{
    let r = step(s, e);
    if let EventView::RemoteDescriptionApplied { sdp_type } = e {
        let mapped = s.pending_candidates.map_values(|c: CandidateView| add_ice_action(c));
        assert forall|j: int| 0 <= j < r.1.len() implies !((#[trigger] r.1[j]) matches
            ActionView::CreateDataChannel { .. }) by {
            if j < mapped.len() {
                assert(r.1[j] == mapped[j]);
                assert(mapped[j] == add_ice_action(s.pending_candidates[j]));
            } else {
                assert(r.1[j] == ActionView::CreateAnswer);
            }
        }
    }
}

/// Once the data channel exists, it stays: no later event — `UserHere`
/// included — creates another one.
pub proof fn lemma_channel_created_once(s: SessionView, events: Seq<EventView>)
    requires
        s.channel_established,
    ensures
        ({
            let r = run(s, events);
            &&& r.0.channel_established
            &&& forall|j: int|
                0 <= j < r.1.len() ==> !((#[trigger] r.1[j]) matches
                    ActionView::CreateDataChannel { .. })
        }),
    decreases events.len(),
{
    if events.len() > 0 {
        let first = step(s, events[0]);
        lemma_step_no_second_channel(s, events[0]);
        let tail = events.subrange(1, events.len() as int);
        lemma_channel_created_once(first.0, tail);
        let rest = run(first.0, tail);
        assert forall|j: int| 0 <= j < run(s, events).1.len() implies !((#[trigger] run(
            s,
            events,
        ).1[j]) matches ActionView::CreateDataChannel { .. }) by {
            if j < first.1.len() {
                assert(run(s, events).1[j] == first.1[j]);
            } else {
                assert(run(s, events).1[j] == rest.1[j - first.1.len()]);
            }
        }
    }
}

/// `UserHere` is idempotent: with the room assigned and no channel yet,
/// processing it twice (with any channel ids) creates exactly one data
/// channel — on the first occurrence, labelled with the room and carrying
/// the first id — and none on the second.
pub proof fn lemma_user_here_idempotent(s: SessionView, id1: u16, id2: u16)
    requires
        s.room is Some,
        !s.channel_established,
    ensures
        ({
            let first = step(s, user_here_event(id1));
            let second = step(first.0, user_here_event(id2));
            &&& first.1 == seq![
                ActionView::CreateDataChannel { label: s.room->0, channel_id: id1 },
            ]
            &&& first.0.channel_established
            &&& second.1 == Seq::<ActionView>::empty()
            &&& second.0 == first.0
        }),
{
}

} // verus!
