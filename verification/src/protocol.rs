//! Data model of the signaling protocol: participants, rooms, ICE
//! candidates, session descriptions, and the tagged envelope that travels
//! over the relay.
//!
//! Each executable type has a mathematical view (`Seq<char>` for text,
//! plain values otherwise); every contract in the crate speaks over these
//! views.

use vstd::prelude::*;

verus! {

/// Identifying information a client presents when joining a room.
#[derive(Clone, Debug, PartialEq, Eq)]
pub struct Participant {
    pub name: String,
}

impl View for Participant {
    type V = Seq<char>;

    open spec fn view(&self) -> Seq<char> {
        self.name@
    }
}

impl DeepView for Participant {
    type V = Seq<char>;

    open spec fn deep_view(&self) -> Seq<char> {
        self.name@
    }
}

/// The rendezvous namespace both peers joined; assigned by the relay.
#[derive(Clone, Debug, PartialEq, Eq)]
pub struct Room {
    pub room: String,
}

impl View for Room {
    type V = Seq<char>;

    open spec fn view(&self) -> Seq<char> {
        self.room@
    }
}

impl DeepView for Room {
    type V = Seq<char>;

    open spec fn deep_view(&self) -> Seq<char> {
        self.room@
    }
}

/// A discovered network path, exchanged through the relay.
#[derive(Clone, Debug, PartialEq, Eq)]
pub struct Candidate {
    pub candidate: String,
    pub sdp_mid: String,
    pub sdp_m_line_index: u16,
}

pub ghost struct CandidateView {
    pub candidate: Seq<char>,
    pub sdp_mid: Seq<char>,
    pub sdp_m_line_index: u16,
}

impl View for Candidate {
    type V = CandidateView;

    open spec fn view(&self) -> CandidateView {
        CandidateView {
            candidate: self.candidate@,
            sdp_mid: self.sdp_mid@,
            sdp_m_line_index: self.sdp_m_line_index,
        }
    }
}

impl DeepView for Candidate {
    type V = CandidateView;

    open spec fn deep_view(&self) -> CandidateView {
        self.view()
    }
}

/// Whether a session description proposes a session or accepts one.
#[derive(Clone, Copy, Debug, PartialEq, Eq, Structural)]
pub enum SdpType {
    Offer,
    Answer,
}

/// A session description together with its role in the exchange.
#[derive(Clone, Debug, PartialEq, Eq)]
pub struct SdpMessage {
    pub sdp_type: SdpType,
    pub sdp: String,
}

pub ghost struct SdpMessageView {
    pub sdp_type: SdpType,
    pub sdp: Seq<char>,
}

impl View for SdpMessage {
    type V = SdpMessageView;

    open spec fn view(&self) -> SdpMessageView {
        SdpMessageView { sdp_type: self.sdp_type, sdp: self.sdp@ }
    }
}

impl DeepView for SdpMessage {
    type V = SdpMessageView;

    open spec fn deep_view(&self) -> SdpMessageView {
        self.view()
    }
}

/// Connection metadata relayed between the two peers.
#[derive(Clone, Debug, PartialEq, Eq)]
pub enum SignalingMessage {
    /// The remote peer is ready; carries the negotiated data-channel id.
    UserHere { message: u16 },
    /// A network path discovered by one peer.
    ICECandidate { message: Candidate },
    /// An offered or answering session description.
    SDP { message: SdpMessage },
}

pub ghost enum SignalingMessageView {
    UserHere { message: u16 },
    ICECandidate { message: CandidateView },
    SDP { message: SdpMessageView },
}

impl View for SignalingMessage {
    type V = SignalingMessageView;

    open spec fn view(&self) -> SignalingMessageView {
        match self {
            SignalingMessage::UserHere { message } => SignalingMessageView::UserHere {
                message: *message,
            },
            SignalingMessage::ICECandidate { message } => SignalingMessageView::ICECandidate {
                message: message@,
            },
            SignalingMessage::SDP { message } => SignalingMessageView::SDP { message: message@ },
        }
    }
}

impl DeepView for SignalingMessage {
    type V = SignalingMessageView;

    open spec fn deep_view(&self) -> SignalingMessageView {
        self.view()
    }
}

/// One relay frame: a self-describing tagged union.  The tag determines the
/// payload shape; an unknown tag is a decode error, never a crash.
#[derive(Clone, Debug, PartialEq, Eq)]
pub enum SignalEnvelope {
    /// Sent once at connect time to join a room.
    NewUser { participant: Participant },
    /// Assigns the room; inbound only.
    JoinedRoom { room: Room },
    /// Signaling content on its way from this client to the peer.
    SignalFromClient { content: SignalingMessage },
    /// Signaling content relayed to this client.
    SignalToClient { content: SignalingMessage },
}

pub ghost enum SignalEnvelopeView {
    NewUser { participant: Seq<char> },
    JoinedRoom { room: Seq<char> },
    SignalFromClient { content: SignalingMessageView },
    SignalToClient { content: SignalingMessageView },
}

impl View for SignalEnvelope {
    type V = SignalEnvelopeView;

    open spec fn view(&self) -> SignalEnvelopeView {
        match self {
            SignalEnvelope::NewUser { participant } => SignalEnvelopeView::NewUser {
                participant: participant@,
            },
            SignalEnvelope::JoinedRoom { room } => SignalEnvelopeView::JoinedRoom { room: room@ },
            SignalEnvelope::SignalFromClient { content } => SignalEnvelopeView::SignalFromClient {
                content: content@,
            },
            SignalEnvelope::SignalToClient { content } => SignalEnvelopeView::SignalToClient {
                content: content@,
            },
        }
    }
}

impl DeepView for SignalEnvelope {
    type V = SignalEnvelopeView;

    open spec fn deep_view(&self) -> SignalEnvelopeView {
        self.view()
    }
}

} // verus!
