//! The full two-peer exchange, driven frame by frame through two sessions,
//! with a simulated relay between them.

use webrtc_chat::channel::{inbound_chat, should_transmit, ChatMessage, DataChannelState, SenderRole};
use webrtc_chat::codec::{decode_envelope, encode_envelope};
use webrtc_chat::protocol::{
    Participant, Room, SdpMessage, SdpType, SignalEnvelope, SignalingMessage,
};
use webrtc_chat::session::{Action, Event, Session};

/// What the relay does with a client frame: wrap the signaling content back
/// up for the other peer.
fn relay_to_peer(frame: &str) -> String {
    let envelope = decode_envelope(frame).expect("relay got a malformed frame");
    match envelope {
        SignalEnvelope::SignalFromClient { content } => {
            encode_envelope(&SignalEnvelope::SignalToClient { content })
        }
        other => panic!("relay got an unexpected envelope: {:?}", other),
    }
}

#[test]
fn two_peers_negotiate_and_chat() {
    let mut a = Session::new();
    let mut b = Session::new();

    // Peer A connects and announces itself.
    let actions = a.connect(Participant { name: "a".to_string() });
    let Action::Send { envelope } = &actions[0] else { panic!("expected a send") };
    assert_eq!(
        encode_envelope(envelope),
        "{\"NewUser\":{\"participant\":{\"name\":\"a\"}}}"
    );

    // The relay assigns both peers the room "r1".
    let joined = encode_envelope(&SignalEnvelope::JoinedRoom {
        room: Room { room: "r1".to_string() },
    });
    assert_eq!(a.handle_frame(&joined), vec![]);
    assert_eq!(b.handle_frame(&joined), vec![]);
    assert_eq!(a.room(), &Some(Room { room: "r1".to_string() }));

    // A's peer connection asks for negotiation; the offer chain runs.
    assert_eq!(a.handle_event(Event::NegotiationNeeded), vec![Action::CreateOffer]);
    assert_eq!(
        a.handle_event(Event::OfferCreated { sdp: "v=0...".to_string() }),
        vec![Action::SetLocalDescription { sdp_type: SdpType::Offer, sdp: "v=0...".to_string() }]
    );
    let actions = a.handle_event(Event::LocalDescriptionSet {
        sdp_type: SdpType::Offer,
        sdp: "v=0...".to_string(),
    });
    let Action::Send { envelope: offer_envelope } = &actions[0] else { panic!("expected a send") };
    assert_eq!(
        offer_envelope,
        &SignalEnvelope::SignalFromClient {
            content: SignalingMessage::SDP {
                message: SdpMessage { sdp_type: SdpType::Offer, sdp: "v=0...".to_string() }
            }
        }
    );

    // B receives the offer through the relay and applies it.
    let offer_frame = relay_to_peer(&encode_envelope(offer_envelope));
    assert_eq!(
        b.handle_frame(&offer_frame),
        vec![Action::ApplyRemoteDescription {
            sdp_type: SdpType::Offer,
            sdp: "v=0...".to_string()
        }]
    );
    assert_eq!(
        b.handle_event(Event::RemoteDescriptionApplied { sdp_type: SdpType::Offer }),
        vec![Action::CreateAnswer]
    );
    assert_eq!(
        b.handle_event(Event::AnswerCreated { sdp: "v=0...".to_string() }),
        vec![Action::SetLocalDescription {
            sdp_type: SdpType::Answer,
            sdp: "v=0...".to_string()
        }]
    );
    let actions = b.handle_event(Event::LocalDescriptionSet {
        sdp_type: SdpType::Answer,
        sdp: "v=0...".to_string(),
    });
    let Action::Send { envelope: answer_envelope } = &actions[0] else { panic!("expected a send") };

    // A receives the answer; applying it ends the round, no further SDP.
    let answer_frame = relay_to_peer(&encode_envelope(answer_envelope));
    assert_eq!(
        a.handle_frame(&answer_frame),
        vec![Action::ApplyRemoteDescription {
            sdp_type: SdpType::Answer,
            sdp: "v=0...".to_string()
        }]
    );
    assert_eq!(
        a.handle_event(Event::RemoteDescriptionApplied { sdp_type: SdpType::Answer }),
        vec![]
    );

    // Both peers hear that the other side is ready, with channel id 7.
    let user_here = encode_envelope(&SignalEnvelope::SignalToClient {
        content: SignalingMessage::UserHere { message: 7 },
    });
    assert_eq!(
        a.handle_frame(&user_here),
        vec![Action::CreateDataChannel { label: "r1".to_string(), channel_id: 7 }]
    );
    assert_eq!(
        b.handle_frame(&user_here),
        vec![Action::CreateDataChannel { label: "r1".to_string(), channel_id: 7 }]
    );
    // Processing the announcement again creates nothing further.
    assert_eq!(a.handle_frame(&user_here), vec![]);
    assert_eq!(b.handle_frame(&user_here), vec![]);

    // A sends "hello" over the open channel; B's bridge receives it as a
    // remote-peer message.
    assert!(should_transmit(Some(DataChannelState::Open)));
    let delivered = inbound_chat(Some("hello".to_string()));
    assert_eq!(
        delivered,
        Some(ChatMessage { sender: SenderRole::RemotePeer, text: "hello".to_string() })
    );
}

#[test]
fn candidates_crossing_the_sdp_flow_still_buffer_correctly() {
    // A candidate that arrives between the inbound SDP and the completion
    // of set-remote-description must still be buffered, then flushed.
    let mut b = Session::new();
    let offer = encode_envelope(&SignalEnvelope::SignalToClient {
        content: SignalingMessage::SDP {
            message: SdpMessage { sdp_type: SdpType::Offer, sdp: "v=0".to_string() },
        },
    });
    assert_eq!(b.handle_frame(&offer).len(), 1);

    let cand = webrtc_chat::protocol::Candidate {
        candidate: "candidate:5".to_string(),
        sdp_mid: "0".to_string(),
        sdp_m_line_index: 0,
    };
    let cand_frame = encode_envelope(&SignalEnvelope::SignalToClient {
        content: SignalingMessage::ICECandidate { message: cand.clone() },
    });
    assert_eq!(b.handle_frame(&cand_frame), vec![]);
    assert_eq!(b.pending_candidate_count(), 1);

    let actions = b.handle_event(Event::RemoteDescriptionApplied { sdp_type: SdpType::Offer });
    assert_eq!(
        actions,
        vec![Action::AddIceCandidate { candidate: cand }, Action::CreateAnswer]
    );
    assert_eq!(b.pending_candidate_count(), 0);
}

#[test]
fn outbound_chat_is_dropped_without_an_open_channel() {
    assert!(!should_transmit(None));
    assert!(!should_transmit(Some(DataChannelState::Connecting)));
    assert!(!should_transmit(Some(DataChannelState::Closing)));
    assert!(!should_transmit(Some(DataChannelState::Closed)));
    assert!(should_transmit(Some(DataChannelState::Open)));
}

#[test]
fn non_text_channel_payloads_are_dropped() {
    assert_eq!(inbound_chat(None), None);
}
