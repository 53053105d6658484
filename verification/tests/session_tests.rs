use webrtc_chat::codec::encode_envelope;
use webrtc_chat::protocol::{
    Candidate, Participant, Room, SdpMessage, SdpType, SignalEnvelope, SignalingMessage,
};
use webrtc_chat::session::{Action, Event, Session};

fn candidate(n: u16) -> Candidate {
    Candidate {
        candidate: format!("candidate:{}", n),
        sdp_mid: "0".to_string(),
        sdp_m_line_index: n,
    }
}

fn inbound_candidate(n: u16) -> Event {
    Event::Inbound {
        envelope: SignalEnvelope::SignalToClient {
            content: SignalingMessage::ICECandidate { message: candidate(n) },
        },
    }
}

fn inbound_user_here(id: u16) -> Event {
    Event::Inbound {
        envelope: SignalEnvelope::SignalToClient {
            content: SignalingMessage::UserHere { message: id },
        },
    }
}

fn inbound_joined_room(room: &str) -> Event {
    Event::Inbound {
        envelope: SignalEnvelope::JoinedRoom { room: Room { room: room.to_string() } },
    }
}

#[test]
fn new_session_is_idle_and_empty() {
    let s = Session::new();
    assert!(!s.is_negotiating());
    assert!(!s.channel_established());
    assert!(!s.remote_description_set());
    assert_eq!(s.pending_candidate_count(), 0);
    assert_eq!(s.room(), &None);
}

#[test]
fn connect_announces_the_participant() {
    let s = Session::new();
    let actions = s.connect(Participant { name: "alice".to_string() });
    assert_eq!(
        actions,
        vec![Action::Send {
            envelope: SignalEnvelope::NewUser {
                participant: Participant { name: "alice".to_string() }
            }
        }]
    );
}

#[test]
fn early_candidates_buffer_then_flush_in_order() {
    let mut s = Session::new();
    for n in 0..3u16 {
        let actions = s.handle_event(inbound_candidate(n));
        assert_eq!(actions, vec![], "candidate {} must be buffered silently", n);
    }
    assert_eq!(s.pending_candidate_count(), 3);
    assert!(!s.remote_description_set());

    let actions = s.handle_event(Event::RemoteDescriptionApplied { sdp_type: SdpType::Answer });
    assert_eq!(
        actions,
        vec![
            Action::AddIceCandidate { candidate: candidate(0) },
            Action::AddIceCandidate { candidate: candidate(1) },
            Action::AddIceCandidate { candidate: candidate(2) },
        ]
    );
    assert_eq!(s.pending_candidate_count(), 0);
    assert!(s.remote_description_set());

    let actions = s.handle_event(inbound_candidate(9));
    assert_eq!(actions, vec![Action::AddIceCandidate { candidate: candidate(9) }]);
    assert_eq!(s.pending_candidate_count(), 0);
}

#[test]
fn remote_offer_flushes_then_answers() {
    let mut s = Session::new();
    s.handle_event(inbound_candidate(1));
    let actions = s.handle_event(Event::RemoteDescriptionApplied { sdp_type: SdpType::Offer });
    assert_eq!(
        actions,
        vec![
            Action::AddIceCandidate { candidate: candidate(1) },
            Action::CreateAnswer,
        ]
    );
}

#[test]
fn negotiation_trigger_is_gated_while_negotiating() {
    let mut s = Session::new();
    let actions = s.handle_event(Event::NegotiationNeeded);
    assert_eq!(actions, vec![Action::CreateOffer]);
    assert!(s.is_negotiating());

    assert_eq!(s.handle_event(Event::NegotiationNeeded), vec![]);
    assert_eq!(s.handle_event(Event::SignalingStateChanged { stable: false }), vec![]);
    assert_eq!(s.handle_event(Event::NegotiationNeeded), vec![]);
    assert!(s.is_negotiating());

    assert_eq!(s.handle_event(Event::SignalingStateChanged { stable: true }), vec![]);
    assert!(!s.is_negotiating());
    assert_eq!(s.handle_event(Event::NegotiationNeeded), vec![Action::CreateOffer]);
}

#[test]
fn user_here_creates_the_channel_once() {
    let mut s = Session::new();
    assert_eq!(s.handle_event(inbound_joined_room("r1")), vec![]);
    let actions = s.handle_event(inbound_user_here(7));
    assert_eq!(
        actions,
        vec![Action::CreateDataChannel { label: "r1".to_string(), channel_id: 7 }]
    );
    assert!(s.channel_established());

    assert_eq!(s.handle_event(inbound_user_here(7)), vec![]);
    assert_eq!(s.handle_event(inbound_user_here(8)), vec![]);
    assert!(s.channel_established());
}

#[test]
fn user_here_without_a_room_is_ignored() {
    let mut s = Session::new();
    assert_eq!(s.handle_event(inbound_user_here(7)), vec![]);
    assert!(!s.channel_established());
}

#[test]
fn malformed_frame_reports_and_changes_nothing() {
    let mut s = Session::new();
    s.handle_event(Event::NegotiationNeeded);
    s.handle_event(inbound_joined_room("r1"));
    s.handle_event(inbound_candidate(1));
    s.handle_event(inbound_candidate(2));

    for frame in ["", "garbage", "{\"NewUser\":{", "{\"Unknown\":{}}"] {
        let actions = s.handle_frame(frame);
        assert_eq!(actions, vec![Action::ReportDecodeError], "frame: {:?}", frame);
        assert!(s.is_negotiating());
        assert_eq!(s.pending_candidate_count(), 2);
        assert_eq!(s.room(), &Some(Room { room: "r1".to_string() }));
        assert!(!s.channel_established());
    }
}

#[test]
fn well_formed_frames_still_decode_after_errors() {
    let mut s = Session::new();
    assert_eq!(s.handle_frame("nonsense"), vec![Action::ReportDecodeError]);
    let frame = encode_envelope(&SignalEnvelope::JoinedRoom {
        room: Room { room: "r2".to_string() },
    });
    assert_eq!(s.handle_frame(&frame), vec![]);
    assert_eq!(s.room(), &Some(Room { room: "r2".to_string() }));
}

#[test]
fn inbound_sdp_is_applied_as_remote_description() {
    let mut s = Session::new();
    let frame = encode_envelope(&SignalEnvelope::SignalToClient {
        content: SignalingMessage::SDP {
            message: SdpMessage { sdp_type: SdpType::Offer, sdp: "v=0".to_string() },
        },
    });
    let actions = s.handle_frame(&frame);
    assert_eq!(
        actions,
        vec![Action::ApplyRemoteDescription { sdp_type: SdpType::Offer, sdp: "v=0".to_string() }]
    );
    assert!(!s.remote_description_set(), "only the completion event sets the flag");
}

#[test]
fn offer_chain_sets_local_description_then_sends() {
    let mut s = Session::new();
    assert_eq!(s.handle_event(Event::NegotiationNeeded), vec![Action::CreateOffer]);
    assert_eq!(
        s.handle_event(Event::OfferCreated { sdp: "v=0".to_string() }),
        vec![Action::SetLocalDescription { sdp_type: SdpType::Offer, sdp: "v=0".to_string() }]
    );
    assert_eq!(
        s.handle_event(Event::LocalDescriptionSet {
            sdp_type: SdpType::Offer,
            sdp: "v=0".to_string()
        }),
        vec![Action::Send {
            envelope: SignalEnvelope::SignalFromClient {
                content: SignalingMessage::SDP {
                    message: SdpMessage { sdp_type: SdpType::Offer, sdp: "v=0".to_string() }
                }
            }
        }]
    );
}

#[test]
fn local_candidates_are_sent_only_when_complete() {
    let mut s = Session::new();
    let actions = s.handle_event(Event::LocalCandidate {
        candidate: "candidate:1".to_string(),
        sdp_mid: Some("0".to_string()),
        sdp_m_line_index: Some(0),
    });
    assert_eq!(
        actions,
        vec![Action::Send {
            envelope: SignalEnvelope::SignalFromClient {
                content: SignalingMessage::ICECandidate {
                    message: Candidate {
                        candidate: "candidate:1".to_string(),
                        sdp_mid: "0".to_string(),
                        sdp_m_line_index: 0,
                    }
                }
            }
        }]
    );

    // The end-of-candidates marker is not transmitted.
    assert_eq!(
        s.handle_event(Event::LocalCandidate {
            candidate: "".to_string(),
            sdp_mid: Some("0".to_string()),
            sdp_m_line_index: Some(0),
        }),
        vec![]
    );
    // A candidate the browser left incomplete is dropped, not unwrapped.
    assert_eq!(
        s.handle_event(Event::LocalCandidate {
            candidate: "candidate:2".to_string(),
            sdp_mid: None,
            sdp_m_line_index: Some(0),
        }),
        vec![]
    );
    assert_eq!(
        s.handle_event(Event::LocalCandidate {
            candidate: "candidate:3".to_string(),
            sdp_mid: Some("0".to_string()),
            sdp_m_line_index: None,
        }),
        vec![]
    );
}

#[test]
fn failed_operations_leave_the_session_as_is() {
    let mut s = Session::new();
    s.handle_event(Event::NegotiationNeeded);
    s.handle_event(inbound_candidate(4));
    assert_eq!(s.handle_event(Event::OperationFailed), vec![]);
    assert!(s.is_negotiating());
    assert_eq!(s.pending_candidate_count(), 1);
}

#[test]
fn inbound_new_user_and_from_client_are_ignored() {
    let mut s = Session::new();
    let echo = encode_envelope(&SignalEnvelope::NewUser {
        participant: Participant { name: "bob".to_string() },
    });
    assert_eq!(s.handle_frame(&echo), vec![]);
    let from_client = encode_envelope(&SignalEnvelope::SignalFromClient {
        content: SignalingMessage::UserHere { message: 3 },
    });
    assert_eq!(s.handle_frame(&from_client), vec![]);
    assert!(!s.channel_established());
    assert_eq!(s.pending_candidate_count(), 0);
}
