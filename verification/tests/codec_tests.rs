use webrtc_chat::codec::{decode_envelope, encode_envelope};
use webrtc_chat::protocol::{
    Candidate, Participant, Room, SdpMessage, SdpType, SignalEnvelope, SignalingMessage,
};

fn new_user(name: &str) -> SignalEnvelope {
    SignalEnvelope::NewUser { participant: Participant { name: name.to_string() } }
}

fn joined_room(room: &str) -> SignalEnvelope {
    SignalEnvelope::JoinedRoom { room: Room { room: room.to_string() } }
}

fn user_here_to_client(id: u16) -> SignalEnvelope {
    SignalEnvelope::SignalToClient { content: SignalingMessage::UserHere { message: id } }
}

fn ice_from_client(candidate: &str, mid: &str, idx: u16) -> SignalEnvelope {
    SignalEnvelope::SignalFromClient {
        content: SignalingMessage::ICECandidate {
            message: Candidate {
                candidate: candidate.to_string(),
                sdp_mid: mid.to_string(),
                sdp_m_line_index: idx,
            },
        },
    }
}

fn sdp_from_client(sdp_type: SdpType, sdp: &str) -> SignalEnvelope {
    SignalEnvelope::SignalFromClient {
        content: SignalingMessage::SDP {
            message: SdpMessage { sdp_type, sdp: sdp.to_string() },
        },
    }
}

#[test]
fn encodes_new_user_exactly() {
    assert_eq!(
        encode_envelope(&new_user("alice")),
        "{\"NewUser\":{\"participant\":{\"name\":\"alice\"}}}"
    );
}

#[test]
fn encodes_joined_room_exactly() {
    assert_eq!(
        encode_envelope(&joined_room("r1")),
        "{\"JoinedRoom\":{\"room\":{\"room\":\"r1\"}}}"
    );
}

#[test]
fn encodes_user_here_exactly() {
    assert_eq!(
        encode_envelope(&user_here_to_client(7)),
        "{\"SignalToClient\":{\"content\":{\"UserHere\":{\"message\":7}}}}"
    );
}

#[test]
fn encodes_ice_candidate_exactly() {
    assert_eq!(
        encode_envelope(&ice_from_client("candidate:1 1 UDP 2 10.0.0.1 50000 typ host", "0", 0)),
        "{\"SignalFromClient\":{\"content\":{\"ICECandidate\":{\"message\":{\"candidate\":\"candidate:1 1 UDP 2 10.0.0.1 50000 typ host\",\"sdp_mid\":\"0\",\"sdp_m_line_index\":0}}}}}"
    );
}

#[test]
fn encodes_sdp_offer_exactly() {
    assert_eq!(
        encode_envelope(&sdp_from_client(SdpType::Offer, "v=0")),
        "{\"SignalFromClient\":{\"content\":{\"SDP\":{\"message\":{\"sdp_type\":\"offer\",\"sdp\":\"v=0\"}}}}}"
    );
}

#[test]
fn encodes_sdp_answer_exactly() {
    assert_eq!(
        encode_envelope(&sdp_from_client(SdpType::Answer, "v=0")),
        "{\"SignalFromClient\":{\"content\":{\"SDP\":{\"message\":{\"sdp_type\":\"answer\",\"sdp\":\"v=0\"}}}}}"
    );
}

#[test]
fn round_trips_every_variant() {
    let envelopes = vec![
        new_user("alice"),
        joined_room("r1"),
        user_here_to_client(7),
        user_here_to_client(65535),
        ice_from_client("candidate:0", "audio", 12),
        sdp_from_client(SdpType::Offer, "v=0\r\no=- 1 1 IN IP4 0.0.0.0\r\n"),
        sdp_from_client(SdpType::Answer, "v=0\r\n"),
        SignalEnvelope::SignalToClient {
            content: SignalingMessage::SDP {
                message: SdpMessage { sdp_type: SdpType::Offer, sdp: "v=0".to_string() },
            },
        },
        SignalEnvelope::SignalToClient {
            content: SignalingMessage::ICECandidate {
                message: Candidate {
                    candidate: "c".to_string(),
                    sdp_mid: "m".to_string(),
                    sdp_m_line_index: 65535,
                },
            },
        },
    ];
    for envelope in envelopes {
        let wire = encode_envelope(&envelope);
        assert_eq!(decode_envelope(&wire), Ok(envelope), "wire was: {}", wire);
    }
}

#[test]
fn round_trips_awkward_strings() {
    let names = vec![
        "",
        "a\"b",
        "back\\slash",
        "line\nbreak\r\ttab",
        "control\u{1}\u{1f}chars",
        "unicode: héllo ✓ 駱駝",
        "{\"NewUser\":{\"participant\":{\"name\":\"x\"}}}",
    ];
    for name in names {
        let envelope = new_user(name);
        let wire = encode_envelope(&envelope);
        assert_eq!(decode_envelope(&wire), Ok(envelope), "wire was: {}", wire);
    }
}

#[test]
fn escapes_control_characters_as_json() {
    let wire = encode_envelope(&new_user("a\u{1}b"));
    assert_eq!(wire, "{\"NewUser\":{\"participant\":{\"name\":\"a\\u0001b\"}}}");
}

#[test]
fn encoded_frames_are_valid_json() {
    let cases = vec![
        new_user("quote \" backslash \\ newline \n control \u{2} end"),
        joined_room("r1"),
        user_here_to_client(65535),
        ice_from_client("candidate:1", "0", 3),
        sdp_from_client(SdpType::Offer, "v=0\r\nm=application 9 UDP/DTLS/SCTP\r\n"),
    ];
    for envelope in cases {
        let wire = encode_envelope(&envelope);
        let parsed: serde_json::Value = serde_json::from_str(&wire).expect("frame must be JSON");
        drop(parsed);
    }
}

#[test]
fn json_field_values_survive_escaping() {
    let name = "quote \" backslash \\ newline \n tab \t cr \r bell \u{7} end";
    let wire = encode_envelope(&new_user(name));
    let parsed: serde_json::Value = serde_json::from_str(&wire).unwrap();
    assert_eq!(parsed["NewUser"]["participant"]["name"].as_str(), Some(name));
}

#[test]
fn json_structure_matches_wire_format() {
    let wire = encode_envelope(&ice_from_client("candidate:9", "video", 2));
    let parsed: serde_json::Value = serde_json::from_str(&wire).unwrap();
    let message = &parsed["SignalFromClient"]["content"]["ICECandidate"]["message"];
    assert_eq!(message["candidate"].as_str(), Some("candidate:9"));
    assert_eq!(message["sdp_mid"].as_str(), Some("video"));
    assert_eq!(message["sdp_m_line_index"].as_u64(), Some(2));
}

#[test]
fn rejects_malformed_frames() {
    let bad = vec![
        "",
        "{}",
        "null",
        "garbage",
        "{\"Unknown\":{\"x\":1}}",
        "{\"NewUser\":{\"participant\":{\"name\":\"unterminated",
        "{\"NewUser\":{\"participant\":{\"name\":\"x\"}}",
        "{\"NewUser\":{\"participant\":{\"name\":\"x\"}}}}",
        "{\"NewUser\": {\"participant\":{\"name\":\"x\"}}}",
        "{\"SignalToClient\":{\"content\":{\"UserHere\":{\"message\":}}}}",
        "{\"SignalToClient\":{\"content\":{\"SDP\":{\"message\":{\"sdp_type\":\"offer\"}}}}}",
    ];
    for frame in bad {
        assert!(decode_envelope(frame).is_err(), "accepted: {}", frame);
    }
}

#[test]
fn rejects_channel_ids_outside_u16() {
    assert!(decode_envelope(
        "{\"SignalToClient\":{\"content\":{\"UserHere\":{\"message\":65536}}}}"
    )
    .is_err());
    assert!(decode_envelope(
        "{\"SignalToClient\":{\"content\":{\"UserHere\":{\"message\":999999999999}}}}"
    )
    .is_err());
    assert_eq!(
        decode_envelope("{\"SignalToClient\":{\"content\":{\"UserHere\":{\"message\":65535}}}}"),
        Ok(user_here_to_client(65535))
    );
}

#[test]
fn rejects_numbers_with_leading_zeros() {
    assert!(decode_envelope(
        "{\"SignalToClient\":{\"content\":{\"UserHere\":{\"message\":07}}}}"
    )
    .is_err());
    assert_eq!(
        decode_envelope("{\"SignalToClient\":{\"content\":{\"UserHere\":{\"message\":0}}}}"),
        Ok(user_here_to_client(0))
    );
}

#[test]
fn rejects_bad_escapes_and_raw_controls() {
    assert!(decode_envelope("{\"NewUser\":{\"participant\":{\"name\":\"a\\x\"}}}").is_err());
    assert!(decode_envelope("{\"NewUser\":{\"participant\":{\"name\":\"a\\u00\"}}}").is_err());
    assert!(decode_envelope("{\"NewUser\":{\"participant\":{\"name\":\"a\nb\"}}}").is_err());
}

#[test]
fn rejects_unknown_sdp_type() {
    assert!(decode_envelope(
        "{\"SignalFromClient\":{\"content\":{\"SDP\":{\"message\":{\"sdp_type\":\"rollback\",\"sdp\":\"v=0\"}}}}}"
    )
    .is_err());
}

#[test]
fn decodes_unicode_escape_in_strings() {
    let decoded = decode_envelope("{\"NewUser\":{\"participant\":{\"name\":\"a\\u0001b\"}}}");
    assert_eq!(decoded, Ok(new_user("a\u{1}b")));
}
