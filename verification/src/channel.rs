//! Data-channel policy: when an outbound chat payload may be transmitted,
//! and how an inbound payload is tagged before it is handed to the chat
//! bridge.

use vstd::prelude::*;

verus! {

/// Who produced a chat line: this client or the remote peer.
#[derive(Clone, Copy, Debug, PartialEq, Eq, Structural)]
pub enum SenderRole {
    Me,
    RemotePeer,
}

/// Readiness of the browser's data channel, as last reported.
#[derive(Clone, Copy, Debug, PartialEq, Eq, Structural)]
pub enum DataChannelState {
    Connecting,
    Open,
    Closing,
    Closed,
}

/// A chat line tagged with its sender, ready for the chat bridge.
#[derive(Clone, Debug, PartialEq, Eq)]
pub struct ChatMessage {
    pub sender: SenderRole,
    pub text: String,
}

pub ghost struct ChatMessageView {
    pub sender: SenderRole,
    pub text: Seq<char>,
}

impl View for ChatMessage {
    type V = ChatMessageView;

    open spec fn view(&self) -> ChatMessageView {
        ChatMessageView { sender: self.sender, text: self.text@ }
    }
}

impl DeepView for ChatMessage {
    type V = ChatMessageView;

    open spec fn deep_view(&self) -> ChatMessageView {
        self.view()
    }
}

/// An outbound chat payload is transmitted only over a channel that exists
/// and is open; otherwise it is dropped without failing the caller.
pub fn should_transmit(channel: Option<DataChannelState>) -> (transmit: bool)
    ensures
        transmit == (channel == Some(DataChannelState::Open)),
{
    match channel {
        Some(DataChannelState::Open) => true,
        _ => false,
    }
}

/// An inbound data-channel payload is delivered to the chat bridge tagged as
/// coming from the remote peer; a payload that carried no text is dropped.
pub fn inbound_chat(data: Option<String>) -> (delivered: Option<ChatMessage>)
    ensures
        match data {
            Some(text) => (delivered matches Some(m) && m@ == (ChatMessageView {
                sender: SenderRole::RemotePeer,
                text: text@,
            })),
            None => delivered is None,
        },
{
    match data {
        Some(text) => Some(ChatMessage { sender: SenderRole::RemotePeer, text }),
        None => None,
    }
}

} // verus!
