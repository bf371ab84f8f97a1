//! The data carried over the wire: a chat request (model name plus an ordered
//! list of role-tagged messages) and a chat response (an ordered list of
//! choices, each wrapping one message).

use vstd::prelude::*;

verus! {

/// Mathematical image of a [`Message`]: its role and content as character
/// sequences.
pub ghost struct MessageView {
    pub role: Seq<char>,
    pub content: Seq<char>,
}

/// One role-tagged text turn in a chat exchange.
#[derive(Debug)]
pub struct Message {
    pub role: String,
    pub content: String,
}

impl View for Message {
    type V = MessageView;

    open spec fn view(&self) -> MessageView {
        MessageView { role: self.role@, content: self.content@ }
    }
}

/// One candidate reply returned by the API.
#[derive(Debug)]
pub struct Choice {
    pub message: Message,
}

impl View for Choice {
    type V = MessageView;

    open spec fn view(&self) -> MessageView {
        self.message@
    }
}

/// The request body: the model to query and the messages to send.
#[derive(Debug)]
pub struct ChatRequest {
    pub model: String,
    pub messages: Vec<Message>,
}

impl View for ChatRequest {
    type V = (Seq<char>, Seq<MessageView>);

    open spec fn view(&self) -> (Seq<char>, Seq<MessageView>) {
        (self.model@, self.messages@.map_values(|m: Message| m@))
    }
}

/// The response body: the returned choices, in order.
#[derive(Debug)]
pub struct ChatResponse {
    pub choices: Vec<Choice>,
}

impl View for ChatResponse {
    type V = Seq<MessageView>;

    open spec fn view(&self) -> Seq<MessageView> {
        self.choices@.map_values(|c: Choice| c@)
    }
}

} // verus!
