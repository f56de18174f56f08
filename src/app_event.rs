use vstd::prelude::*;

verus! {

/// What one envelope holds, as mathematical values.
pub struct MessageView {
    pub id: Seq<char>,
    pub author: Seq<char>,
    pub content: Seq<char>,
}

/// The model of an envelope: a chat message or a heartbeat.
pub enum EventView {
    Message(MessageView),
    Heartbeat,
}

/// One chat message as every recipient receives it.
#[derive(Clone, Debug)]
pub struct ChatMessage {
    pub id: String,
    pub author: String,
    pub content: String,
}

/// An envelope in a mailbox and on the wire.
#[derive(Clone, Debug)]
pub enum ChatEvent {
    Message(ChatMessage),
    Heartbeat,
}

impl View for ChatMessage {
    type V = MessageView;

    open spec fn view(&self) -> MessageView {
        MessageView { id: self.id@, author: self.author@, content: self.content@ }
    }
}

impl View for ChatEvent {
    type V = EventView;

    open spec fn view(&self) -> EventView {
        match self {
            ChatEvent::Message(m) => EventView::Message(m@),
            ChatEvent::Heartbeat => EventView::Heartbeat,
        }
    }
}

impl ChatMessage {
    /// A fresh message with its own copies of the three strings.
    pub fn new(id: &String, author: &String, content: &String) -> (r: ChatMessage)
        ensures
            r@ == (MessageView { id: id@, author: author@, content: content@ }),
    {
        ChatMessage { id: id.clone(), author: author.clone(), content: content.clone() }
    }
}

impl ChatEvent {
    /// Whether this envelope is a heartbeat.
    pub fn is_heartbeat(&self) -> (r: bool)
        ensures
            r == (self@ == EventView::Heartbeat),
    {
        match self {
            ChatEvent::Message(_) => false,
            ChatEvent::Heartbeat => true,
        }
    }
}

} // verus!
