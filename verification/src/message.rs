//! Role-tagged messages, the elements of a conversation transcript.

use vstd::prelude::*;

verus! {

/// Who authored a message.
#[derive(Clone, Copy, Debug, PartialEq, Eq, Structural)]
pub enum Role {
    System,
    User,
    Assistant,
}

/// Mathematical model of a [`Message`].
pub ghost struct MessageView {
    pub role: Role,
    pub content: Seq<char>,
}

/// One message of a transcript. Its fields cannot be changed once it exists.
#[derive(Debug)]
pub struct Message {
    role: Role,
    content: String,
}

impl View for Message {
    type V = MessageView;

    closed spec fn view(&self) -> MessageView {
        MessageView { role: self.role, content: self.content@ }
    }
}

/// The models of a sequence of messages, element by element.
pub open spec fn views(messages: Seq<Message>) -> Seq<MessageView> {
    Seq::new(messages.len(), |i: int| messages[i]@)
}

/// The model of a system message with the given text.
pub open spec fn system_message(text: Seq<char>) -> MessageView {
    MessageView { role: Role::System, content: text }
}

/// The model of a user message with the given text.
pub open spec fn user_message(text: Seq<char>) -> MessageView {
    MessageView { role: Role::User, content: text }
}

/// The model of an assistant message with the given text.
pub open spec fn assistant_message(text: Seq<char>) -> MessageView {
    MessageView { role: Role::Assistant, content: text }
}

impl Message {
    /// A message with the given role and text.
    pub fn new(role: Role, content: String) -> (message: Message)
        ensures
            message@ == (MessageView { role: role, content: content@ }),
    {
        Message { role, content }
    }

    /// The author of the message.
    pub fn role(&self) -> (role: Role)
        ensures
            role == self@.role,
    {
        self.role
    }

    /// The text of the message.
    pub fn content(&self) -> (content: &str)
        ensures
            content@ == self@.content,
    {
        self.content.as_str()
    }
}

impl Clone for Message {
    fn clone(&self) -> (copy: Message)
        ensures
            copy@ == self@,
    {
        Message { role: self.role, content: self.content.clone() }
    }
}

} // verus!
