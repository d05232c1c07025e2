//! The conversation store: an append-only transcript that begins with the
//! system message.

use vstd::prelude::*;
use crate::message::{Message, MessageView, Role, views, system_message};

verus! {

/// The transcript is not empty and opens with a system message.
pub open spec fn opens_with_system(transcript: Seq<MessageView>) -> bool {
    transcript.len() >= 1 && transcript[0].role == Role::System
}

/// The opening message is the only system message of the transcript.
pub open spec fn single_system(transcript: Seq<MessageView>) -> bool {
    &&& opens_with_system(transcript)
    &&& forall|i: int| 1 <= i < transcript.len() ==> (#[trigger] transcript[i]).role != Role::System
}

/// An ordered log of messages. Exclusive access for the length of one call is
/// what `&mut self` asks of the caller; readers get copies.
pub struct ConversationStore {
    messages: Vec<Message>,
}

impl View for ConversationStore {
    type V = Seq<MessageView>;

    closed spec fn view(&self) -> Seq<MessageView> {
        views(self.messages@)
    }
}

impl ConversationStore {
    /// The store's invariant: the transcript opens with a system message.
    /// `new` establishes it and every method keeps it.
    pub open spec fn wf(&self) -> bool {
        opens_with_system(self@)
    }

    /// A store whose transcript holds the system message alone.
    pub fn new(system_prompt: String) -> (store: ConversationStore)
        ensures
            store@ == seq![system_message(system_prompt@)],
            store.wf(),
            single_system(store@),
    {
        let mut messages: Vec<Message> = Vec::new();
        messages.push(Message::new(Role::System, system_prompt));
        let store = ConversationStore { messages };
        assert(store@ =~= seq![system_message(system_prompt@)]);
        store
    }

    /// Puts `message` at the tail of the transcript; nothing before it changes.
    pub fn append(&mut self, message: Message)
        ensures
            final(self)@ == old(self)@.push(message@),
            old(self).wf() ==> final(self).wf(),
            single_system(old(self)@) && message@.role != Role::System ==> single_system(final(self)@),
    {
        self.messages.push(message);
        assert(self@ =~= old(self)@.push(message@));
    }

    /// An independent copy of the whole transcript, in order.
    pub fn snapshot(&self) -> (copy: Vec<Message>)
        ensures
            views(copy@) == self@,
    {
        let mut copy: Vec<Message> = Vec::new();
        let n: usize = self.messages.len();
        let mut i: usize = 0;
        while i < n
            invariant
                n == self.messages.len(),
                i <= n,
                copy.len() == i,
                forall|j: int| 0 <= j < i ==> copy[j]@ == self.messages[j]@,
            decreases n - i,
        {
            copy.push(self.messages[i].clone());
            i += 1;
        }
        assert(views(copy@) =~= self@);
        copy
    }

    /// The number of messages in the transcript.
    pub fn len(&self) -> (n: usize)
        ensures
            n == self@.len(),
    {
        self.messages.len()
    }
}

} // verus!
