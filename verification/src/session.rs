//! One request against the conversation: the user's turn is recorded, the
//! backend answers over the whole transcript, and the reply is recorded only
//! if the stream completed.

use vstd::prelude::*;
use ollama_rs::generation::chat::request::ChatMessageRequest;
use crate::aggregator::{sink_views, Outcome, SinkWrite, StreamEvent, TransportError};
use crate::backend::{backend_request, carries_all, request_messages, request_model};
use crate::message::{
    assistant_message, system_message, user_message, views, Message, MessageView, Role,
};
use crate::store::{opens_with_system, ConversationStore};
use crate::stream::{aggregated, outcome_of, run_chat_req, writes_of};

verus! {

/// Why a request gave no reply.
#[derive(Debug, PartialEq, Eq)]
pub enum SessionError {
    /// The backend stream failed to start or broke.
    Transport(TransportError),
    /// The backend stream ended without a final fragment.
    IncompleteResponse,
    /// The shared transcript can no longer be trusted.
    FatalStore,
}

/// The transcript once the user's turn is recorded.
pub open spec fn recorded(before: Seq<MessageView>, input: Seq<char>) -> Seq<MessageView> {
    before.push(user_message(input))
}

/// The transcript once the backend's answer is in: a completed reply is
/// recorded, nothing else is.
pub open spec fn committed(before: Seq<MessageView>, outcome: Outcome) -> Seq<MessageView> {
    match outcome {
        Outcome::Completed(reply) => before.push(assistant_message(reply)),
        Outcome::Incomplete => before,
        Outcome::Failed(_) => before,
    }
}

/// The transcript after a whole request.
pub open spec fn transcript_after(before: Seq<MessageView>, input: Seq<char>, outcome: Outcome) -> Seq<
    MessageView,
> {
    committed(recorded(before, input), outcome)
}

/// What the caller gets for each outcome of the aggregation.
pub open spec fn answers(result: Result<String, SessionError>, outcome: Outcome) -> bool {
    match outcome {
        Outcome::Completed(reply) => (result matches Ok(text) && text@ == reply),
        Outcome::Incomplete => result matches Err(SessionError::IncompleteResponse),
        Outcome::Failed(cause) => (result matches Err(SessionError::Transport(error)) && error.cause@
            == cause),
    }
}

/// The human-readable cause of an error.
pub open spec fn cause_of(error: SessionError) -> Seq<char> {
    match error {
        SessionError::Transport(transport) => transport.cause@,
        SessionError::IncompleteResponse => "backend response ended without a final marker"@,
        SessionError::FatalStore => "conversation store is corrupted"@,
    }
}

/// The text sent back to the chat for a request's result.
pub open spec fn reply_text(result: Result<String, SessionError>) -> Seq<char> {
    match result {
        Ok(reply) => reply@,
        Err(error) => "Error: "@ + cause_of(error),
    }
}

impl SessionError {
    /// The human-readable cause.
    pub fn message(&self) -> (text: String)
        ensures
            text@ == cause_of(*self),
    {
        match self {
            SessionError::Transport(transport) => transport.cause.clone(),
            SessionError::IncompleteResponse => String::from_str(
                "backend response ended without a final marker",
            ),
            SessionError::FatalStore => String::from_str("conversation store is corrupted"),
        }
    }
}

/// The chat reply for a request's result: the reply itself, or the cause of
/// the error behind an explicit marker.
pub fn answer(result: &Result<String, SessionError>) -> (text: String)
    ensures
        text@ == reply_text(*result),
{
    match result {
        Ok(reply) => reply.clone(),
        Err(error) => {
            let cause = error.message();
            String::from_str("Error: ").concat(cause.as_str())
        },
    }
}

/// The request protocol over one conversation store, for one backend model.
pub struct SessionService {
    store: ConversationStore,
    model: String,
}

impl View for SessionService {
    type V = Seq<MessageView>;

    closed spec fn view(&self) -> Seq<MessageView> {
        self.store@
    }
}

impl SessionService {
    /// The service's invariant: the transcript opens with a system message.
    /// `new` establishes it and every method keeps it.
    pub open spec fn wf(&self) -> bool {
        opens_with_system(self@)
    }

    /// The identifier of the model that every request names.
    pub closed spec fn model(&self) -> Seq<char> {
        self.model@
    }

    /// A service for `model` whose transcript holds the system message alone.
    pub fn new(model: String, system_prompt: String) -> (service: SessionService)
        ensures
            service@ == seq![system_message(system_prompt@)],
            service.model() == model@,
            service.wf(),
    {
        SessionService { store: ConversationStore::new(system_prompt), model }
    }

    /// A service for `model` over an existing store.
    pub fn with_store(model: String, store: ConversationStore) -> (service: SessionService)
        ensures
            service@ == store@,
            service.model() == model@,
            service.wf() == store.wf(),
    {
        SessionService { store, model }
    }

    /// An independent copy of the transcript.
    pub fn snapshot(&self) -> (copy: Vec<Message>)
        ensures
            views(copy@) == self@,
    {
        self.store.snapshot()
    }

    /// Records the user's turn and builds the backend request: for the
    /// service's model, with the whole transcript as its messages, in order,
    /// the new turn last.
    pub fn begin(&mut self, input: String) -> (request: ChatMessageRequest)
        ensures
            final(self)@ == recorded(old(self)@, input@),
            final(self).model() == old(self).model(),
            request_model(request) == final(self).model(),
            carries_all(request_messages(request), final(self)@),
            old(self).wf() ==> final(self).wf(),
    {
        self.store.append(Message::new(Role::User, input));
        let transcript = self.store.snapshot();
        backend_request(self.model.as_str(), &transcript)
    }

    /// Settles a request with what the aggregation gave: a reply is recorded
    /// as the assistant's turn and returned, anything else leaves the
    /// transcript as it is and becomes the matching error.
    pub fn complete(&mut self, result: Result<Option<String>, TransportError>) -> (answer: Result<
        String,
        SessionError,
    >)
        ensures
            final(self)@ == committed(old(self)@, aggregated(result)),
            final(self).model() == old(self).model(),
            answers(answer, aggregated(result)),
            old(self).wf() ==> final(self).wf(),
    {
        match result {
            Ok(Some(reply)) => {
                self.store.append(Message::new(Role::Assistant, reply.clone()));
                Ok(reply)
            },
            Ok(None) => Err(SessionError::IncompleteResponse),
            Err(error) => Err(SessionError::Transport(error)),
        }
    }

    /// One whole request: records `input`, hands `backend` the request over
    /// the transcript with that turn in it, shows the stream that comes back
    /// on `sink` while joining it, and records and returns the reply if the
    /// stream completed.
    pub fn handle<B: FnOnce(ChatMessageRequest) -> Vec<StreamEvent>>(
        &mut self,
        input: String,
        backend: B,
        sink: &mut Vec<SinkWrite>,
    ) -> (answer: Result<String, SessionError>)
        requires
            forall|request: ChatMessageRequest| backend.requires((request,)),
        ensures
            exists|request: ChatMessageRequest, events: Vec<StreamEvent>|
                {
                    &&& request_model(request) == old(self).model()
                    &&& carries_all(request_messages(request), recorded(old(self)@, input@))
                    &&& #[trigger] backend.ensures((request,), events)
                    &&& final(self)@ == transcript_after(old(self)@, input@, outcome_of(events@))
                    &&& answers(answer, outcome_of(events@))
                    &&& sink_views(final(sink)@) == sink_views(old(sink)@) + writes_of(events@)
                },
            answer matches Ok(reply) ==> final(self)@ == recorded(old(self)@, input@).push(
                assistant_message(reply@),
            ),
            answer is Err ==> final(self)@ == recorded(old(self)@, input@),
            final(self).model() == old(self).model(),
            old(self).wf() ==> final(self).wf(),
    {
        let request = self.begin(input);
        let ghost asked = request;
        let events = backend(request);
        let result = run_chat_req(&events, sink);
        let answer = self.complete(result);
        proof {
            assert(backend.ensures((asked,), events));
        }
        answer
    }
}

} // verus!
