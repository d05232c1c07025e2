//! The chat backend's side of a request: the request that carries a
//! transcript to it, and the elements of the stream that it answers with.

use vstd::prelude::*;
use ollama_rs::generation::chat::request::ChatMessageRequest;
use ollama_rs::generation::chat::{
    ChatMessage, ChatMessageFinalResponseData, ChatMessageResponse, MessageRole,
};
use ollama_rs::generation::images::Image;
use crate::aggregator::{StreamEvent, StreamFragment, TransportError};
use crate::message::{views, Message, MessageView, Role};

verus! {

/// The backend's message roles, variant by variant.
#[verifier::external_type_specification]
pub struct ExMessageRole(MessageRole);

/// An image attached to a backend message; nothing here looks inside one.
#[verifier::external_type_specification]
#[verifier::external_body]
pub struct ExImage(Image);

/// A backend message, field by field.
#[verifier::external_type_specification]
pub struct ExChatMessage(ChatMessage);

/// A backend chat request; what it holds is spoken of through
/// `request_model` and `request_messages`.
#[verifier::external_type_specification]
#[verifier::external_body]
pub struct ExChatMessageRequest(ChatMessageRequest);

/// The figures that close a backend stream; nothing here looks inside them.
#[verifier::external_type_specification]
#[verifier::external_body]
pub struct ExChatMessageFinalResponseData(ChatMessageFinalResponseData);

/// One element of a backend stream, field by field.
#[verifier::external_type_specification]
pub struct ExChatMessageResponse(ChatMessageResponse);

/// The model identifier that a request names: its `model_name`.
pub uninterp spec fn request_model(request: ChatMessageRequest) -> Seq<char>;

/// The messages that a request holds, in order: its `messages`.
pub uninterp spec fn request_messages(request: ChatMessageRequest) -> Seq<ChatMessage>;

/// `ChatMessage::new` stores the role and the text as given and attaches no
/// image.
pub assume_specification[ ChatMessage::new ](role: MessageRole, content: String) -> (message:
    ChatMessage)
    ensures
        message.role == role,
        message.content == content,
        message.images is None,
;

/// `ChatMessageRequest::new` stores the model identifier and the messages as
/// given, in the order given.
pub assume_specification[ ChatMessageRequest::new ](
    model_name: String,
    messages: Vec<ChatMessage>,
) -> (request: ChatMessageRequest)
    ensures
        request_model(request) == model_name@,
        request_messages(request) == messages@,
;

/// The backend's role for each role of a transcript.
pub open spec fn backend_role_of(role: Role) -> MessageRole {
    match role {
        Role::System => MessageRole::System,
        Role::User => MessageRole::User,
        Role::Assistant => MessageRole::Assistant,
    }
}

/// The backend message says what the transcript message says: the same role,
/// the same text, no image.
pub open spec fn carries(sent: ChatMessage, message: MessageView) -> bool {
    &&& sent.role == backend_role_of(message.role)
    &&& sent.content@ == message.content
    &&& sent.images is None
}

/// The backend messages say what the transcript says, message by message.
pub open spec fn carries_all(sent: Seq<ChatMessage>, transcript: Seq<MessageView>) -> bool {
    &&& sent.len() == transcript.len()
    &&& forall|i: int| 0 <= i < sent.len() ==> carries(#[trigger] sent[i], transcript[i])
}

/// The backend's role for a role of a transcript.
pub fn backend_role(role: Role) -> (sent: MessageRole)
    ensures
        sent == backend_role_of(role),
{
    match role {
        Role::System => MessageRole::System,
        Role::User => MessageRole::User,
        Role::Assistant => MessageRole::Assistant,
    }
}

/// The backend message for a message of a transcript.
pub fn backend_message(message: &Message) -> (sent: ChatMessage)
    ensures
        carries(sent, message@),
{
    ChatMessage::new(backend_role(message.role()), String::from_str(message.content()))
}

/// The chat request for `model` whose message list is exactly `transcript`,
/// in order, the opening system message included.
pub fn backend_request(model: &str, transcript: &Vec<Message>) -> (request: ChatMessageRequest)
    ensures
        request_model(request) == model@,
        carries_all(request_messages(request), views(transcript@)),
{
    let mut messages: Vec<ChatMessage> = Vec::new();
    let n: usize = transcript.len();
    let mut i: usize = 0;
    while i < n
        invariant
            n == transcript.len(),
            i <= n,
            messages.len() == i,
            forall|j: int| 0 <= j < i ==> carries(#[trigger] messages[j], transcript[j]@),
        decreases n - i,
    {
        messages.push(backend_message(&transcript[i]));
        i += 1;
    }
    ChatMessageRequest::new(String::from_str(model), messages)
}

/// The text that a stream element carries: that of its message, or none.
pub open spec fn response_text(response: ChatMessageResponse) -> Seq<char> {
    match response.message {
        Some(message) => message.content@,
        None => Seq::empty(),
    }
}

/// The fragment that a stream element stands for: the text of its message,
/// if it has one, and final exactly if it carries the closing figures.
pub fn stream_fragment(response: ChatMessageResponse) -> (fragment: StreamFragment)
    ensures
        fragment.text@ == response_text(response),
        fragment.is_final == (response.final_data is Some),
{
    let is_final = response.final_data.is_some();
    let text = match response.message {
        Some(message) => message.content,
        None => String::new(),
    };
    StreamFragment { text, is_final }
}

/// The event that an item of the backend stream stands for: a fragment, or
/// the failure of the transport, which gives no cause of its own.
pub fn stream_event(item: Result<ChatMessageResponse, ()>) -> (event: StreamEvent)
    ensures
        match item {
            Ok(response) => (event matches StreamEvent::Fragment(fragment) && fragment.text@
                == response_text(response) && fragment.is_final == (response.final_data is Some)),
            Err(_) => (event matches StreamEvent::Failure(error) && error.cause@
                == "stream.next error"@),
        },
{
    match item {
        Ok(response) => StreamEvent::Fragment(stream_fragment(response)),
        Err(_) => StreamEvent::Failure(TransportError { cause: String::from_str("stream.next error") }),
    }
}

} // verus!
