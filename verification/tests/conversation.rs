use aitelebot::aggregator::{SinkWrite, StreamEvent, StreamFragment, TransportError};
use aitelebot::message::{Message, Role};
use aitelebot::session::{answer, SessionError, SessionService};
use aitelebot::store::ConversationStore;
use ollama_rs::generation::chat::request::ChatMessageRequest;
use ollama_rs::generation::chat::MessageRole;

fn fragment(text: &str, is_final: bool) -> StreamEvent {
    StreamEvent::Fragment(StreamFragment { text: text.to_string(), is_final })
}

fn pairs(messages: &[Message]) -> Vec<(Role, String)> {
    messages.iter().map(|m| (m.role(), m.content().to_string())).collect()
}

fn sent(request: &ChatMessageRequest) -> Vec<(Role, String)> {
    request
        .messages
        .iter()
        .map(|m| {
            let role = match m.role {
                MessageRole::System => Role::System,
                MessageRole::User => Role::User,
                MessageRole::Assistant => Role::Assistant,
            };
            (role, m.content.clone())
        })
        .collect()
}

fn service(system_prompt: &str) -> SessionService {
    SessionService::new("mixtral".to_string(), system_prompt.to_string())
}

fn entry(role: Role, text: &str) -> (Role, String) {
    (role, text.to_string())
}

#[test]
fn message_keeps_role_and_content() {
    let message = Message::new(Role::Assistant, "reply".to_string());
    assert_eq!(message.role(), Role::Assistant);
    assert_eq!(message.content(), "reply");
    let copy = message.clone();
    assert_eq!(copy.role(), Role::Assistant);
    assert_eq!(copy.content(), "reply");
}

#[test]
fn new_store_holds_the_system_message() {
    let store = ConversationStore::new("be kind".to_string());
    assert_eq!(store.len(), 1);
    assert_eq!(pairs(&store.snapshot()), vec![entry(Role::System, "be kind")]);
}

#[test]
fn append_puts_messages_at_the_tail() {
    let mut store = ConversationStore::new("sys".to_string());
    store.append(Message::new(Role::User, "one".to_string()));
    store.append(Message::new(Role::Assistant, "two".to_string()));
    assert_eq!(store.len(), 3);
    assert_eq!(
        pairs(&store.snapshot()),
        vec![entry(Role::System, "sys"), entry(Role::User, "one"), entry(Role::Assistant, "two")]
    );
}

#[test]
fn snapshot_is_unaffected_by_later_appends() {
    let mut store = ConversationStore::new("sys".to_string());
    let before = store.snapshot();
    store.append(Message::new(Role::User, "later".to_string()));
    assert_eq!(pairs(&before), vec![entry(Role::System, "sys")]);
    assert_eq!(store.snapshot().len(), 2);
}

#[test]
fn hello_scenario() {
    let mut service = service("sys");
    let mut sink = Vec::new();
    let mut seen = Vec::new();
    let reply = service.handle(
        "hello".to_string(),
        |request| {
            seen = sent(&request);
            assert_eq!(request.model_name, "mixtral");
            vec![fragment("Hi", false), fragment(" there", false), fragment("", true)]
        },
        &mut sink,
    );
    assert_eq!(reply, Ok("Hi there".to_string()));
    assert_eq!(seen, vec![entry(Role::System, "sys"), entry(Role::User, "hello")]);
    assert_eq!(
        pairs(&service.snapshot()),
        vec![entry(Role::System, "sys"), entry(Role::User, "hello"), entry(Role::Assistant, "Hi there")]
    );
    assert_eq!(
        sink,
        vec![
            SinkWrite::Text("Hi".to_string()),
            SinkWrite::Text(" there".to_string()),
            SinkWrite::Text(String::new()),
            SinkWrite::LineBreak
        ]
    );
}

#[test]
fn successful_requests_keep_their_order() {
    let mut service = service("sys");
    let mut sink = Vec::new();
    for i in 0..3 {
        let reply = service.handle(
            format!("question {}", i),
            |request| {
                assert_eq!(request.messages.len(), 2 + 2 * i);
                vec![fragment(&format!("answer {}", i), true)]
            },
            &mut sink,
        );
        assert_eq!(reply, Ok(format!("answer {}", i)));
    }
    assert_eq!(
        pairs(&service.snapshot()),
        vec![
            entry(Role::System, "sys"),
            entry(Role::User, "question 0"),
            entry(Role::Assistant, "answer 0"),
            entry(Role::User, "question 1"),
            entry(Role::Assistant, "answer 1"),
            entry(Role::User, "question 2"),
            entry(Role::Assistant, "answer 2"),
        ]
    );
}

#[test]
fn transport_error_records_the_user_turn_only() {
    let mut service = service("sys");
    let mut sink = Vec::new();
    let reply = service.handle(
        "hello".to_string(),
        |_| vec![fragment("Hi", false), StreamEvent::Failure(TransportError { cause: "broken pipe".to_string() })],
        &mut sink,
    );
    assert_eq!(reply, Err(SessionError::Transport(TransportError { cause: "broken pipe".to_string() })));
    assert_eq!(pairs(&service.snapshot()), vec![entry(Role::System, "sys"), entry(Role::User, "hello")]);
}

#[test]
fn incomplete_response_records_the_user_turn_only() {
    let mut service = service("sys");
    let mut sink = Vec::new();
    let reply = service.handle("hello".to_string(), |_| vec![fragment("Hi", false)], &mut sink);
    assert_eq!(reply, Err(SessionError::IncompleteResponse));
    assert_eq!(pairs(&service.snapshot()), vec![entry(Role::System, "sys"), entry(Role::User, "hello")]);
}

#[test]
fn empty_stream_is_incomplete_and_empty_final_is_a_reply() {
    let mut service = service("sys");
    let mut sink = Vec::new();
    let none = service.handle("a".to_string(), |_| Vec::new(), &mut sink);
    assert_eq!(none, Err(SessionError::IncompleteResponse));
    assert_eq!(service.snapshot().len(), 2);
    let empty = service.handle("b".to_string(), |_| vec![fragment("", true)], &mut sink);
    assert_eq!(empty, Ok(String::new()));
    assert_eq!(
        pairs(&service.snapshot()),
        vec![
            entry(Role::System, "sys"),
            entry(Role::User, "a"),
            entry(Role::User, "b"),
            entry(Role::Assistant, ""),
        ]
    );
}

#[test]
fn request_after_a_failure_sees_the_earlier_turn() {
    let mut service = service("sys");
    let mut sink = Vec::new();
    let failed = service.handle("first".to_string(), |_| Vec::new(), &mut sink);
    assert!(failed.is_err());
    let mut seen = Vec::new();
    let reply = service.handle(
        "second".to_string(),
        |request| {
            seen = sent(&request);
            assert_eq!(request.model_name, "mixtral");
            vec![fragment("ok", true)]
        },
        &mut sink,
    );
    assert_eq!(reply, Ok("ok".to_string()));
    assert_eq!(
        seen,
        vec![entry(Role::System, "sys"), entry(Role::User, "first"), entry(Role::User, "second")]
    );
}

#[test]
fn interleaved_requests_record_whole_messages() {
    let mut service = SessionService::with_store("mixtral".to_string(), ConversationStore::new("sys".to_string()));
    let inputs = ["alpha", "beta", "gamma", "delta"];
    let outputs = ["one", "two", "three", "four"];
    for input in inputs.iter() {
        let request = service.begin(input.to_string());
        assert_eq!(request.messages.last().unwrap().content, *input);
    }
    for output in outputs.iter().rev() {
        assert_eq!(service.complete(Ok(Some(output.to_string()))), Ok(output.to_string()));
    }
    let transcript = pairs(&service.snapshot());
    assert_eq!(transcript.len(), 1 + 2 * inputs.len());
    assert_eq!(transcript[0], entry(Role::System, "sys"));
    for (role, content) in transcript[1..].iter() {
        match role {
            Role::User => assert!(inputs.contains(&content.as_str())),
            Role::Assistant => assert!(outputs.contains(&content.as_str())),
            Role::System => panic!("a second system message"),
        }
    }
    for input in inputs.iter() {
        assert_eq!(transcript.iter().filter(|(_, c)| c == input).count(), 1);
    }
    for output in outputs.iter() {
        assert_eq!(transcript.iter().filter(|(_, c)| c == output).count(), 1);
    }
}

#[test]
fn begin_hands_out_the_whole_transcript() {
    let mut service = service("sys");
    let request = service.begin("hello".to_string());
    assert_eq!(request.model_name, "mixtral");
    assert_eq!(sent(&request), vec![entry(Role::System, "sys"), entry(Role::User, "hello")]);
}

#[test]
fn complete_maps_each_outcome() {
    let mut service = service("sys");
    assert_eq!(service.complete(Ok(None)), Err(SessionError::IncompleteResponse));
    assert_eq!(service.snapshot().len(), 1);
    let broken = TransportError { cause: "timeout".to_string() };
    assert_eq!(
        service.complete(Err(broken)),
        Err(SessionError::Transport(TransportError { cause: "timeout".to_string() }))
    );
    assert_eq!(service.snapshot().len(), 1);
    assert_eq!(service.complete(Ok(Some("fine".to_string()))), Ok("fine".to_string()));
    assert_eq!(pairs(&service.snapshot()), vec![entry(Role::System, "sys"), entry(Role::Assistant, "fine")]);
}

#[test]
fn answer_renders_reply_and_errors() {
    assert_eq!(answer(&Ok("Hi there".to_string())), "Hi there");
    assert_eq!(
        answer(&Err(SessionError::Transport(TransportError { cause: "broken pipe".to_string() }))),
        "Error: broken pipe"
    );
    assert_eq!(
        answer(&Err(SessionError::IncompleteResponse)),
        "Error: backend response ended without a final marker"
    );
    assert_eq!(answer(&Err(SessionError::FatalStore)), "Error: conversation store is corrupted");
}

#[test]
fn error_messages() {
    assert_eq!(
        SessionError::Transport(TransportError { cause: "dns".to_string() }).message(),
        "dns"
    );
    assert_eq!(
        SessionError::IncompleteResponse.message(),
        "backend response ended without a final marker"
    );
    assert_eq!(SessionError::FatalStore.message(), "conversation store is corrupted");
}
