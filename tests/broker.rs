use camelot::events::{CreateOutcome, SubscribeOutcome, UnsubscribeOutcome};
use camelot::handlers::{handle_listen, handle_request, Outcome, CALLBACK_REJECTED};
use camelot::session::{classify_first_frame, connect, reject_first_frame, Error, FirstFrame};
use camelot::{Action, ActionType, ClientRegistry, EventRegistry, Head, Request, StatusType, Version};

fn request(caller: &str, action_type: ActionType, module: &str, id: &str, body: &[u8]) -> Request {
    Request::new(
        Head::new(Version::actual(), caller),
        Action::new(action_type, module, id),
        body,
    )
}

fn join(clients: &mut ClientRegistry<u32>, name: &str, handle: u32) -> StatusType {
    let (response, back) = connect(clients, &request(name, ActionType::Connect, "", "", &[]), handle);
    assert_eq!(response.head().caller(), name);
    assert_eq!(back.is_some(), response.status().status_type() != StatusType::OK);
    response.status().status_type()
}

fn serve(events: &mut EventRegistry, caller: &str, t: ActionType, module: &str, id: &str, body: &[u8]) -> Outcome {
    let outcome = handle_request(events, &request(caller, t, module, id, body)).unwrap();
    assert_eq!(outcome.response.head().caller(), caller);
    outcome
}

fn status(outcome: &Outcome) -> StatusType {
    outcome.response.status().status_type()
}

#[test]
fn handshake_ok() {
    let mut clients: ClientRegistry<u32> = ClientRegistry::new();
    let first = request("alice", ActionType::Connect, "", "", &[]);
    assert_eq!(classify_first_frame(&first), FirstFrame::Connect);
    let (response, back) = connect(&mut clients, &first, 1);
    assert_eq!(response.status().status_type(), StatusType::OK);
    assert_eq!(response.head().caller(), "alice");
    assert!(back.is_none());
    assert!(clients.contains("alice"));
    assert_eq!(clients.lookup("alice"), Some(&1));
}

#[test]
fn duplicate_connect_is_refused() {
    let mut clients: ClientRegistry<u32> = ClientRegistry::new();
    assert_eq!(join(&mut clients, "alice", 1), StatusType::OK);
    let (response, back) = connect(&mut clients, &request("alice", ActionType::Connect, "", "", &[]), 2);
    assert_eq!(response.status().status_type(), StatusType::AlreadyConnected);
    assert_eq!(back, Some(2));
    assert_eq!(clients.lookup("alice"), Some(&1));
    assert_eq!(clients.len(), 1);
}

#[test]
fn create_listen_invoke() {
    let mut clients: ClientRegistry<u32> = ClientRegistry::new();
    let mut events = EventRegistry::new();
    assert_eq!(join(&mut clients, "alice", 1), StatusType::OK);
    assert_eq!(join(&mut clients, "bob", 2), StatusType::OK);
    assert_eq!(status(&serve(&mut events, "alice", ActionType::Create, "test", "ping", &[])), StatusType::OK);
    assert_eq!(status(&serve(&mut events, "bob", ActionType::Listen, "test", "ping", &[])), StatusType::OK);
    let outcome = serve(&mut events, "alice", ActionType::Invoke, "test", "ping", &[0x48, 0x69]);
    assert_eq!(status(&outcome), StatusType::OK);
    let fanout = outcome.fanout.unwrap();
    assert_eq!(fanout.subscribers, vec!["bob".to_string()]);
    let callback = Request::from_bytes(&fanout.frame).unwrap();
    assert_eq!(callback.action().action_type(), ActionType::Callback);
    assert_eq!(callback.action().module(), "test");
    assert_eq!(callback.action().id(), "ping");
    assert_eq!(callback.head().caller(), "alice");
    assert_eq!(callback.body(), "Hi".as_bytes());
}

#[test]
fn invoke_of_unknown_event() {
    let mut events = EventRegistry::new();
    let outcome = serve(&mut events, "alice", ActionType::Invoke, "x", "y", &[]);
    assert_eq!(status(&outcome), StatusType::EventNotFound);
    assert!(outcome.fanout.is_none());
}

#[test]
fn listen_then_leave() {
    let mut events = EventRegistry::new();
    serve(&mut events, "alice", ActionType::Create, "test", "ping", &[]);
    serve(&mut events, "bob", ActionType::Listen, "test", "ping", &[]);
    let first = serve(&mut events, "alice", ActionType::Invoke, "test", "ping", "Hi".as_bytes());
    assert_eq!(first.fanout.unwrap().subscribers, vec!["bob".to_string()]);
    assert_eq!(status(&serve(&mut events, "bob", ActionType::Leave, "test", "ping", &[])), StatusType::OK);
    let second = serve(&mut events, "alice", ActionType::Invoke, "test", "ping", "Hi2".as_bytes());
    assert_eq!(status(&second), StatusType::OK);
    assert!(second.fanout.unwrap().subscribers.is_empty());
}

#[test]
fn fan_out_to_four_subscribers() {
    let mut clients: ClientRegistry<u32> = ClientRegistry::new();
    let mut events = EventRegistry::new();
    let names = ["client1", "client2", "client3", "client4", "invoker"];
    for (k, name) in names.iter().enumerate() {
        assert_eq!(join(&mut clients, name, k as u32), StatusType::OK);
    }
    serve(&mut events, "client1", ActionType::Create, "test", "test", &[]);
    for name in &names[..4] {
        assert_eq!(status(&serve(&mut events, name, ActionType::Listen, "test", "test", &[])), StatusType::OK);
    }
    let outcome = serve(&mut events, "invoker", ActionType::Invoke, "test", "test", "Hello".as_bytes());
    assert_eq!(status(&outcome), StatusType::OK);
    let fanout = outcome.fanout.unwrap();
    assert_eq!(fanout.subscribers.len(), 4);
    for name in &names[..4] {
        assert!(fanout.subscribers.contains(&name.to_string()));
        assert!(clients.lookup(name).is_some());
    }
    let callback = Request::from_bytes(&fanout.frame).unwrap();
    assert_eq!(callback.body(), "Hello".as_bytes());
    assert_eq!(callback.head().caller(), "invoker");
}

#[test]
fn integration_test_call_events() {
    let mut clients: ClientRegistry<u32> = ClientRegistry::new();
    let mut events = EventRegistry::new();
    let names = ["client1", "client2", "client3", "client4"];
    for (k, name) in names.iter().enumerate() {
        assert_eq!(join(&mut clients, name, k as u32), StatusType::OK);
    }
    assert_eq!(status(&serve(&mut events, "client1", ActionType::Create, "test", "test", &[])), StatusType::OK);
    for name in names {
        assert_eq!(status(&serve(&mut events, name, ActionType::Listen, "test", "test", &[])), StatusType::OK);
    }
    let outcome = serve(&mut events, "client1", ActionType::Invoke, "test", "test", "Hello".as_bytes());
    assert_eq!(status(&outcome), StatusType::OK);
    let fanout = outcome.fanout.unwrap();
    assert_eq!(fanout.subscribers.len(), 4);
    let callback = Request::from_bytes(&fanout.frame).unwrap();
    assert_eq!(callback.body(), "Hello".as_bytes());
}

#[test]
fn main_test_handle_clients() {
    let mut clients: ClientRegistry<u32> = ClientRegistry::new();
    for i in 0..10 {
        let client_name = format!("test{}", i);
        let (response, _) = connect(&mut clients, &request(&client_name, ActionType::Connect, "", "", &[]), i);
        assert_eq!(response.head().caller(), client_name);
        assert_eq!(response.status().status_type(), StatusType::OK);
        assert!(clients.contains(&client_name));
    }
    for i in 0..10 {
        assert_eq!(clients.remove(&format!("test{}", i)), Some(i));
    }
    assert_eq!(clients.len(), 0);
}

#[test]
fn test_listen_handler() {
    let mut events = EventRegistry::new();
    let request = Request::new(
        Head::new(Version::new(1, 0), "caller"),
        Action::new(ActionType::Listen, "module", "id"),
        "".as_bytes(),
    );

    let response = handle_listen(&mut events, &request);

    assert_eq!(response.status().status_type(), StatusType::EventNotFound);
    assert!(!events.contains("module:id"));
}

#[test]
fn first_frame_other_than_connect_or_invoke_needs_connection() {
    for t in [ActionType::Listen, ActionType::Leave, ActionType::Create, ActionType::Callback] {
        let first = request("carol", t, "a", "b", &[]);
        assert_eq!(classify_first_frame(&first), FirstFrame::Reject);
        let response = reject_first_frame(&first);
        assert_eq!(response.status().status_type(), StatusType::NeedConnection);
        assert_eq!(response.head().caller(), "carol");
    }
    assert_eq!(classify_first_frame(&request("d", ActionType::Invoke, "a", "b", &[])), FirstFrame::Invoke);
}

#[test]
fn major_version_mismatch_ends_the_session() {
    let mut events = EventRegistry::new();
    let wrong = Request::new(Head::new(Version::new(2, 0), "alice"), Action::new(ActionType::Create, "a", "b"), &[]);
    assert_eq!(handle_request(&mut events, &wrong).err(), Some(Error::UnsupportedVersion));
    assert!(!events.contains("a:b"));
    let patch = Request::new(Head::new(Version::new(1, 9), "alice"), Action::new(ActionType::Create, "a", "b"), &[]);
    assert_eq!(status(&handle_request(&mut events, &patch).unwrap()), StatusType::OK);
    assert!(events.contains("a:b"));
}

#[test]
fn connect_and_callback_on_a_live_session() {
    let mut events = EventRegistry::new();
    let outcome = serve(&mut events, "alice", ActionType::Connect, "", "", &[]);
    assert_eq!(status(&outcome), StatusType::AlreadyConnected);
    let outcome = serve(&mut events, "alice", ActionType::Callback, "a", "b", &[]);
    assert_eq!(status(&outcome), StatusType::InvalidRequest);
    assert_eq!(outcome.response.body(), CALLBACK_REJECTED.as_bytes());
    assert!(outcome.fanout.is_none());
}

#[test]
fn recoverable_statuses() {
    let mut events = EventRegistry::new();
    assert_eq!(status(&serve(&mut events, "a", ActionType::Leave, "m", "i", &[])), StatusType::EventNotFound);
    assert_eq!(status(&serve(&mut events, "a", ActionType::Create, "m", "i", &[])), StatusType::OK);
    assert_eq!(status(&serve(&mut events, "b", ActionType::Create, "m", "i", &[])), StatusType::EventAlreadyExists);
    assert_eq!(status(&serve(&mut events, "a", ActionType::Leave, "m", "i", &[])), StatusType::ListenerNotFound);
    assert_eq!(status(&serve(&mut events, "a", ActionType::Listen, "m", "i", &[])), StatusType::OK);
    assert_eq!(status(&serve(&mut events, "a", ActionType::Listen, "m", "i", &[])), StatusType::AlreadySubscribed);
    assert_eq!(status(&serve(&mut events, "a", ActionType::Listen, "m", "other", &[])), StatusType::EventNotFound);
}

#[test]
fn subscriber_lists_stay_duplicate_free() {
    let mut events = EventRegistry::new();
    assert_eq!(events.create("e"), CreateOutcome::Created);
    assert_eq!(events.create("e"), CreateOutcome::AlreadyExists);
    for name in ["a", "b", "a", "c", "b"] {
        events.subscribe("e", name);
    }
    assert_eq!(events.snapshot_subscribers("e").unwrap(), vec!["a", "b", "c"]);
    assert_eq!(events.subscribe("e", "c"), SubscribeOutcome::AlreadySubscribed);
    assert_eq!(events.subscribe("f", "c"), SubscribeOutcome::NotFound);
    assert_eq!(events.unsubscribe("e", "a"), UnsubscribeOutcome::Unsubscribed);
    assert_eq!(events.snapshot_subscribers("e").unwrap(), vec!["c", "b"]);
    assert_eq!(events.unsubscribe("e", "a"), UnsubscribeOutcome::NotASubscriber);
    assert_eq!(events.unsubscribe("f", "a"), UnsubscribeOutcome::NotFound);
    assert_eq!(events.snapshot_subscribers("f"), None);
    assert_eq!(events.len(), 1);
}

#[test]
fn registry_names_follow_connects_and_removals() {
    let mut clients: ClientRegistry<u32> = ClientRegistry::new();
    assert_eq!(clients.try_insert("a".to_string(), 1), Ok(()));
    assert_eq!(clients.try_insert("a".to_string(), 2), Err(2));
    assert_eq!(clients.try_insert("b".to_string(), 3), Ok(()));
    assert_eq!(clients.remove("a"), Some(1));
    assert_eq!(clients.remove("a"), None);
    assert_eq!(clients.try_insert("a".to_string(), 4), Ok(()));
    assert_eq!(clients.len(), 2);
    assert_eq!(clients.lookup("a"), Some(&4));
    assert_eq!(clients.lookup("b"), Some(&3));
    assert_eq!(clients.lookup("c"), None);
}

#[test]
fn disconnect_scrubs_every_subscription() {
    let mut events = EventRegistry::new();
    for e in ["e1", "e2", "e3"] {
        events.create(e);
    }
    for name in ["a", "gone", "b"] {
        events.subscribe("e1", name);
    }
    events.subscribe("e2", "gone");
    events.subscribe("e3", "a");
    events.unsubscribe_everywhere("gone");
    assert_eq!(events.snapshot_subscribers("e1").unwrap(), vec!["a", "b"]);
    assert!(events.snapshot_subscribers("e2").unwrap().is_empty());
    assert_eq!(events.snapshot_subscribers("e3").unwrap(), vec!["a"]);
    assert_eq!(events.len(), 3);
}
