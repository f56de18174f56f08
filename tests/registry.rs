use sse_chat::app_event::{ChatEvent, ChatMessage};
use sse_chat::event::{AppEvent, AppEventResponse, BroadcastError, JoinError, Users, ID_LEN};
use sse_chat::state::{Message, User};

fn s(x: &str) -> String {
    x.to_string()
}

fn expect_message(ev: Option<ChatEvent>) -> ChatMessage {
    match ev {
        Some(ChatEvent::Message(m)) => m,
        Some(ChatEvent::Heartbeat) => panic!("expected a message, got a heartbeat"),
        None => panic!("expected a message, got the end of the stream"),
    }
}

fn is_heartbeat(ev: &Option<ChatEvent>) -> bool {
    matches!(ev, Some(ChatEvent::Heartbeat))
}

#[test]
fn join_twice_is_refused() {
    let mut users = Users::new();
    assert_eq!(users.join(s("n")), Ok(()));
    assert_eq!(users.join(s("n")), Err(JoinError::NameTaken));
    assert_eq!(users.len(), 1);
}

#[test]
fn name_is_reusable_after_leave() {
    let mut users = Users::new();
    assert_eq!(users.join(s("n")), Ok(()));
    users.leave(&s("n"));
    assert!(!users.contains(&s("n")));
    assert_eq!(users.join(s("n")), Ok(()));
    assert_eq!(users.len(), 1);
}

#[test]
fn leave_of_absent_name_changes_nothing() {
    let mut users = Users::new();
    users.join(s("a")).unwrap();
    users.leave(&s("b"));
    users.leave(&s("b"));
    assert_eq!(users.len(), 1);
    assert!(users.contains(&s("a")));
}

#[test]
fn broadcast_reaches_every_member_once() {
    let mut users = Users::new();
    for n in ["A", "B", "C"] {
        users.join(s(n)).unwrap();
    }
    assert_eq!(users.broadcast(&s("A"), &s("hi")), Ok(()));
    let mut ids = Vec::new();
    for n in ["A", "B", "C"] {
        let m = expect_message(users.poll(&s(n)));
        assert_eq!(m.author, "A");
        assert_eq!(m.content, "hi");
        ids.push(m.id);
        assert!(is_heartbeat(&users.poll(&s(n))));
    }
    assert_eq!(ids[0], ids[1]);
    assert_eq!(ids[1], ids[2]);
}

#[test]
fn two_broadcasts_have_distinct_ids() {
    let mut users = Users::new();
    users.join(s("A")).unwrap();
    users.broadcast(&s("A"), &s("one")).unwrap();
    users.broadcast(&s("A"), &s("two")).unwrap();
    let first = expect_message(users.poll(&s("A")));
    let second = expect_message(users.poll(&s("A")));
    assert_ne!(first.id, second.id);
}

#[test]
fn minted_id_has_url_safe_shape() {
    let mut users = Users::new();
    users.join(s("A")).unwrap();
    users.broadcast(&s("A"), &s("x")).unwrap();
    let m = expect_message(users.poll(&s("A")));
    assert_eq!(m.id.chars().count(), ID_LEN);
    assert_eq!(ID_LEN, 21);
    assert!(m.id.chars().all(|c| c.is_ascii_alphanumeric() || c == '_' || c == '-'));
}

#[test]
fn too_long_content_is_refused_without_delivery() {
    let mut users = Users::new();
    users.join(s("A")).unwrap();
    users.join(s("B")).unwrap();
    let long = "x".repeat(101);
    assert_eq!(users.broadcast(&s("A"), &long), Err(BroadcastError::ContentTooLong));
    assert!(is_heartbeat(&users.poll(&s("A"))));
    assert!(is_heartbeat(&users.poll(&s("B"))));
}

#[test]
fn content_at_the_bound_is_accepted() {
    let mut users = Users::new();
    users.join(s("A")).unwrap();
    let exact = "x".repeat(100);
    assert_eq!(users.broadcast(&s("A"), &exact), Ok(()));
    assert_eq!(expect_message(users.poll(&s("A"))).content, exact);
    let wide = "\u{e9}".repeat(100);
    assert_eq!(users.broadcast(&s("A"), &wide), Ok(()));
    assert_eq!(expect_message(users.poll(&s("A"))).content, wide);
    let wide_long = "\u{e9}".repeat(101);
    assert_eq!(users.broadcast(&s("A"), &wide_long), Err(BroadcastError::ContentTooLong));
}

#[test]
fn empty_content_is_delivered() {
    let mut users = Users::new();
    users.join(s("A")).unwrap();
    assert_eq!(users.broadcast(&s("A"), &s("")), Ok(()));
    assert_eq!(expect_message(users.poll(&s("A"))).content, "");
}

#[test]
fn idle_mailbox_yields_heartbeats() {
    let mut users = Users::new();
    users.join(s("A")).unwrap();
    for _ in 0..5 {
        let ev = users.poll(&s("A"));
        assert!(is_heartbeat(&ev));
        assert!(ev.unwrap().is_heartbeat());
    }
}

#[test]
fn stream_of_non_member_ends() {
    let mut users = Users::new();
    assert!(users.poll(&s("ghost")).is_none());
}

#[test]
fn mailbox_is_first_in_first_out() {
    let mut users = Users::new();
    users.join(s("A")).unwrap();
    users.join(s("B")).unwrap();
    users.broadcast(&s("A"), &s("1")).unwrap();
    users.broadcast(&s("B"), &s("2")).unwrap();
    users.broadcast(&s("A"), &s("3")).unwrap();
    for n in ["A", "B"] {
        assert_eq!(expect_message(users.poll(&s(n))).content, "1");
        let m = expect_message(users.poll(&s(n)));
        assert_eq!(m.content, "2");
        assert_eq!(m.author, "B");
        assert_eq!(expect_message(users.poll(&s(n))).content, "3");
        assert!(is_heartbeat(&users.poll(&s(n))));
    }
}

#[test]
fn late_joiner_misses_earlier_broadcasts() {
    let mut users = Users::new();
    users.join(s("A")).unwrap();
    users.broadcast(&s("A"), &s("before")).unwrap();
    users.join(s("B")).unwrap();
    assert!(is_heartbeat(&users.poll(&s("B"))));
    assert_eq!(expect_message(users.poll(&s("A"))).content, "before");
}

#[test]
fn alice_and_bob_scenario() {
    let mut users = Users::new();
    assert_eq!(users.join(s("alice")), Ok(()));
    assert_eq!(users.join(s("bob")), Ok(()));
    assert_eq!(users.join(s("alice")), Err(JoinError::NameTaken));
    assert_eq!(users.broadcast(&s("alice"), &s("hello")), Ok(()));
    let a = expect_message(users.poll(&s("alice")));
    let b = expect_message(users.poll(&s("bob")));
    assert_eq!(a.author, "alice");
    assert_eq!(a.content, "hello");
    assert_eq!(b.author, "alice");
    assert_eq!(b.content, "hello");
    assert_eq!(a.id, b.id);
    users.leave(&s("bob"));
    assert_eq!(users.broadcast(&s("alice"), &s("bye")), Ok(()));
    assert_eq!(expect_message(users.poll(&s("alice"))).content, "bye");
    assert!(users.poll(&s("bob")).is_none());
}

#[test]
fn distinct_joins_all_succeed() {
    let mut users = Users::new();
    let n = 50;
    for k in 0..n {
        assert_eq!(users.join(format!("user{}", k)), Ok(()));
    }
    assert_eq!(users.len(), n);
    for k in 0..n {
        assert!(users.contains(&format!("user{}", k)));
    }
    assert!(!users.contains(&s("user50")));
}

#[test]
fn handle_answers_each_request() {
    let mut users = Users::new();
    let r = users.handle(AppEvent::UserJoined { user_name: s("a") });
    assert!(matches!(r, AppEventResponse::UserListener(ref n) if n == "a"));
    let r = users.handle(AppEvent::UserJoined { user_name: s("a") });
    assert!(matches!(r, AppEventResponse::Forbidden));
    let r = users.handle(AppEvent::Message { user_name: s("a"), message: s("hey") });
    assert!(matches!(r, AppEventResponse::Done));
    assert_eq!(expect_message(users.poll(&s("a"))).content, "hey");
    let r = users.handle(AppEvent::Message { user_name: s("a"), message: "y".repeat(101) });
    assert!(matches!(r, AppEventResponse::TooLong));
    assert!(is_heartbeat(&users.poll(&s("a"))));
    let r = users.handle(AppEvent::UserLeft { user_name: s("a") });
    assert!(matches!(r, AppEventResponse::Done));
    assert!(!users.contains(&s("a")));
}

#[test]
fn chat_message_copies_its_fields() {
    let m = ChatMessage::new(&s("i"), &s("au"), &s("c"));
    assert_eq!(m.id, "i");
    assert_eq!(m.author, "au");
    assert_eq!(m.content, "c");
    assert!(!ChatEvent::Message(m).is_heartbeat());
    let req = Message { sender_name: s("a"), message: s("b") };
    assert_eq!(req.sender_name, "a");
    let u = User { name: s("a") };
    assert_eq!(u.name, "a");
}
