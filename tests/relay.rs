use my_websocket::directory::{identity_from_answer, room_message_from_fields, room_user_from_fields, token_present};
use my_websocket::events::{ClientEvent, RoomUser, ServerEvent};
use my_websocket::lifecycle::{Supervisor, Trigger};
use my_websocket::state::AppState;
use my_websocket::ws::{
    disconnect, fetch_and_send_room_members, fetch_room_messages, handle_change_displayname,
    handle_client_event, handle_get_room_list, handle_get_username_from_displayname,
    handle_join_room, handle_leave_room, handle_private_message, handle_room_broadcast,
    handle_server_broadcast, handle_subscribe, handle_unsubscribe, handle_update_status,
    is_status_name, is_valid_status, register, room_list, welcome, Action, Fetched, Identity,
};

fn s(x: &str) -> String {
    x.to_string()
}

fn add(st: &mut AppState, id: u128, account: i32, name: &str, display: &str) {
    assert!(st.insert_session(id, account, s(name), s(display), None, 0));
}

fn events_to(actions: &[Action], target: u128) -> Vec<&ServerEvent> {
    actions
        .iter()
        .filter_map(|a| match a {
            Action::Deliver { target: t, event } if *t == target => Some(event),
            _ => None,
        })
        .collect()
}

fn user_names(users: &[RoomUser]) -> Vec<String> {
    users.iter().map(|u| u.username.clone()).collect()
}

#[test]
fn join_room_lists_joiner_and_requests_history() {
    let mut st = AppState::new();
    add(&mut st, 1, 10, "alice", "Alice");
    let acts = handle_join_room(&mut st, 1, &s("lobby"));
    let list = room_list(&st);
    assert_eq!(list.len(), 1);
    assert_eq!(list[0].name, "lobby");
    assert_eq!(list[0].count, 1);
    let to_a = events_to(&acts, 1);
    assert!(to_a.iter().any(|e| matches!(e, ServerEvent::RoomUpdate { room_name, users }
        if room_name == "lobby" && user_names(users) == vec![s("alice")])));
    assert!(to_a.iter().any(|e| matches!(e, ServerEvent::UserJoined { room_name, username }
        if room_name == "lobby" && username == "alice")));
    assert!(matches!(acts.last(), Some(Action::FetchRoomMessages { target: 1, room_name }) if room_name == "lobby"));
    assert_eq!(st.users[0].rooms, vec![s("lobby")]);
    let reply = fetch_room_messages(&s("lobby"), Fetched::Found(Vec::new()));
    assert!(matches!(reply, Some(ServerEvent::LoadRoomMessages { room_name, messages })
        if room_name == "lobby" && messages.is_empty()));
}

#[test]
fn subscribe_to_absent_account_reports_offline() {
    let mut st = AppState::new();
    add(&mut st, 1, 10, "alice", "Alice");
    let acts = handle_subscribe(&mut st, 1, 42);
    assert_eq!(acts.len(), 1);
    assert!(matches!(&acts[0], Action::Deliver { target: 1, event: ServerEvent::UserStatusUpdate { status } } if status == "offline"));
    assert_eq!(st.subscribers_of(42), vec![1]);
}

#[test]
fn subscribe_to_live_account_reports_its_status() {
    let mut st = AppState::new();
    add(&mut st, 1, 10, "alice", "Alice");
    add(&mut st, 2, 20, "bob", "Bob");
    handle_update_status(&mut st, 2, &s("busy"));
    let acts = handle_subscribe(&mut st, 1, 20);
    assert!(matches!(&acts[0], Action::Deliver { target: 1, event: ServerEvent::UserStatusUpdate { status } } if status == "busy"));
}

#[test]
fn update_status_reaches_room_peers_and_subscribers() {
    let mut st = AppState::new();
    add(&mut st, 1, 10, "alice", "Alice");
    add(&mut st, 2, 20, "bob", "Bob");
    add(&mut st, 3, 30, "carol", "Carol");
    add(&mut st, 4, 40, "dave", "Dave");
    for id in [1u128, 2, 3] {
        handle_join_room(&mut st, id, &s("lobby"));
    }
    handle_subscribe(&mut st, 4, 10);
    let acts = handle_update_status(&mut st, 1, &s("away"));
    for peer in [2u128, 3] {
        assert!(events_to(&acts, peer).iter().any(|e| matches!(e, ServerEvent::UserStatusChanged { username, status }
            if username == "alice" && status == "away")));
    }
    assert!(events_to(&acts, 1).is_empty());
    let to_d = events_to(&acts, 4);
    assert_eq!(to_d.len(), 1);
    assert!(matches!(to_d[0], ServerEvent::UserStatusUpdate { status } if status == "away"));
    assert!(matches!(acts.last(), Some(Action::PersistStatus { user_id: 10, status }) if status == "away"));
    assert_eq!(st.users[0].status, "away");
}

#[test]
fn update_status_accepts_any_case_and_refuses_unknown() {
    let mut st = AppState::new();
    add(&mut st, 1, 10, "alice", "Alice");
    assert!(is_valid_status(&s("AWAY")));
    assert!(is_valid_status(&s("Offline")));
    assert!(!is_valid_status(&s("sleeping")));
    let acts = handle_update_status(&mut st, 1, &s("BUSY"));
    assert_eq!(st.users[0].status, "BUSY");
    assert!(matches!(acts.last(), Some(Action::PersistStatus { user_id: 10, status }) if status == "BUSY"));
    let acts = handle_update_status(&mut st, 1, &s("sleeping"));
    assert_eq!(acts.len(), 1);
    assert!(matches!(&acts[0], Action::Deliver { target: 1, event: ServerEvent::Error { code, message } }
        if code == "400" && message == "Invalid status. Use: online, away, busy, offline"));
    assert_eq!(st.users[0].status, "BUSY");
}

#[test]
fn private_message_to_missing_user_errors_to_sender_only() {
    let mut st = AppState::new();
    add(&mut st, 1, 10, "alice", "Alice");
    add(&mut st, 2, 20, "carol", "Carol");
    let acts = handle_private_message(&st, 1, &s("hi"), &s("B"), &s("t0"));
    assert_eq!(acts.len(), 1);
    assert!(matches!(&acts[0], Action::Deliver { target: 1, event: ServerEvent::Error { code, message } }
        if code == "400" && message == "User is offline or not found"));
}

#[test]
fn private_message_reaches_target_only() {
    let mut st = AppState::new();
    add(&mut st, 1, 10, "alice", "Alice");
    add(&mut st, 2, 20, "bob", "Bob");
    let acts = handle_private_message(&st, 1, &s("hi"), &s("bob"), &s("t0"));
    assert_eq!(acts.len(), 1);
    assert!(matches!(&acts[0], Action::Deliver { target: 2, event: ServerEvent::PrivateMessage {
        from_id: 1, from_username, from_display_name, payload, created_at, edited_at: None } }
        if from_username == "alice" && from_display_name == "Alice" && payload == "hi" && created_at == "t0"));
}

#[test]
fn private_message_blank_or_to_self_is_refused() {
    let mut st = AppState::new();
    add(&mut st, 1, 10, "alice", "Alice");
    let acts = handle_private_message(&st, 1, &s("  \t "), &s("alice"), &s("t0"));
    assert!(matches!(&acts[0], Action::Deliver { target: 1, event: ServerEvent::Error { message, .. } }
        if message == "You cannot send an empty message"));
    let acts = handle_private_message(&st, 1, &s(" x "), &s("alice"), &s("t0"));
    assert!(matches!(&acts[0], Action::Deliver { target: 1, event: ServerEvent::Error { message, .. } }
        if message == "You cannot send a private message to yourself"));
}

#[test]
fn abrupt_disconnect_updates_remaining_members() {
    let mut st = AppState::new();
    add(&mut st, 1, 10, "alice", "Alice");
    add(&mut st, 2, 20, "bob", "Bob");
    handle_join_room(&mut st, 1, &s("lobby"));
    handle_join_room(&mut st, 2, &s("lobby"));
    let mut sup = Supervisor::new(1);
    let step = sup.step(Trigger::ReadEnded, &mut st);
    assert!(step.closed);
    let to_b = events_to(&step.actions, 2);
    assert!(to_b.iter().any(|e| matches!(e, ServerEvent::RoomUpdate { room_name, users }
        if room_name == "lobby" && user_names(users) == vec![s("bob")])));
    assert!(to_b.iter().any(|e| matches!(e, ServerEvent::UserStatusChanged { username, status }
        if username == "alice" && status == "offline")));
    assert_eq!(st.room_members(&s("lobby")), vec![2]);
    assert_eq!(st.users.len(), 1);
}

#[test]
fn heartbeat_timeout_closes_once() {
    let mut st = AppState::new();
    add(&mut st, 1, 10, "alice", "Alice");
    add(&mut st, 2, 20, "bob", "Bob");
    handle_subscribe(&mut st, 2, 10);
    let mut sup = Supervisor::new(1);
    let step = sup.step(Trigger::Tick(60_000), &mut st);
    assert!(!step.closed);
    assert!(matches!(&step.actions[..], [Action::Deliver { target: 1, event: ServerEvent::Ping }]));
    let step = sup.step(Trigger::Tick(60_001), &mut st);
    assert!(step.closed);
    let offline: Vec<_> = events_to(&step.actions, 2)
        .into_iter()
        .filter(|e| matches!(e, ServerEvent::UserStatusUpdate { status } if status == "offline"))
        .collect();
    assert_eq!(offline.len(), 1);
    let persisted = step.actions.iter().filter(|a| matches!(a, Action::PersistStatus { .. })).count();
    assert_eq!(persisted, 1);
    let again = sup.step(Trigger::WriteEnded, &mut st);
    assert!(again.closed);
    assert!(again.actions.is_empty());
    assert!(sup.close(&mut st).is_empty());
    assert!(disconnect(1, &mut st).is_empty());
}

#[test]
fn pong_defers_the_timeout() {
    let mut st = AppState::new();
    add(&mut st, 1, 10, "alice", "Alice");
    handle_client_event(ClientEvent::Pong, &mut st, 1, 50_000);
    assert_eq!(st.users[0].last_heartbeat, 50_000);
    let mut sup = Supervisor::new(1);
    let step = sup.step(Trigger::Tick(100_000), &mut st);
    assert!(!step.closed);
}

#[test]
fn teardown_clears_rooms_and_subscriptions() {
    let mut st = AppState::new();
    add(&mut st, 1, 10, "alice", "Alice");
    add(&mut st, 2, 20, "bob", "Bob");
    handle_join_room(&mut st, 1, &s("solo"));
    handle_subscribe(&mut st, 1, 20);
    handle_subscribe(&mut st, 1, 30);
    let rooms = st.remove_session(1);
    assert_eq!(rooms, vec![s("solo")]);
    assert!(st.rooms.is_empty());
    assert!(st.profile_subscribers.is_empty());
    assert!(st.remove_session(1).is_empty());
}

#[test]
fn last_leave_deletes_room_and_leave_is_idempotent() {
    let mut st = AppState::new();
    add(&mut st, 1, 10, "alice", "Alice");
    handle_join_room(&mut st, 1, &s("lobby"));
    handle_leave_room(&mut st, 1, &s("lobby"));
    assert!(st.rooms.is_empty());
    assert!(st.users[0].rooms.is_empty());
    let acts = handle_leave_room(&mut st, 1, &s("lobby"));
    assert!(acts.is_empty());
    assert!(st.rooms.is_empty());
}

#[test]
fn unsubscribe_twice_is_once() {
    let mut st = AppState::new();
    add(&mut st, 1, 10, "alice", "Alice");
    add(&mut st, 2, 20, "bob", "Bob");
    handle_subscribe(&mut st, 1, 7);
    handle_subscribe(&mut st, 1, 7);
    handle_subscribe(&mut st, 2, 7);
    assert_eq!(st.subscribers_of(7), vec![1, 2]);
    handle_unsubscribe(&mut st, 1, 7);
    assert_eq!(st.subscribers_of(7), vec![2]);
    handle_unsubscribe(&mut st, 1, 7);
    assert_eq!(st.subscribers_of(7), vec![2]);
    handle_unsubscribe(&mut st, 2, 7);
    assert!(st.profile_subscribers.is_empty());
}

#[test]
fn broadcasts_skip_the_sender() {
    let mut st = AppState::new();
    add(&mut st, 1, 10, "alice", "Alice");
    add(&mut st, 2, 20, "bob", "Bob");
    add(&mut st, 3, 30, "carol", "Carol");
    handle_join_room(&mut st, 1, &s("lobby"));
    handle_join_room(&mut st, 2, &s("lobby"));
    let acts = handle_server_broadcast(&st, 1, &s("hello"), &s("t0"));
    let mut targets: Vec<u128> = acts.iter().map(|a| match a {
        Action::Deliver { target, .. } => *target,
        _ => panic!("not a delivery"),
    }).collect();
    targets.sort();
    assert_eq!(targets, vec![2, 3]);
    let acts = handle_room_broadcast(&st, 1, &s("hey"), &s("lobby"), &s("t0"));
    assert!(matches!(&acts[0], Action::PersistMessage { room_name, user_id: 10, content } if room_name == "lobby" && content == "hey"));
    assert_eq!(acts.len(), 2);
    assert!(matches!(&acts[1], Action::Deliver { target: 2, event: ServerEvent::SendMessage { payload, from_id: 1, .. } } if payload == "hey"));
}

#[test]
fn send_message_echoes_to_sender() {
    let mut st = AppState::new();
    add(&mut st, 1, 10, "alice", "Alice");
    add(&mut st, 2, 20, "bob", "Bob");
    let acts = handle_client_event(ClientEvent::SendMessage(s("yo")), &mut st, 1, 0);
    assert_eq!(acts.len(), 1);
    assert!(matches!(&acts[0], Action::Deliver { target: 1, event: ServerEvent::SendMessage { payload, from_username, created_at, .. } }
        if payload == "yo" && from_username == "alice" && !created_at.is_empty()));
}

#[test]
fn change_displayname_notifies_everyone_concerned() {
    let mut st = AppState::new();
    add(&mut st, 1, 10, "alice", "Alice");
    add(&mut st, 2, 20, "bob", "Bob");
    handle_join_room(&mut st, 1, &s("lobby"));
    handle_join_room(&mut st, 2, &s("lobby"));
    handle_subscribe(&mut st, 2, 10);
    let acts = handle_change_displayname(&mut st, 1, &s("Ally"));
    assert!(matches!(&acts[0], Action::UpdateDisplayname { user_id: 10, display_name } if display_name == "Ally"));
    assert_eq!(st.users[0].display_name, "Ally");
    assert!(events_to(&acts, 2).iter().any(|e| matches!(e, ServerEvent::DisplaynameChanged { old_name, new_name } if old_name == "Alice" && new_name == "Ally")));
    assert!(events_to(&acts, 2).iter().any(|e| matches!(e, ServerEvent::RoomUpdate { room_name, .. } if room_name == "lobby")));
    assert!(matches!(acts.last(), Some(Action::Deliver { target: 1, event: ServerEvent::DisplaynameChanged { .. } })));
    assert!(handle_change_displayname(&mut st, 1, &s("Ally")).is_empty());
    let acts = handle_change_displayname(&mut st, 1, &s("   "));
    assert!(matches!(&acts[0], Action::Deliver { target: 1, event: ServerEvent::Error { code, message } } if code == "400" && message == "Display name cannot be empty"));
}

#[test]
fn lookups_answer_the_requester() {
    let mut st = AppState::new();
    add(&mut st, 1, 10, "alice", "Alice");
    add(&mut st, 2, 20, "bob", "Bob");
    handle_join_room(&mut st, 2, &s("den"));
    let acts = handle_get_username_from_displayname(&st, 1, &s("Bob"));
    assert!(matches!(&acts[0], Action::Deliver { target: 1, event: ServerEvent::RecieveUsername { username } } if username == "bob"));
    let acts = handle_get_username_from_displayname(&st, 1, &s("Zed"));
    assert!(matches!(&acts[0], Action::Deliver { target: 1, event: ServerEvent::RecieveUsername { username } } if username == "Unknown"));
    let acts = handle_get_room_list(&st, 1);
    assert!(matches!(&acts[0], Action::Deliver { target: 1, event: ServerEvent::RoomList { rooms } } if rooms.len() == 1 && rooms[0].name == "den" && rooms[0].count == 1));
    let acts = handle_client_event(ClientEvent::GetRoomUsers(s("den")), &mut st, 1, 0);
    assert!(matches!(&acts[0], Action::FetchRoomMembers { target: 1, room_name } if room_name == "den"));
}

#[test]
fn directory_failures_map_to_errors() {
    let r = fetch_room_messages(&s("x"), Fetched::Refused);
    assert!(matches!(r, Some(ServerEvent::Error { code, message }) if code == "404" && message == "Room not found"));
    let r = fetch_room_messages(&s("x"), Fetched::Unreachable);
    assert!(matches!(r, Some(ServerEvent::Error { code, message }) if code == "500" && message == "Failed to fetch messages"));
    assert!(fetch_room_messages(&s("x"), Fetched::Unreadable).is_none());
    let r = fetch_and_send_room_members(&s("x"), Fetched::Unreachable);
    assert!(matches!(r, Some(ServerEvent::Error { code, message }) if code == "500" && message == "Failed to fetch room users"));
}

#[test]
fn register_mints_fresh_ids_and_welcome_announces_it() {
    let mut st = AppState::new();
    let ident = |n: &str| Identity { db_user_id: 5, username: s(n), display_name: s(n), avatar_url: None };
    let a = register(&mut st, ident("a"), 0).unwrap();
    let b = register(&mut st, ident("b"), 0).unwrap();
    assert_ne!(a, b);
    assert_eq!(st.users[0].status, "online");
    let acts = welcome(&mut st, a);
    let expected = format!("{:032x}", a);
    let expected = format!("{}-{}-{}-{}-{}", &expected[0..8], &expected[8..12], &expected[12..16], &expected[16..20], &expected[20..32]);
    assert!(matches!(acts.last(), Some(Action::Deliver { target, event: ServerEvent::IdentityAnnounced { payload } }) if *target == a && *payload == expected));
    assert!(!st.insert_session(a, 1, s("c"), s("c"), None, 0));
}

#[test]
fn directory_answers_fill_defaults() {
    assert!(token_present(&s("tok")));
    assert!(!token_present(&s("")));
    assert!(identity_from_answer(Some(false), Some(1), None, None, None).is_none());
    assert!(identity_from_answer(None, Some(1), None, None, None).is_none());
    let id = identity_from_answer(Some(true), None, None, None, None).unwrap();
    assert_eq!(id.db_user_id, 0);
    assert_eq!(id.username, "Anonymous");
    assert_eq!(id.display_name, "Anonymous");
    let id = identity_from_answer(Some(true), Some(7), Some(s("u")), None, Some(s("a.png"))).unwrap();
    assert_eq!((id.db_user_id, id.display_name.as_str(), id.avatar_url.as_deref()), (7, "u", Some("a.png")));
    let u = room_user_from_fields(Some(s("x")), None, None, None).unwrap();
    assert_eq!((u.display_name.as_str(), u.status.as_str()), ("x", "online"));
    assert!(room_user_from_fields(None, Some(s("X")), None, None).is_none());
    let m = room_message_from_fields(Some(3), Some(s("c")), Some(s("t")), None, None, Some(9), Some(s("w")), None, None).unwrap();
    assert_eq!((m.id, m.message_type.as_str(), m.user.id, m.user.display_name.as_str()), (3, "text", 9, "w"));
    assert!(room_message_from_fields(Some(3), None, Some(s("t")), None, None, Some(9), Some(s("w")), None, None).is_none());
}

#[test]
fn late_frame_from_removed_session_does_nothing() {
    let mut st = AppState::new();
    add(&mut st, 1, 10, "alice", "Alice");
    add(&mut st, 2, 20, "bob", "Bob");
    disconnect(1, &mut st);
    let acts = handle_client_event(ClientEvent::ServerBroadcast { payload: s("late") }, &mut st, 1, 0);
    assert!(acts.is_empty());
    let acts = handle_client_event(ClientEvent::JoinRoom(s("lobby")), &mut st, 1, 0);
    assert!(acts.is_empty());
    assert!(st.rooms.is_empty());
}

#[test]
fn session_ids_are_never_reused() {
    let mut st = AppState::new();
    add(&mut st, 5, 10, "alice", "Alice");
    st.remove_session(5);
    assert!(!st.insert_session(5, 10, s("alice"), s("Alice"), None, 1));
    assert!(st.users.is_empty());
    assert_eq!(st.issued, vec![5]);
}

#[test]
fn status_names_are_the_four_lowercase_words() {
    assert!(is_status_name(&s("online")));
    assert!(is_status_name(&s("busy")));
    assert!(!is_status_name(&s("Busy")));
    assert!(!is_status_name(&s("")));
}

#[test]
fn dispatcher_reports_private_message_to_unknown_user() {
    let mut st = AppState::new();
    add(&mut st, 1, 10, "alice", "Alice");
    let acts = handle_client_event(
        ClientEvent::PrivateMessage { payload: s("hi"), target_username: s("B") },
        &mut st,
        1,
        0,
    );
    assert_eq!(acts.len(), 1);
    assert!(matches!(&acts[0], Action::Deliver { target: 1, event: ServerEvent::Error { code, message } }
        if code == "400" && message == "User is offline or not found"));
}
