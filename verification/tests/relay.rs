use chat_relay::server::{ChatServer, ClientMessage, Delivery, Disconnect, ListRooms, Request, Response};
use chat_relay::session::{Action, Frame, Phase, WsChatSession, CLIENT_TIMEOUT};
use chat_relay::text::{trim, usize_to_string};

fn flat(out: &[Delivery]) -> Vec<(usize, String)> {
    out.iter().map(|d| (d.to, d.msg.0.clone())).collect()
}

#[test]
fn text_helpers() {
    assert_eq!(trim("  hi  "), "hi");
    assert_eq!(trim("\t/join test \n"), "/join test");
    assert_eq!(trim("   "), "");
    assert_eq!(usize_to_string(0), "0");
    assert_eq!(usize_to_string(12345), "12345");
}

#[test]
fn new_registry_has_default_room() {
    let s = ChatServer::new();
    assert_eq!(s.rooms.len(), 1);
    assert_eq!(s.rooms[0].name, "Main");
    assert!(s.rooms[0].members.is_empty());
    assert_eq!(s.visitor_count, 0);
}

#[test]
fn connect_broadcasts_and_registers() {
    let mut s = ChatServer::new();
    // First connect: the join notice goes to an empty room; the visitor
    // notice (pre-increment count) reaches the new session itself.
    let out1 = s.connect_with_id(1);
    assert_eq!(flat(&out1), vec![(1, "Total visitors 0".to_string())]);
    assert_eq!(s.sessions, vec![1]);
    assert_eq!(s.rooms[0].members, vec![1]);
    // Second connect: the join notice goes out before registration, so the
    // new id does not see it, while the visitor notice reaches everyone.
    let out2 = s.connect_with_id(2);
    assert_eq!(
        flat(&out2),
        vec![
            (1, "Someone joined".to_string()),
            (1, "Total visitors 1".to_string()),
            (2, "Total visitors 1".to_string()),
        ]
    );
    assert_eq!(s.sessions, vec![1, 2]);
    assert_eq!(s.visitor_count, 2);
}

#[test]
fn connect_with_colliding_id_keeps_ids_unique() {
    let mut s = ChatServer::new();
    s.connect_with_id(1);
    s.connect_with_id(1);
    assert_eq!(s.sessions, vec![1]);
    assert_eq!(s.rooms[0].members, vec![1]);
}

#[test]
fn join_moves_between_rooms() {
    let mut s = ChatServer::new();
    s.connect_with_id(1);
    s.connect_with_id(2);
    // 1 leaves Main (2 is told, nobody excluded) and founds "test".
    let out = s.join(1, "test");
    assert_eq!(flat(&out), vec![(2, "Someone disconnected".to_string())]);
    assert_eq!(s.rooms.len(), 2);
    assert_eq!(s.rooms[1].name, "test");
    assert_eq!(s.rooms[1].members, vec![1]);
    // 2 follows; only 1 is told of the arrival, not 2 itself.
    let out = s.join(2, "test");
    assert_eq!(flat(&out), vec![(1, "Someone connected".to_string())]);
    assert_eq!(s.rooms[1].members, vec![1, 2]);
    // The vacated Main room stays, empty.
    assert_eq!(s.rooms[0].name, "Main");
    assert!(s.rooms[0].members.is_empty());
}

#[test]
fn join_leaves_exactly_one_membership() {
    let mut s = ChatServer::new();
    s.connect_with_id(5);
    s.join(5, "a");
    s.join(5, "b");
    let holding: Vec<&str> = s
        .rooms
        .iter()
        .filter(|r| r.members.contains(&5))
        .map(|r| r.name.as_str())
        .collect();
    assert_eq!(holding, vec!["b"]);
}

#[test]
fn broadcast_skips_sender_and_unknown_rooms() {
    let mut s = ChatServer::new();
    s.connect_with_id(1);
    s.connect_with_id(2);
    s.connect_with_id(3);
    let out = s.client_message(1, "hi", "Main");
    assert_eq!(
        flat(&out),
        vec![(2, "hi".to_string()), (3, "hi".to_string())]
    );
    let out = s.client_message(1, "hi", "nosuchroom");
    assert!(out.is_empty());
    let out = s.chess_game(2, "e2e4", "Main");
    assert_eq!(
        flat(&out),
        vec![(1, "e2e4".to_string()), (3, "e2e4".to_string())]
    );
}

#[test]
fn disconnect_twice_is_silent() {
    let mut s = ChatServer::new();
    s.connect_with_id(1);
    s.connect_with_id(2);
    let out = s.disconnect(1);
    assert_eq!(flat(&out), vec![(2, "Someone disconnected".to_string())]);
    assert_eq!(s.sessions, vec![2]);
    let rooms_before: Vec<(String, Vec<usize>)> = s
        .rooms
        .iter()
        .map(|r| (r.name.clone(), r.members.clone()))
        .collect();
    let out = s.disconnect(1);
    assert!(out.is_empty());
    assert_eq!(s.sessions, vec![2]);
    let rooms_after: Vec<(String, Vec<usize>)> = s
        .rooms
        .iter()
        .map(|r| (r.name.clone(), r.members.clone()))
        .collect();
    assert_eq!(rooms_before, rooms_after);
}

#[test]
fn list_rooms_snapshot() {
    let mut s = ChatServer::new();
    s.connect_with_id(1);
    s.join(1, "test");
    let names = s.list_rooms();
    assert_eq!(names, vec!["Main".to_string(), "test".to_string()]);
}

#[test]
fn handle_serializes_requests() {
    let mut s = ChatServer::new();
    s.connect_with_id(9);
    let (resp, out) = s.handle(Request::ListRooms(ListRooms {}));
    assert!(out.is_empty());
    match resp {
        Response::Rooms(names) => assert_eq!(names, vec!["Main".to_string()]),
        _ => panic!("expected a room list"),
    }
    let (resp, out) = s.handle(Request::ClientMessage(ClientMessage {
        id: 7,
        msg: "hi".to_string(),
        room: "Main".to_string(),
    }));
    assert!(matches!(resp, Response::Empty));
    assert_eq!(flat(&out), vec![(9, "hi".to_string())]);
    let (resp, _) = s.handle(Request::Disconnect(Disconnect { id: 9 }));
    assert!(matches!(resp, Response::Empty));
    assert!(s.sessions.is_empty());
}

#[test]
fn session_connects_then_activates() {
    let mut sess = WsChatSession::new(0);
    assert!(matches!(sess.phase, Phase::Connecting));
    let acts = sess.started();
    assert_eq!(acts.len(), 1);
    assert!(matches!(
        &acts[0],
        Action::ToServer(Request::Connect(_))
    ));
    let acts = sess.on_connect_ack(Some(7));
    assert!(acts.is_empty());
    assert_eq!(sess.id, 7);
    assert!(matches!(sess.phase, Phase::Active));
}

#[test]
fn heartbeat_times_out_after_threshold() {
    let mut sess = WsChatSession::new(0);
    sess.on_connect_ack(Some(7));
    // At the threshold: still alive, a ping goes out.
    let acts = sess.hb_tick(CLIENT_TIMEOUT);
    assert_eq!(acts.len(), 1);
    assert!(matches!(acts[0], Action::SendPing));
    assert!(matches!(sess.phase, Phase::Active));
    // One tick past the deadline: disconnect and stop.
    let acts = sess.hb_tick(CLIENT_TIMEOUT + 1);
    assert_eq!(acts.len(), 2);
    match &acts[0] {
        Action::ToServer(Request::Disconnect(d)) => assert_eq!(d.id, 7),
        _ => panic!("expected a disconnect request"),
    }
    assert!(matches!(acts[1], Action::Stop));
    assert!(matches!(sess.phase, Phase::Closed));
}

#[test]
fn ping_refreshes_liveness_and_echoes() {
    let mut sess = WsChatSession::new(0);
    sess.on_connect_ack(Some(7));
    let acts = sess.handle(Frame::Ping(vec![1, 2]), 4);
    assert_eq!(sess.hb, 4);
    assert_eq!(acts.len(), 1);
    match &acts[0] {
        Action::SendPong(p) => assert_eq!(p, &vec![1, 2]),
        _ => panic!("expected a pong"),
    }
    let acts = sess.handle(Frame::Pong, 6);
    assert!(acts.is_empty());
    assert_eq!(sess.hb, 6);
}

#[test]
fn join_command_switches_room() {
    let mut sess = WsChatSession::new(0);
    sess.on_connect_ack(Some(7));
    let acts = sess.handle(Frame::Text("/join test".to_string()), 1);
    assert_eq!(acts.len(), 2);
    match &acts[0] {
        Action::ToServer(Request::Join(j)) => {
            assert_eq!(j.id, 7);
            assert_eq!(j.name, "test");
        }
        _ => panic!("expected a join request"),
    }
    match &acts[1] {
        Action::SendText(t) => assert_eq!(t, "joined"),
        _ => panic!("expected the joined reply"),
    }
    assert_eq!(sess.room, "test");
}

#[test]
fn join_without_room_name_is_an_error() {
    let mut sess = WsChatSession::new(0);
    sess.on_connect_ack(Some(7));
    let acts = sess.handle(Frame::Text("/join".to_string()), 1);
    assert_eq!(acts.len(), 1);
    match &acts[0] {
        Action::SendText(t) => assert_eq!(t, "!!! room name is required"),
        _ => panic!("expected the error text"),
    }
    assert_eq!(sess.room, "");
}

#[test]
fn name_then_chat_prefixes_display_name() {
    let mut sess = WsChatSession::new(0);
    sess.on_connect_ack(Some(7));
    sess.handle(Frame::Text("/join test".to_string()), 1);
    let acts = sess.handle(Frame::Text("/name bob".to_string()), 1);
    assert!(acts.is_empty());
    assert_eq!(sess.name.as_deref(), Some("bob"));
    let acts = sess.handle(Frame::Text("hello".to_string()), 1);
    assert_eq!(acts.len(), 1);
    match &acts[0] {
        Action::ToServer(Request::ClientMessage(cm)) => {
            assert_eq!(cm.id, 7);
            assert_eq!(cm.msg, "bob: hello");
            assert_eq!(cm.room, "test");
        }
        _ => panic!("expected a chat broadcast request"),
    }
}

#[test]
fn name_without_argument_is_an_error() {
    let mut sess = WsChatSession::new(0);
    sess.on_connect_ack(Some(7));
    let acts = sess.handle(Frame::Text("/name".to_string()), 1);
    assert_eq!(acts.len(), 1);
    match &acts[0] {
        Action::SendText(t) => assert_eq!(t, "!!! name is required"),
        _ => panic!("expected the error text"),
    }
    assert!(sess.name.is_none());
}

#[test]
fn unknown_command_is_echoed() {
    let mut sess = WsChatSession::new(0);
    sess.on_connect_ack(Some(7));
    let acts = sess.handle(Frame::Text("/frobnicate now".to_string()), 1);
    assert_eq!(acts.len(), 1);
    match &acts[0] {
        Action::SendText(t) => assert_eq!(t, "!!! unknown command: \"/frobnicate now\""),
        _ => panic!("expected the error text"),
    }
}

#[test]
fn chess_step_forwards_payload() {
    let mut sess = WsChatSession::new(0);
    sess.on_connect_ack(Some(7));
    sess.handle(Frame::Text("/join test".to_string()), 1);
    let acts = sess.handle(Frame::Text("/chess_step e2e4".to_string()), 1);
    assert_eq!(acts.len(), 1);
    match &acts[0] {
        Action::ToServer(Request::ChessGame(g)) => {
            assert_eq!(g.id, 7);
            assert_eq!(g.step, "e2e4");
            assert_eq!(g.room, "test");
        }
        _ => panic!("expected a game-step request"),
    }
    let acts = sess.handle(Frame::Text("/chess_step".to_string()), 1);
    assert_eq!(acts.len(), 1);
    match &acts[0] {
        Action::SendText(t) => assert_eq!(t, "step is wrong"),
        _ => panic!("expected the error text"),
    }
}

#[test]
fn list_suspends_until_the_reply() {
    let mut sess = WsChatSession::new(0);
    sess.on_connect_ack(Some(7));
    let acts = sess.handle(Frame::Text("/list".to_string()), 1);
    assert_eq!(acts.len(), 1);
    assert!(matches!(
        &acts[0],
        Action::ToServer(Request::ListRooms(_))
    ));
    // Suspended: no inbound frame may be processed until the reply.
    assert!(matches!(sess.phase, Phase::AwaitingList));
    let acts = sess.on_list_rooms(Some(vec!["Main".to_string(), "test".to_string()]));
    assert_eq!(acts.len(), 2);
    match (&acts[0], &acts[1]) {
        (Action::SendText(a), Action::SendText(b)) => {
            assert_eq!(a, "Main");
            assert_eq!(b, "test");
        }
        _ => panic!("expected one text frame per room"),
    }
    assert!(matches!(sess.phase, Phase::Active));
}

#[test]
fn close_and_errors_end_the_session() {
    let mut sess = WsChatSession::new(0);
    sess.on_connect_ack(Some(7));
    let acts = sess.handle(Frame::Close, 1);
    assert_eq!(acts.len(), 2);
    assert!(matches!(acts[0], Action::EchoClose));
    assert!(matches!(acts[1], Action::Stop));
    assert!(matches!(sess.phase, Phase::Closed));

    let mut sess = WsChatSession::new(0);
    sess.on_connect_ack(Some(8));
    let acts = sess.handle(Frame::Invalid, 1);
    assert_eq!(acts.len(), 1);
    assert!(matches!(acts[0], Action::Stop));
    assert!(matches!(sess.phase, Phase::Closed));

    let mut sess = WsChatSession::new(0);
    sess.on_connect_ack(Some(9));
    let acts = sess.stopping();
    assert_eq!(acts.len(), 1);
    match &acts[0] {
        Action::ToServer(Request::Disconnect(d)) => assert_eq!(d.id, 9),
        _ => panic!("expected a disconnect request"),
    }
}

#[test]
fn binary_frames_are_ignored() {
    let mut sess = WsChatSession::new(0);
    sess.on_connect_ack(Some(7));
    let acts = sess.handle(Frame::Binary, 1);
    assert!(acts.is_empty());
    assert!(matches!(sess.phase, Phase::Active));
}

#[test]
fn chat_before_any_join_reaches_nobody() {
    // The session's room field starts empty; "" names no real room, so the
    // registry drops the broadcast.
    let mut server = ChatServer::new();
    server.connect_with_id(1);
    server.connect_with_id(2);
    let mut sess = WsChatSession::new(0);
    sess.on_connect_ack(Some(1));
    let acts = sess.handle(Frame::Text("early".to_string()), 1);
    match &acts[0] {
        Action::ToServer(Request::ClientMessage(cm)) => {
            let out = server.client_message(cm.id, &cm.msg, &cm.room);
            assert!(out.is_empty());
        }
        _ => panic!("expected a chat broadcast request"),
    }
}

#[test]
fn two_sessions_chat_in_a_room() {
    // End to end: A and B connect (auto-joined to Main), both join "test",
    // A says "hi"; B receives it and A does not see its own message.
    let mut server = ChatServer::new();
    let mut a = WsChatSession::new(0);
    let mut b = WsChatSession::new(0);
    a.on_connect_ack(Some(10));
    server.connect_with_id(10);
    b.on_connect_ack(Some(20));
    server.connect_with_id(20);

    for sess in [&mut a, &mut b] {
        let acts = sess.handle(Frame::Text("/join test".to_string()), 1);
        match &acts[0] {
            Action::ToServer(Request::Join(j)) => {
                server.join(j.id, &j.name);
            }
            _ => panic!("expected a join request"),
        }
    }
    let acts = a.handle(Frame::Text("hi".to_string()), 2);
    let out = match &acts[0] {
        Action::ToServer(Request::ClientMessage(cm)) => {
            server.client_message(cm.id, &cm.msg, &cm.room)
        }
        _ => panic!("expected a chat broadcast request"),
    };
    assert_eq!(flat(&out), vec![(20, "hi".to_string())]);
    assert!(out.iter().all(|d| d.to != 10));
}
