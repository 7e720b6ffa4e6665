use chat_server::ids::LOBBY_ROOM_ID;
use chat_server::session::{
    parse_command, ClientCommand, Phase, Request, Tick, WsChatSession, CLIENT_TIMEOUT_MS,
};

fn s(t: &str) -> String {
    t.to_string()
}

fn active(id: &str) -> WsChatSession {
    let mut w = WsChatSession::new(s(id), 0);
    w.started();
    w
}

#[test]
fn parse_plain_commands() {
    assert_eq!(parse_command("/list"), ClientCommand::List);
    assert_eq!(parse_command("/list extra"), ClientCommand::List);
    assert_eq!(parse_command("  /ack \t"), ClientCommand::Ack);
    assert_eq!(parse_command("/rm_ack"), ClientCommand::RemoveAck);
    assert_eq!(parse_command("/create"), ClientCommand::Create(false));
    assert_eq!(parse_command("/create named"), ClientCommand::Create(true));
}

#[test]
fn parse_join_reads_a_uuid() {
    assert_eq!(
        parse_command("/join 67e55044-10b1-426f-9247-bb680e5fe0c8"),
        ClientCommand::Join(Some(0x67e5_5044_10b1_426f_9247_bb68_0e5f_e0c8))
    );
    assert_eq!(parse_command("/join lobby"), ClientCommand::Join(None));
    assert_eq!(parse_command("/join"), ClientCommand::Join(None));
}

#[test]
fn parse_name_and_number() {
    assert_eq!(parse_command("/name Bob Smith"), ClientCommand::Name(Some(s("Bob Smith"))));
    assert_eq!(parse_command("/name"), ClientCommand::Name(None));
    assert_eq!(parse_command("/set_num 4"), ClientCommand::SetNum(Some(4)));
    assert_eq!(parse_command("/set_num +12"), ClientCommand::SetNum(Some(12)));
    assert_eq!(parse_command("/set_num 0"), ClientCommand::SetNum(Some(0)));
    assert_eq!(parse_command("/set_num four"), ClientCommand::SetNum(None));
    assert_eq!(parse_command("/set_num -1"), ClientCommand::SetNum(None));
    assert_eq!(parse_command("/set_num +"), ClientCommand::SetNum(None));
    assert_eq!(
        parse_command("/set_num 99999999999999999999999999"),
        ClientCommand::SetNum(None)
    );
    assert_eq!(parse_command("/set_num"), ClientCommand::SetNum(None));
}

#[test]
fn parse_chat_and_unknown() {
    assert_eq!(parse_command("  hello world \n"), ClientCommand::Chat(s("hello world")));
    assert_eq!(parse_command(""), ClientCommand::Chat(s("")));
    assert_eq!(parse_command("\u{3000}hi\u{a0}"), ClientCommand::Chat(s("hi")));
    assert_eq!(parse_command(" /dance now "), ClientCommand::Unknown(s("/dance now")));
    assert_eq!(parse_command("/"), ClientCommand::Unknown(s("/")));
}

#[test]
fn new_session_starts_in_the_lobby() {
    let w = WsChatSession::new(s("u1"), 7);
    assert_eq!(w.room_id, LOBBY_ROOM_ID);
    assert_eq!(w.user_name, "");
    assert_eq!(w.hb_timestamp, 7);
    assert_eq!(w.phase, Phase::Connecting);
    let mut w = w;
    w.started();
    assert_eq!(w.phase, Phase::Active);
}

#[test]
fn create_moves_the_session_to_the_new_room() {
    let mut w = active("u1");
    let r = w.handle_command(ClientCommand::Create(false), 0x1234);
    assert_eq!(w.room_id, 0x1234);
    assert_eq!(
        r.replies,
        vec![
            s("created room successfully"),
            s("new room_id: 00000000-0000-0000-0000-000000001234")
        ]
    );
    match r.request {
        Some(Request::Create(c)) => {
            assert_eq!(c.user_id, "u1");
            assert_eq!(c.current_room_id, LOBBY_ROOM_ID);
            assert_eq!(c.new_room_id, 0x1234);
        }
        _ => panic!("expected a create request"),
    }
}

#[test]
fn create_draws_a_random_room_id() {
    let mut w = active("u1");
    let r = w.handle_text("/create");
    assert_ne!(w.room_id, LOBBY_ROOM_ID);
    assert_eq!((w.room_id >> 76) & 0xf, 4);
    assert_eq!((w.room_id >> 62) & 0x3, 2);
    match r.request {
        Some(Request::Create(c)) => assert_eq!(c.new_room_id, w.room_id),
        _ => panic!("expected a create request"),
    }
    let other = active("u2").handle_text("/create");
    assert!(other.request.is_some());
}

#[test]
fn create_with_an_argument_is_refused() {
    let mut w = active("u1");
    let r = w.handle_text("/create mine");
    assert!(r.request.is_none());
    assert_eq!(r.replies, vec![s("!!! room name is required")]);
    assert_eq!(w.room_id, LOBBY_ROOM_ID);
}

#[test]
fn join_moves_the_session_optimistically() {
    let mut w = active("u1");
    let r = w.handle_text("/join 67e55044-10b1-426f-9247-bb680e5fe0c8");
    assert_eq!(w.room_id, 0x67e5_5044_10b1_426f_9247_bb68_0e5f_e0c8);
    assert!(r.replies.is_empty());
    match r.request {
        Some(Request::Join(j)) => {
            assert_eq!(j.current_room_id, LOBBY_ROOM_ID);
            assert_eq!(j.join_room_id, 0x67e5_5044_10b1_426f_9247_bb68_0e5f_e0c8);
        }
        _ => panic!("expected a join request"),
    }
}

#[test]
fn join_without_a_valid_id_replies_an_error() {
    let mut w = active("u1");
    let r = w.handle_text("/join");
    assert_eq!(r.replies, vec![s("!!! room name is required")]);
    let r = w.handle_text("/join not-a-uuid");
    assert_eq!(r.replies, vec![s("!!! room name is required")]);
    assert!(r.request.is_none());
    assert_eq!(w.room_id, LOBBY_ROOM_ID);
}

#[test]
fn name_is_set_and_used() {
    let mut w = active("u1");
    assert_eq!(w.handle_text("/name").replies, vec![s("!!! name is required")]);
    let r = w.handle_text("/name alice");
    assert!(r.request.is_none() && r.replies.is_empty());
    assert_eq!(w.user_name, "alice");
    match w.handle_text("hi all").request {
        Some(Request::Chat(m)) => {
            assert_eq!(m.user_id, "u1");
            assert_eq!(m.user_name, "alice");
            assert_eq!(m.msg, "hi all");
            assert_eq!(m.room, LOBBY_ROOM_ID);
        }
        _ => panic!("expected a chat request"),
    }
}

#[test]
fn barrier_commands_become_requests() {
    let mut w = active("u1");
    match w.handle_text("/ack").request {
        Some(Request::Ack(a)) => assert_eq!((a.user_id, a.room_id), (s("u1"), LOBBY_ROOM_ID)),
        _ => panic!("expected an ack"),
    }
    match w.handle_text("/rm_ack").request {
        Some(Request::AckCancel(a)) => assert_eq!(a.user_id, "u1"),
        _ => panic!("expected an ack cancel"),
    }
    match w.handle_text("/set_num 2").request {
        Some(Request::SetNum(n)) => assert_eq!((n.cap_number, n.room_id), (2, LOBBY_ROOM_ID)),
        _ => panic!("expected a capacity"),
    }
    let bad = w.handle_text("/set_num x");
    assert!(bad.request.is_none());
    assert_eq!(bad.replies, vec![s("!!! a number is required")]);
    assert!(matches!(w.handle_text("/list").request, Some(Request::ListRooms(_))));
}

#[test]
fn unknown_command_is_reported() {
    let mut w = active("u1");
    let r = w.handle_text("/dance");
    assert!(r.request.is_none());
    assert_eq!(r.replies, vec![s("!!! unknown command: /dance")]);
}

#[test]
fn heartbeat_timeout_closes_once() {
    let mut w = active("u1");
    assert!(matches!(w.check_heartbeat(5000), Tick::Ping));
    assert!(matches!(w.check_heartbeat(CLIENT_TIMEOUT_MS), Tick::Ping));
    w.heartbeat(4000);
    assert!(matches!(w.check_heartbeat(CLIENT_TIMEOUT_MS + 4000), Tick::Ping));
    match w.check_heartbeat(CLIENT_TIMEOUT_MS + 4001) {
        Tick::TimedOut(d) => assert_eq!(d.user_id, "u1"),
        _ => panic!("expected a timeout"),
    }
    assert_eq!(w.phase, Phase::Closed);
    assert!(matches!(w.check_heartbeat(CLIENT_TIMEOUT_MS + 9000), Tick::Stopped));
    assert!(w.stop().is_none());
    let r = w.handle_text("hello");
    assert!(r.request.is_none() && r.replies.is_empty());
}

#[test]
fn stop_disconnects_exactly_once() {
    let mut w = active("u1");
    match w.stop() {
        Some(d) => assert_eq!(d.user_id, "u1"),
        None => panic!("expected a disconnect"),
    }
    assert!(w.stop().is_none());
    assert_eq!(w.phase, Phase::Closed);
}
