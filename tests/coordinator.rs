use chat_server::ids::{format_decimal, LOBBY_ROOM_ID};
use chat_server::server::{
    Ack, AckCancel, ChatServer, ClientMessage, Connect, Create, Disconnect, Join, ListRooms,
    Outgoing, RoomError, SetNum,
};

const R1: u128 = 0x67e5_5044_10b1_426f_9247_bb68_0e5f_e0c8;
const LOBBY_TEXT: &str = "656e7472-795f-5f5f-5f5f-5f5f5f5f5f5f";

fn s(t: &str) -> String {
    t.to_string()
}

fn connect(srv: &mut ChatServer<u64>, id: &str, name: &str, addr: u64) -> Vec<Outgoing> {
    let (notices, _) = srv.handle_connect(Connect { user_id: s(id), user_name: s(name), addr });
    notices
}

fn create(srv: &mut ChatServer<u64>, id: &str, name: &str, room: u128) -> Result<(), RoomError> {
    srv.handle_create(Create {
        user_id: s(id),
        user_name: s(name),
        current_room_id: LOBBY_ROOM_ID,
        new_room_id: room,
    })
}

fn join(srv: &mut ChatServer<u64>, id: &str, name: &str, room: u128) -> Vec<Outgoing> {
    srv.handle_join(Join {
        user_id: s(id),
        user_name: s(name),
        current_room_id: LOBBY_ROOM_ID,
        join_room_id: room,
    })
}

fn ack(srv: &mut ChatServer<u64>, id: &str, room: u128) -> Vec<Outgoing> {
    srv.handle_ack(Ack { user_name: s("n"), user_id: s(id), room_id: room })
}

fn set_num(srv: &mut ChatServer<u64>, room: u128, n: usize) {
    srv.handle_set_num(SetNum { room_id: room, user_name: s("n"), cap_number: n });
}

fn members(srv: &ChatServer<u64>, room: u128) -> Vec<String> {
    srv.room(room).unwrap().users.iter().map(|u| u.user_id.clone()).collect()
}

fn acks(srv: &ChatServer<u64>, room: u128) -> Vec<String> {
    srv.room(room).unwrap().ack_stack.clone()
}

fn deliveries(out: &[Outgoing]) -> Vec<(String, String)> {
    out.iter().map(|o| (o.to.clone(), o.message.0.clone())).collect()
}

fn rooms_holding(srv: &ChatServer<u64>, id: &str) -> usize {
    srv.rooms().iter().filter(|r| r.users.iter().any(|u| u.user_id == id)).count()
}

#[test]
fn new_server_has_only_the_lobby() {
    let srv: ChatServer<u64> = ChatServer::new();
    assert_eq!(srv.rooms().len(), 1);
    let lobby = &srv.rooms()[0];
    assert_eq!(lobby.room_id, LOBBY_ROOM_ID);
    assert_eq!(lobby.owner.user_name, "admin");
    assert_eq!(lobby.owner.user_id, "admin_id");
    assert_eq!(lobby.max_cap, 0);
    assert!(lobby.users.is_empty());
}

#[test]
fn connect_lands_in_lobby() {
    let mut srv: ChatServer<u64> = ChatServer::new();
    let (notices, digest) =
        srv.handle_connect(Connect { user_id: s("u1"), user_name: s("alice"), addr: 1 });
    assert!(notices.is_empty());
    assert_eq!(members(&srv, LOBBY_ROOM_ID), vec![s("u1")]);
    assert!(srv.is_registered(&s("u1")));
    assert_eq!(digest.len(), 1);
    assert_eq!(digest[0].room_id, LOBBY_TEXT);
    assert_eq!(digest[0].owner.user_name, "admin");
    assert_eq!(digest[0].users.len(), 1);
    assert_eq!(digest[0].users[0].user_id, "u1");
    assert_eq!(digest[0].users[0].user_name, "alice");
}

#[test]
fn connect_tells_the_lobby() {
    let mut srv: ChatServer<u64> = ChatServer::new();
    connect(&mut srv, "u1", "alice", 1);
    let notices = connect(&mut srv, "u2", "bob", 2);
    assert_eq!(deliveries(&notices), vec![(s("u1"), s("bob joined"))]);
    assert_eq!(members(&srv, LOBBY_ROOM_ID), vec![s("u1"), s("u2")]);
}

#[test]
fn digest_lists_every_room_with_its_owner() {
    let mut srv: ChatServer<u64> = ChatServer::new();
    connect(&mut srv, "u1", "alice", 1);
    create(&mut srv, "u1", "alice", R1).unwrap();
    let (_, digest) =
        srv.handle_connect(Connect { user_id: s("u2"), user_name: s("bob"), addr: 2 });
    assert_eq!(digest.len(), 2);
    assert_eq!(digest[0].room_id, LOBBY_TEXT);
    assert_eq!(digest[0].users.len(), 1);
    assert_eq!(digest[0].users[0].user_id, "u2");
    assert_eq!(digest[1].room_id, "67e55044-10b1-426f-9247-bb680e5fe0c8");
    assert_eq!(digest[1].owner.user_name, "alice");
    assert_eq!(digest[1].users[0].user_id, "u1");
}

#[test]
fn reconnect_replaces_the_handle() {
    let mut srv: ChatServer<u64> = ChatServer::new();
    connect(&mut srv, "u1", "alice", 1);
    create(&mut srv, "u1", "alice", R1).unwrap();
    connect(&mut srv, "u1", "alice", 9);
    assert_eq!(srv.handle_of(&s("u1")), Some(&9));
    assert_eq!(rooms_holding(&srv, "u1"), 1);
    assert_eq!(members(&srv, LOBBY_ROOM_ID), vec![s("u1")]);
    assert!(members(&srv, R1).is_empty());
}

#[test]
fn create_room_moves_the_creator() {
    let mut srv: ChatServer<u64> = ChatServer::new();
    connect(&mut srv, "u1", "alice", 1);
    assert_eq!(create(&mut srv, "u1", "alice", R1), Ok(()));
    let room = srv.room(R1).unwrap();
    assert_eq!(room.owner.user_name, "alice");
    assert_eq!(room.owner.user_id, "u1");
    assert_eq!(room.max_cap, 3);
    assert_eq!(members(&srv, R1), vec![s("u1")]);
    assert!(members(&srv, LOBBY_ROOM_ID).is_empty());
}

#[test]
fn create_with_a_taken_id_is_refused() {
    let mut srv: ChatServer<u64> = ChatServer::new();
    connect(&mut srv, "u1", "alice", 1);
    connect(&mut srv, "u2", "bob", 2);
    create(&mut srv, "u1", "alice", R1).unwrap();
    assert_eq!(create(&mut srv, "u2", "bob", R1), Err(RoomError::RoomExists));
    assert_eq!(create(&mut srv, "u2", "bob", LOBBY_ROOM_ID), Err(RoomError::RoomExists));
    assert_eq!(members(&srv, LOBBY_ROOM_ID), vec![s("u2")]);
    assert_eq!(members(&srv, R1), vec![s("u1")]);
    assert_eq!(srv.rooms().len(), 2);
}

#[test]
fn join_tells_the_target_room_newcomer_included() {
    let mut srv: ChatServer<u64> = ChatServer::new();
    connect(&mut srv, "u1", "alice", 1);
    connect(&mut srv, "u2", "bob", 2);
    create(&mut srv, "u1", "alice", R1).unwrap();
    let out = join(&mut srv, "u2", "bob", R1);
    assert_eq!(
        deliveries(&out),
        vec![(s("u1"), s("bob joined")), (s("u2"), s("bob joined"))]
    );
    assert_eq!(members(&srv, R1), vec![s("u1"), s("u2")]);
    assert!(members(&srv, LOBBY_ROOM_ID).is_empty());
}

#[test]
fn barrier_completes_at_capacity() {
    let mut srv: ChatServer<u64> = ChatServer::new();
    connect(&mut srv, "u1", "alice", 1);
    connect(&mut srv, "u2", "bob", 2);
    create(&mut srv, "u1", "alice", R1).unwrap();
    join(&mut srv, "u2", "bob", R1);
    set_num(&mut srv, R1, 2);
    let first = ack(&mut srv, "u1", R1);
    assert!(first.is_empty());
    assert_eq!(acks(&srv, R1), vec![s("u1")]);
    let second = ack(&mut srv, "u2", R1);
    assert_eq!(
        deliveries(&second),
        vec![(s("u1"), s("/confirm")), (s("u2"), s("/confirm"))]
    );
    assert!(acks(&srv, R1).is_empty());
}

#[test]
fn barrier_rearms_after_completion() {
    let mut srv: ChatServer<u64> = ChatServer::new();
    connect(&mut srv, "u1", "alice", 1);
    create(&mut srv, "u1", "alice", R1).unwrap();
    set_num(&mut srv, R1, 1);
    assert_eq!(deliveries(&ack(&mut srv, "u1", R1)), vec![(s("u1"), s("/confirm"))]);
    assert_eq!(deliveries(&ack(&mut srv, "u1", R1)), vec![(s("u1"), s("/confirm"))]);
    assert!(acks(&srv, R1).is_empty());
}

#[test]
fn ack_twice_counts_once() {
    let mut srv: ChatServer<u64> = ChatServer::new();
    connect(&mut srv, "u1", "alice", 1);
    create(&mut srv, "u1", "alice", R1).unwrap();
    assert!(ack(&mut srv, "u1", R1).is_empty());
    assert!(ack(&mut srv, "u1", R1).is_empty());
    assert_eq!(acks(&srv, R1), vec![s("u1")]);
}

#[test]
fn join_missing_room_leaves_no_room() {
    let mut srv: ChatServer<u64> = ChatServer::new();
    connect(&mut srv, "u1", "alice", 1);
    connect(&mut srv, "u2", "bob", 2);
    let out = join(&mut srv, "u1", "alice", 0x1234);
    assert!(out.is_empty());
    assert_eq!(rooms_holding(&srv, "u1"), 0);
    assert_eq!(members(&srv, LOBBY_ROOM_ID), vec![s("u2")]);
    assert!(srv.room(0x1234).is_none());
}

#[test]
fn capacity_zero_disables_the_check() {
    let mut srv: ChatServer<u64> = ChatServer::new();
    connect(&mut srv, "u1", "alice", 1);
    create(&mut srv, "u1", "alice", R1).unwrap();
    set_num(&mut srv, R1, 0);
    for _ in 0..3 {
        assert!(ack(&mut srv, "u1", R1).is_empty());
    }
    assert!(acks(&srv, R1).is_empty());
    assert_eq!(srv.room(R1).unwrap().max_cap, 0);
}

#[test]
fn lobby_check_is_off_by_default() {
    let mut srv: ChatServer<u64> = ChatServer::new();
    connect(&mut srv, "u1", "alice", 1);
    assert!(ack(&mut srv, "u1", LOBBY_ROOM_ID).is_empty());
    assert!(acks(&srv, LOBBY_ROOM_ID).is_empty());
}

#[test]
fn commands_on_a_missing_room_change_nothing() {
    let mut srv: ChatServer<u64> = ChatServer::new();
    connect(&mut srv, "u1", "alice", 1);
    assert!(ack(&mut srv, "u1", 0x99).is_empty());
    srv.handle_ack_cancel(AckCancel { user_name: s("alice"), user_id: s("u1"), room_id: 0x99 });
    set_num(&mut srv, 0x99, 5);
    assert_eq!(srv.rooms().len(), 1);
    assert_eq!(members(&srv, LOBBY_ROOM_ID), vec![s("u1")]);
}

#[test]
fn ack_cancel_withdraws_an_ack() {
    let mut srv: ChatServer<u64> = ChatServer::new();
    connect(&mut srv, "u1", "alice", 1);
    connect(&mut srv, "u2", "bob", 2);
    create(&mut srv, "u1", "alice", R1).unwrap();
    join(&mut srv, "u2", "bob", R1);
    ack(&mut srv, "u1", R1);
    ack(&mut srv, "u2", R1);
    srv.handle_ack_cancel(AckCancel { user_name: s("alice"), user_id: s("u1"), room_id: R1 });
    assert_eq!(acks(&srv, R1), vec![s("u2")]);
    srv.handle_ack_cancel(AckCancel { user_name: s("alice"), user_id: s("u1"), room_id: R1 });
    assert_eq!(acks(&srv, R1), vec![s("u2")]);
}

#[test]
fn lowering_capacity_lets_the_next_ack_complete() {
    let mut srv: ChatServer<u64> = ChatServer::new();
    connect(&mut srv, "u1", "alice", 1);
    connect(&mut srv, "u2", "bob", 2);
    create(&mut srv, "u1", "alice", R1).unwrap();
    join(&mut srv, "u2", "bob", R1);
    ack(&mut srv, "u1", R1);
    set_num(&mut srv, R1, 1);
    assert_eq!(deliveries(&ack(&mut srv, "u2", R1)).len(), 2);
    assert!(acks(&srv, R1).is_empty());
}

#[test]
fn broadcast_skips_the_sender_and_other_rooms() {
    let mut srv: ChatServer<u64> = ChatServer::new();
    connect(&mut srv, "u1", "alice", 1);
    connect(&mut srv, "u2", "bob", 2);
    connect(&mut srv, "u3", "carol", 3);
    connect(&mut srv, "u4", "dave", 4);
    create(&mut srv, "u4", "dave", R1).unwrap();
    let out = srv.handle_client_message(ClientMessage {
        user_id: s("u1"),
        user_name: s("alice"),
        msg: s("hello"),
        room: LOBBY_ROOM_ID,
    });
    assert_eq!(deliveries(&out), vec![(s("u2"), s("hello")), (s("u3"), s("hello"))]);
    let none = srv.handle_client_message(ClientMessage {
        user_id: s("u1"),
        user_name: s("alice"),
        msg: s("hello"),
        room: 0x77,
    });
    assert!(none.is_empty());
}

#[test]
fn broadcast_reaches_only_registered_members() {
    let mut srv: ChatServer<u64> = ChatServer::new();
    connect(&mut srv, "u1", "alice", 1);
    connect(&mut srv, "u2", "bob", 2);
    create(&mut srv, "u1", "alice", R1).unwrap();
    join(&mut srv, "ghost", "nobody", R1);
    let out = srv.handle_client_message(ClientMessage {
        user_id: s("u2"),
        user_name: s("bob"),
        msg: s("hi"),
        room: R1,
    });
    assert_eq!(deliveries(&out), vec![(s("u1"), s("hi"))]);
}

#[test]
fn disconnect_twice_is_disconnect_once() {
    let mut srv: ChatServer<u64> = ChatServer::new();
    connect(&mut srv, "u1", "alice", 1);
    connect(&mut srv, "u2", "bob", 2);
    create(&mut srv, "u1", "alice", R1).unwrap();
    srv.handle_disconnect(Disconnect { user_id: s("u1") });
    assert!(!srv.is_registered(&s("u1")));
    assert_eq!(rooms_holding(&srv, "u1"), 0);
    assert_eq!(srv.handle_of(&s("u1")), None);
    srv.handle_disconnect(Disconnect { user_id: s("u1") });
    assert!(!srv.is_registered(&s("u1")));
    assert_eq!(rooms_holding(&srv, "u1"), 0);
    assert_eq!(members(&srv, LOBBY_ROOM_ID), vec![s("u2")]);
    assert_eq!(srv.rooms().len(), 2);
    assert_eq!(srv.handle_of(&s("u2")), Some(&2));
}

#[test]
fn disconnect_of_a_stranger_changes_nothing() {
    let mut srv: ChatServer<u64> = ChatServer::new();
    connect(&mut srv, "u1", "alice", 1);
    srv.handle_disconnect(Disconnect { user_id: s("nobody") });
    assert!(srv.is_registered(&s("u1")));
    assert_eq!(members(&srv, LOBBY_ROOM_ID), vec![s("u1")]);
}

#[test]
fn moves_keep_membership_exclusive_and_the_lobby() {
    let mut srv: ChatServer<u64> = ChatServer::new();
    connect(&mut srv, "u1", "alice", 1);
    connect(&mut srv, "u2", "bob", 2);
    create(&mut srv, "u1", "alice", R1).unwrap();
    create(&mut srv, "u1", "alice", 0x42).unwrap();
    join(&mut srv, "u1", "alice", R1);
    join(&mut srv, "u2", "bob", R1);
    join(&mut srv, "u1", "alice", LOBBY_ROOM_ID);
    join(&mut srv, "u1", "alice", 0x42);
    for id in ["u1", "u2"] {
        assert!(rooms_holding(&srv, id) <= 1);
    }
    assert_eq!(members(&srv, 0x42), vec![s("u1")]);
    assert_eq!(members(&srv, R1), vec![s("u2")]);
    srv.handle_disconnect(Disconnect { user_id: s("u2") });
    assert_eq!(srv.rooms()[0].room_id, LOBBY_ROOM_ID);
    assert!(srv.room(LOBBY_ROOM_ID).is_some());
}

#[test]
fn list_rooms_writes_headings_and_numbered_members() {
    let mut srv: ChatServer<u64> = ChatServer::new();
    connect(&mut srv, "u1", "alice", 1);
    connect(&mut srv, "u2", "bob", 2);
    create(&mut srv, "u2", "bob", R1).unwrap();
    connect(&mut srv, "u3", "carol", 3);
    let lines = srv.handle_list_rooms(ListRooms);
    assert_eq!(
        lines,
        vec![
            format!("{} by admin", LOBBY_TEXT),
            s("1: u1, alice"),
            s("2: u3, carol"),
            s("67e55044-10b1-426f-9247-bb680e5fe0c8 by bob"),
            s("1: u2, bob"),
        ]
    );
}

#[test]
fn decimal_text() {
    assert_eq!(format_decimal(0), "0");
    assert_eq!(format_decimal(7), "7");
    assert_eq!(format_decimal(10), "10");
    assert_eq!(format_decimal(1234), "1234");
    assert_eq!(format_decimal(usize::MAX), usize::MAX.to_string());
}
