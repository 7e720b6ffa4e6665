//! The coordinator: sole owner of the connection registry and of the rooms.
//!
//! Every command runs to completion on `&mut ChatServer` and hands back the
//! text deliveries it causes; the caller performs them. `H` is whatever the
//! caller uses to reach one connection.
use crate::ids::{decimal, format_decimal, format_uuid, uuid_text, LOBBY_ROOM_ID};
use crate::room::{
    lemma_room_without, position_of, distinct_keys, lemma_without_key_distinct, lemma_without_member_ids, member_ids,
    members_view, texts_view, without_key, MemberView, Room, RoomUserInfo, RoomView,
};
use vstd::prelude::*;

verus! {

/// One text payload for one connection.
pub struct Message(pub String);

/// A payload together with the identity it goes to.
pub struct Outgoing {
    pub to: String,
    pub message: Message,
}

/// The views of deliveries: (recipient, text).
pub open spec fn outgoing_view(v: Seq<Outgoing>) -> Seq<(Seq<char>, Seq<char>)> {
    v.map_values(|o: Outgoing| (o.to@, o.message.0@))
}

/// A connection handle registered under an identity.
pub struct Registration<H> {
    pub user_id: String,
    pub addr: H,
}

/// The error of a command that cannot be carried out.
#[derive(Debug, PartialEq, Eq, Structural)]
pub enum RoomError {
    /// A room with the requested id exists already.
    RoomExists,
}

/// Whether some room of `rs` has the id `id`.
pub open spec fn has_room(rs: Seq<RoomView>, id: u128) -> bool {
    exists|i: int| 0 <= i < rs.len() && rs[i].id == id
}

/// The position of the room `id` in `rs` (meaningful where it is there).
pub open spec fn room_index(rs: Seq<RoomView>, id: u128) -> int {
    choose|i: int| 0 <= i < rs.len() && rs[i].id == id
}

/// Every room of `rs` with `id` taken out of its members.
pub open spec fn strip(rs: Seq<RoomView>, id: Seq<char>) -> Seq<RoomView> {
    rs.map_values(|r: RoomView| r.without_member(id))
}

/// The members of `ms` that a message reaches: those other than `skip`
/// that have a registered connection, in order.
pub open spec fn recipients(
    ms: Seq<MemberView>,
    skip: Option<Seq<char>>,
    reg: Seq<Seq<char>>,
) -> Seq<Seq<char>>
    decreases ms.len(),
{
    if ms.len() == 0 {
        Seq::empty()
    } else {
        let rest = recipients(ms.drop_last(), skip, reg);
        let id = ms.last().id;
        if skip != Some(id) && reg.contains(id) {
            rest.push(id)
        } else {
            rest
        }
    }
}

/// The deliveries of `text` to the room `room` of `rs`, sparing `skip`.
pub open spec fn room_deliveries(
    rs: Seq<RoomView>,
    room: u128,
    text: Seq<char>,
    skip: Option<Seq<char>>,
    reg: Seq<Seq<char>>,
) -> Seq<(Seq<char>, Seq<char>)> {
    if has_room(rs, room) {
        recipients(rs[room_index(rs, room)].members, skip, reg).map_values(
            |id: Seq<char>| (id, text),
        )
    } else {
        Seq::empty()
    }
}

pub open spec fn skip_view(skip: Option<&String>) -> Option<Seq<char>> {
    match skip {
        Some(s) => Some(s@),
        None => None,
    }
}

/// The coordinator's state: who can be reached, and the rooms.
pub struct ChatServer<H> {
    sessions: Vec<Registration<H>>,
    rooms: Vec<Room>,
}

impl<H> ChatServer<H> {
    /// The rooms, in the order in which they were created; the lobby first.
    pub closed spec fn rooms_view(&self) -> Seq<RoomView> {
        self.rooms@.map_values(|r: Room| r@)
    }

    /// The registered connections, as (identity, handle).
    pub closed spec fn registry(&self) -> Seq<(Seq<char>, H)> {
        self.sessions@.map_values(|r: Registration<H>| (r.user_id@, r.addr))
    }

    /// The identities that have a registered connection.
    pub open spec fn reg_ids(&self) -> Seq<Seq<char>> {
        self.registry().map_values(|e: (Seq<char>, H)| e.0)
    }

    /// The invariants of the coordinator: the lobby comes first, room ids
    /// are unique, every room is well formed, an identity is a member of at
    /// most one room, and an identity has at most one registration.
    pub open spec fn wf(&self) -> bool {
        let rs = self.rooms_view();
        &&& rs.len() > 0
        &&& rs[0].id == LOBBY_ROOM_ID
        &&& forall|i: int, j: int|
            0 <= i < rs.len() && 0 <= j < rs.len() && i != j ==> rs[i].id != rs[j].id
        &&& forall|i: int| 0 <= i < rs.len() ==> (#[trigger] rs[i]).wf()
        &&& forall|i: int, j: int, id: Seq<char>|
            0 <= i < rs.len() && 0 <= j < rs.len() && #[trigger] rs[i].has_member(id)
                && #[trigger] rs[j].has_member(id) ==> i == j
        &&& distinct_keys(self.reg_ids())
    }

    /// A coordinator with no connection and only the lobby, owned by the
    /// administrator, its ready check off.
    pub fn new() -> (r: ChatServer<H>)
        ensures
            r.wf(),
            r.registry().len() == 0,
            r.rooms_view() == seq![
                RoomView {
                    id: LOBBY_ROOM_ID,
                    owner: MemberView { id: "admin_id"@, name: "admin"@ },
                    parent: None,
                    members: Seq::empty(),
                    acks: Seq::empty(),
                    capacity: 0,
                },
            ],
    {
        let mut lobby = Room::new(
            LOBBY_ROOM_ID,
            String::from_str("admin_id"),
            String::from_str("admin"),
        );
        lobby.max_cap = 0;
        let mut rooms: Vec<Room> = Vec::new();
        rooms.push(lobby);
        let r = ChatServer { sessions: Vec::new(), rooms };
        assert(r.rooms_view() =~= seq![lobby@]);
        assert(r.registry() =~= Seq::empty());
        assert(r.reg_ids() =~= Seq::empty());
        r
    }

    /// Where the room `room_id` stands among the rooms.
    fn find_room(&self, room_id: u128) -> (r: Option<usize>)
        requires
            self.wf(),
        ensures
            match r {
                Some(i) => i < self.rooms_view().len() && i == room_index(
                    self.rooms_view(),
                    room_id,
                ) && self.rooms_view()[i as int].id == room_id,
                None => !has_room(self.rooms_view(), room_id),
            },
    {
        let ghost rs = self.rooms_view();
        let mut i: usize = 0;
        while i < self.rooms.len()
            invariant
                i <= self.rooms@.len(),
                rs == self.rooms_view(),
                self.wf(),
                forall|j: int| 0 <= j < i ==> rs[j].id != room_id,
            decreases self.rooms@.len() - i,
        {
            if self.rooms[i].room_id == room_id {
                assert(rs[i as int].id == room_id);
                let ghost k = room_index(rs, room_id);
                assert(rs[k].id == room_id);
                return Some(i);
            }
            i += 1;
        }
        None
    }

    /// Whether `id` has a registered connection, and where.
    fn registration_position(&self, id: &String) -> (r: Option<usize>)
        ensures
            match r {
                Some(i) => i < self.reg_ids().len() && self.reg_ids()[i as int] == id@,
                None => !self.reg_ids().contains(id@),
            },
    {
        let ghost ks = self.reg_ids();
        let mut i: usize = 0;
        while i < self.sessions.len()
            invariant
                i <= self.sessions@.len(),
                ks == self.reg_ids(),
                ks.len() == self.sessions@.len(),
                forall|j: int| 0 <= j < i ==> ks[j] != id@,
            decreases self.sessions@.len() - i,
        {
            if self.sessions[i].user_id == *id {
                return Some(i);
            }
            i += 1;
        }
        None
    }

    /// The handle registered under `id`.
    pub fn handle_of(&self, id: &String) -> (r: Option<&H>)
        requires
            self.wf(),
        ensures
            match r {
                Some(h) => self.reg_ids().contains(id@) && self.registry()[position_of_reg(
                    self.reg_ids(),
                    id@,
                )].1 == *h,
                None => !self.reg_ids().contains(id@),
            },
    {
        match self.registration_position(id) {
            Some(i) => {
                assert(self.reg_ids()[i as int] == id@);
                assert(i as int == position_of_reg(self.reg_ids(), id@));
                Some(&self.sessions[i].addr)
            },
            None => None,
        }
    }

    /// The deliveries of `text` to every member of `room_id` other than
    /// `skip` that has a registered connection.
    pub fn send_message(&self, room_id: u128, text: &String, skip: Option<&String>) -> (r: Vec<
        Outgoing,
    >)
        requires
            self.wf(),
        ensures
            outgoing_view(r@) == room_deliveries(
                self.rooms_view(),
                room_id,
                text@,
                skip_view(skip),
                self.reg_ids(),
            ),
    {
        let mut out: Vec<Outgoing> = Vec::new();
        match self.find_room(room_id) {
            None => {
                assert(outgoing_view(out@) =~= Seq::empty());
            },
            Some(ri) => {
                let room = &self.rooms[ri];
                let ghost ms = room@.members;
                let ghost reg = self.reg_ids();
                let ghost sk = skip_view(skip);
                let mut j: usize = 0;
                while j < room.users.len()
                    invariant
                        j <= room.users@.len(),
                        ms == members_view(room.users@),
                        reg == self.reg_ids(),
                        sk == skip_view(skip),
                        self.wf(),
                        outgoing_view(out@) == recipients(ms.take(j as int), sk, reg).map_values(
                            |id: Seq<char>| (id, text@),
                        ),
                    decreases room.users@.len() - j,
                {
                    let u = &room.users[j];
                    let skipped = match skip {
                        Some(s) => u.user_id == *s,
                        None => false,
                    };
                    let pos = self.registration_position(&u.user_id);
                    let reachable = pos.is_some();
                    proof {
                        assert(ms[j as int].id == u.user_id@);
                        if let Some(k) = pos {
                            assert(reg[k as int] == u.user_id@);
                        }
                    }
                    assert(ms.take(j + 1).drop_last() =~= ms.take(j as int));
                    assert(ms.take(j + 1).last() == ms[j as int]);
                    let ghost id = ms[j as int].id;
                    assert(skipped == (sk == Some(id)));
                    assert(reachable == reg.contains(id));
                    let ghost prev = recipients(ms.take(j as int), sk, reg);
                    let ghost before = out@;
                    assert(recipients(ms.take(j + 1), sk, reg) == if !skipped && reachable {
                        prev.push(id)
                    } else {
                        prev
                    });
                    if !skipped && reachable {
                        out.push(
                            Outgoing { to: u.user_id.clone(), message: Message(text.clone()) },
                        );
                        assert(outgoing_view(out@) =~= outgoing_view(before).push((id, text@)));
                        assert(prev.push(id).map_values(|id: Seq<char>| (id, text@))
                            =~= prev.map_values(|id: Seq<char>| (id, text@)).push((id, text@)));
                    }
                    assert(outgoing_view(out@) =~= recipients(
                        ms.take(j + 1),
                        sk,
                        reg,
                    ).map_values(|id: Seq<char>| (id, text@)));
                    j += 1;
                }
                assert(ms.take(j as int) =~= ms);
            },
        }
        out
    }
}

/// Asks the coordinator to forget an identity.
pub struct Disconnect {
    pub user_id: String,
}

impl<H> ChatServer<H> {
    /// Takes `id` out of the members of every room.
    fn leave_all_rooms(&mut self, id: &String)
        requires
            old(self).wf(),
        ensures
            final(self).wf(),
            final(self).rooms_view() == strip(old(self).rooms_view(), id@),
            final(self).registry() == old(self).registry(),
    {
        let ghost rs0 = self.rooms_view();
        let mut i: usize = 0;
        while i < self.rooms.len()
            invariant
                i <= self.rooms@.len(),
                self.wf(),
                self.rooms@.len() == rs0.len(),
                self.registry() == old(self).registry(),
                forall|k: int| 0 <= k < i ==> self.rooms_view()[k] == rs0[k].without_member(id@),
                forall|k: int| i <= k < rs0.len() ==> self.rooms_view()[k] == rs0[k],
            decreases self.rooms@.len() - i,
        {
            let ghost before = self.rooms_view();
            proof {
                lemma_room_without(before[i as int], id@);
            }
            self.rooms[i].remove_member(id);
            proof {
                let rs = self.rooms_view();
                assert(rs =~= before.update(i as int, before[i as int].without_member(id@)));
                assert forall|a: int, b: int, x: Seq<char>|
                    0 <= a < rs.len() && 0 <= b < rs.len() && #[trigger] rs[a].has_member(x)
                        && #[trigger] rs[b].has_member(x) implies a == b by {
                    assert(before[a].has_member(x));
                    assert(before[b].has_member(x));
                }
                assert(self.reg_ids() == old(self).reg_ids());
            }
            i += 1;
        }
        assert(self.rooms_view() =~= strip(rs0, id@));
    }

    /// Forgets the connection registered under `id`, if any.
    fn unregister(&mut self, id: &String)
        requires
            old(self).wf(),
        ensures
            final(self).wf(),
            final(self).rooms_view() == old(self).rooms_view(),
            final(self).registry() == without_key(
                old(self).registry(),
                old(self).reg_ids(),
                id@,
            ),
            !final(self).reg_ids().contains(id@),
    {
        let ghost ks = self.reg_ids();
        proof {
            lemma_without_key_distinct(ks, id@);
        }
        match self.registration_position(id) {
            Some(i) => {
                self.sessions.remove(i);
                proof {
                    assert(ks[i as int] == id@);
                    assert(position_of(ks, id@) == i);
                    assert(self.registry() =~= old(self).registry().remove(i as int));
                    assert(self.reg_ids() =~= ks.remove(i as int));
                }
            },
            None => {},
        }
    }

    /// Forgets `msg.user_id`: it leaves every room and its connection is
    /// dropped from the registry. Doing so for an unknown identity changes
    /// nothing.
    pub fn handle_disconnect(&mut self, msg: Disconnect)
        requires
            old(self).wf(),
        ensures
            final(self).wf(),
            final(self).rooms_view() == strip(old(self).rooms_view(), msg.user_id@),
            final(self).registry() == without_key(
                old(self).registry(),
                old(self).reg_ids(),
                msg.user_id@,
            ),
    {
        self.leave_all_rooms(&msg.user_id);
        self.unregister(&msg.user_id);
    }
}

/// Registers a connection: `addr` reaches `user_id`, shown as `user_name`.
pub struct Connect<H> {
    pub user_id: String,
    pub user_name: String,
    pub addr: H,
}

/// One room of the snapshot that a newly connected client receives.
pub struct RoomInfoDigest {
    pub room_id: String,
    pub owner: RoomUserInfo,
    pub users: Vec<RoomUserInfo>,
}

/// A digest entry as the contracts see it.
pub struct DigestView {
    pub room_id: Seq<char>,
    pub owner: MemberView,
    pub users: Seq<MemberView>,
}

impl View for RoomInfoDigest {
    type V = DigestView;

    open spec fn view(&self) -> DigestView {
        DigestView { room_id: self.room_id@, owner: self.owner@, users: members_view(self.users@) }
    }
}

/// The snapshot of `rs`: every room with its id, owner and members.
pub open spec fn digest_of(rs: Seq<RoomView>) -> Seq<DigestView> {
    rs.map_values(
        |r: RoomView| DigestView { room_id: uuid_text(r.id), owner: r.owner, users: r.members },
    )
}

pub open spec fn digests_view(v: Seq<RoomInfoDigest>) -> Seq<DigestView> {
    v.map_values(|d: RoomInfoDigest| d@)
}

/// The notice that someone entered a room.
pub open spec fn joined_text(name: Seq<char>) -> Seq<char> {
    name + " joined"@
}

/// The rooms after `id` left them all and entered the lobby as `name`.
pub open spec fn enter_lobby(rs: Seq<RoomView>, id: Seq<char>, name: Seq<char>) -> Seq<RoomView> {
    let s = strip(rs, id);
    s.update(0, s[0].with_member(MemberView { id, name }))
}

/// Asks for a new room `new_room_id`, owned by its creator, who moves there.
pub struct Create {
    pub user_id: String,
    pub user_name: String,
    pub current_room_id: u128,
    pub new_room_id: u128,
}

/// The room that `id` (shown as `name`) creates under `new_id`.
pub open spec fn created_room(id: Seq<char>, name: Seq<char>, new_id: u128) -> RoomView {
    RoomView {
        id: new_id,
        owner: MemberView { id, name },
        parent: None,
        members: seq![MemberView { id, name }],
        acks: Seq::empty(),
        capacity: crate::room::DEFAULT_CAPACITY as nat,
    }
}

/// Asks to move `user_id` to the room `join_room_id`.
pub struct Join {
    pub user_id: String,
    pub user_name: String,
    pub current_room_id: u128,
    pub join_room_id: u128,
}

/// The rooms after `id` left them all and entered `target`; where no room
/// is `target`, `id` is left in no room at all.
pub open spec fn join_rooms(
    rs: Seq<RoomView>,
    id: Seq<char>,
    name: Seq<char>,
    target: u128,
) -> Seq<RoomView> {
    let s = strip(rs, id);
    if has_room(rs, target) {
        let k = room_index(rs, target);
        s.update(k, s[k].with_member(MemberView { id, name }))
    } else {
        s
    }
}

/// After `strip`, no room holds `id`, every other membership stays, and
/// every room keeps its id and stays well formed.
pub proof fn lemma_strip(rs: Seq<RoomView>, id: Seq<char>)
    requires
        forall|k: int| 0 <= k < rs.len() ==> (#[trigger] rs[k]).wf(),
    ensures
        strip(rs, id).len() == rs.len(),
        forall|k: int| 0 <= k < rs.len() ==> (#[trigger] strip(rs, id)[k]).id == rs[k].id,
        forall|k: int| 0 <= k < rs.len() ==> (#[trigger] strip(rs, id)[k]).wf(),
        forall|k: int| 0 <= k < rs.len() ==> !(#[trigger] strip(rs, id)[k]).has_member(id),
        forall|k: int, x: Seq<char>|
            0 <= k < rs.len() ==> (#[trigger] strip(rs, id)[k].has_member(x) <==> (
            rs[k].has_member(x) && x != id)),
{
    assert forall|k: int| 0 <= k < rs.len() implies {
        &&& (#[trigger] strip(rs, id)[k]).wf()
        &&& !strip(rs, id)[k].has_member(id)
        &&& forall|x: Seq<char>| #[trigger]
            strip(rs, id)[k].has_member(x) <==> (rs[k].has_member(x) && x != id)
    } by {
        lemma_room_without(rs[k], id);
    }
}

impl<H> ChatServer<H> {
    /// Registers `addr` under `id`, replacing an earlier registration.
    fn register(&mut self, id: String, addr: H)
        requires
            old(self).wf(),
        ensures
            final(self).wf(),
            final(self).rooms_view() == old(self).rooms_view(),
            final(self).registry() == without_key(
                old(self).registry(),
                old(self).reg_ids(),
                id@,
            ).push((id@, addr)),
    {
        self.unregister(&id);
        let ghost mid = self.registry();
        let ghost ids = self.reg_ids();
        let ghost k = id@;
        self.sessions.push(Registration { user_id: id, addr });
        assert(self.registry() =~= mid.push((k, addr)));
        assert(self.reg_ids() =~= ids.push(k));
    }

    /// The snapshot of every room: id, owner and members.
    pub fn room_digest(&self) -> (r: Vec<RoomInfoDigest>)
        ensures
            digests_view(r@) == digest_of(self.rooms_view()),
    {
        let ghost rs = self.rooms_view();
        let mut out: Vec<RoomInfoDigest> = Vec::new();
        let mut i: usize = 0;
        while i < self.rooms.len()
            invariant
                i <= self.rooms@.len(),
                rs == self.rooms_view(),
                digests_view(out@) == digest_of(rs).take(i as int),
            decreases self.rooms@.len() - i,
        {
            let room = &self.rooms[i];
            let mut users: Vec<RoomUserInfo> = Vec::new();
            let mut j: usize = 0;
            while j < room.users.len()
                invariant
                    j <= room.users@.len(),
                    members_view(users@) == members_view(room.users@).take(j as int),
                decreases room.users@.len() - j,
            {
                let ghost before = users@;
                let c = room.users[j].duplicate();
                users.push(c);
                assert(members_view(users@) =~= members_view(before).push(c@));
                assert(members_view(users@) =~= members_view(room.users@).take(j + 1));
                j += 1;
            }
            assert(members_view(room.users@).take(j as int) =~= members_view(room.users@));
            let d = RoomInfoDigest {
                room_id: format_uuid(room.room_id),
                owner: room.owner.duplicate(),
                users,
            };
            let ghost before = out@;
            assert(rs[i as int] == room@);
            assert(d@ == digest_of(rs)[i as int]);
            out.push(d);
            assert(digests_view(out@) =~= digests_view(before).push(d@));
            assert(digests_view(out@) =~= digest_of(rs).take(i + 1));
            i += 1;
        }
        assert(digest_of(rs).take(i as int) =~= digest_of(rs));
        out
    }

    /// Registers a connection and puts its identity in the lobby.
    ///
    /// The lobby's earlier members are told `"<name> joined"`; the identity
    /// first leaves any room it was in, and a handle registered before under
    /// it is replaced. Returns those notices and the snapshot of every room
    /// (taken afterwards), which is meant for the new client alone.
    pub fn handle_connect(&mut self, msg: Connect<H>) -> (r: (Vec<Outgoing>, Vec<RoomInfoDigest>))
        requires
            old(self).wf(),
        ensures
            final(self).wf(),
            outgoing_view(r.0@) == room_deliveries(
                old(self).rooms_view(),
                LOBBY_ROOM_ID,
                joined_text(msg.user_name@),
                None,
                old(self).reg_ids(),
            ),
            final(self).registry() == without_key(
                old(self).registry(),
                old(self).reg_ids(),
                msg.user_id@,
            ).push((msg.user_id@, msg.addr)),
            final(self).rooms_view() == enter_lobby(
                old(self).rooms_view(),
                msg.user_id@,
                msg.user_name@,
            ),
            digests_view(r.1@) == digest_of(final(self).rooms_view()),
    {
        let Connect { user_id, user_name, addr } = msg;
        let mut notice = user_name.clone();
        notice.append(" joined");
        let notices = self.send_message(LOBBY_ROOM_ID, &notice, None);
        self.register(user_id.clone(), addr);
        self.leave_all_rooms(&user_id);
        let ghost rs1 = self.rooms_view();
        let ghost m = MemberView { id: user_id@, name: user_name@ };
        proof {
            lemma_strip(old(self).rooms_view(), user_id@);
        }
        self.rooms[0].add_member(RoomUserInfo::new(user_id, user_name));
        proof {
            let rs = self.rooms_view();
            assert(rs =~= rs1.update(0, rs1[0].with_member(m)));
            assert(member_ids(rs[0].members) =~= member_ids(rs1[0].members).push(m.id));
            assert forall|a: int, b: int, x: Seq<char>|
                0 <= a < rs.len() && 0 <= b < rs.len() && #[trigger] rs[a].has_member(x)
                    && #[trigger] rs[b].has_member(x) implies a == b by {
                if x == m.id {
                    if a != 0 {
                        assert(!rs1[a].has_member(x));
                    }
                    if b != 0 {
                        assert(!rs1[b].has_member(x));
                    }
                } else {
                    assert(rs1[a].has_member(x)) by {
                        if a == 0 {
                            let p = choose|p: int|
                                0 <= p < member_ids(rs[0].members).len() && member_ids(
                                    rs[0].members,
                                )[p] == x;
                            assert(member_ids(rs1[0].members)[p] == x);
                        }
                    }
                    assert(rs1[b].has_member(x)) by {
                        if b == 0 {
                            let p = choose|p: int|
                                0 <= p < member_ids(rs[0].members).len() && member_ids(
                                    rs[0].members,
                                )[p] == x;
                            assert(member_ids(rs1[0].members)[p] == x);
                        }
                    }
                }
            }
        }
        let digest = self.room_digest();
        (notices, digest)
    }
}

impl<H> ChatServer<H> {
    /// Creates the room `msg.new_room_id`, owned by `msg.user_id`, which
    /// leaves every room and becomes the new room's only member.
    ///
    /// Where a room with that id exists already nothing changes and the
    /// result is `RoomExists`.
    pub fn handle_create(&mut self, msg: Create) -> (r: Result<(), RoomError>)
        requires
            old(self).wf(),
        ensures
            final(self).wf(),
            final(self).registry() == old(self).registry(),
            has_room(old(self).rooms_view(), msg.new_room_id) ==> r == Err::<(), RoomError>(
                RoomError::RoomExists,
            ) && final(self).rooms_view() == old(self).rooms_view(),
            !has_room(old(self).rooms_view(), msg.new_room_id) ==> r == Ok::<(), RoomError>(())
                && final(self).rooms_view() == strip(old(self).rooms_view(), msg.user_id@).push(
                created_room(msg.user_id@, msg.user_name@, msg.new_room_id),
            ),
    {
        let Create { user_id, user_name, current_room_id: _, new_room_id } = msg;
        if self.find_room(new_room_id).is_some() {
            return Err(RoomError::RoomExists);
        }
        self.leave_all_rooms(&user_id);
        let ghost rs1 = self.rooms_view();
        proof {
            lemma_strip(old(self).rooms_view(), user_id@);
        }
        let mut room = Room::new(new_room_id, user_id.clone(), user_name.clone());
        room.add_member(RoomUserInfo::new(user_id, user_name));
        let ghost nr = room@;
        self.rooms.push(room);
        proof {
            let rs = self.rooms_view();
            assert(nr.members =~= seq![MemberView { id: msg.user_id@, name: msg.user_name@ }]);
            assert(rs =~= rs1.push(nr));
            let n = rs1.len() as int;
            assert(member_ids(nr.members) =~= seq![msg.user_id@]);
            assert forall|a: int, b: int|
                0 <= a < rs.len() && 0 <= b < rs.len() && a != b implies rs[a].id != rs[b].id by {
                if a == n {
                    assert(old(self).rooms_view()[b].id == rs[b].id);
                }
                if b == n {
                    assert(old(self).rooms_view()[a].id == rs[a].id);
                }
            }
            assert forall|a: int, b: int, x: Seq<char>|
                0 <= a < rs.len() && 0 <= b < rs.len() && #[trigger] rs[a].has_member(x)
                    && #[trigger] rs[b].has_member(x) implies a == b by {
                if a == n || b == n {
                    assert(x == msg.user_id@);
                    if a != n {
                        assert(!rs1[a].has_member(x));
                    }
                    if b != n {
                        assert(!rs1[b].has_member(x));
                    }
                }
            }
        }
        Ok(())
    }

    /// Moves `msg.user_id` to the room `msg.join_room_id`: it leaves every
    /// room, enters the target, and the target's members (the newcomer
    /// included) are told `"<name> joined"`.
    ///
    /// Where no room is the target, the identity is left in no room at all
    /// and nobody is told anything.
    pub fn handle_join(&mut self, msg: Join) -> (r: Vec<Outgoing>)
        requires
            old(self).wf(),
        ensures
            final(self).wf(),
            final(self).registry() == old(self).registry(),
            final(self).rooms_view() == join_rooms(
                old(self).rooms_view(),
                msg.user_id@,
                msg.user_name@,
                msg.join_room_id,
            ),
            outgoing_view(r@) == room_deliveries(
                final(self).rooms_view(),
                msg.join_room_id,
                joined_text(msg.user_name@),
                None,
                final(self).reg_ids(),
            ),
    {
        let Join { user_id, user_name, current_room_id: _, join_room_id } = msg;
        let ghost rs0 = self.rooms_view();
        let mut notice = user_name.clone();
        notice.append(" joined");
        self.leave_all_rooms(&user_id);
        let ghost rs1 = self.rooms_view();
        let ghost m = MemberView { id: user_id@, name: user_name@ };
        proof {
            lemma_strip(rs0, user_id@);
        }
        match self.find_room(join_room_id) {
            Some(i) => {
                proof {
                    assert(rs0[i as int].id == join_room_id);
                    let k = room_index(rs0, join_room_id);
                    assert(rs0[k].id == join_room_id);
                    assert(k == i);
                }
                self.rooms[i].add_member(RoomUserInfo::new(user_id, user_name));
                proof {
                    let rs = self.rooms_view();
                    let ii = i as int;
                    assert(rs =~= rs1.update(ii, rs1[ii].with_member(m)));
                    assert(member_ids(rs[ii].members) =~= member_ids(rs1[ii].members).push(m.id));
                    assert forall|a: int, b: int, x: Seq<char>|
                        0 <= a < rs.len() && 0 <= b < rs.len() && #[trigger] rs[a].has_member(x)
                            && #[trigger] rs[b].has_member(x) implies a == b by {
                        if x == m.id {
                            if a != ii {
                                assert(!rs1[a].has_member(x));
                            }
                            if b != ii {
                                assert(!rs1[b].has_member(x));
                            }
                        } else {
                            assert(rs1[a].has_member(x)) by {
                                if a == ii {
                                    let p = choose|p: int|
                                        0 <= p < member_ids(rs[ii].members).len() && member_ids(
                                            rs[ii].members,
                                        )[p] == x;
                                    assert(member_ids(rs1[ii].members)[p] == x);
                                }
                            }
                            assert(rs1[b].has_member(x)) by {
                                if b == ii {
                                    let p = choose|p: int|
                                        0 <= p < member_ids(rs[ii].members).len() && member_ids(
                                            rs[ii].members,
                                        )[p] == x;
                                    assert(member_ids(rs1[ii].members)[p] == x);
                                }
                            }
                        }
                    }
                }
            },
            None => {
                assert(!has_room(rs0, join_room_id)) by {
                    if has_room(rs0, join_room_id) {
                        let k = room_index(rs0, join_room_id);
                        assert(rs1[k].id == join_room_id);
                    }
                }
            },
        }
        self.send_message(join_room_id, &notice, None)
    }
}

/// Signals that `user_id` is ready in the room `room_id`.
pub struct Ack {
    pub user_name: String,
    pub user_id: String,
    pub room_id: u128,
}

/// Withdraws the ready signal of `user_id` in the room `room_id`.
pub struct AckCancel {
    pub user_name: String,
    pub user_id: String,
    pub room_id: u128,
}

/// Sets how many acknowledgments complete a round in `room_id`.
pub struct SetNum {
    pub room_id: u128,
    pub user_name: String,
    pub cap_number: usize,
}

/// A chat line from `user_id` for the other members of `room`.
pub struct ClientMessage {
    pub user_id: String,
    pub user_name: String,
    pub msg: String,
    pub room: u128,
}

/// Asks for a listing of every room and its members.
pub struct ListRooms;

/// The notice that completes a ready round.
pub open spec fn confirm_text() -> Seq<char> {
    "/confirm"@
}

/// Whether an `Ack` of `id` in `room` changes anything: the room exists,
/// its check is on, and `id` has not acknowledged in this round.
pub open spec fn ack_counts(rs: Seq<RoomView>, id: Seq<char>, room: u128) -> bool {
    &&& has_room(rs, room)
    &&& rs[room_index(rs, room)].capacity > 0
    &&& !rs[room_index(rs, room)].acks.contains(id)
}

/// Whether that `Ack` completes the round.
pub open spec fn ack_completes(rs: Seq<RoomView>, id: Seq<char>, room: u128) -> bool {
    &&& ack_counts(rs, id, room)
    &&& rs[room_index(rs, room)].acks.len() + 1 >= rs[room_index(rs, room)].capacity
}

/// The rooms after an `Ack` of `id` in `room`: the acknowledgment is added,
/// and where that completes the round the round starts over, empty.
pub open spec fn ack_rooms(rs: Seq<RoomView>, id: Seq<char>, room: u128) -> Seq<RoomView> {
    let k = room_index(rs, room);
    if !ack_counts(rs, id, room) {
        rs
    } else if ack_completes(rs, id, room) {
        rs.update(k, RoomView { acks: Seq::empty(), ..rs[k] })
    } else {
        rs.update(k, RoomView { acks: rs[k].acks.push(id), ..rs[k] })
    }
}

/// The rooms after an `AckCancel` of `id` in `room`.
pub open spec fn cancel_rooms(rs: Seq<RoomView>, id: Seq<char>, room: u128) -> Seq<RoomView> {
    let k = room_index(rs, room);
    if has_room(rs, room) && rs[k].capacity > 0 && rs[k].acks.contains(id) {
        rs.update(k, RoomView { acks: without_key(rs[k].acks, rs[k].acks, id), ..rs[k] })
    } else {
        rs
    }
}

/// The rooms after the capacity of `room` is set to `n`.
pub open spec fn capacity_rooms(rs: Seq<RoomView>, room: u128, n: nat) -> Seq<RoomView> {
    if has_room(rs, room) {
        let k = room_index(rs, room);
        rs.update(k, RoomView { capacity: n, ..rs[k] })
    } else {
        rs
    }
}

/// The listing line of the `i`-th member (counted from 0) of a room.
pub open spec fn member_line(i: int, m: MemberView) -> Seq<char> {
    decimal((i + 1) as nat) + ": "@ + m.id + ", "@ + m.name
}

/// The heading line of a room in a listing.
pub open spec fn room_heading(r: RoomView) -> Seq<char> {
    uuid_text(r.id) + " by "@ + r.owner.name
}

/// The listing of one room: its heading, then one line per member.
pub open spec fn room_lines(r: RoomView) -> Seq<Seq<char>> {
    seq![room_heading(r)] + Seq::new(r.members.len(), |i: int| member_line(i, r.members[i]))
}

/// The listing of every room of `rs`, in order.
pub open spec fn listing(rs: Seq<RoomView>) -> Seq<Seq<char>>
    decreases rs.len(),
{
    if rs.len() == 0 {
        Seq::empty()
    } else {
        listing(rs.drop_last()) + room_lines(rs.last())
    }
}

/// Replacing the acknowledgments of a room keeps the coordinator's
/// invariants as long as they stay distinct.
proof fn lemma_acks_update<H>(s: ChatServer<H>, t: ChatServer<H>, k: int)
    requires
        s.wf(),
        0 <= k < s.rooms_view().len(),
        t.registry() == s.registry(),
        t.rooms_view().len() == s.rooms_view().len(),
        forall|j: int| 0 <= j < s.rooms_view().len() && j != k ==> t.rooms_view()[j] == s.rooms_view()[j],
        t.rooms_view()[k].id == s.rooms_view()[k].id,
        t.rooms_view()[k].members == s.rooms_view()[k].members,
        distinct_keys(t.rooms_view()[k].acks),
    ensures
        t.wf(),
{
    let rs = t.rooms_view();
    let r0 = s.rooms_view();
    assert forall|a: int, b: int, x: Seq<char>|
        0 <= a < rs.len() && 0 <= b < rs.len() && #[trigger] rs[a].has_member(x)
            && #[trigger] rs[b].has_member(x) implies a == b by {
        assert(r0[a].has_member(x));
        assert(r0[b].has_member(x));
    }
    assert forall|a: int| 0 <= a < rs.len() implies (#[trigger] rs[a]).wf() by {
        assert(r0[a].wf());
    }
    assert(t.reg_ids() == s.reg_ids());
}

impl<H> ChatServer<H> {
    /// Records that `msg.user_id` is ready in `msg.room_id`.
    ///
    /// Nothing happens where the room does not exist, its check is off
    /// (capacity 0) or the identity has acknowledged in this round already.
    /// Otherwise the acknowledgment is added; where that brings the round to
    /// the room's capacity, every member is sent `/confirm` and the round
    /// starts over with no acknowledgment.
    pub fn handle_ack(&mut self, msg: Ack) -> (r: Vec<Outgoing>)
        requires
            old(self).wf(),
        ensures
            final(self).wf(),
            final(self).registry() == old(self).registry(),
            final(self).rooms_view() == ack_rooms(
                old(self).rooms_view(),
                msg.user_id@,
                msg.room_id,
            ),
            ack_completes(old(self).rooms_view(), msg.user_id@, msg.room_id) ==> outgoing_view(
                r@,
            ) == room_deliveries(
                old(self).rooms_view(),
                msg.room_id,
                confirm_text(),
                None,
                old(self).reg_ids(),
            ),
            !ack_completes(old(self).rooms_view(), msg.user_id@, msg.room_id) ==> r@.len() == 0,
    {
        let Ack { user_name: _, user_id, room_id } = msg;
        let ghost rs0 = self.rooms_view();
        let k = match self.find_room(room_id) {
            Some(k) => k,
            None => {
                return Vec::new();
            },
        };
        if self.rooms[k].max_cap == 0 {
            return Vec::new();
        }
        if self.ack_position(k, &user_id).is_some() {
            return Vec::new();
        }
        let ghost ki = k as int;
        if self.rooms[k].ack_stack.len() >= self.rooms[k].max_cap - 1 {
            let text = String::from_str("/confirm");
            let notices = self.send_message(room_id, &text, None);
            self.rooms[k].ack_stack.clear();
            proof {
                assert(self.rooms_view()[ki].acks =~= Seq::empty());
                assert(self.rooms_view() =~= ack_rooms(rs0, msg.user_id@, room_id));
                lemma_acks_update(*old(self), *self, ki);
            }
            notices
        } else {
            let ghost before = self.rooms@[k as int].ack_stack@;
            self.rooms[k].ack_stack.push(user_id);
            proof {
                assert(texts_view(before.push(msg.user_id)) =~= texts_view(before).push(msg.user_id@));
                assert(self.rooms_view()[ki].acks == rs0[ki].acks.push(msg.user_id@));
                assert(self.rooms_view() =~= ack_rooms(rs0, msg.user_id@, room_id));
                let a = rs0[ki].acks.push(msg.user_id@);
                assert(distinct_keys(a)) by {
                    assert forall|p: int, q: int|
                        0 <= p < a.len() && 0 <= q < a.len() && p != q implies a[p] != a[q] by {
                        if p == a.len() - 1 {
                            assert(rs0[ki].acks[q] == a[q]);
                        }
                        if q == a.len() - 1 {
                            assert(rs0[ki].acks[p] == a[p]);
                        }
                    }
                }
                lemma_acks_update(*old(self), *self, ki);
            }
            Vec::new()
        }
    }

    fn ack_position(&self, k: usize, id: &String) -> (r: Option<usize>)
        requires
            k < self.rooms_view().len(),
        ensures
            match r {
                Some(i) => i < self.rooms_view()[k as int].acks.len()
                    && self.rooms_view()[k as int].acks[i as int] == id@,
                None => !self.rooms_view()[k as int].acks.contains(id@),
            },
    {
        self.rooms[k].ack_position(id)
    }

    /// Withdraws the acknowledgment of `msg.user_id` in `msg.room_id`; nothing
    /// happens where the room does not exist, its check is off, or there is
    /// no such acknowledgment.
    pub fn handle_ack_cancel(&mut self, msg: AckCancel)
        requires
            old(self).wf(),
        ensures
            final(self).wf(),
            final(self).registry() == old(self).registry(),
            final(self).rooms_view() == cancel_rooms(
                old(self).rooms_view(),
                msg.user_id@,
                msg.room_id,
            ),
    {
        let AckCancel { user_name: _, user_id, room_id } = msg;
        let ghost rs0 = self.rooms_view();
        let k = match self.find_room(room_id) {
            Some(k) => k,
            None => {
                return;
            },
        };
        if self.rooms[k].max_cap == 0 {
            return;
        }
        let ghost ki = k as int;
        match self.ack_position(k, &user_id) {
            None => {},
            Some(p) => {
                let ghost ks = rs0[ki].acks;
                proof {
                    lemma_without_key_distinct(ks, user_id@);
                    assert(position_of(ks, user_id@) == p);
                }
                let ghost before = self.rooms@[ki].ack_stack@;
                self.rooms[k].ack_stack.remove(p);
                proof {
                    assert(texts_view(before.remove(p as int)) =~= ks.remove(p as int));
                    assert(self.rooms_view() =~= cancel_rooms(rs0, user_id@, room_id));
                    lemma_acks_update(*old(self), *self, ki);
                }
            },
        }
    }

    /// Sets the capacity of `msg.room_id` to `msg.cap_number`, whatever it
    /// is (`0` turns the ready check off); nothing happens where the room
    /// does not exist.
    pub fn handle_set_num(&mut self, msg: SetNum)
        requires
            old(self).wf(),
        ensures
            final(self).wf(),
            final(self).registry() == old(self).registry(),
            final(self).rooms_view() == capacity_rooms(
                old(self).rooms_view(),
                msg.room_id,
                msg.cap_number as nat,
            ),
    {
        let ghost rs0 = self.rooms_view();
        match self.find_room(msg.room_id) {
            Some(k) => {
                self.rooms[k].max_cap = msg.cap_number;
                proof {
                    assert(self.rooms_view() =~= capacity_rooms(rs0, msg.room_id, msg.cap_number as nat));
                    lemma_acks_update(*old(self), *self, k as int);
                }
            },
            None => {
                assert(self.rooms_view() =~= capacity_rooms(rs0, msg.room_id, msg.cap_number as nat));
            },
        }
    }

    /// The deliveries of a chat line: to every other member of the room.
    pub fn handle_client_message(&self, msg: ClientMessage) -> (r: Vec<Outgoing>)
        requires
            self.wf(),
        ensures
            outgoing_view(r@) == room_deliveries(
                self.rooms_view(),
                msg.room,
                msg.msg@,
                Some(msg.user_id@),
                self.reg_ids(),
            ),
    {
        self.send_message(msg.room, &msg.msg, Some(&msg.user_id))
    }

    /// One line per room (`<id> by <owner name>`), each followed by one line
    /// per member (`<n>: <identity>, <name>`, counting from 1).
    pub fn handle_list_rooms(&self, _msg: ListRooms) -> (r: Vec<String>)
        ensures
            texts_view(r@) == listing(self.rooms_view()),
    {
        let ghost rs = self.rooms_view();
        let mut out: Vec<String> = Vec::new();
        let mut i: usize = 0;
        while i < self.rooms.len()
            invariant
                i <= self.rooms@.len(),
                rs == self.rooms_view(),
                texts_view(out@) == listing(rs.take(i as int)),
            decreases self.rooms@.len() - i,
        {
            let room = &self.rooms[i];
            let ghost r = room@;
            assert(rs[i as int] == r);
            let ghost base = texts_view(out@);
            let mut head = format_uuid(room.room_id);
            head.append(" by ");
            head.append(room.owner.user_name.as_str());
            out.push(head);
            let mut j: usize = 0;
            while j < room.users.len()
                invariant
                    j <= room.users@.len(),
                    r == room@,
                    texts_view(out@) == base + room_lines(r).take(j + 1),
                decreases room.users@.len() - j,
            {
                let u = &room.users[j];
                let mut line = format_decimal(j + 1);
                line.append(": ");
                line.append(u.user_id.as_str());
                line.append(", ");
                line.append(u.user_name.as_str());
                let ghost before = out@;
                out.push(line);
                assert(r.members[j as int] == u@);
                assert(texts_view(out@) =~= texts_view(before).push(line@));
                assert(room_lines(r).take(j + 2) =~= room_lines(r).take(j + 1).push(
                    member_line(j as int, r.members[j as int]),
                ));
                assert(texts_view(out@) =~= base + room_lines(r).take(j + 2));
                j += 1;
            }
            assert(room_lines(r).take(j + 1) =~= room_lines(r));
            assert(rs.take(i + 1).drop_last() =~= rs.take(i as int));
            i += 1;
        }
        assert(rs.take(i as int) =~= rs);
        out
    }
}

impl<H> ChatServer<H> {
    /// The rooms, the lobby first.
    pub fn rooms(&self) -> (r: &Vec<Room>)
        ensures
            r@.map_values(|x: Room| x@) == self.rooms_view(),
    {
        &self.rooms
    }

    /// The room `room_id`, if there is one.
    pub fn room(&self, room_id: u128) -> (r: Option<&Room>)
        requires
            self.wf(),
        ensures
            match r {
                Some(x) => has_room(self.rooms_view(), room_id) && x@ == self.rooms_view()[room_index(
                    self.rooms_view(),
                    room_id,
                )],
                None => !has_room(self.rooms_view(), room_id),
            },
    {
        match self.find_room(room_id) {
            Some(i) => Some(&self.rooms[i]),
            None => None,
        }
    }

    /// Whether `id` has a registered connection.
    pub fn is_registered(&self, id: &String) -> (r: bool)
        ensures
            r == self.reg_ids().contains(id@),
    {
        match self.registration_position(id) {
            Some(i) => {
                assert(self.reg_ids()[i as int] == id@);
                true
            },
            None => false,
        }
    }
}

/// The position of `k` among the registered identities `ks`.
pub open spec fn position_of_reg(ks: Seq<Seq<char>>, k: Seq<char>) -> int {
    crate::room::position_of(ks, k)
}

} // verus!
