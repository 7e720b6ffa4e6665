//! Properties of the coordinator that hold across commands.
use crate::ids::LOBBY_ROOM_ID;
use crate::room::{
    distinct_keys, lemma_room_without, lemma_without_key_distinct, member_ids, position_of,
    without_key, MemberView, RoomView,
};
use crate::server::{
    ack_completes, ack_counts, ack_rooms, confirm_text, created_room, has_room, join_rooms,
    lemma_strip, recipients, room_deliveries, room_index,
    strip, ChatServer,
};
use vstd::prelude::*;

verus! {

/// An identity is a member of at most one room. The coordinator's invariant
/// says so; `ChatServer::new` establishes the invariant and every command
/// keeps it, so this holds after any sequence of commands.
pub proof fn lemma_membership_exclusive<H>(s: ChatServer<H>, id: Seq<char>, i: int, j: int)
    requires
        s.wf(),
        0 <= i < s.rooms_view().len(),
        0 <= j < s.rooms_view().len(),
        s.rooms_view()[i].has_member(id),
        s.rooms_view()[j].has_member(id),
    ensures
        i == j,
{
}

/// The lobby always exists, first among the rooms; no command removes it,
/// since each keeps the invariant that places it there.
pub proof fn lemma_lobby_permanent<H>(s: ChatServer<H>)
    requires
        s.wf(),
    ensures
        has_room(s.rooms_view(), LOBBY_ROOM_ID),
        room_index(s.rooms_view(), LOBBY_ROOM_ID) == 0,
{
    let rs = s.rooms_view();
    assert(rs[0].id == LOBBY_ROOM_ID);
    let k = room_index(rs, LOBBY_ROOM_ID);
    assert(rs[k].id == LOBBY_ROOM_ID);
}

/// After `JoinRoom`, the identity is a member of the target room alone, or
/// of no room where the target does not exist; after `CreateRoom`, of the
/// new room alone.
pub proof fn lemma_moves_place_once<H>(
    s: ChatServer<H>,
    id: Seq<char>,
    name: Seq<char>,
    target: u128,
    k: int,
)
    requires
        s.wf(),
    ensures
        0 <= k < s.rooms_view().len() ==> (join_rooms(s.rooms_view(), id, name, target)[k].has_member(
            id,
        ) <==> (has_room(s.rooms_view(), target) && k == room_index(s.rooms_view(), target))),
        0 <= k <= s.rooms_view().len() ==> (strip(s.rooms_view(), id).push(
            created_room(id, name, target),
        )[k].has_member(id) <==> k == s.rooms_view().len()),
{
    let rs = s.rooms_view();
    assert forall|i: int| 0 <= i < rs.len() implies (#[trigger] rs[i]).wf() by {}
    lemma_strip(rs, id);
    let st = strip(rs, id);
    let m = MemberView { id, name };
    if 0 <= k < rs.len() && has_room(rs, target) {
        let t = room_index(rs, target);
        assert(rs[t].id == target);
        let j = join_rooms(rs, id, name, target);
        assert(j == st.update(t, st[t].with_member(m)));
        if k == t {
            assert(member_ids(j[k].members) == member_ids(st[k].members).push(id));
            assert(member_ids(j[k].members)[member_ids(st[k].members).len() as int] == id);
        }
    }
    let c = created_room(id, name, target);
    assert(member_ids(c.members) =~= seq![id]);
    assert(member_ids(c.members)[0] == id);
}

/// The lobby is the first room after `Disconnect`, `CreateRoom` and
/// `JoinRoom` alike.
pub proof fn lemma_lobby_kept<H>(s: ChatServer<H>, id: Seq<char>, name: Seq<char>, target: u128)
    requires
        s.wf(),
    ensures
        strip(s.rooms_view(), id)[0].id == LOBBY_ROOM_ID,
        strip(s.rooms_view(), id).push(created_room(id, name, target))[0].id == LOBBY_ROOM_ID,
        join_rooms(s.rooms_view(), id, name, target)[0].id == LOBBY_ROOM_ID,
{
    let rs = s.rooms_view();
    assert forall|i: int| 0 <= i < rs.len() implies (#[trigger] rs[i]).wf() by {}
    lemma_strip(rs, id);
}

/// Who a message reaches: exactly the members other than `skip` that have
/// a connection, each once.
pub proof fn lemma_recipients(ms: Seq<MemberView>, skip: Option<Seq<char>>, reg: Seq<Seq<char>>)
    requires
        distinct_keys(member_ids(ms)),
    ensures
        distinct_keys(recipients(ms, skip, reg)),
        forall|x: Seq<char>| #[trigger]
            recipients(ms, skip, reg).contains(x) <==> (member_ids(ms).contains(x) && skip
                != Some(x) && reg.contains(x)),
    decreases ms.len(),
{
    if ms.len() > 0 {
        let init = ms.drop_last();
        let ids = member_ids(ms);
        assert(member_ids(init) =~= ids.drop_last());
        assert(distinct_keys(member_ids(init)));
        lemma_recipients(init, skip, reg);
        let rest = recipients(init, skip, reg);
        let last = ms.last().id;
        assert(ids[ids.len() - 1] == last);
        assert(!member_ids(init).contains(last)) by {
            if member_ids(init).contains(last) {
                let p = choose|p: int| 0 <= p < member_ids(init).len() && member_ids(init)[p] == last;
                assert(ids[p] == last);
            }
        }
        assert forall|x: Seq<char>| #[trigger] ids.contains(x) <==> (member_ids(init).contains(x)
            || x == last) by {
            if ids.contains(x) {
                let p = choose|p: int| 0 <= p < ids.len() && ids[p] == x;
                if p < ids.len() - 1 {
                    assert(member_ids(init)[p] == x);
                }
            }
            if member_ids(init).contains(x) {
                let p = choose|p: int| 0 <= p < member_ids(init).len() && member_ids(init)[p] == x;
                assert(ids[p] == x);
            }
            if x == last {
                assert(ids[ids.len() - 1] == x);
            }
        }
        if skip != Some(last) && reg.contains(last) {
            let out = rest.push(last);
            assert forall|x: Seq<char>| #[trigger] out.contains(x) <==> (rest.contains(x) || x
                == last) by {
                if out.contains(x) {
                    let p = choose|p: int| 0 <= p < out.len() && out[p] == x;
                    if p < rest.len() {
                        assert(rest[p] == x);
                    }
                }
                if rest.contains(x) {
                    let p = choose|p: int| 0 <= p < rest.len() && rest[p] == x;
                    assert(out[p] == x);
                }
                if x == last {
                    assert(out[rest.len() as int] == x);
                }
            }
            assert(!rest.contains(last));
            assert forall|p: int, q: int|
                0 <= p < out.len() && 0 <= q < out.len() && p != q implies out[p] != out[q] by {
                if p == rest.len() {
                    assert(rest.contains(out[q]));
                }
                if q == rest.len() {
                    assert(rest.contains(out[p]));
                }
            }
        }
    }
}

/// A broadcast reaches every member of the room other than the sender that
/// has a connection, each exactly once, and nobody else; a broadcast to a
/// room that does not exist reaches nobody.
pub proof fn lemma_broadcast_exclusion<H>(
    s: ChatServer<H>,
    sender: Seq<char>,
    room: u128,
    text: Seq<char>,
)
    requires
        s.wf(),
    ensures
        ({
            let rs = s.rooms_view();
            let d = room_deliveries(rs, room, text, Some(sender), s.reg_ids());
            &&& !has_room(rs, room) ==> d.len() == 0
            &&& forall|k: int| 0 <= k < d.len() ==> (#[trigger] d[k]).1 == text && d[k].0 != sender
                && rs[room_index(rs, room)].has_member(d[k].0)
            &&& forall|k1: int, k2: int|
                0 <= k1 < d.len() && 0 <= k2 < d.len() && k1 != k2 ==> d[k1].0 != d[k2].0
            &&& has_room(rs, room) ==> forall|x: Seq<char>|
                rs[room_index(rs, room)].has_member(x) && x != sender && #[trigger] s.reg_ids().contains(x)
                    ==> exists|k: int| 0 <= k < d.len() && (#[trigger] d[k]).0 == x
        }),
{
    let rs = s.rooms_view();
    if has_room(rs, room) {
        let r = rs[room_index(rs, room)];
        assert(r.wf());
        let reg = s.reg_ids();
        lemma_recipients(r.members, Some(sender), reg);
        let ids = recipients(r.members, Some(sender), reg);
        let d = room_deliveries(rs, room, text, Some(sender), reg);
        assert forall|k: int| 0 <= k < d.len() implies (#[trigger] d[k]).1 == text && d[k].0
            != sender && r.has_member(d[k].0) by {
            assert(d[k].0 == ids[k]);
            assert(ids.contains(ids[k]));
        }
        assert forall|x: Seq<char>|
            r.has_member(x) && x != sender && #[trigger] reg.contains(x) implies exists|k: int|
                0 <= k < d.len() && (#[trigger] d[k]).0 == x by {
            assert(ids.contains(x));
            let p = choose|p: int| 0 <= p < ids.len() && ids[p] == x;
            assert(d[p].0 == x);
        }
    }
}

/// Updating the room at `k` without touching ids keeps every room's index.
proof fn lemma_same_ids_same_index(rs: Seq<RoomView>, t: Seq<RoomView>, room: u128)
    requires
        rs.len() == t.len(),
        forall|i: int| 0 <= i < rs.len() ==> (#[trigger] t[i]).id == rs[i].id,
        forall|i: int, j: int|
            0 <= i < rs.len() && 0 <= j < rs.len() && i != j ==> rs[i].id != rs[j].id,
    ensures
        has_room(t, room) == has_room(rs, room),
        has_room(rs, room) ==> room_index(t, room) == room_index(rs, room),
{
    if has_room(rs, room) {
        let k = room_index(rs, room);
        assert(t[k].id == room);
        let k2 = room_index(t, room);
        assert(rs[k2].id == room);
    }
    if has_room(t, room) {
        let k2 = room_index(t, room);
        assert(rs[k2].id == room);
    }
}

/// Within one round, a second `Ack` of the same identity in the same room
/// changes nothing and sends nothing: the acknowledgments change only once.
pub proof fn lemma_ack_idempotent<H>(s: ChatServer<H>, id: Seq<char>, room: u128)
    requires
        s.wf(),
        !ack_completes(s.rooms_view(), id, room),
    ensures
        ack_rooms(ack_rooms(s.rooms_view(), id, room), id, room) == ack_rooms(
            s.rooms_view(),
            id,
            room,
        ),
        !ack_completes(ack_rooms(s.rooms_view(), id, room), id, room),
{
    let rs = s.rooms_view();
    let t = ack_rooms(rs, id, room);
    if ack_counts(rs, id, room) {
        let k = room_index(rs, room);
        lemma_same_ids_same_index(rs, t, room);
        assert(t[k].acks == rs[k].acks.push(id));
        assert(t[k].acks[rs[k].acks.len() as int] == id);
        assert(!ack_counts(t, id, room));
    }
}

/// An `Ack` that brings a round to the room's capacity ends the round: the
/// room's acknowledgments are empty afterwards, and the `/confirm` notice
/// that `handle_ack` hands back goes to each reachable member of the room
/// exactly once. An `Ack` that counts without completing leaves fewer
/// acknowledgments than the capacity.
pub proof fn lemma_barrier_completion<H>(s: ChatServer<H>, id: Seq<char>, room: u128)
    requires
        s.wf(),
    ensures
        ({
            let rs = s.rooms_view();
            let k = room_index(rs, room);
            let after = ack_rooms(rs, id, room);
            let d = room_deliveries(rs, room, confirm_text(), None, s.reg_ids());
            &&& ack_completes(rs, id, room) ==> after[k].acks.len() == 0
            &&& ack_completes(rs, id, room) ==> forall|x: Seq<char>|
                rs[k].has_member(x) && #[trigger] s.reg_ids().contains(x) ==> exists|j: int|
                    0 <= j < d.len() && (#[trigger] d[j]).0 == x
            &&& ack_completes(rs, id, room) ==> forall|j: int|
                0 <= j < d.len() ==> (#[trigger] d[j]).1 == confirm_text() && rs[k].has_member(
                    d[j].0,
                )
            &&& forall|j1: int, j2: int|
                0 <= j1 < d.len() && 0 <= j2 < d.len() && j1 != j2 ==> d[j1].0 != d[j2].0
            &&& ack_counts(rs, id, room) && !ack_completes(rs, id, room) ==> after[k].acks.len()
                < after[k].capacity
        }),
{
    let rs = s.rooms_view();
    if has_room(rs, room) {
        let k = room_index(rs, room);
        assert(rs[k].id == room);
        let r = rs[k];
        assert(r.wf());
        let reg = s.reg_ids();
        lemma_recipients(r.members, None, reg);
        let ids = recipients(r.members, None, reg);
        let d = room_deliveries(rs, room, confirm_text(), None, reg);
        assert forall|j: int| 0 <= j < d.len() implies (#[trigger] d[j]).1 == confirm_text()
            && r.has_member(d[j].0) by {
            assert(d[j].0 == ids[j]);
            assert(ids.contains(ids[j]));
        }
        assert forall|x: Seq<char>| r.has_member(x) && #[trigger] reg.contains(x) implies exists|
            j: int,
        | 0 <= j < d.len() && (#[trigger] d[j]).0 == x by {
            assert(ids.contains(x));
            let p = choose|p: int| 0 <= p < ids.len() && ids[p] == x;
            assert(d[p].0 == x);
        }
    }
}

/// The registry's identities after one is forgotten: the same, without it.
proof fn lemma_registry_without<H>(reg: Seq<(Seq<char>, H)>, id: Seq<char>)
    ensures
        without_key(reg, reg.map_values(|e: (Seq<char>, H)| e.0), id).map_values(
            |e: (Seq<char>, H)| e.0,
        ) == without_key(
            reg.map_values(|e: (Seq<char>, H)| e.0),
            reg.map_values(|e: (Seq<char>, H)| e.0),
            id,
        ),
{
    let ks = reg.map_values(|e: (Seq<char>, H)| e.0);
    if ks.contains(id) {
        let p = position_of(ks, id);
        assert(reg.remove(p).map_values(|e: (Seq<char>, H)| e.0) =~= ks.remove(p));
    }
}

/// `Disconnect` twice in a row ends where `Disconnect` once does: the
/// identity in no room and not in the registry.
pub proof fn lemma_disconnect_idempotent<H>(s: ChatServer<H>, id: Seq<char>)
    requires
        s.wf(),
    ensures
        ({
            let rs1 = strip(s.rooms_view(), id);
            let reg1 = without_key(s.registry(), s.reg_ids(), id);
            let ids1 = reg1.map_values(|e: (Seq<char>, H)| e.0);
            &&& strip(rs1, id) == rs1
            &&& without_key(reg1, ids1, id) == reg1
            &&& forall|k: int| 0 <= k < rs1.len() ==> !(#[trigger] rs1[k]).has_member(id)
            &&& !ids1.contains(id)
        }),
{
    let rs = s.rooms_view();
    let rs1 = strip(rs, id);
    assert forall|k: int| 0 <= k < rs.len() implies !(#[trigger] rs1[k]).has_member(id)
        && rs1[k].without_member(id) == rs1[k] by {
        lemma_room_without(rs[k], id);
        assert(!member_ids(rs1[k].members).contains(id));
    }
    assert(strip(rs1, id) =~= rs1);
    let reg1 = without_key(s.registry(), s.reg_ids(), id);
    lemma_registry_without(s.registry(), id);
    lemma_without_key_distinct(s.reg_ids(), id);
}

} // verus!
