//! Rooms: a membership list plus the state of the ready check.
use vstd::prelude::*;

verus! {

/// Whether no key occurs twice in `ks`.
pub open spec fn distinct_keys(ks: Seq<Seq<char>>) -> bool {
    forall|i: int, j: int| 0 <= i < ks.len() && 0 <= j < ks.len() && i != j ==> ks[i] != ks[j]
}

/// The position of `k` in `ks` (meaningful where `ks` holds it).
pub open spec fn position_of(ks: Seq<Seq<char>>, k: Seq<char>) -> int {
    choose|i: int| 0 <= i < ks.len() && ks[i] == k
}

/// `s` without the item whose key is `k`, where `ks` holds the key of each
/// item of `s`.
pub open spec fn without_key<A>(s: Seq<A>, ks: Seq<Seq<char>>, k: Seq<char>) -> Seq<A> {
    if ks.contains(k) {
        s.remove(position_of(ks, k))
    } else {
        s
    }
}

/// A member as the contracts see it: identity and display name.
pub struct MemberView {
    pub id: Seq<char>,
    pub name: Seq<char>,
}

/// The identities of `ms`, in order.
pub open spec fn member_ids(ms: Seq<MemberView>) -> Seq<Seq<char>> {
    ms.map_values(|m: MemberView| m.id)
}

/// `ms` without the member whose identity is `id`.
pub open spec fn without_member(ms: Seq<MemberView>, id: Seq<char>) -> Seq<MemberView> {
    without_key(ms, member_ids(ms), id)
}

/// Removing position `i` from a sequence of distinct keys keeps them
/// distinct and drops exactly the key at `i`.
pub proof fn lemma_remove_distinct(ks: Seq<Seq<char>>, i: int)
    requires
        distinct_keys(ks),
        0 <= i < ks.len(),
    ensures
        distinct_keys(ks.remove(i)),
        forall|x: Seq<char>| #[trigger]
            ks.remove(i).contains(x) <==> (ks.contains(x) && x != ks[i]),
{
    let r = ks.remove(i);
    assert forall|x: Seq<char>| #[trigger] r.contains(x) <==> (ks.contains(x) && x != ks[i]) by {
        if r.contains(x) {
            let j = choose|j: int| 0 <= j < r.len() && r[j] == x;
            if j < i {
                assert(ks[j] == x);
            } else {
                assert(ks[j + 1] == x);
            }
        }
        if ks.contains(x) && x != ks[i] {
            let j = choose|j: int| 0 <= j < ks.len() && ks[j] == x;
            if j < i {
                assert(r[j] == x);
            } else {
                assert(r[j - 1] == x);
            }
        }
    }
}

/// Removing a key from distinct keys keeps them distinct, drops that key
/// and keeps every other.
pub proof fn lemma_without_key_distinct(ks: Seq<Seq<char>>, k: Seq<char>)
    requires
        distinct_keys(ks),
    ensures
        distinct_keys(without_key(ks, ks, k)),
        !without_key(ks, ks, k).contains(k),
        forall|x: Seq<char>| #[trigger]
            without_key(ks, ks, k).contains(x) <==> (ks.contains(x) && x != k),
{
    if ks.contains(k) {
        let p = position_of(ks, k);
        lemma_remove_distinct(ks, p);
    }
}

/// The keys of `without_key(s, ks, k)` are `ks` without `k`.
pub proof fn lemma_without_member_ids(ms: Seq<MemberView>, id: Seq<char>)
    ensures
        member_ids(without_member(ms, id)) == without_key(
            member_ids(ms),
            member_ids(ms),
            id,
        ),
{
    let ks = member_ids(ms);
    if ks.contains(id) {
        let p = position_of(ks, id);
        assert(member_ids(ms.remove(p)) =~= ks.remove(p));
    }
}

/// Removing a member from a well-formed room keeps it well formed and
/// removes exactly that identity.
pub proof fn lemma_room_without(r: RoomView, id: Seq<char>)
    requires
        r.wf(),
    ensures
        r.without_member(id).wf(),
        !r.without_member(id).has_member(id),
        forall|x: Seq<char>| #[trigger]
            r.without_member(id).has_member(x) <==> (r.has_member(x) && x != id),
{
    lemma_without_member_ids(r.members, id);
    lemma_without_key_distinct(member_ids(r.members), id);
}

/// A room as the contracts see it.
pub struct RoomView {
    pub id: u128,
    pub owner: MemberView,
    pub parent: Option<u128>,
    pub members: Seq<MemberView>,
    pub acks: Seq<Seq<char>>,
    pub capacity: nat,
}

impl RoomView {
    /// No identity is listed twice, among the members or among the acks.
    pub open spec fn wf(self) -> bool {
        &&& distinct_keys(member_ids(self.members))
        &&& distinct_keys(self.acks)
    }

    pub open spec fn has_member(self, id: Seq<char>) -> bool {
        member_ids(self.members).contains(id)
    }

    pub open spec fn without_member(self, id: Seq<char>) -> RoomView {
        RoomView { members: without_member(self.members, id), ..self }
    }

    pub open spec fn with_member(self, m: MemberView) -> RoomView {
        RoomView { members: self.members.push(m), ..self }
    }
}

/// A user's identity together with the display name shown for it.
#[derive(Debug)]
pub struct RoomUserInfo {
    pub user_id: String,
    pub user_name: String,
}

impl View for RoomUserInfo {
    type V = MemberView;

    open spec fn view(&self) -> MemberView {
        MemberView { id: self.user_id@, name: self.user_name@ }
    }
}

impl RoomUserInfo {
    pub fn new(user_id: String, user_name: String) -> (r: RoomUserInfo)
        ensures
            r@ == (MemberView { id: user_id@, name: user_name@ }),
    {
        RoomUserInfo { user_id, user_name }
    }

    /// A copy of this record.
    pub fn duplicate(&self) -> (r: RoomUserInfo)
        ensures
            r@ == self@,
    {
        RoomUserInfo { user_id: self.user_id.clone(), user_name: self.user_name.clone() }
    }
}

/// The views of a list of members.
pub open spec fn members_view(us: Seq<RoomUserInfo>) -> Seq<MemberView> {
    us.map_values(|u: RoomUserInfo| u@)
}

/// The views of a list of identities.
pub open spec fn texts_view(ss: Seq<String>) -> Seq<Seq<char>> {
    ss.map_values(|s: String| s@)
}

/// The number of acknowledgments that completes a ready round in a new room.
pub const DEFAULT_CAPACITY: usize = 3;

/// A room: its members, its owner and the current ready round.
#[derive(Debug)]
pub struct Room {
    pub room_id: u128,
    /// Who created the room; reported in listings, with no other privilege.
    pub owner: RoomUserInfo,
    /// The members, in the order in which they entered.
    pub users: Vec<RoomUserInfo>,
    pub parent_room_id: Option<u128>,
    /// Who has signalled "ready" in the current round.
    pub ack_stack: Vec<String>,
    /// How many acknowledgments complete a round; `0` turns the check off.
    pub max_cap: usize,
}

impl View for Room {
    type V = RoomView;

    open spec fn view(&self) -> RoomView {
        RoomView {
            id: self.room_id,
            owner: self.owner@,
            parent: self.parent_room_id,
            members: members_view(self.users@),
            acks: texts_view(self.ack_stack@),
            capacity: self.max_cap as nat,
        }
    }
}

impl Room {
    /// An empty room owned by `user_id` / `user_name`, with the default
    /// capacity.
    pub fn new(room_id: u128, user_id: String, user_name: String) -> (r: Room)
        ensures
            r@ == (RoomView {
                id: room_id,
                owner: MemberView { id: user_id@, name: user_name@ },
                parent: None,
                members: Seq::empty(),
                acks: Seq::empty(),
                capacity: DEFAULT_CAPACITY as nat,
            }),
            r@.wf(),
    {
        let r = Room {
            room_id,
            parent_room_id: None,
            users: Vec::new(),
            owner: RoomUserInfo::new(user_id, user_name),
            ack_stack: Vec::new(),
            max_cap: DEFAULT_CAPACITY,
        };
        assert(r@.members =~= Seq::empty());
        assert(r@.acks =~= Seq::empty());
        r
    }

    /// Where the member `id` stands in the member list.
    pub fn member_position(&self, id: &String) -> (r: Option<usize>)
        ensures
            match r {
                Some(i) => i < self.users@.len() && self.users@[i as int].user_id@ == id@,
                None => !self@.has_member(id@),
            },
    {
        let mut i: usize = 0;
        while i < self.users.len()
            invariant
                i <= self.users@.len(),
                forall|j: int| 0 <= j < i ==> self.users@[j].user_id@ != id@,
            decreases self.users@.len() - i,
        {
            if self.users[i].user_id == *id {
                return Some(i);
            }
            i += 1;
        }
        assert(!member_ids(self@.members).contains(id@)) by {
            if member_ids(self@.members).contains(id@) {
                let j = choose|j: int|
                    0 <= j < member_ids(self@.members).len() && member_ids(self@.members)[j]
                        == id@;
                assert(self.users@[j].user_id@ == id@);
            }
        }
        None
    }

    /// Whether `id` has acknowledged in the current round, and where.
    pub fn ack_position(&self, id: &String) -> (r: Option<usize>)
        ensures
            match r {
                Some(i) => i < self.ack_stack@.len() && self.ack_stack@[i as int]@ == id@,
                None => !self@.acks.contains(id@),
            },
    {
        let mut i: usize = 0;
        while i < self.ack_stack.len()
            invariant
                i <= self.ack_stack@.len(),
                forall|j: int| 0 <= j < i ==> self.ack_stack@[j]@ != id@,
            decreases self.ack_stack@.len() - i,
        {
            if self.ack_stack[i] == *id {
                return Some(i);
            }
            i += 1;
        }
        assert(!self@.acks.contains(id@)) by {
            if self@.acks.contains(id@) {
                let j = choose|j: int| 0 <= j < self@.acks.len() && self@.acks[j] == id@;
                assert(self.ack_stack@[j]@ == id@);
            }
        }
        None
    }

    /// Takes `id` out of the member list, if it is there.
    pub fn remove_member(&mut self, id: &String)
        requires
            old(self)@.wf(),
        ensures
            final(self)@ == old(self)@.without_member(id@),
            final(self)@.wf(),
    {
        let ghost ks = member_ids(old(self)@.members);
        proof {
            lemma_without_key_distinct(ks, id@);
            lemma_without_member_ids(old(self)@.members, id@);
        }
        match self.member_position(id) {
            Some(i) => {
                self.users.remove(i);
                proof {
                    let p = position_of(ks, id@);
                    assert(ks[i as int] == id@);
                    assert(p == i);
                    assert(members_view(self.users@) =~= old(self)@.members.remove(i as int));
                }
            },
            None => {},
        }
    }

    /// Adds `info` at the end of the member list.
    pub fn add_member(&mut self, info: RoomUserInfo)
        requires
            old(self)@.wf(),
            !old(self)@.has_member(info@.id),
        ensures
            final(self)@ == old(self)@.with_member(info@),
            final(self)@.wf(),
    {
        let ghost m = info@;
        self.users.push(info);
        proof {
            assert(members_view(self.users@) =~= old(self)@.members.push(m));
            let ks = member_ids(self@.members);
            assert(ks =~= member_ids(old(self)@.members).push(m.id));
        }
    }
}

} // verus!
