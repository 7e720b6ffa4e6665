//! One client's session: its identity and name, the room it believes it is
//! in, its heartbeat, and the interpretation of its text commands.
//!
//! The session decides; the caller performs. Each inbound line yields at
//! most one request for the coordinator and the lines to write back to the
//! client.
use crate::ids::{
    format_uuid, is_random_uuid, lemma_random_uuid_exists, new_room_id, parse_uuid,
    uuid_parse_of, uuid_text, LOBBY_ROOM_ID,
};
use crate::room::texts_view;
use crate::server::{Ack, AckCancel, ClientMessage, Create, Disconnect, Join, ListRooms, SetNum};
use crate::text::{
    chars_of, find_space, is_first_space, matches_word, parse_usize, split_word, trim,
    trim_bounds, usize_of,
};
use vstd::prelude::*;

verus! {

/// How often the session probes its client, in milliseconds.
pub const HEARTBEAT_INTERVAL_MS: u64 = 5000;

/// How long the client may stay silent before the session gives up on it,
/// in milliseconds.
pub const CLIENT_TIMEOUT_MS: u64 = 10000;

/// Where a session stands in its life.
#[derive(Debug, Clone, Copy, PartialEq, Eq, Structural)]
pub enum Phase {
    Connecting,
    Active,
    Closed,
}

/// What a client's line asks for.
#[derive(Debug, PartialEq, Eq)]
pub enum ClientCommand {
    /// `/list`
    List,
    /// `/create`; `true` where an argument followed, which is refused.
    Create(bool),
    /// `/join <room id>`; nothing where the id is missing or no UUID.
    Join(Option<u128>),
    /// `/name <name>`; nothing where the name is missing.
    Name(Option<String>),
    /// `/ack`
    Ack,
    /// `/rm_ack`
    RemoveAck,
    /// `/set_num <n>`; nothing where the number is missing or malformed.
    SetNum(Option<usize>),
    /// Any other line that starts with `/`: the trimmed line.
    Unknown(String),
    /// A chat line: the trimmed line.
    Chat(String),
}

pub enum CommandView {
    List,
    Create(bool),
    Join(Option<u128>),
    Name(Option<Seq<char>>),
    Ack,
    RemoveAck,
    SetNum(Option<usize>),
    Unknown(Seq<char>),
    Chat(Seq<char>),
}

impl View for ClientCommand {
    type V = CommandView;

    open spec fn view(&self) -> CommandView {
        match self {
            ClientCommand::List => CommandView::List,
            ClientCommand::Create(a) => CommandView::Create(*a),
            ClientCommand::Join(t) => CommandView::Join(*t),
            ClientCommand::Name(n) => CommandView::Name(
                match n {
                    Some(n) => Some(n@),
                    None => None,
                },
            ),
            ClientCommand::Ack => CommandView::Ack,
            ClientCommand::RemoveAck => CommandView::RemoveAck,
            ClientCommand::SetNum(n) => CommandView::SetNum(*n),
            ClientCommand::Unknown(m) => CommandView::Unknown(m@),
            ClientCommand::Chat(m) => CommandView::Chat(m@),
        }
    }
}

/// The command that the word `w` names, with the rest of the line `rest`;
/// `m` is the whole (trimmed) line.
pub open spec fn command_named(w: Seq<char>, rest: Option<Seq<char>>, m: Seq<char>) -> CommandView {
    if w == "/list"@ {
        CommandView::List
    } else if w == "/create"@ {
        CommandView::Create(rest is Some)
    } else if w == "/join"@ {
        CommandView::Join(
            match rest {
                Some(a) => uuid_parse_of(a),
                None => None,
            },
        )
    } else if w == "/name"@ {
        CommandView::Name(rest)
    } else if w == "/ack"@ {
        CommandView::Ack
    } else if w == "/rm_ack"@ {
        CommandView::RemoveAck
    } else if w == "/set_num"@ {
        CommandView::SetNum(
            match rest {
                Some(a) => usize_of(a),
                None => None,
            },
        )
    } else {
        CommandView::Unknown(m)
    }
}

/// What the line `t` asks for. The line is trimmed; one that starts with
/// `/` is a command, split at its first space into the command's word and
/// its argument; any other is chat.
pub open spec fn command_of(t: Seq<char>) -> CommandView {
    let m = trim(t);
    if m.len() > 0 && m[0] == '/' {
        command_named(split_word(m).0, split_word(m).1, m)
    } else {
        CommandView::Chat(m)
    }
}

/// Reads one line of a client.
pub fn parse_command(text: &str) -> (r: ClientCommand)
    ensures
        r@ == command_of(text@),
{
    let cs = chars_of(text);
    let (a, b) = trim_bounds(&cs);
    let ghost m = cs@.subrange(a as int, b as int);
    let line = text.substring_char(a, b);
    if !(a < b && cs[a] == '/') {
        return ClientCommand::Chat(String::from_str(line));
    }
    let (wend, rest) = match find_space(&cs, a, b) {
        Some(i) => (i, Some(i + 1)),
        None => (b, None),
    };
    proof {
        match rest {
            Some(r) => {
                let i = (r - 1) as int - a;
                assert(is_first_space(m, i));
                let c = choose|c: int| is_first_space(m, c);
                assert(c == i) by {
                    if c < i {
                        assert(m[c] == ' ');
                    }
                    if i < c {
                        assert(m[i] == ' ');
                    }
                }
                assert(m.take(i) =~= cs@.subrange(a as int, wend as int));
                assert(m.skip(i + 1) =~= cs@.subrange(r as int, b as int));
            },
            None => {
                assert(!exists|c: int| is_first_space(m, c)) by {
                    if exists|c: int| is_first_space(m, c) {
                        let c = choose|c: int| is_first_space(m, c);
                        assert(cs@[a + c] == ' ');
                    }
                }
            },
        }
    }
    if matches_word(&cs, a, wend, "/list") {
        ClientCommand::List
    } else if matches_word(&cs, a, wend, "/create") {
        ClientCommand::Create(rest.is_some())
    } else if matches_word(&cs, a, wend, "/join") {
        ClientCommand::Join(
            match rest {
                Some(r) => parse_uuid(text.substring_char(r, b)),
                None => None,
            },
        )
    } else if matches_word(&cs, a, wend, "/name") {
        ClientCommand::Name(
            match rest {
                Some(r) => Some(String::from_str(text.substring_char(r, b))),
                None => None,
            },
        )
    } else if matches_word(&cs, a, wend, "/ack") {
        ClientCommand::Ack
    } else if matches_word(&cs, a, wend, "/rm_ack") {
        ClientCommand::RemoveAck
    } else if matches_word(&cs, a, wend, "/set_num") {
        ClientCommand::SetNum(
            match rest {
                Some(r) => parse_usize(&cs, r, b),
                None => None,
            },
        )
    } else {
        ClientCommand::Unknown(String::from_str(line))
    }
}

/// A request from a session to the coordinator.
pub enum Request {
    ListRooms(ListRooms),
    Create(Create),
    Join(Join),
    Ack(Ack),
    AckCancel(AckCancel),
    SetNum(SetNum),
    Chat(ClientMessage),
}

pub enum RequestView {
    ListRooms,
    Create { user_id: Seq<char>, user_name: Seq<char>, current_room_id: u128, new_room_id: u128 },
    Join { user_id: Seq<char>, user_name: Seq<char>, current_room_id: u128, join_room_id: u128 },
    Ack { user_name: Seq<char>, user_id: Seq<char>, room_id: u128 },
    AckCancel { user_name: Seq<char>, user_id: Seq<char>, room_id: u128 },
    SetNum { room_id: u128, user_name: Seq<char>, cap_number: usize },
    Chat { user_id: Seq<char>, user_name: Seq<char>, msg: Seq<char>, room: u128 },
}

impl View for Request {
    type V = RequestView;

    open spec fn view(&self) -> RequestView {
        match self {
            Request::ListRooms(_) => RequestView::ListRooms,
            Request::Create(c) => RequestView::Create {
                user_id: c.user_id@,
                user_name: c.user_name@,
                current_room_id: c.current_room_id,
                new_room_id: c.new_room_id,
            },
            Request::Join(j) => RequestView::Join {
                user_id: j.user_id@,
                user_name: j.user_name@,
                current_room_id: j.current_room_id,
                join_room_id: j.join_room_id,
            },
            Request::Ack(a) => RequestView::Ack {
                user_name: a.user_name@,
                user_id: a.user_id@,
                room_id: a.room_id,
            },
            Request::AckCancel(a) => RequestView::AckCancel {
                user_name: a.user_name@,
                user_id: a.user_id@,
                room_id: a.room_id,
            },
            Request::SetNum(n) => RequestView::SetNum {
                room_id: n.room_id,
                user_name: n.user_name@,
                cap_number: n.cap_number,
            },
            Request::Chat(c) => RequestView::Chat {
                user_id: c.user_id@,
                user_name: c.user_name@,
                msg: c.msg@,
                room: c.room,
            },
        }
    }
}

/// What a session does about one line: at most one request, and the lines
/// to write back to its client.
pub struct Reaction {
    pub request: Option<Request>,
    pub replies: Vec<String>,
}

pub struct ReactionView {
    pub request: Option<RequestView>,
    pub replies: Seq<Seq<char>>,
}

impl View for Reaction {
    type V = ReactionView;

    open spec fn view(&self) -> ReactionView {
        ReactionView {
            request: match self.request {
                Some(q) => Some(q@),
                None => None,
            },
            replies: texts_view(self.replies@),
        }
    }
}

/// One client's session.
pub struct WsChatSession {
    pub user_id: String,
    /// When the client was last heard from, in milliseconds.
    pub hb_timestamp: u64,
    /// The room the session believes it is in.
    pub room_id: u128,
    pub user_name: String,
    pub phase: Phase,
}

pub struct SessionView {
    pub user_id: Seq<char>,
    pub hb_timestamp: u64,
    pub room_id: u128,
    pub user_name: Seq<char>,
    pub phase: Phase,
}

impl View for WsChatSession {
    type V = SessionView;

    open spec fn view(&self) -> SessionView {
        SessionView {
            user_id: self.user_id@,
            hb_timestamp: self.hb_timestamp,
            room_id: self.room_id,
            user_name: self.user_name@,
            phase: self.phase,
        }
    }
}

pub open spec fn quiet() -> ReactionView {
    ReactionView { request: None, replies: Seq::empty() }
}

pub open spec fn ask(q: RequestView) -> ReactionView {
    ReactionView { request: Some(q), replies: Seq::empty() }
}

pub open spec fn reply(line: Seq<char>) -> ReactionView {
    ReactionView { request: None, replies: seq![line] }
}

/// The session after the command `c`, and its reaction; `fresh` is the id
/// that a `/create` gives the new room.
pub open spec fn step(s: SessionView, c: CommandView, fresh: u128) -> (SessionView, ReactionView) {
    if s.phase == Phase::Closed {
        (s, quiet())
    } else {
        match c {
            CommandView::List => (s, ask(RequestView::ListRooms)),
            CommandView::Create(with_argument) => if with_argument {
                (s, reply("!!! room name is required"@))
            } else {
                (
                    SessionView { room_id: fresh, ..s },
                    ReactionView {
                        request: Some(
                            RequestView::Create {
                                user_id: s.user_id,
                                user_name: s.user_name,
                                current_room_id: s.room_id,
                                new_room_id: fresh,
                            },
                        ),
                        replies: seq![
                            "created room successfully"@,
                            "new room_id: "@ + uuid_text(fresh),
                        ],
                    },
                )
            },
            CommandView::Join(target) => match target {
                Some(t) => (
                    SessionView { room_id: t, ..s },
                    ask(
                        RequestView::Join {
                            user_id: s.user_id,
                            user_name: s.user_name,
                            current_room_id: s.room_id,
                            join_room_id: t,
                        },
                    ),
                ),
                None => (s, reply("!!! room name is required"@)),
            },
            CommandView::Name(name) => match name {
                Some(n) => (SessionView { user_name: n, ..s }, quiet()),
                None => (s, reply("!!! name is required"@)),
            },
            CommandView::Ack => (
                s,
                ask(RequestView::Ack { user_name: s.user_name, user_id: s.user_id, room_id: s.room_id }),
            ),
            CommandView::RemoveAck => (
                s,
                ask(
                    RequestView::AckCancel {
                        user_name: s.user_name,
                        user_id: s.user_id,
                        room_id: s.room_id,
                    },
                ),
            ),
            CommandView::SetNum(n) => match n {
                Some(n) => (
                    s,
                    ask(RequestView::SetNum { room_id: s.room_id, user_name: s.user_name, cap_number: n }),
                ),
                None => (s, reply("!!! a number is required"@)),
            },
            CommandView::Unknown(m) => (s, reply("!!! unknown command: "@ + m)),
            CommandView::Chat(m) => (
                s,
                ask(
                    RequestView::Chat {
                        user_id: s.user_id,
                        user_name: s.user_name,
                        msg: m,
                        room: s.room_id,
                    },
                ),
            ),
        }
    }
}

/// Whether a client last heard from at `hb` has been silent too long at `now`.
pub open spec fn timed_out(hb: u64, now: u64) -> bool {
    now > hb && now - hb > CLIENT_TIMEOUT_MS
}

/// What a heartbeat check decides.
pub enum Tick {
    /// The client is alive: probe it again.
    Ping,
    /// The client has been silent too long: the session closes, and the
    /// coordinator is to forget it.
    TimedOut(Disconnect),
    /// The session is closed already: no more checks.
    Stopped,
}

fn reply_with(line: &str) -> (r: Reaction)
    ensures
        r@ == reply(line@),
{
    let mut replies: Vec<String> = Vec::new();
    replies.push(String::from_str(line));
    let r = Reaction { request: None, replies };
    assert(r@.replies =~= seq![line@]);
    r
}

fn asking(q: Request) -> (r: Reaction)
    ensures
        r@ == ask(q@),
{
    let r = Reaction { request: Some(q), replies: Vec::new() };
    assert(r@.replies =~= Seq::<Seq<char>>::empty());
    r
}

fn nothing() -> (r: Reaction)
    ensures
        r@ == quiet(),
{
    let r = Reaction { request: None, replies: Vec::new() };
    assert(r@.replies =~= Seq::<Seq<char>>::empty());
    r
}

impl WsChatSession {
    /// A session for `user_id`, not started yet, in the lobby, without a
    /// name, last heard from at `now`.
    pub fn new(user_id: String, now: u64) -> (r: WsChatSession)
        ensures
            r@ == (SessionView {
                user_id: user_id@,
                hb_timestamp: now,
                room_id: LOBBY_ROOM_ID,
                user_name: Seq::empty(),
                phase: Phase::Connecting,
            }),
    {
        WsChatSession {
            user_id,
            hb_timestamp: now,
            room_id: LOBBY_ROOM_ID,
            user_name: String::new(),
            phase: Phase::Connecting,
        }
    }

    /// The session starts: from now on it is active, unless it was closed.
    pub fn started(&mut self)
        ensures
            final(self)@ == (if old(self)@.phase == Phase::Connecting {
                SessionView { phase: Phase::Active, ..old(self)@ }
            } else {
                old(self)@
            }),
    {
        if self.phase == Phase::Connecting {
            self.phase = Phase::Active;
        }
    }

    /// The client answered or sent a probe at `now`.
    pub fn heartbeat(&mut self, now: u64)
        ensures
            final(self)@ == (SessionView { hb_timestamp: now, ..old(self)@ }),
    {
        self.hb_timestamp = now;
    }

    /// The periodic check at `now`.
    pub fn check_heartbeat(&mut self, now: u64) -> (r: Tick)
        ensures
            old(self)@.phase == Phase::Closed ==> final(self)@ == old(self)@ && r is Stopped,
            old(self)@.phase != Phase::Closed && timed_out(old(self)@.hb_timestamp, now) ==> {
                &&& final(self)@ == (SessionView { phase: Phase::Closed, ..old(self)@ })
                &&& (r matches Tick::TimedOut(d) && d.user_id@ == old(self)@.user_id)
            },
            old(self)@.phase != Phase::Closed && !timed_out(old(self)@.hb_timestamp, now)
                ==> final(self)@ == old(self)@ && r is Ping,
    {
        if self.phase == Phase::Closed {
            return Tick::Stopped;
        }
        if now > self.hb_timestamp && now - self.hb_timestamp > CLIENT_TIMEOUT_MS {
            self.phase = Phase::Closed;
            Tick::TimedOut(Disconnect { user_id: self.user_id.clone() })
        } else {
            Tick::Ping
        }
    }

    /// The session stops (the client closed, or the transport failed). The
    /// coordinator is to forget the client the first time only.
    pub fn stop(&mut self) -> (r: Option<Disconnect>)
        ensures
            final(self)@ == (SessionView { phase: Phase::Closed, ..old(self)@ }),
            old(self)@.phase == Phase::Closed ==> r is None,
            old(self)@.phase != Phase::Closed ==> (r matches Some(d) && d.user_id@
                == old(self)@.user_id),
    {
        if self.phase == Phase::Closed {
            None
        } else {
            self.phase = Phase::Closed;
            Some(Disconnect { user_id: self.user_id.clone() })
        }
    }

    /// Carries out the command `cmd`; `fresh` is the id that `/create`
    /// gives the new room. A closed session ignores every command.
    pub fn handle_command(&mut self, cmd: ClientCommand, fresh: u128) -> (r: Reaction)
        ensures
            (final(self)@, r@) == step(old(self)@, cmd@, fresh),
    {
        if self.phase == Phase::Closed {
            return nothing();
        }
        match cmd {
            ClientCommand::List => asking(Request::ListRooms(ListRooms)),
            ClientCommand::Create(with_argument) => {
                if with_argument {
                    reply_with("!!! room name is required")
                } else {
                    let current_room_id = self.room_id;
                    self.room_id = fresh;
                    let mut replies: Vec<String> = Vec::new();
                    replies.push(String::from_str("created room successfully"));
                    let mut line = String::from_str("new room_id: ");
                    let id_text = format_uuid(fresh);
                    line.append(id_text.as_str());
                    replies.push(line);
                    let r = Reaction {
                        request: Some(
                            Request::Create(
                                Create {
                                    user_id: self.user_id.clone(),
                                    user_name: self.user_name.clone(),
                                    current_room_id,
                                    new_room_id: fresh,
                                },
                            ),
                        ),
                        replies,
                    };
                    assert(r@.replies =~= seq![
                        "created room successfully"@,
                        "new room_id: "@ + uuid_text(fresh),
                    ]);
                    r
                }
            },
            ClientCommand::Join(target) => match target {
                Some(t) => {
                    let current_room_id = self.room_id;
                    self.room_id = t;
                    asking(
                        Request::Join(
                            Join {
                                user_id: self.user_id.clone(),
                                user_name: self.user_name.clone(),
                                current_room_id,
                                join_room_id: t,
                            },
                        ),
                    )
                },
                None => reply_with("!!! room name is required"),
            },
            ClientCommand::Name(name) => match name {
                Some(n) => {
                    self.user_name = n;
                    nothing()
                },
                None => reply_with("!!! name is required"),
            },
            ClientCommand::Ack => asking(
                Request::Ack(
                    Ack {
                        user_name: self.user_name.clone(),
                        user_id: self.user_id.clone(),
                        room_id: self.room_id,
                    },
                ),
            ),
            ClientCommand::RemoveAck => asking(
                Request::AckCancel(
                    AckCancel {
                        user_name: self.user_name.clone(),
                        user_id: self.user_id.clone(),
                        room_id: self.room_id,
                    },
                ),
            ),
            ClientCommand::SetNum(n) => match n {
                Some(n) => asking(
                    Request::SetNum(
                        SetNum { room_id: self.room_id, user_name: self.user_name.clone(), cap_number: n },
                    ),
                ),
                None => reply_with("!!! a number is required"),
            },
            ClientCommand::Unknown(m) => {
                let mut line = String::from_str("!!! unknown command: ");
                line.append(m.as_str());
                let mut replies: Vec<String> = Vec::new();
                replies.push(line);
                let r = Reaction { request: None, replies };
                assert(r@.replies =~= seq!["!!! unknown command: "@ + m@]);
                r
            },
            ClientCommand::Chat(m) => asking(
                Request::Chat(
                    ClientMessage {
                        user_id: self.user_id.clone(),
                        user_name: self.user_name.clone(),
                        msg: m,
                        room: self.room_id,
                    },
                ),
            ),
        }
    }

    /// Reads and carries out one line of the client. A `/create` draws a
    /// random id for the new room; everything else is determined by the
    /// line and the session.
    pub fn handle_text(&mut self, text: &str) -> (r: Reaction)
        ensures
            exists|fresh: u128|
                is_random_uuid(fresh) && (final(self)@, r@) == #[trigger] step(
                    old(self)@,
                    command_of(text@),
                    fresh,
                ),
    {
        let cmd = parse_command(text);
        let fresh = match cmd {
            ClientCommand::Create(false) => {
                if self.phase != Phase::Closed {
                    new_room_id()
                } else {
                    0x4000_8000_0000_0000_0000
                }
            },
            _ => 0x4000_8000_0000_0000_0000,
        };
        proof {
            lemma_random_uuid_exists();
        }
        let r = self.handle_command(cmd, fresh);
        assert(is_random_uuid(fresh));
        r
    }
}

} // verus!
