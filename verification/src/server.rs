//! The room registry: the single owner of the session table and the room
//! membership map. Every operation is processed one at a time (the caller
//! serializes requests, e.g. through an actor mailbox), mutates the registry,
//! and returns the broadcasts it caused as a list of [`Delivery`] values for
//! the transport layer to send.
use vstd::prelude::*;
use vstd::string::StringExecFns;
use crate::text::dec_digits;
use crate::text::str_eq;
use crate::text::usize_to_string;

verus! {

/// An outbound text frame, as the chat server pushes it to one session.
pub struct Message(pub String);

impl View for Message {
    type V = Seq<char>;

    open spec fn view(&self) -> Seq<char> {
        self.0@
    }
}

/// A request to register a new session (the transport handle itself stays
/// with the caller, keyed by the returned id).
pub struct Connect {}

/// A session was disconnected.
pub struct Disconnect {
    pub id: usize,
}

/// Send a chat message to a room.
pub struct ClientMessage {
    /// Id of the sending client session.
    pub id: usize,
    /// The text of the message.
    pub msg: String,
    /// Name of the room.
    pub room: String,
}

/// Ask for the list of available rooms.
pub struct ListRooms {}

/// Join a room; if the room does not exist, it is created.
pub struct Join {
    /// Client id.
    pub id: usize,
    /// Room name.
    pub name: String,
}

/// Forward one game step to a room.
pub struct ChessGame {
    pub id: usize,
    pub step: String,
    pub room: String,
}

/// One pending send: `msg` is to be delivered to the session `to`.
pub struct Delivery {
    pub to: usize,
    pub msg: Message,
}

/// Mathematical model of one pending send.
#[verifier::ext_equal]
pub ghost struct Dv {
    pub to: usize,
    pub text: Seq<char>,
}

impl View for Delivery {
    type V = Dv;

    open spec fn view(&self) -> Dv {
        Dv { to: self.to, text: self.msg@ }
    }
}

/// The models of a sequence of deliveries.
pub open spec fn dvs(s: Seq<Delivery>) -> Seq<Dv> {
    s.map_values(|d: Delivery| d@)
}

/// A room: a name and the set of member session ids.
pub struct Room {
    pub name: String,
    pub members: Vec<usize>,
}

/// Mathematical model of a room.
#[verifier::ext_equal]
pub ghost struct RoomV {
    pub name: Seq<char>,
    pub members: Seq<usize>,
}

impl View for Room {
    type V = RoomV;

    open spec fn view(&self) -> RoomV {
        RoomV { name: self.name@, members: self.members@ }
    }
}

/// The models of a sequence of rooms.
pub open spec fn rooms_view(rooms: Seq<Room>) -> Seq<RoomV> {
    rooms.map_values(|r: Room| r@)
}

/// Mathematical model of the whole registry.
#[verifier::ext_equal]
pub ghost struct ServerV {
    pub sessions: Seq<usize>,
    pub rooms: Seq<RoomV>,
    pub visitors: usize,
}

impl ServerV {
    /// The registry's invariant: registered ids are distinct, room names are
    /// distinct, each room's member set holds no duplicates, and the default
    /// room is always present.
    pub open spec fn wf(self) -> bool {
        &&& self.sessions.no_duplicates()
        &&& forall|i: int, j: int|
            0 <= i < j < self.rooms.len() ==> self.rooms[i].name != self.rooms[j].name
        &&& forall|i: int| 0 <= i < self.rooms.len() ==> (#[trigger] self.rooms[i]).members.no_duplicates()
        &&& exists|k: int| 0 <= k < self.rooms.len() && (#[trigger] self.rooms[k]).name == "Main"@
    }
}

/// `ChatServer` manages the chat rooms: it owns `sessions` (the registered
/// session ids) and `rooms` (name and member ids of each room), and computes
/// every broadcast. Callers must process one operation at a time.
pub struct ChatServer {
    pub sessions: Vec<usize>,
    pub rooms: Vec<Room>,
    pub visitor_count: usize,
}

impl View for ChatServer {
    type V = ServerV;

    open spec fn view(&self) -> ServerV {
        ServerV {
            sessions: self.sessions@,
            rooms: rooms_view(self.rooms@),
            visitors: self.visitor_count,
        }
    }
}

/// Index of the first room at or after `i` whose name is `name`, or `-1`.
pub open spec fn room_idx_from(rooms: Seq<RoomV>, name: Seq<char>, i: int) -> int
    decreases rooms.len() - i,
{
    if i < 0 || i >= rooms.len() {
        -1
    } else if rooms[i].name == name {
        i
    } else {
        room_idx_from(rooms, name, i + 1)
    }
}

/// Index of the room called `name`, or `-1` if there is none.
pub open spec fn room_idx(rooms: Seq<RoomV>, name: Seq<char>) -> int {
    room_idx_from(rooms, name, 0)
}

/// The deliveries a broadcast of `text` produces from `members[i..]`:
/// one to every member that is not `skip` and has a registered session.
pub open spec fn deliver_from(
    members: Seq<usize>,
    sessions: Seq<usize>,
    skip: usize,
    text: Seq<char>,
    i: int,
) -> Seq<Dv>
    decreases members.len() - i,
{
    if i < 0 || i >= members.len() {
        Seq::empty()
    } else {
        let rest = deliver_from(members, sessions, skip, text, i + 1);
        if members[i] != skip && sessions.contains(members[i]) {
            seq![Dv { to: members[i], text }] + rest
        } else {
            rest
        }
    }
}

/// All deliveries of a broadcast of `text` to `members`.
pub open spec fn deliveries(
    members: Seq<usize>,
    sessions: Seq<usize>,
    skip: usize,
    text: Seq<char>,
) -> Seq<Dv> {
    deliver_from(members, sessions, skip, text, 0)
}

/// What sending `text` to `room` does: deliveries to every member of the room
/// except `skip`, and nothing at all if the room does not exist.
pub open spec fn spec_send(s: ServerV, room: Seq<char>, text: Seq<char>, skip: usize) -> Seq<Dv> {
    let i = room_idx(s.rooms, room);
    if i >= 0 {
        deliveries(s.rooms[i].members, s.sessions, skip, text)
    } else {
        Seq::empty()
    }
}

/// `m[i..]` with every occurrence of `id` removed.
pub open spec fn without_from(m: Seq<usize>, id: usize, i: int) -> Seq<usize>
    decreases m.len() - i,
{
    if i < 0 || i >= m.len() {
        Seq::empty()
    } else {
        let rest = without_from(m, id, i + 1);
        if m[i] == id {
            rest
        } else {
            seq![m[i]] + rest
        }
    }
}

/// `m` with every occurrence of `id` removed.
pub open spec fn without(m: Seq<usize>, id: usize) -> Seq<usize> {
    without_from(m, id, 0)
}

/// A room with `id` removed from its members.
pub open spec fn room_minus(r: RoomV, id: usize) -> RoomV {
    RoomV { name: r.name, members: without(r.members, id) }
}

/// All rooms with `id` removed from their members.
pub open spec fn rooms_minus(rooms: Seq<RoomV>, id: usize) -> Seq<RoomV> {
    rooms.map_values(|r: RoomV| room_minus(r, id))
}

/// The deliveries caused by vacating `id` from every room in `rooms[i..]`
/// that holds it: `text` goes to each such room's remaining members
/// (excluding nobody — skip id 0 stands for no real session).
pub open spec fn vacate_from(
    rooms: Seq<RoomV>,
    sessions: Seq<usize>,
    id: usize,
    text: Seq<char>,
    i: int,
) -> Seq<Dv>
    decreases rooms.len() - i,
{
    if i < 0 || i >= rooms.len() {
        Seq::empty()
    } else {
        let rest = vacate_from(rooms, sessions, id, text, i + 1);
        if rooms[i].members.contains(id) {
            deliveries(without(rooms[i].members, id), sessions, 0, text) + rest
        } else {
            rest
        }
    }
}

/// `rooms` with `id` inserted into the room called `name`; the room is
/// created when absent.
pub open spec fn insert_member(rooms: Seq<RoomV>, name: Seq<char>, id: usize) -> Seq<RoomV> {
    let i = room_idx(rooms, name);
    if i >= 0 {
        if rooms[i].members.contains(id) {
            rooms
        } else {
            rooms.update(i, RoomV { name: rooms[i].name, members: rooms[i].members.push(id) })
        }
    } else {
        rooms.push(RoomV { name, members: seq![id] })
    }
}

/// The visitor counter steps with wraparound, as an atomic increment would.
pub open spec fn wrap_inc(v: usize) -> usize {
    if v == usize::MAX {
        0
    } else {
        (v + 1) as usize
    }
}

/// What a connect does: broadcast the join notice to the default room (the
/// new id is not yet a member), register the id, add it to the default room,
/// step the visitor counter and broadcast the old count to the default room
/// (now including the new id).
pub open spec fn spec_connect(s: ServerV, id: usize) -> (ServerV, Seq<Dv>) {
    let d1 = spec_send(s, "Main"@, "Someone joined"@, 0);
    let sessions1 = if s.sessions.contains(id) {
        s.sessions
    } else {
        s.sessions.push(id)
    };
    let s1 = ServerV {
        sessions: sessions1,
        rooms: insert_member(s.rooms, "Main"@, id),
        visitors: wrap_inc(s.visitors),
    };
    let d2 = spec_send(s1, "Main"@, "Total visitors "@ + dec_digits(s.visitors as nat), 0);
    (s1, d1 + d2)
}

/// What a disconnect does: nothing for an unknown id; otherwise the id is
/// dropped from the session table and from every room, and each vacated
/// room's remaining members are told.
pub open spec fn spec_disconnect(s: ServerV, id: usize) -> (ServerV, Seq<Dv>) {
    if s.sessions.contains(id) {
        let sessions1 = without(s.sessions, id);
        let s1 = ServerV {
            sessions: sessions1,
            rooms: rooms_minus(s.rooms, id),
            visitors: s.visitors,
        };
        (s1, vacate_from(s.rooms, sessions1, id, "Someone disconnected"@, 0))
    } else {
        (s, Seq::empty())
    }
}

/// What a join does: the id leaves every room (each vacated room is told,
/// excluding nobody), then enters the named room (created when absent), whose
/// other members are told (the joining id is excluded from that one notice).
pub open spec fn spec_join(s: ServerV, id: usize, name: Seq<char>) -> (ServerV, Seq<Dv>) {
    let d1 = vacate_from(s.rooms, s.sessions, id, "Someone disconnected"@, 0);
    let s1 = ServerV {
        sessions: s.sessions,
        rooms: insert_member(rooms_minus(s.rooms, id), name, id),
        visitors: s.visitors,
    };
    (s1, d1 + spec_send(s1, name, "Someone connected"@, id))
}

/// The room-name snapshot a list request returns.
pub open spec fn spec_list(s: ServerV) -> Seq<Seq<char>> {
    s.rooms.map_values(|r: RoomV| r.name)
}

/// Whether `v` holds `id`.
fn contains_id(v: &Vec<usize>, id: usize) -> (r: bool)
    ensures
        r == v@.contains(id),
{
    let mut i: usize = 0;
    while i < v.len()
        invariant
            i <= v@.len(),
            forall|k: int| 0 <= k < i ==> v@[k] != id,
        decreases v@.len() - i,
    {
        if v[i] == id {
            return true;
        }
        i = i + 1;
    }
    proof {
        assert(forall|k: int| 0 <= k < v@.len() ==> v@[k] != id);
    }
    false
}

/// A copy of `m` with every occurrence of `id` dropped.
fn copy_without(m: &Vec<usize>, id: usize) -> (r: Vec<usize>)
    ensures
        r@ == without(m@, id),
{
    let mut r: Vec<usize> = Vec::new();
    let mut i: usize = 0;
    while i < m.len()
        invariant
            i <= m@.len(),
            without(m@, id) == r@ + without_from(m@, id, i as int),
        decreases m@.len() - i,
    {
        if m[i] != id {
            r.push(m[i]);
            proof {
                assert(without_from(m@, id, i - 1 + 1) == seq![m@[i as int]] + without_from(
                    m@,
                    id,
                    i + 1,
                ));
                assert(r@ + without_from(m@, id, i + 1) =~= without(m@, id));
            }
        } else {
            proof {
                assert(without_from(m@, id, i as int) == without_from(m@, id, i + 1));
            }
        }
        i = i + 1;
    }
    proof {
        assert(r@ =~= without(m@, id));
    }
    r
}

/// Finds the room called `name`, as `room_idx` names it.
fn find_room(rooms: &Vec<Room>, name: &str) -> (r: Option<usize>)
    ensures
        match r {
            Some(i) => room_idx(rooms_view(rooms@), name@) == i as int && i < rooms@.len(),
            None => room_idx(rooms_view(rooms@), name@) == -1,
        },
{
    let ghost rv = rooms_view(rooms@);
    let mut i: usize = 0;
    while i < rooms.len()
        invariant
            rv == rooms_view(rooms@),
            rv.len() == rooms@.len(),
            i <= rooms@.len(),
            room_idx(rv, name@) == room_idx_from(rv, name@, i as int),
        decreases rooms@.len() - i,
    {
        if str_eq(rooms[i].name.as_str(), name) {
            proof {
                assert(rv[i as int].name == name@);
            }
            return Some(i);
        }
        proof {
            assert(rv[i as int].name != name@);
            assert(room_idx_from(rv, name@, i as int) == room_idx_from(rv, name@, i + 1));
        }
        i = i + 1;
    }
    None
}

/// Appends to `out` one delivery of `text` for every member of `members`
/// that is not `skip` and is registered in `sessions`.
fn deliver_into(
    out: &mut Vec<Delivery>,
    members: &Vec<usize>,
    sessions: &Vec<usize>,
    skip: usize,
    text: &str,
)
    ensures
        dvs(final(out)@) == dvs(old(out)@) + deliveries(members@, sessions@, skip, text@),
{
    let mut i: usize = 0;
    while i < members.len()
        invariant
            i <= members@.len(),
            dvs(old(out)@) + deliveries(members@, sessions@, skip, text@) == dvs(out@)
                + deliver_from(members@, sessions@, skip, text@, i as int),
        decreases members@.len() - i,
    {
        let m = members[i];
        let ghost out0 = out@;
        if m != skip && contains_id(sessions, m) {
            out.push(Delivery { to: m, msg: Message(text.to_owned()) });
            proof {
                assert(deliver_from(members@, sessions@, skip, text@, i as int) == seq![
                    Dv { to: m, text: text@ },
                ] + deliver_from(members@, sessions@, skip, text@, i + 1));
                assert(dvs(out@) =~~= dvs(out0) + seq![Dv { to: m, text: text@ }]);
                assert(dvs(out@) + deliver_from(members@, sessions@, skip, text@, i + 1) =~~= dvs(
                    out0,
                ) + deliver_from(members@, sessions@, skip, text@, i as int));
            }
        } else {
            proof {
                assert(deliver_from(members@, sessions@, skip, text@, i as int) == deliver_from(
                    members@,
                    sessions@,
                    skip,
                    text@,
                    i + 1,
                ));
            }
        }
        i = i + 1;
    }
    proof {
        assert(dvs(out@) =~~= dvs(old(out)@) + deliveries(members@, sessions@, skip, text@));
    }
}

/// What a removal leaves: `without_from(m, id, i)` holds exactly the elements
/// of `m[i..]` other than `id`, and stays duplicate-free.
pub proof fn lemma_without_props(m: Seq<usize>, id: usize, i: int)
    requires
        0 <= i <= m.len(),
    ensures
        forall|x: usize|
            #[trigger] without_from(m, id, i).contains(x) <==> (x != id && exists|k: int|
                i <= k < m.len() && m[k] == x),
        m.no_duplicates() ==> without_from(m, id, i).no_duplicates(),
    decreases m.len() - i,
{
    if i < m.len() {
        lemma_without_props(m, id, i + 1);
        let rest = without_from(m, id, i + 1);
        if m[i] != id {
            let cur = seq![m[i]] + rest;
            assert(without_from(m, id, i) == cur);
            assert forall|x: usize| #[trigger] cur.contains(x) implies (x != id && exists|k: int|
                i <= k < m.len() && m[k] == x) by {
                let j = choose|j: int| 0 <= j < cur.len() && cur[j] == x;
                if j == 0 {
                    assert(m[i] == x);
                } else {
                    assert(rest[j - 1] == x);
                    assert(rest.contains(x));
                }
            };
            assert forall|x: usize|
                (x != id && exists|k: int| i <= k < m.len() && m[k] == x) implies #[trigger] cur
                .contains(x) by {
                let k = choose|k: int| i <= k < m.len() && m[k] == x;
                if k == i {
                    assert(cur[0] == x);
                } else {
                    assert(rest.contains(x));
                    let j = choose|j: int| 0 <= j < rest.len() && rest[j] == x;
                    assert(cur[j + 1] == x);
                }
            };
            if m.no_duplicates() {
                if rest.contains(m[i]) {
                    let k = choose|k: int| i + 1 <= k < m.len() && m[k] == m[i];
                    assert(m[i] != m[k]);
                    assert(false);
                }
                assert forall|p: int, q: int| 0 <= p < q < cur.len() implies cur[p] != cur[q] by {
                    if p == 0 {
                        if cur[q] == m[i] {
                            assert(rest[q - 1] == m[i]);
                            assert(rest.contains(m[i]));
                        }
                    } else {
                        assert(cur[p] == rest[p - 1] && cur[q] == rest[q - 1]);
                    }
                };
            }
        }
    }
}

impl ChatServer {
    /// A fresh registry: no sessions, the default room alone, the visitor
    /// counter at zero.
    pub fn new() -> (s: ChatServer)
        ensures
            s@.sessions == Seq::<usize>::empty(),
            s@.rooms == seq![RoomV { name: "Main"@, members: Seq::empty() }],
            s@.visitors == 0,
            s@.wf(),
    {
        let mut rooms: Vec<Room> = Vec::new();
        rooms.push(Room { name: "Main".to_owned(), members: Vec::new() });
        let s = ChatServer { sessions: Vec::new(), rooms, visitor_count: 0 };
        proof {
            assert(s@.rooms =~~= seq![RoomV { name: "Main"@, members: Seq::empty() }]);
            assert(s@.sessions =~~= Seq::<usize>::empty());
            assert(s@.rooms[0].name == "Main"@);
        }
        s
    }

    /// Sends `message` to every member of `room` except `skip_id`, as a list
    /// of deliveries for the transport to perform.
    fn send_message(&self, room: &str, message: &str, skip_id: usize) -> (out: Vec<Delivery>)
        ensures
            dvs(out@) == spec_send(self@, room@, message@, skip_id),
    {
        let mut out: Vec<Delivery> = Vec::new();
        match find_room(&self.rooms, room) {
            Some(i) => {
                deliver_into(&mut out, &self.rooms[i].members, &self.sessions, skip_id, message);
                proof {
                    assert(rooms_view(self.rooms@)[i as int].members == self.rooms@[i as int].members@);
                    assert(dvs(out@) =~~= spec_send(self@, room@, message@, skip_id));
                }
            },
            None => {
                proof {
                    assert(dvs(out@) =~~= spec_send(self@, room@, message@, skip_id));
                }
            },
        }
        out
    }

    /// The room-name snapshot: one entry per room, in the registry's order.
    pub fn list_rooms(&self) -> (names: Vec<String>)
        ensures
            names@.map_values(|n: String| n@) == spec_list(self@),
    {
        let mut names: Vec<String> = Vec::new();
        let mut i: usize = 0;
        while i < self.rooms.len()
            invariant
                i <= self.rooms@.len(),
                names@.len() == i,
                forall|k: int| 0 <= k < i ==> names@[k]@ == self.rooms@[k].name@,
            decreases self.rooms@.len() - i,
        {
            names.push(self.rooms[i].name.clone());
            i = i + 1;
        }
        proof {
            assert(names@.map_values(|n: String| n@) =~~= spec_list(self@));
        }
        names
    }

    /// Registers a session under the given id and auto-joins it to the
    /// default room, exactly as [`spec_connect`] lays it out. The id is
    /// ordinarily drawn at random by [`ChatServer::connect`]; every id is
    /// handled.
    pub fn connect_with_id(&mut self, id: usize) -> (out: Vec<Delivery>)
        ensures
            final(self)@ == spec_connect(old(self)@, id).0,
            dvs(out@) == spec_connect(old(self)@, id).1,
    {
        let ghost s0 = old(self)@;
        let mut out = self.send_message("Main", "Someone joined", 0);
        let ghost d1 = dvs(out@);
        if !contains_id(&self.sessions, id) {
            self.sessions.push(id);
        }
        match find_room(&self.rooms, "Main") {
            Some(i) => {
                if !contains_id(&self.rooms[i].members, id) {
                    let mut room = self.rooms.remove(i);
                    room.members.push(id);
                    self.rooms.insert(i, room);
                }
                proof {
                    assert(rooms_view(self.rooms@) =~~= insert_member(s0.rooms, "Main"@, id));
                }
            },
            None => {
                let mut members: Vec<usize> = Vec::new();
                members.push(id);
                self.rooms.push(Room { name: "Main".to_owned(), members });
                proof {
                    assert(rooms_view(self.rooms@) =~~= insert_member(s0.rooms, "Main"@, id));
                }
            },
        }
        let count = self.visitor_count;
        self.visitor_count = if count == usize::MAX {
            0
        } else {
            count + 1
        };
        proof {
            assert(self@ =~~= spec_connect(s0, id).0);
        }
        let num = usize_to_string(count);
        let mut text = "Total visitors ".to_owned();
        text.append(num.as_str());
        let mut out2 = self.send_message("Main", text.as_str(), 0);
        let ghost d2 = dvs(out2@);
        out.append(&mut out2);
        proof {
            assert(dvs(out@) =~~= d1 + d2);
            assert(dvs(out@) == spec_connect(s0, id).1);
        }
        out
    }

    /// Registers a new session under a freshly drawn id and returns the id
    /// with the broadcasts the connect caused.
    pub fn connect(&mut self) -> (r: (usize, Vec<Delivery>))
        ensures
            final(self)@ == spec_connect(old(self)@, r.0).0,
            dvs(r.1@) == spec_connect(old(self)@, r.0).1,
    {
        let id = fresh_id();
        let out = self.connect_with_id(id);
        (id, out)
    }

    /// Removes a session: the id leaves the session table and every room,
    /// and each vacated room's remaining members are told. A second call
    /// with the same id is a silent no-op.
    pub fn disconnect(&mut self, id: usize) -> (out: Vec<Delivery>)
        ensures
            final(self)@ == spec_disconnect(old(self)@, id).0,
            dvs(out@) == spec_disconnect(old(self)@, id).1,
    {
        let ghost s0 = old(self)@;
        let mut out: Vec<Delivery> = Vec::new();
        if !contains_id(&self.sessions, id) {
            proof {
                assert(dvs(out@) =~~= Seq::<Dv>::empty());
                assert(self@ =~~= spec_disconnect(s0, id).0);
            }
            return out;
        }
        self.sessions = copy_without(&self.sessions, id);
        let ghost sess1 = self.sessions@;
        let n = self.rooms.len();
        let mut new_rooms: Vec<Room> = Vec::new();
        let mut i: usize = 0;
        while i < n
            invariant
                n == self.rooms@.len(),
                rooms_view(self.rooms@) == s0.rooms,
                self.sessions@ == sess1,
                sess1 == without(s0.sessions, id),
                i <= n,
                rooms_view(new_rooms@) == rooms_minus(s0.rooms, id).subrange(0, i as int),
                vacate_from(s0.rooms, sess1, id, "Someone disconnected"@, 0) == dvs(out@)
                    + vacate_from(s0.rooms, sess1, id, "Someone disconnected"@, i as int),
            decreases n - i,
        {
            let contained = contains_id(&self.rooms[i].members, id);
            let new_members = copy_without(&self.rooms[i].members, id);
            let ghost out0 = out@;
            proof {
                assert(s0.rooms[i as int].members == self.rooms@[i as int].members@);
            }
            if contained {
                deliver_into(&mut out, &new_members, &self.sessions, 0, "Someone disconnected");
                proof {
                    assert(vacate_from(s0.rooms, sess1, id, "Someone disconnected"@, i as int)
                        == deliveries(
                        without(s0.rooms[i as int].members, id),
                        sess1,
                        0,
                        "Someone disconnected"@,
                    ) + vacate_from(s0.rooms, sess1, id, "Someone disconnected"@, i + 1));
                    assert(dvs(out@) + vacate_from(
                        s0.rooms,
                        sess1,
                        id,
                        "Someone disconnected"@,
                        i + 1,
                    ) =~~= dvs(out0) + vacate_from(
                        s0.rooms,
                        sess1,
                        id,
                        "Someone disconnected"@,
                        i as int,
                    ));
                }
            } else {
                proof {
                    assert(vacate_from(s0.rooms, sess1, id, "Someone disconnected"@, i as int)
                        == vacate_from(s0.rooms, sess1, id, "Someone disconnected"@, i + 1));
                }
            }
            let ghost nr0 = new_rooms@;
            new_rooms.push(Room { name: self.rooms[i].name.clone(), members: new_members });
            proof {
                assert(rooms_view(new_rooms@) =~~= rooms_view(nr0).push(
                    new_rooms@[i as int]@,
                ));
                assert(new_rooms@[i as int]@ =~~= room_minus(s0.rooms[i as int], id));
                assert(room_minus(s0.rooms[i as int], id) == rooms_minus(s0.rooms, id)[i as int]);
                assert(rooms_view(new_rooms@) =~~= rooms_minus(s0.rooms, id).subrange(0, i + 1));
            }
            i = i + 1;
        }
        self.rooms = new_rooms;
        proof {
            assert(rooms_minus(s0.rooms, id).subrange(0, n as int) =~~= rooms_minus(
                s0.rooms,
                id,
            ));
            assert(self@ =~~= spec_disconnect(s0, id).0);
            assert(dvs(out@) + vacate_from(s0.rooms, sess1, id, "Someone disconnected"@, n as int)
                =~~= dvs(out@));
        }
        out
    }

    /// Moves a session into the named room, creating it when absent: every
    /// vacated room is told "Someone disconnected" (excluding nobody), the
    /// new room's other members are told "Someone connected" (the joining id
    /// is excluded from that one notice).
    pub fn join(&mut self, id: usize, name: &str) -> (out: Vec<Delivery>)
        ensures
            final(self)@ == spec_join(old(self)@, id, name@).0,
            dvs(out@) == spec_join(old(self)@, id, name@).1,
    {
        let ghost s0 = old(self)@;
        let mut out: Vec<Delivery> = Vec::new();
        let n = self.rooms.len();
        let mut new_rooms: Vec<Room> = Vec::new();
        let mut i: usize = 0;
        while i < n
            invariant
                n == self.rooms@.len(),
                rooms_view(self.rooms@) == s0.rooms,
                self.sessions@ == s0.sessions,
                i <= n,
                rooms_view(new_rooms@) == rooms_minus(s0.rooms, id).subrange(0, i as int),
                vacate_from(s0.rooms, s0.sessions, id, "Someone disconnected"@, 0) == dvs(out@)
                    + vacate_from(s0.rooms, s0.sessions, id, "Someone disconnected"@, i as int),
            decreases n - i,
        {
            let contained = contains_id(&self.rooms[i].members, id);
            let new_members = copy_without(&self.rooms[i].members, id);
            let ghost out0 = out@;
            proof {
                assert(s0.rooms[i as int].members == self.rooms@[i as int].members@);
            }
            if contained {
                deliver_into(&mut out, &new_members, &self.sessions, 0, "Someone disconnected");
                proof {
                    assert(vacate_from(s0.rooms, s0.sessions, id, "Someone disconnected"@, i as int)
                        == deliveries(
                        without(s0.rooms[i as int].members, id),
                        s0.sessions,
                        0,
                        "Someone disconnected"@,
                    ) + vacate_from(s0.rooms, s0.sessions, id, "Someone disconnected"@, i + 1));
                    assert(dvs(out@) + vacate_from(
                        s0.rooms,
                        s0.sessions,
                        id,
                        "Someone disconnected"@,
                        i + 1,
                    ) =~~= dvs(out0) + vacate_from(
                        s0.rooms,
                        s0.sessions,
                        id,
                        "Someone disconnected"@,
                        i as int,
                    ));
                }
            } else {
                proof {
                    assert(vacate_from(s0.rooms, s0.sessions, id, "Someone disconnected"@, i as int)
                        == vacate_from(s0.rooms, s0.sessions, id, "Someone disconnected"@, i + 1));
                }
            }
            let ghost nr0 = new_rooms@;
            new_rooms.push(Room { name: self.rooms[i].name.clone(), members: new_members });
            proof {
                assert(rooms_view(new_rooms@) =~~= rooms_view(nr0).push(
                    new_rooms@[i as int]@,
                ));
                assert(new_rooms@[i as int]@ =~~= room_minus(s0.rooms[i as int], id));
                assert(room_minus(s0.rooms[i as int], id) == rooms_minus(s0.rooms, id)[i as int]);
                assert(rooms_view(new_rooms@) =~~= rooms_minus(s0.rooms, id).subrange(0, i + 1));
            }
            i = i + 1;
        }
        self.rooms = new_rooms;
        let ghost d1 = dvs(out@);
        proof {
            assert(rooms_view(self.rooms@) =~~= rooms_minus(s0.rooms, id));
            assert(d1 + vacate_from(s0.rooms, s0.sessions, id, "Someone disconnected"@, n as int)
                =~~= d1);
        }
        match find_room(&self.rooms, name) {
            Some(i) => {
                proof {
                    lemma_without_props(s0.rooms[i as int].members, id, 0);
                    assert(!rooms_minus(s0.rooms, id)[i as int].members.contains(id));
                }
                let mut room = self.rooms.remove(i);
                room.members.push(id);
                self.rooms.insert(i, room);
                proof {
                    assert(rooms_view(self.rooms@) =~~= insert_member(
                        rooms_minus(s0.rooms, id),
                        name@,
                        id,
                    ));
                }
            },
            None => {
                let mut members: Vec<usize> = Vec::new();
                members.push(id);
                self.rooms.push(Room { name: name.to_owned(), members });
                proof {
                    assert(rooms_view(self.rooms@) =~~= insert_member(
                        rooms_minus(s0.rooms, id),
                        name@,
                        id,
                    ));
                }
            },
        }
        proof {
            assert(self@ =~~= spec_join(s0, id, name@).0);
        }
        let mut out2 = self.send_message(name, "Someone connected", id);
        let ghost d2 = dvs(out2@);
        out.append(&mut out2);
        proof {
            assert(dvs(out@) =~~= d1 + d2);
            assert(dvs(out@) == spec_join(s0, id, name@).1);
        }
        out
    }

    /// Relays one chat message: `msg` goes to every member of `room` except
    /// the sender `id`; nothing happens if the room does not exist.
    pub fn client_message(&self, id: usize, msg: &str, room: &str) -> (out: Vec<Delivery>)
        ensures
            dvs(out@) == spec_send(self@, room@, msg@, id),
    {
        self.send_message(room, msg, id)
    }

    /// Relays one game step, exactly as a chat message is relayed.
    pub fn chess_game(&self, id: usize, step: &str, room: &str) -> (out: Vec<Delivery>)
        ensures
            dvs(out@) == spec_send(self@, room@, step@, id),
    {
        self.send_message(room, step, id)
    }
}

/// A registry request, as a session hands it over; the registry owner feeds
/// these to [`ChatServer::handle`] one at a time, in arrival order.
pub enum Request {
    Connect(Connect),
    Disconnect(Disconnect),
    ClientMessage(ClientMessage),
    ListRooms(ListRooms),
    Join(Join),
    ChessGame(ChessGame),
}

/// What a registry request answers with, besides its deliveries.
pub enum Response {
    Empty,
    Id(usize),
    Rooms(Vec<String>),
}

impl ChatServer {
    /// Processes one registry request. Requests are totally ordered: the
    /// caller presents them one at a time, so no two operations overlap.
    pub fn handle(&mut self, req: Request) -> (r: (Response, Vec<Delivery>))
        ensures
            match req {
                Request::Connect(_) => r.0 matches Response::Id(id) && final(self)@
                    == spec_connect(old(self)@, id).0 && dvs(r.1@) == spec_connect(
                    old(self)@,
                    id,
                ).1,
                Request::Disconnect(d) => r.0 is Empty && final(self)@ == spec_disconnect(
                    old(self)@,
                    d.id,
                ).0 && dvs(r.1@) == spec_disconnect(old(self)@, d.id).1,
                Request::ClientMessage(cm) => r.0 is Empty && *final(self) == *old(self) && dvs(
                    r.1@,
                ) == spec_send(old(self)@, cm.room@, cm.msg@, cm.id),
                Request::ListRooms(_) => r.0 matches Response::Rooms(names) && names@.map_values(
                    |n: String| n@,
                ) == spec_list(old(self)@) && *final(self) == *old(self) && r.1@ == Seq::<
                    Delivery,
                >::empty(),
                Request::Join(j) => r.0 is Empty && final(self)@ == spec_join(
                    old(self)@,
                    j.id,
                    j.name@,
                ).0 && dvs(r.1@) == spec_join(old(self)@, j.id, j.name@).1,
                Request::ChessGame(g) => r.0 is Empty && *final(self) == *old(self) && dvs(r.1@)
                    == spec_send(old(self)@, g.room@, g.step@, g.id),
            },
    {
        match req {
            Request::Connect(_) => {
                let (id, out) = self.connect();
                (Response::Id(id), out)
            },
            Request::Disconnect(d) => {
                let out = self.disconnect(d.id);
                (Response::Empty, out)
            },
            Request::ClientMessage(cm) => {
                let out = self.client_message(cm.id, cm.msg.as_str(), cm.room.as_str());
                (Response::Empty, out)
            },
            Request::ListRooms(_) => (Response::Rooms(self.list_rooms()), Vec::new()),
            Request::Join(j) => {
                let out = self.join(j.id, j.name.as_str());
                (Response::Empty, out)
            },
            Request::ChessGame(g) => {
                let out = self.chess_game(g.id, g.step.as_str(), g.room.as_str());
                (Response::Empty, out)
            },
        }
    }
}

/// Where the first match of a name stands: either there is none at or after
/// `i`, or `room_idx_from` names the first one.
pub proof fn lemma_room_idx_props(rooms: Seq<RoomV>, name: Seq<char>, i: int)
    requires
        0 <= i <= rooms.len(),
    ensures
        ({
            let r = room_idx_from(rooms, name, i);
            ||| (r == -1 && (forall|k: int| i <= k < rooms.len() ==> (#[trigger] rooms[k]).name != name))
            ||| (i <= r < rooms.len() && rooms[r].name == name && (forall|k: int|
                i <= k < r ==> (#[trigger] rooms[k]).name != name))
        }),
    decreases rooms.len() - i,
{
    if i < rooms.len() && rooms[i].name != name {
        lemma_room_idx_props(rooms, name, i + 1);
    }
}

/// Finding a room depends on the names alone.
pub proof fn lemma_room_idx_same_names(r1: Seq<RoomV>, r2: Seq<RoomV>, name: Seq<char>, i: int)
    requires
        0 <= i <= r1.len(),
        r1.len() == r2.len(),
        forall|k: int| 0 <= k < r1.len() ==> (#[trigger] r1[k]).name == r2[k].name,
    ensures
        room_idx_from(r1, name, i) == room_idx_from(r2, name, i),
    decreases r1.len() - i,
{
    if i < r1.len() && r1[i].name != name {
        lemma_room_idx_same_names(r1, r2, name, i + 1);
    }
}

/// What a broadcast to `members[i..]` delivers: `text` to exactly those
/// members that are not `skip` and have a registered session.
pub proof fn lemma_deliver_props(
    members: Seq<usize>,
    sessions: Seq<usize>,
    skip: usize,
    text: Seq<char>,
    i: int,
)
    requires
        0 <= i <= members.len(),
    ensures
        ({
            let d = deliver_from(members, sessions, skip, text, i);
            &&& forall|k: int|
                0 <= k < d.len() ==> ((#[trigger] d[k]).text == text && d[k].to != skip
                    && sessions.contains(d[k].to) && exists|j: int|
                    i <= j < members.len() && members[j] == d[k].to)
            &&& forall|j: int|
                i <= j < members.len() && (#[trigger] members[j]) != skip && sessions.contains(
                    members[j],
                ) ==> d.contains(Dv { to: members[j], text })
        }),
    decreases members.len() - i,
{
    if i < members.len() {
        lemma_deliver_props(members, sessions, skip, text, i + 1);
        let rest = deliver_from(members, sessions, skip, text, i + 1);
        let d = deliver_from(members, sessions, skip, text, i);
        if members[i] != skip && sessions.contains(members[i]) {
            assert(d == seq![Dv { to: members[i], text }] + rest);
            assert forall|k: int| 0 <= k < d.len() implies ((#[trigger] d[k]).text == text
                && d[k].to != skip && sessions.contains(d[k].to) && exists|j: int|
                i <= j < members.len() && members[j] == d[k].to) by {
                if k == 0 {
                    assert(d[k] == Dv { to: members[i], text });
                    assert(members[i] == d[k].to);
                } else {
                    assert(d[k] == rest[k - 1]);
                }
            };
            assert forall|j: int|
                i <= j < members.len() && (#[trigger] members[j]) != skip && sessions.contains(
                    members[j],
                ) implies d.contains(Dv { to: members[j], text }) by {
                if j == i {
                    assert(d[0] == Dv { to: members[j], text });
                } else {
                    assert(rest.contains(Dv { to: members[j], text }));
                    let k = choose|k: int|
                        0 <= k < rest.len() && rest[k] == Dv { to: members[j], text };
                    assert(d[k + 1] == rest[k]);
                }
            };
        } else {
            assert(d == rest);
            assert forall|j: int|
                i <= j < members.len() && (#[trigger] members[j]) != skip && sessions.contains(
                    members[j],
                ) implies d.contains(Dv { to: members[j], text }) by {
                assert(j != i);
            };
        }
    }
}

/// Law: ids stay unique. A connect preserves the registry invariant — in
/// particular the registered ids remain pairwise distinct — and the id it
/// returns is registered afterwards.
pub proof fn lemma_connect_keeps_ids_unique(s: ServerV, id: usize)
    requires
        s.wf(),
    ensures
        spec_connect(s, id).0.wf(),
        spec_connect(s, id).0.sessions.contains(id),
{
    let sessions1 = spec_connect(s, id).0.sessions;
    if !s.sessions.contains(id) {
        assert forall|p: int, q: int| 0 <= p < q < sessions1.len() implies sessions1[p]
            != sessions1[q] by {
            if q == sessions1.len() - 1 {
                assert(sessions1[p] == s.sessions[p]);
                assert(!s.sessions.contains(id));
            }
        };
        assert(sessions1[sessions1.len() - 1] == id);
    }
    assert(sessions1.contains(id)) by {
        if s.sessions.contains(id) {
        } else {
            assert(sessions1[sessions1.len() - 1] == id);
        }
    };
    let k0 = choose|k: int| 0 <= k < s.rooms.len() && s.rooms[k].name == "Main"@;
    lemma_room_idx_props(s.rooms, "Main"@, 0);
    let r = room_idx(s.rooms, "Main"@);
    assert(r >= 0);
    let rooms1 = insert_member(s.rooms, "Main"@, id);
    if !s.rooms[r].members.contains(id) {
        assert forall|p: int, q: int| 0 <= p < q < rooms1[r].members.len() implies rooms1[r].members[p]
            != rooms1[r].members[q] by {
            if q == rooms1[r].members.len() - 1 {
                assert(rooms1[r].members[p] == s.rooms[r].members[p]);
                assert(!s.rooms[r].members.contains(id));
            }
        };
    }
    assert(rooms1[k0].name == "Main"@);
}

/// A disconnect preserves the registry invariant, and afterwards the id is
/// no longer registered.
pub proof fn lemma_disconnect_keeps_wf(s: ServerV, id: usize)
    requires
        s.wf(),
    ensures
        spec_disconnect(s, id).0.wf(),
        !spec_disconnect(s, id).0.sessions.contains(id),
{
    lemma_without_props(s.sessions, id, 0);
    if s.sessions.contains(id) {
        let rm = rooms_minus(s.rooms, id);
        assert forall|k: int| 0 <= k < rm.len() implies (#[trigger] rm[k]).members.no_duplicates()
            by {
            lemma_without_props(s.rooms[k].members, id, 0);
        };
        assert forall|i: int, j: int| 0 <= i < j < rm.len() implies rm[i].name != rm[j].name by {
            assert(rm[i].name == s.rooms[i].name && rm[j].name == s.rooms[j].name);
        };
        let k0 = choose|k: int| 0 <= k < s.rooms.len() && s.rooms[k].name == "Main"@;
        assert(rm.len() == s.rooms.len());
        assert(rm[k0].name == "Main"@);
        assert(spec_disconnect(s, id).0.rooms == rm);
        assert(exists|k: int|
            0 <= k < rm.len() && (#[trigger] rm[k]).name == "Main"@);
    }
}

/// A join preserves the registry invariant.
pub proof fn lemma_join_keeps_wf(s: ServerV, id: usize, name: Seq<char>)
    requires
        s.wf(),
    ensures
        spec_join(s, id, name).0.wf(),
{
    let rm = rooms_minus(s.rooms, id);
    assert forall|k: int| 0 <= k < rm.len() implies (#[trigger] rm[k]).members.no_duplicates()
        && !rm[k].members.contains(id) by {
        lemma_without_props(s.rooms[k].members, id, 0);
    };
    assert forall|i: int, j: int| 0 <= i < j < rm.len() implies rm[i].name != rm[j].name by {
        assert(rm[i].name == s.rooms[i].name && rm[j].name == s.rooms[j].name);
    };
    let k0 = choose|k: int| 0 <= k < s.rooms.len() && s.rooms[k].name == "Main"@;
    assert(rm[k0].name == "Main"@);
    lemma_room_idx_props(rm, name, 0);
    let r = room_idx(rm, name);
    let rooms2 = spec_join(s, id, name).0.rooms;
    if r >= 0 {
        assert(!rm[r].members.contains(id));
        assert forall|p: int, q: int| 0 <= p < q < rooms2[r].members.len() implies rooms2[r].members[p]
            != rooms2[r].members[q] by {
            if q == rooms2[r].members.len() - 1 {
                assert(rooms2[r].members[p] == rm[r].members[p]);
            }
        };
        assert(rooms2[k0].name == "Main"@);
    } else {
        let last = rooms2.len() - 1;
        assert(rooms2[last].members == seq![id]);
        assert(rooms2[last].members.no_duplicates());
        assert forall|i: int, j: int| 0 <= i < j < rooms2.len() implies rooms2[i].name
            != rooms2[j].name by {
            if j == last {
                assert(rm[i].name != name);
            }
        };
        assert(rooms2[k0].name == "Main"@);
    }
}

/// Law: no echo of one's own join notice, but the visitor notice arrives.
/// For a freshly drawn id (not yet registered, and not the placeholder 0)
/// the connect makes the id a member of the default room, the "Someone
/// joined" notice reaches nobody under that id (it goes out before the id is
/// registered), and the visitor-count notice does reach the new id.
pub proof fn lemma_connect_notices(s: ServerV, id: usize)
    requires
        s.wf(),
        !s.sessions.contains(id),
        id != 0,
    ensures
        ({
            let s1 = spec_connect(s, id).0;
            let m = room_idx(s1.rooms, "Main"@);
            &&& 0 <= m < s1.rooms.len() && s1.rooms[m].members.contains(id)
            &&& forall|k: int|
                0 <= k < spec_send(s, "Main"@, "Someone joined"@, 0).len() ==> (#[trigger]
                spec_send(s, "Main"@, "Someone joined"@, 0)[k]).to != id
            &&& spec_connect(s, id).1.contains(
                Dv { to: id, text: "Total visitors "@ + dec_digits(s.visitors as nat) },
            )
        }),
{
    let s1 = spec_connect(s, id).0;
    let d1 = spec_send(s, "Main"@, "Someone joined"@, 0);
    lemma_room_idx_props(s.rooms, "Main"@, 0);
    let r = room_idx(s.rooms, "Main"@);
    assert(r >= 0);
    assert forall|k: int| 0 <= k < d1.len() implies (#[trigger] d1[k]).to != id by {
        lemma_deliver_props(s.rooms[r].members, s.sessions, 0, "Someone joined"@, 0);
        assert(s.sessions.contains(d1[k].to));
    };
    let rooms1 = s1.rooms;
    assert forall|k: int| 0 <= k < rooms1.len() implies (#[trigger] rooms1[k]).name
        == s.rooms[k].name by {};
    lemma_room_idx_same_names(rooms1, s.rooms, "Main"@, 0);
    let m = room_idx(rooms1, "Main"@);
    assert(m == r);
    assert(rooms1[m].members.contains(id)) by {
        if s.rooms[r].members.contains(id) {
        } else {
            assert(rooms1[m].members[rooms1[m].members.len() - 1] == id);
        }
    };
    let vtext = "Total visitors "@ + dec_digits(s.visitors as nat);
    let d2 = spec_send(s1, "Main"@, vtext, 0);
    assert(s1.sessions.contains(id)) by {
        if !s.sessions.contains(id) {
            assert(s1.sessions[s1.sessions.len() - 1] == id);
        }
    };
    lemma_deliver_props(rooms1[m].members, s1.sessions, 0, vtext, 0);
    let j = choose|j: int| 0 <= j < rooms1[m].members.len() && rooms1[m].members[j] == id;
    assert(d2.contains(Dv { to: id, text: vtext }));
    let k = choose|k: int| 0 <= k < d2.len() && d2[k] == Dv { to: id, text: vtext };
    assert(spec_connect(s, id).1[d1.len() + k] == d2[k]);
    assert(spec_connect(s, id).1.contains(Dv { to: id, text: vtext }));
}

/// Law: a join leaves the id in exactly one room. After `Join(id, name)` the
/// id is a member of the room called `name` — which exists — and of no other,
/// however many rooms held it before.
pub proof fn lemma_join_exactly_one_room(s: ServerV, id: usize, name: Seq<char>)
    requires
        s.wf(),
    ensures
        ({
            let s1 = spec_join(s, id, name).0;
            &&& forall|k: int|
                0 <= k < s1.rooms.len() ==> ((#[trigger] s1.rooms[k]).members.contains(id)
                    <==> s1.rooms[k].name == name)
            &&& exists|k: int| 0 <= k < s1.rooms.len() && (#[trigger] s1.rooms[k]).name == name
        }),
{
    let rm = rooms_minus(s.rooms, id);
    assert forall|k: int| 0 <= k < rm.len() implies !(#[trigger] rm[k]).members.contains(id) by {
        lemma_without_props(s.rooms[k].members, id, 0);
    };
    lemma_room_idx_props(rm, name, 0);
    let r = room_idx(rm, name);
    let s1 = spec_join(s, id, name).0;
    if r >= 0 {
        assert(s1.rooms[r].name == name);
        assert(s1.rooms[r].members[s1.rooms[r].members.len() - 1] == id);
        assert forall|k: int| 0 <= k < s1.rooms.len() implies ((#[trigger] s1.rooms[k]).members
            .contains(id) <==> s1.rooms[k].name == name) by {
            if k != r {
                assert(s1.rooms[k] == rm[k]);
                assert(rm[k].name == s.rooms[k].name && rm[r].name == s.rooms[r].name);
                if s1.rooms[k].name == name {
                    assert(s.rooms[k].name == s.rooms[r].name);
                    assert(false);
                }
            }
        };
    } else {
        let last = s1.rooms.len() - 1;
        assert(s1.rooms[last].name == name);
        assert(s1.rooms[last].members == seq![id]);
        assert(s1.rooms[last].members[0] == id);
        assert forall|k: int| 0 <= k < s1.rooms.len() implies ((#[trigger] s1.rooms[k]).members
            .contains(id) <==> s1.rooms[k].name == name) by {
            if k < last {
                assert(s1.rooms[k] == rm[k]);
            }
        };
    }
}

/// Law: what a broadcast reaches. `Broadcast(id, text, room)` never delivers
/// back to `id`; it delivers `text` to every other member of the room that
/// has a registered session; and it delivers nothing when the room does not
/// exist.
pub proof fn lemma_broadcast_exact(s: ServerV, room: Seq<char>, text: Seq<char>, id: usize)
    ensures
        ({
            let d = spec_send(s, room, text, id);
            &&& forall|k: int|
                0 <= k < d.len() ==> ((#[trigger] d[k]).to != id && d[k].text == text
                    && s.sessions.contains(d[k].to))
            &&& room_idx(s.rooms, room) == -1 ==> d == Seq::<Dv>::empty()
            &&& room_idx(s.rooms, room) >= 0 ==> (forall|m: usize|
                ((#[trigger] s.rooms[room_idx(s.rooms, room)].members.contains(m)) && m != id
                    && s.sessions.contains(m)) ==> d.contains(Dv { to: m, text }))
        }),
{
    let r = room_idx(s.rooms, room);
    if r >= 0 {
        lemma_deliver_props(s.rooms[r].members, s.sessions, id, text, 0);
        let d = spec_send(s, room, text, id);
        assert forall|m: usize|
            ((#[trigger] s.rooms[r].members.contains(m)) && m != id && s.sessions.contains(m))
            implies d.contains(Dv { to: m, text }) by {
            let j = choose|j: int| 0 <= j < s.rooms[r].members.len() && s.rooms[r].members[j] == m;
        };
    }
}

/// Law: disconnect is idempotent. After one disconnect, a second disconnect
/// of the same id changes nothing and broadcasts nothing.
pub proof fn lemma_disconnect_idempotent(s: ServerV, id: usize)
    ensures
        ({
            let s1 = spec_disconnect(s, id).0;
            &&& spec_disconnect(s1, id).0 == s1
            &&& spec_disconnect(s1, id).1 == Seq::<Dv>::empty()
        }),
{
    if s.sessions.contains(id) {
        lemma_without_props(s.sessions, id, 0);
        assert(!spec_disconnect(s, id).0.sessions.contains(id));
    }
}

/// Relies on `rand::random`: a fresh session identifier from the thread-local
/// random number generator. Nothing is promised of the value — a collision
/// with a registered id is not defended against, and every caller handles
/// any id.
#[verifier::external_body]
fn fresh_id() -> usize {
    rand::random::<usize>()
}

} // verus!
