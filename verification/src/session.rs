//! The per-connection session: a state machine from inbound frames and clock
//! ticks to outbound actions. The transport layer feeds it one event at a
//! time and performs the actions it returns; the session itself owns only its
//! id, room, display name, liveness timestamp and phase.
use vstd::prelude::*;
use vstd::string::StrSliceExecFns;
use vstd::string::StringExecFns;
use crate::text::trim;
use crate::text::trim_spec;
use crate::text::find_space;
use crate::text::first_space_from;
use crate::text::str_eq;
use crate::server::Message;
use crate::server::Request;
use crate::server::Connect;
use crate::server::Disconnect;
use crate::server::ClientMessage;
use crate::server::ListRooms;
use crate::server::Join;
use crate::server::ChessGame;

verus! {

/// How often a heartbeat ping goes out, in time units.
pub const HEARTBEAT_INTERVAL: u64 = 5;

/// How long without a liveness signal before the peer is timed out.
pub const CLIENT_TIMEOUT: u64 = 10;

/// One inbound event from the transport: a websocket frame, or a framing
/// error (`Invalid`), which ends the connection.
pub enum Frame {
    Ping(Vec<u8>),
    Pong,
    Text(String),
    Binary,
    Close,
    Continuation,
    Nop,
    Invalid,
}

/// A parsed line: a slash command, or plain chat text.
pub enum Command {
    ChessStep(String),
    ChessStepMissing,
    List,
    Join(String),
    JoinMissing,
    Name(String),
    NameMissing,
    Unknown(String),
    Chat(String),
}

/// Mathematical model of a parsed line.
#[verifier::ext_equal]
pub ghost enum CommandV {
    ChessStep(Seq<char>),
    ChessStepMissing,
    List,
    Join(Seq<char>),
    JoinMissing,
    Name(Seq<char>),
    NameMissing,
    Unknown(Seq<char>),
    Chat(Seq<char>),
}

impl View for Command {
    type V = CommandV;

    open spec fn view(&self) -> CommandV {
        match self {
            Command::ChessStep(s) => CommandV::ChessStep(s@),
            Command::ChessStepMissing => CommandV::ChessStepMissing,
            Command::List => CommandV::List,
            Command::Join(s) => CommandV::Join(s@),
            Command::JoinMissing => CommandV::JoinMissing,
            Command::Name(s) => CommandV::Name(s@),
            Command::NameMissing => CommandV::NameMissing,
            Command::Unknown(s) => CommandV::Unknown(s@),
            Command::Chat(s) => CommandV::Chat(s@),
        }
    }
}

/// How a trimmed line is classified: anything that does not start with `/`
/// is chat text; otherwise the word before the first space picks the
/// command, and the rest of the line (which may itself hold spaces) is its
/// argument.
pub open spec fn spec_parse(t: Seq<char>) -> CommandV {
    if t.len() == 0 || t[0] != '/' {
        CommandV::Chat(t)
    } else {
        let sp = first_space_from(t, 0);
        let cmd = t.subrange(0, sp);
        if cmd == "/chess_step"@ {
            if sp < t.len() {
                CommandV::ChessStep(t.subrange(sp + 1, t.len() as int))
            } else {
                CommandV::ChessStepMissing
            }
        } else if cmd == "/list"@ {
            CommandV::List
        } else if cmd == "/join"@ {
            if sp < t.len() {
                CommandV::Join(t.subrange(sp + 1, t.len() as int))
            } else {
                CommandV::JoinMissing
            }
        } else if cmd == "/name"@ {
            if sp < t.len() {
                CommandV::Name(t.subrange(sp + 1, t.len() as int))
            } else {
                CommandV::NameMissing
            }
        } else {
            CommandV::Unknown(t)
        }
    }
}

/// Classifies one already-trimmed line.
pub fn parse_line(t: &str) -> (c: Command)
    ensures
        c@ == spec_parse(t@),
{
    let len = t.unicode_len();
    if len == 0 || t.get_char(0) != '/' {
        return Command::Chat(t.to_owned());
    }
    let sp = find_space(t);
    let cmd = t.substring_char(0, sp);
    if str_eq(cmd, "/chess_step") {
        if sp < len {
            Command::ChessStep(t.substring_char(sp + 1, len).to_owned())
        } else {
            Command::ChessStepMissing
        }
    } else if str_eq(cmd, "/list") {
        Command::List
    } else if str_eq(cmd, "/join") {
        if sp < len {
            Command::Join(t.substring_char(sp + 1, len).to_owned())
        } else {
            Command::JoinMissing
        }
    } else if str_eq(cmd, "/name") {
        if sp < len {
            Command::Name(t.substring_char(sp + 1, len).to_owned())
        } else {
            Command::NameMissing
        }
    } else {
        Command::Unknown(t.to_owned())
    }
}

/// Where a session stands: `Connecting` until the registry acknowledges the
/// connect, `Active` in normal operation, `AwaitingList` while a room-list
/// request is outstanding (no inbound frame is accepted then), `Closed` once
/// the connection has ended.
pub enum Phase {
    Connecting,
    Active,
    AwaitingList,
    Closed,
}

/// An outbound action the transport layer must perform for the session.
pub enum Action {
    /// Send a text frame to the peer.
    SendText(String),
    /// Send a liveness ping.
    SendPing,
    /// Answer a ping, echoing its payload.
    SendPong(Vec<u8>),
    /// Echo the peer's close frame.
    EchoClose,
    /// Stop the session's processing loop.
    Stop,
    /// Hand a request to the room registry.
    ToServer(Request),
}

/// Mathematical model of an outbound action.
#[verifier::ext_equal]
pub ghost enum ActionV {
    SendText(Seq<char>),
    SendPing,
    SendPong(Seq<u8>),
    EchoClose,
    Stop,
    Connect,
    Disconnect(usize),
    ClientMessage(usize, Seq<char>, Seq<char>),
    ListRooms,
    Join(usize, Seq<char>),
    ChessGame(usize, Seq<char>, Seq<char>),
}

impl View for Action {
    type V = ActionV;

    open spec fn view(&self) -> ActionV {
        match self {
            Action::SendText(s) => ActionV::SendText(s@),
            Action::SendPing => ActionV::SendPing,
            Action::SendPong(p) => ActionV::SendPong(p@),
            Action::EchoClose => ActionV::EchoClose,
            Action::Stop => ActionV::Stop,
            Action::ToServer(req) => match req {
                Request::Connect(_) => ActionV::Connect,
                Request::Disconnect(d) => ActionV::Disconnect(d.id),
                Request::ClientMessage(cm) => ActionV::ClientMessage(cm.id, cm.msg@, cm.room@),
                Request::ListRooms(_) => ActionV::ListRooms,
                Request::Join(j) => ActionV::Join(j.id, j.name@),
                Request::ChessGame(g) => ActionV::ChessGame(g.id, g.step@, g.room@),
            },
        }
    }
}

/// The models of a sequence of actions.
pub open spec fn avs(s: Seq<Action>) -> Seq<ActionV> {
    s.map_values(|a: Action| a@)
}

/// Mathematical model of a session.
#[verifier::ext_equal]
pub ghost struct SessionV {
    pub id: usize,
    pub hb: u64,
    pub room: Seq<char>,
    pub name: Option<Seq<char>>,
    pub phase: Phase,
}

/// One websocket chat session.
pub struct WsChatSession {
    /// Unique session id, assigned by the registry on connect; 0 before.
    pub id: usize,
    /// Time of the last liveness signal from the peer.
    pub hb: u64,
    /// The room last requested via a join command; starts empty, so chat
    /// sent before any join names a room that does not exist.
    pub room: String,
    /// Peer display name, unset until a name command.
    pub name: Option<String>,
    /// Where the session stands.
    pub phase: Phase,
}

impl View for WsChatSession {
    type V = SessionV;

    open spec fn view(&self) -> SessionV {
        SessionV {
            id: self.id,
            hb: self.hb,
            room: self.room@,
            name: match self.name {
                Option::Some(ref n) => Option::Some(n@),
                Option::None => Option::None,
            },
            phase: self.phase,
        }
    }
}

impl WsChatSession {
    /// A fresh session at time `now`: no id yet, no room, no name, waiting
    /// for the registry's acknowledgement.
    pub fn new(now: u64) -> (s: WsChatSession)
        ensures
            s@ == (SessionV {
                id: 0,
                hb: now,
                room: Seq::empty(),
                name: None,
                phase: Phase::Connecting,
            }),
    {
        let s = WsChatSession {
            id: 0,
            hb: now,
            room: "".to_owned(),
            name: None,
            phase: Phase::Connecting,
        };
        proof {
            reveal_strlit("");
            assert(s@.room =~= Seq::<char>::empty());
            assert(s@ =~~= (SessionV {
                id: 0,
                hb: now,
                room: Seq::empty(),
                name: None,
                phase: Phase::Connecting,
            }));
        }
        s
    }

    /// On start the session registers itself with the chat server; until
    /// the acknowledgement arrives it stays `Connecting` and accepts no
    /// inbound frame.
    pub fn started(&self) -> (a: Vec<Action>)
        requires
            self@.phase is Connecting,
        ensures
            avs(a@) == seq![ActionV::Connect],
    {
        let mut a: Vec<Action> = Vec::new();
        a.push(Action::ToServer(Request::Connect(Connect {})));
        proof {
            assert(avs(a@) =~~= seq![ActionV::Connect]);
        }
        a
    }

    /// The registry's answer to the connect: the assigned id, or nothing if
    /// the registry is unreachable, which is fatal for this session alone.
    pub fn on_connect_ack(&mut self, res: Option<usize>) -> (a: Vec<Action>)
        requires
            old(self)@.phase is Connecting,
        ensures
            match res {
                Some(id) => final(self)@ == (SessionV {
                    id,
                    phase: Phase::Active,
                    ..old(self)@
                }) && avs(a@) == Seq::<ActionV>::empty(),
                None => final(self)@ == (SessionV { phase: Phase::Closed, ..old(self)@ }) && avs(
                    a@,
                ) == seq![ActionV::Stop],
            },
    {
        let mut a: Vec<Action> = Vec::new();
        match res {
            Some(id) => {
                self.id = id;
                self.phase = Phase::Active;
                proof {
                    assert(avs(a@) =~~= Seq::<ActionV>::empty());
                }
            },
            None => {
                self.phase = Phase::Closed;
                a.push(Action::Stop);
                proof {
                    assert(avs(a@) =~~= seq![ActionV::Stop]);
                }
            },
        }
        a
    }

    /// Law of liveness: one heartbeat tick at time `now`. If no liveness
    /// signal was seen for longer than the timeout threshold, the session
    /// tells the registry to disconnect it and stops — so it is gone within
    /// one heartbeat interval of the deadline, the tick's own period.
    /// Otherwise it pings the peer and nothing else changes.
    pub fn hb_tick(&mut self, now: u64) -> (a: Vec<Action>)
        requires
            old(self)@.hb <= now,
        ensures
            now - old(self)@.hb > CLIENT_TIMEOUT ==> final(self)@ == (SessionV {
                phase: Phase::Closed,
                ..old(self)@
            }) && avs(a@) == seq![ActionV::Disconnect(old(self)@.id), ActionV::Stop],
            now - old(self)@.hb <= CLIENT_TIMEOUT ==> *final(self) == *old(self) && avs(a@)
                == seq![ActionV::SendPing],
    {
        let mut a: Vec<Action> = Vec::new();
        if now - self.hb > CLIENT_TIMEOUT {
            a.push(Action::ToServer(Request::Disconnect(Disconnect { id: self.id })));
            a.push(Action::Stop);
            self.phase = Phase::Closed;
            proof {
                assert(avs(a@) =~~= seq![ActionV::Disconnect(old(self)@.id), ActionV::Stop]);
            }
        } else {
            a.push(Action::SendPing);
            proof {
                assert(avs(a@) =~~= seq![ActionV::SendPing]);
            }
        }
        a
    }

    /// A broadcast from the chat server is forwarded to the peer verbatim.
    pub fn on_server_message(&self, msg: Message) -> (a: Vec<Action>)
        ensures
            avs(a@) == seq![ActionV::SendText(msg@)],
    {
        let mut a: Vec<Action> = Vec::new();
        a.push(Action::SendText(msg.0));
        proof {
            assert(avs(a@) =~~= seq![ActionV::SendText(msg@)]);
        }
        a
    }

    /// On any termination path the transport layer calls this once before
    /// the session is dropped: the registry is told to disconnect the id.
    pub fn stopping(&mut self) -> (a: Vec<Action>)
        ensures
            final(self)@ == (SessionV { phase: Phase::Closed, ..old(self)@ }),
            avs(a@) == seq![ActionV::Disconnect(old(self)@.id)],
    {
        let mut a: Vec<Action> = Vec::new();
        a.push(Action::ToServer(Request::Disconnect(Disconnect { id: self.id })));
        self.phase = Phase::Closed;
        proof {
            assert(avs(a@) =~~= seq![ActionV::Disconnect(old(self)@.id)]);
        }
        a
    }

    /// The room list arrives; only then does the session resume (it accepted
    /// no inbound frame while the request was outstanding), and it forwards
    /// one text frame per room name. An unreachable registry yields nothing.
    pub fn on_list_rooms(&mut self, rooms: Option<Vec<String>>) -> (a: Vec<Action>)
        requires
            old(self)@.phase is AwaitingList,
        ensures
            final(self)@ == (SessionV { phase: Phase::Active, ..old(self)@ }),
            match rooms {
                Some(rs) => avs(a@) == rs@.map_values(|n: String| ActionV::SendText(n@)),
                None => avs(a@) == Seq::<ActionV>::empty(),
            },
    {
        let mut a: Vec<Action> = Vec::new();
        match &rooms {
            Some(rs) => {
                let mut i: usize = 0;
                while i < rs.len()
                    invariant
                        i <= rs@.len(),
                        avs(a@).len() == i,
                        forall|k: int| 0 <= k < i ==> avs(a@)[k] == ActionV::SendText(rs@[k]@),
                    decreases rs@.len() - i,
                {
                    let ghost a0 = a@;
                    a.push(Action::SendText(rs[i].clone()));
                    proof {
                        assert forall|k: int| 0 <= k < i + 1 implies avs(a@)[k]
                            == ActionV::SendText(rs@[k]@) by {
                            if k < i {
                                assert(a@[k] == a0[k]);
                                assert(avs(a0)[k] == a0[k]@);
                            }
                            assert(avs(a@)[k] == a@[k]@);
                        };
                    }
                    i = i + 1;
                }
                proof {
                    assert(avs(a@) =~~= rs@.map_values(|n: String| ActionV::SendText(n@)));
                }
            },
            None => {
                proof {
                    assert(avs(a@) =~~= Seq::<ActionV>::empty());
                }
            },
        }
        self.phase = Phase::Active;
        a
    }

    /// One inbound frame, at time `now`. Only an `Active` session processes
    /// frames: while a room-list request is outstanding the session is
    /// suspended and none may be presented. Liveness frames refresh the
    /// heartbeat; text is trimmed, classified and dispatched; close frames,
    /// continuation frames and framing errors end the connection.
    pub fn handle(&mut self, frame: Frame, now: u64) -> (a: Vec<Action>)
        requires
            old(self)@.phase is Active,
        ensures
            ({
                let s0 = old(self)@;
                match frame {
                    Frame::Ping(p) => final(self)@ == (SessionV { hb: now, ..s0 }) && avs(a@)
                        == seq![ActionV::SendPong(p@)],
                    Frame::Pong => final(self)@ == (SessionV { hb: now, ..s0 }) && avs(a@)
                        == Seq::<ActionV>::empty(),
                    Frame::Text(t) => match spec_parse(trim_spec(t@)) {
                        CommandV::ChessStep(payload) => final(self)@ == s0 && avs(a@) == seq![
                            ActionV::ChessGame(s0.id, payload, s0.room),
                        ],
                        CommandV::ChessStepMissing => final(self)@ == s0 && avs(a@) == seq![
                            ActionV::SendText("step is wrong"@),
                        ],
                        CommandV::List => final(self)@ == (SessionV {
                            phase: Phase::AwaitingList,
                            ..s0
                        }) && avs(a@) == seq![ActionV::ListRooms],
                        CommandV::Join(room) => final(self)@ == (SessionV { room, ..s0 }) && avs(
                            a@,
                        ) == seq![ActionV::Join(s0.id, room), ActionV::SendText("joined"@)],
                        CommandV::JoinMissing => final(self)@ == s0 && avs(a@) == seq![
                            ActionV::SendText("!!! room name is required"@),
                        ],
                        CommandV::Name(nm) => final(self)@ == (SessionV {
                            name: Some(nm),
                            ..s0
                        }) && avs(a@) == Seq::<ActionV>::empty(),
                        CommandV::NameMissing => final(self)@ == s0 && avs(a@) == seq![
                            ActionV::SendText("!!! name is required"@),
                        ],
                        CommandV::Unknown(raw) => final(self)@ == s0 && avs(a@) == seq![
                            ActionV::SendText("!!! unknown command: \""@ + raw + "\""@),
                        ],
                        CommandV::Chat(text) => final(self)@ == s0 && avs(a@) == seq![
                            ActionV::ClientMessage(
                                s0.id,
                                match s0.name {
                                    Some(nm) => nm + ": "@ + text,
                                    None => text,
                                },
                                s0.room,
                            ),
                        ],
                    },
                    Frame::Binary => final(self)@ == s0 && avs(a@) == Seq::<ActionV>::empty(),
                    Frame::Close => final(self)@ == (SessionV { phase: Phase::Closed, ..s0 })
                        && avs(a@) == seq![ActionV::EchoClose, ActionV::Stop],
                    Frame::Continuation => final(self)@ == (SessionV {
                        phase: Phase::Closed,
                        ..s0
                    }) && avs(a@) == seq![ActionV::Stop],
                    Frame::Nop => final(self)@ == s0 && avs(a@) == Seq::<ActionV>::empty(),
                    Frame::Invalid => final(self)@ == (SessionV { phase: Phase::Closed, ..s0 })
                        && avs(a@) == seq![ActionV::Stop],
                }
            }),
    {
        let mut a: Vec<Action> = Vec::new();
        match frame {
            Frame::Ping(p) => {
                self.hb = now;
                a.push(Action::SendPong(p));
                proof {
                    assert(avs(a@) =~~= seq![ActionV::SendPong(p@)]);
                }
            },
            Frame::Pong => {
                self.hb = now;
                proof {
                    assert(avs(a@) =~~= Seq::<ActionV>::empty());
                }
            },
            Frame::Text(t) => {
                let trimmed = trim(t.as_str());
                let c = parse_line(trimmed);
                match c {
                    Command::ChessStep(payload) => {
                        a.push(Action::ToServer(Request::ChessGame(ChessGame {
                            id: self.id,
                            step: payload,
                            room: self.room.clone(),
                        })));
                        proof {
                            assert(avs(a@) =~~= seq![
                                ActionV::ChessGame(old(self)@.id, c@->ChessStep_0, old(self)@.room),
                            ]);
                        }
                    },
                    Command::ChessStepMissing => {
                        a.push(Action::SendText("step is wrong".to_owned()));
                        proof {
                            assert(avs(a@) =~~= seq![ActionV::SendText("step is wrong"@)]);
                        }
                    },
                    Command::List => {
                        self.phase = Phase::AwaitingList;
                        a.push(Action::ToServer(Request::ListRooms(ListRooms {})));
                        proof {
                            assert(avs(a@) =~~= seq![ActionV::ListRooms]);
                        }
                    },
                    Command::Join(room) => {
                        self.room = room;
                        a.push(Action::ToServer(Request::Join(Join {
                            id: self.id,
                            name: self.room.clone(),
                        })));
                        a.push(Action::SendText("joined".to_owned()));
                        proof {
                            assert(avs(a@) =~~= seq![
                                ActionV::Join(old(self)@.id, self@.room),
                                ActionV::SendText("joined"@),
                            ]);
                        }
                    },
                    Command::JoinMissing => {
                        a.push(Action::SendText("!!! room name is required".to_owned()));
                        proof {
                            assert(avs(a@) =~~= seq![
                                ActionV::SendText("!!! room name is required"@),
                            ]);
                        }
                    },
                    Command::Name(nm) => {
                        self.name = Some(nm);
                        proof {
                            assert(avs(a@) =~~= Seq::<ActionV>::empty());
                        }
                    },
                    Command::NameMissing => {
                        a.push(Action::SendText("!!! name is required".to_owned()));
                        proof {
                            assert(avs(a@) =~~= seq![ActionV::SendText("!!! name is required"@)]);
                        }
                    },
                    Command::Unknown(raw) => {
                        let mut msg = "!!! unknown command: \"".to_owned();
                        msg.append(raw.as_str());
                        msg.append("\"");
                        proof {
                            assert(msg@ =~= "!!! unknown command: \""@ + raw@ + "\""@);
                        }
                        a.push(Action::SendText(msg));
                        proof {
                            assert(avs(a@) =~~= seq![
                                ActionV::SendText("!!! unknown command: \""@ + raw@ + "\""@),
                            ]);
                        }
                    },
                    Command::Chat(text) => {
                        let msg = match &self.name {
                            Some(nm) => {
                                let mut m = nm.clone();
                                m.append(": ");
                                m.append(text.as_str());
                                proof {
                                    assert(m@ =~= nm@ + ": "@ + text@);
                                }
                                m
                            },
                            None => text,
                        };
                        a.push(Action::ToServer(Request::ClientMessage(ClientMessage {
                            id: self.id,
                            msg,
                            room: self.room.clone(),
                        })));
                    },
                }
            },
            Frame::Binary => {
                proof {
                    assert(avs(a@) =~~= Seq::<ActionV>::empty());
                }
            },
            Frame::Close => {
                a.push(Action::EchoClose);
                a.push(Action::Stop);
                self.phase = Phase::Closed;
                proof {
                    assert(avs(a@) =~~= seq![ActionV::EchoClose, ActionV::Stop]);
                }
            },
            Frame::Continuation => {
                a.push(Action::Stop);
                self.phase = Phase::Closed;
                proof {
                    assert(avs(a@) =~~= seq![ActionV::Stop]);
                }
            },
            Frame::Nop => {
                proof {
                    assert(avs(a@) =~~= Seq::<ActionV>::empty());
                }
            },
            Frame::Invalid => {
                a.push(Action::Stop);
                self.phase = Phase::Closed;
                proof {
                    assert(avs(a@) =~~= seq![ActionV::Stop]);
                }
            },
        }
        a
    }
}

} // verus!
