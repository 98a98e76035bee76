//! Hostile-but-plausible servers.
//!
//! A [`ScriptedServer`] accepts every request, the way a kernel socket buffer does after the peer
//! has vanished, and answers according to a policy that can change from one request to the next.
//! Nothing in it ever fails, so a client that only notices dead connections by reading an error
//! waits forever.
//!
//! A [`BouncingNas`] goes away and comes back on a different socket, with none of the old
//! session's state: a NAS reboot, a share remounting, and a laptop finding the network again,
//! three causes of one shape.

use vstd::prelude::*;

use std::collections::VecDeque;

use crate::bytes;
use crate::error::Error;
use crate::header;
use crate::header::{Header, FLAG_RESPONSE};
use crate::types::{
    Command, FileId, MessageId, NtStatus, SessionId, STATUS_NETWORK_SESSION_EXPIRED,
    STATUS_PENDING,
};

verus! {

/// What the server does with each request it receives.
#[derive(Debug, Clone, Copy, PartialEq, Eq, Structural)]
pub enum Answer {
    /// Answer everything promptly. A healthy server.
    Everything,
    /// Answer ECHO and nothing else: alive, while one operation takes far longer than any fixed
    /// deadline would allow.
    EchoOnly,
    /// Answer ECHO with `STATUS_NETWORK_SESSION_EXPIRED` and nothing else. A bad answer is still
    /// an answer.
    EchoExpired,
    /// Answer nothing at all, while the socket keeps accepting writes.
    Nothing,
}

/// A request the server has seen, and whether it has been answered.
#[derive(Debug, Clone, Copy, PartialEq, Eq, Structural)]
pub struct Seen {
    pub command: Command,
    pub message_id: MessageId,
    pub answered: bool,
}

// ── The canned replies ─────────────────────────────────────────────────────

/// The credits every reply grants. Generous, so that nothing is accidentally credit-bound.
pub const REPLY_CREDITS: u16 = 8;

/// The header of a reply to `message_id`.
pub open spec fn reply_header(command: Command, message_id: MessageId, status: u32) -> Header {
    Header {
        flags: FLAG_RESPONSE,
        message_id,
        credits: REPLY_CREDITS,
        status: NtStatus(status),
        ..Header::spec_new_request(command)
    }
}

/// The body of an ECHO response ([MS-SMB2] section 2.2.29).
pub open spec fn echo_body() -> Seq<u8> {
    bytes::le_bytes(4, 2) + bytes::le_bytes(0, 2)
}

/// The body of a WRITE response for `count` bytes, none remaining and no channel info
/// ([MS-SMB2] section 2.2.22).
pub open spec fn write_body(count: nat) -> Seq<u8> {
    bytes::le_bytes(17, 2) + bytes::le_bytes(0, 2) + bytes::le_bytes(count, 4) + bytes::le_bytes(
        0,
        4,
    ) + bytes::le_bytes(0, 2) + bytes::le_bytes(0, 2)
}

/// The body of an ERROR response with no error data, whose one byte of data is then padding
/// ([MS-SMB2] section 2.2.2).
pub open spec fn error_body() -> Seq<u8> {
    bytes::le_bytes(9, 2) + bytes::le_bytes(0, 2) + bytes::le_bytes(0, 4) + bytes::zeros(1)
}

/// How many bytes a WRITE is answered to have written.
pub const WRITTEN: u32 = 4;

/// The server's answer to a command, where it has a canned one.
pub open spec fn canned_reply(command: Command, message_id: MessageId) -> Option<Seq<u8>> {
    let head = header::header_bytes(reply_header(command, message_id, 0));
    match command {
        Command::Echo => Some(head + echo_body()),
        Command::Write => Some(head + write_body(WRITTEN as nat)),
        _ => None,
    }
}

/// An ECHO answered with `STATUS_NETWORK_SESSION_EXPIRED`.
pub open spec fn expired_reply(message_id: MessageId) -> Seq<u8> {
    header::header_bytes(reply_header(Command::Echo, message_id, STATUS_NETWORK_SESSION_EXPIRED))
        + error_body()
}

/// An interim `STATUS_PENDING`: a sign of life that is not an answer.
pub open spec fn pending_reply(command: Command, message_id: MessageId) -> Seq<u8> {
    header::header_bytes(reply_header(command, message_id, STATUS_PENDING)) + echo_body()
}

fn new_reply_header(command: Command, message_id: MessageId, status: u32) -> (h: Header)
    ensures
        h == reply_header(command, message_id, status),
{
    let mut h = Header::new_request(command);
    h.flags = FLAG_RESPONSE;
    h.message_id = message_id;
    h.credits = REPLY_CREDITS;
    h.status = NtStatus(status);
    h
}

fn echo_response() -> (body: Vec<u8>)
    ensures
        body@ == echo_body(),
{
    let mut out: Vec<u8> = Vec::new();
    bytes::put_le(&mut out, 4, 2);
    bytes::put_le(&mut out, 0, 2);
    assert(out@ =~= echo_body());
    out
}

/// Builds the server's answer to `command`, or `None` for a command it has no canned reply for.
pub fn build_response(command: Command, message_id: MessageId) -> (reply: Option<Vec<u8>>)
    ensures
        match reply {
            Some(frame) => canned_reply(command, message_id) == Some(frame@),
            None => canned_reply(command, message_id) is None,
        },
{
    let h = new_reply_header(command, message_id, 0);
    match command {
        Command::Echo => Some(header::pack_message(&h, echo_response().as_slice())),
        Command::Write => {
            let mut body: Vec<u8> = Vec::new();
            bytes::put_le(&mut body, 17, 2);
            bytes::put_le(&mut body, 0, 2);
            bytes::put_le(&mut body, WRITTEN as u64, 4);
            bytes::put_le(&mut body, 0, 4);
            bytes::put_le(&mut body, 0, 2);
            bytes::put_le(&mut body, 0, 2);
            assert(body@ =~= write_body(WRITTEN as nat));
            Some(header::pack_message(&h, body.as_slice()))
        },
        _ => None,
    }
}

/// Builds an ECHO answered with `STATUS_NETWORK_SESSION_EXPIRED`.
pub fn build_expired_response(message_id: MessageId) -> (reply: Vec<u8>)
    ensures
        reply@ == expired_reply(message_id),
{
    let h = new_reply_header(Command::Echo, message_id, STATUS_NETWORK_SESSION_EXPIRED);
    let mut body: Vec<u8> = Vec::new();
    bytes::put_le(&mut body, 9, 2);
    bytes::put_le(&mut body, 0, 2);
    bytes::put_le(&mut body, 0, 4);
    bytes::put_zeros(&mut body, 1);
    assert(body@ =~= error_body());
    header::pack_message(&h, body.as_slice())
}

// ── The scripted server ────────────────────────────────────────────────────

/// A server that does with each request whatever its script says.
#[derive(Debug)]
pub struct ScriptedServer {
    outbox: VecDeque<Vec<u8>>,
    answer: Answer,
    seen: Vec<Seen>,
}

/// A scripted server as contracts see it.
#[verifier::ext_equal]
pub struct ServerView {
    /// Responses ready for the client to read, oldest first.
    pub outbox: Seq<Seq<u8>>,
    /// What happens to the next request.
    pub answer: Answer,
    /// Requests seen, in order.
    pub seen: Seq<Seen>,
}

impl View for ScriptedServer {
    type V = ServerView;

    closed spec fn view(&self) -> ServerView {
        ServerView {
            outbox: self.outbox@.map_values(|frame: Vec<u8>| frame@),
            answer: self.answer,
            seen: self.seen@,
        }
    }
}

/// Whether a server with this script answers this command.
pub open spec fn answers(answer: Answer, command: Command) -> bool {
    match answer {
        Answer::Everything => true,
        Answer::EchoOnly | Answer::EchoExpired => command is Echo,
        Answer::Nothing => false,
    }
}

/// The frame a server with this script sends back, if any.
pub open spec fn scripted_reply(answer: Answer, command: Command, message_id: MessageId) -> Option<
    Seq<u8>,
> {
    if !answers(answer, command) {
        None
    } else if answer is EchoExpired {
        Some(expired_reply(message_id))
    } else {
        canned_reply(command, message_id)
    }
}

/// A server after it received a request.
pub open spec fn after_request(
    server: ServerView,
    command: Command,
    message_id: MessageId,
) -> ServerView {
    ServerView {
        outbox: match scripted_reply(server.answer, command, message_id) {
            Some(frame) => server.outbox.push(frame),
            None => server.outbox,
        },
        seen: server.seen.push(
            Seen { command, message_id, answered: answers(server.answer, command) },
        ),
        ..server
    }
}

/// A server after the client sent `data`. What is not a message of the protocol is ignored.
pub open spec fn after_data(server: ServerView, data: Seq<u8>) -> ServerView {
    match header::header_of(data) {
        Some(h) => after_request(server, h.command, h.message_id),
        None => server,
    }
}

/// The canned replies to the requests that were not answered yet, in order.
pub open spec fn overdue_replies(seen: Seq<Seen>) -> Seq<Seq<u8>>
    decreases seen.len(),
{
    if seen.len() == 0 {
        Seq::empty()
    } else {
        let earlier = overdue_replies(seen.drop_last());
        let last = seen.last();
        match canned_reply(last.command, last.message_id) {
            Some(frame) if !last.answered => earlier.push(frame),
            _ => earlier,
        }
    }
}

/// The same requests, all answered.
pub open spec fn all_answered(seen: Seq<Seen>) -> Seq<Seen> {
    seen.map_values(|s: Seen| Seen { answered: true, ..s })
}

/// How many of these requests are ECHOs.
pub open spec fn echoes(seen: Seq<Seen>) -> nat
    decreases seen.len(),
{
    if seen.len() == 0 {
        0
    } else {
        echoes(seen.drop_last()) + (if seen.last().command is Echo {
            1nat
        } else {
            0nat
        })
    }
}

/// The message id of the first request of this command.
pub open spec fn first_of(seen: Seq<Seen>, command: Command) -> Option<MessageId>
    decreases seen.len(),
{
    if seen.len() == 0 {
        None
    } else if seen[0].command == command {
        Some(seen[0].message_id)
    } else {
        first_of(seen.drop_first(), command)
    }
}

impl ScriptedServer {
    /// A server that has seen nothing.
    pub fn new(answer: Answer) -> (server: ScriptedServer)
        ensures
            server@ == (ServerView { outbox: Seq::empty(), answer, seen: Seq::empty() }),
    {
        let server = ScriptedServer { outbox: VecDeque::new(), answer, seen: Vec::new() };
        assert(server@ =~= (ServerView { outbox: Seq::empty(), answer, seen: Seq::empty() }));
        server
    }

    /// Changes the script. Requests already seen keep the fate they had.
    pub fn set_answer(&mut self, answer: Answer)
        ensures
            final(self)@ == (ServerView { answer, ..old(self)@ }),
    {
        self.answer = answer;
    }

    /// How many ECHOs the server has seen, answered or not.
    pub fn echo_count(&self) -> (n: usize)
        ensures
            n == echoes(self@.seen),
    {
        let mut n: usize = 0;
        let mut i: usize = 0;
        while i < self.seen.len()
            invariant
                n <= i <= self.seen.len(),
                n == echoes(self.seen@.take(i as int)),
            decreases self.seen.len() - i,
        {
            assert(self.seen@.take(i + 1).drop_last() =~= self.seen@.take(i as int));
            if self.seen[i].command == Command::Echo {
                n = n + 1;
            }
            i = i + 1;
        }
        assert(self.seen@.take(i as int) =~= self.seen@);
        n
    }

    /// How many requests the server has seen.
    pub fn seen_count(&self) -> (n: usize)
        ensures
            n == self@.seen.len(),
    {
        self.seen.len()
    }

    /// Puts a frame on the wire.
    pub fn push(&mut self, frame: Vec<u8>)
        ensures
            final(self)@ == (ServerView { outbox: old(self)@.outbox.push(frame@), ..old(self)@ }),
    {
        self.outbox.push_back(frame);
        assert(self@.outbox =~= old(self)@.outbox.push(frame@));
    }

    /// Sends an interim `STATUS_PENDING` for `message_id`: "still working on it".
    pub fn push_pending(&mut self, command: Command, message_id: MessageId)
        ensures
            final(self)@ == (ServerView {
                outbox: old(self)@.outbox.push(pending_reply(command, message_id)),
                ..old(self)@
            }),
    {
        let h = new_reply_header(command, message_id, STATUS_PENDING);
        self.push(header::pack_message(&h, echo_response().as_slice()));
    }

    /// Takes in whatever the client sends. This never fails: the send side of a socket is not
    /// what notices that the peer has vanished.
    pub fn send(&mut self, data: &[u8])
        ensures
            final(self)@ == after_data(old(self)@, data@),
    {
        let h = match Header::unpack(data) {
            Some(h) => h,
            None => return,
        };
        let is_echo = h.command == Command::Echo;
        let will_answer = match self.answer {
            Answer::Everything => true,
            Answer::EchoOnly | Answer::EchoExpired => is_echo,
            Answer::Nothing => false,
        };
        self.seen.push(
            Seen { command: h.command, message_id: h.message_id, answered: will_answer },
        );
        if will_answer {
            if self.answer == Answer::EchoExpired {
                self.push(build_expired_response(h.message_id));
            } else {
                match build_response(h.command, h.message_id) {
                    Some(frame) => self.push(frame),
                    None => {},
                }
            }
        }
        assert(self@ =~= after_request(old(self)@, h.command, h.message_id));
    }

    /// The next frame for the client, if one is ready. Without one the client waits: there is no
    /// error and no end of file.
    pub fn receive(&mut self) -> (frame: Option<Vec<u8>>)
        ensures
            old(self)@.outbox.len() == 0 ==> frame is None && final(self)@ == old(self)@,
            old(self)@.outbox.len() > 0 ==> {
                &&& frame matches Some(f)
                &&& f@ == old(self)@.outbox[0]
                &&& final(self)@ == (ServerView {
                    outbox: old(self)@.outbox.drop_first(),
                    ..old(self)@
                })
            },
    {
        let frame = self.outbox.pop_front();
        proof {
            if old(self)@.outbox.len() > 0 {
                assert(self@.outbox =~= old(self)@.outbox.drop_first());
            } else {
                assert(self@.outbox =~= old(self)@.outbox);
            }
        }
        frame
    }

    /// Answers every request seen so far that has not been answered yet: the server was busy, not
    /// dead, and here is your data.
    pub fn answer_everything_outstanding(&mut self)
        ensures
            final(self)@ == (ServerView {
                outbox: old(self)@.outbox + overdue_replies(old(self)@.seen),
                seen: all_answered(old(self)@.seen),
                ..old(self)@
            }),
    {
        let ghost before = self@;
        let mut i: usize = 0;
        assert(before.outbox + overdue_replies(before.seen.take(0)) =~= before.outbox);
        while i < self.seen.len()
            invariant
                i <= self.seen.len(),
                self.seen@.len() == before.seen.len(),
                self@.answer == before.answer,
                self@.outbox == before.outbox + overdue_replies(before.seen.take(i as int)),
                forall|j: int|
                    0 <= j < i ==> self.seen@[j] == (Seen { answered: true, ..before.seen[j] }),
                forall|j: int| i <= j < before.seen.len() ==> self.seen@[j] == before.seen[j],
            decreases self.seen.len() - i,
        {
            let mut entry = self.seen[i];
            assert(before.seen.take(i + 1).drop_last() =~= before.seen.take(i as int));
            if !entry.answered {
                entry.answered = true;
                self.seen.set(i, entry);
                match build_response(entry.command, entry.message_id) {
                    Some(frame) => {
                        self.push(frame);
                    },
                    None => {},
                }
            }
            assert(self@.outbox =~= before.outbox + overdue_replies(before.seen.take(i + 1)));
            i = i + 1;
        }
        assert(before.seen.take(i as int) =~= before.seen);
        assert(self@.seen =~= all_answered(before.seen));
    }

    /// The message id of the first request of this command, if one has arrived.
    pub fn first_request(&self, command: Command) -> (id: Option<MessageId>)
        ensures
            id == first_of(self@.seen, command),
    {
        let mut i: usize = 0;
        assert(self.seen@.skip(0) =~= self.seen@);
        while i < self.seen.len()
            invariant
                i <= self.seen.len(),
                first_of(self.seen@, command) == first_of(self.seen@.skip(i as int), command),
            decreases self.seen.len() - i,
        {
            assert(self.seen@.skip(i as int).drop_first() =~= self.seen@.skip(i + 1));
            if self.seen[i].command == command {
                return Some(self.seen[i].message_id);
            }
            i = i + 1;
        }
        None
    }
}

// ── A NAS you can bounce ───────────────────────────────────────────────────

/// How a dial ends.
#[derive(Debug, Clone, Copy, PartialEq, Eq, Structural)]
pub enum Dial {
    /// It never returns. Only the caller's own budget can end it.
    Parked,
    /// There is nobody there.
    Refused,
    /// A socket to the generation of this number.
    Connected(usize),
}

/// What a reauthenticated session starts with.
#[derive(Debug, Clone, Copy, PartialEq, Eq, Structural)]
pub struct Readmission {
    pub credits: u16,
    pub session_id: SessionId,
}

/// The credits a readmitted session starts with.
pub const READMISSION_CREDITS: u16 = 512;

/// The session id a readmitted session gets.
pub const READMISSION_SESSION: u64 = 0xBEEF;

/// Hands out a fresh [`ScriptedServer`] per dial, and can be told to fail or hang instead.
#[derive(Debug)]
pub struct BouncingNas {
    /// Every generation handed out, oldest first.
    pub generations: Vec<ScriptedServer>,
    /// What the next generation answers when it comes up.
    pub next_answer: Answer,
    /// Dials that must fail before one is allowed to succeed.
    pub dials_that_fail: usize,
    /// When set, a dial parks forever.
    pub dial_hangs: bool,
    /// When set, the socket comes up but authentication is refused.
    pub auth_fails: bool,
    /// How many dials there have been, modulo the size of the counter.
    pub dials: usize,
}

/// A NAS as contracts see it.
#[verifier::ext_equal]
pub struct NasView {
    pub generations: Seq<ServerView>,
    pub next_answer: Answer,
    pub dials_that_fail: usize,
    pub dial_hangs: bool,
    pub auth_fails: bool,
    pub dials: usize,
}

impl View for BouncingNas {
    type V = NasView;

    open spec fn view(&self) -> NasView {
        NasView {
            generations: self.generations@.map_values(|s: ScriptedServer| s@),
            next_answer: self.next_answer,
            dials_that_fail: self.dials_that_fail,
            dial_hangs: self.dial_hangs,
            auth_fails: self.auth_fails,
            dials: self.dials,
        }
    }
}

/// A server that has just come up.
pub open spec fn fresh_server(answer: Answer) -> ServerView {
    ServerView { outbox: Seq::empty(), answer, seen: Seq::empty() }
}

/// How the next dial ends.
pub open spec fn next_dial(nas: NasView) -> Dial {
    if nas.dial_hangs {
        Dial::Parked
    } else if nas.dials_that_fail > 0 {
        Dial::Refused
    } else {
        Dial::Connected(nas.generations.len() as usize)
    }
}

/// The NAS after one dial.
pub open spec fn after_dial(nas: NasView) -> NasView {
    let dialed = NasView { dials: nas.dials.wrapping_add(1), ..nas };
    match next_dial(nas) {
        Dial::Parked => dialed,
        Dial::Refused => NasView {
            dials_that_fail: (nas.dials_that_fail - 1) as usize,
            ..dialed
        },
        Dial::Connected(_) => NasView {
            generations: nas.generations.push(fresh_server(nas.next_answer)),
            ..dialed
        },
    }
}

impl BouncingNas {
    /// Powers on with one generation already running.
    pub fn new(answer: Answer) -> (nas: BouncingNas)
        ensures
            nas@ == (NasView {
                generations: seq![fresh_server(answer)],
                next_answer: answer,
                dials_that_fail: 0,
                dial_hangs: false,
                auth_fails: false,
                dials: 0,
            }),
    {
        let mut nas = BouncingNas {
            generations: Vec::new(),
            next_answer: answer,
            dials_that_fail: 0,
            dial_hangs: false,
            auth_fails: false,
            dials: 0,
        };
        nas.spin_up();
        assert(nas@.generations =~= seq![fresh_server(answer)]);
        nas
    }

    /// Brings up another generation.
    pub fn spin_up(&mut self)
        ensures
            final(self)@ == (NasView {
                generations: old(self)@.generations.push(fresh_server(old(self)@.next_answer)),
                ..old(self)@
            }),
    {
        self.generations.push(ScriptedServer::new(self.next_answer));
        assert(self@.generations =~= old(self)@.generations.push(
            fresh_server(old(self)@.next_answer),
        ));
    }

    /// The generation currently serving.
    pub fn current(&self) -> (server: &ScriptedServer)
        requires
            self@.generations.len() > 0,
        ensures
            server@ == self@.generations.last(),
    {
        &self.generations[self.generations.len() - 1]
    }

    /// The generation of this number.
    pub fn generation(&self, n: usize) -> (server: &ScriptedServer)
        requires
            n < self@.generations.len(),
        ensures
            server@ == self@.generations[n as int],
    {
        &self.generations[n]
    }

    /// How many generations there have been.
    pub fn generations_handed_out(&self) -> (n: usize)
        ensures
            n == self@.generations.len(),
    {
        self.generations.len()
    }

    /// How many dials there have been.
    pub fn dial_count(&self) -> (n: usize)
        ensures
            n == self@.dials,
    {
        self.dials
    }

    /// The server goes away without a word: the socket stays up and nothing is ever answered
    /// again.
    pub fn goes_away(&mut self)
        requires
            old(self)@.generations.len() > 0,
        ensures
            final(self)@ == (NasView {
                generations: old(self)@.generations.update(
                    old(self)@.generations.len() - 1,
                    ServerView { answer: Answer::Nothing, ..old(self)@.generations.last() },
                ),
                ..old(self)@
            }),
    {
        let last: usize = self.generations.len() - 1;
        self.generations[last].set_answer(Answer::Nothing);
        assert(self@.generations =~= old(self)@.generations.update(
            last as int,
            ServerView { answer: Answer::Nothing, ..old(self)@.generations.last() },
        ));
    }

    /// Takes in what the client sends on the socket to generation `n`. No other generation sees
    /// it.
    pub fn send(&mut self, n: usize, data: &[u8])
        requires
            n < old(self)@.generations.len(),
        ensures
            final(self)@ == (NasView {
                generations: old(self)@.generations.update(
                    n as int,
                    after_data(old(self)@.generations[n as int], data@),
                ),
                ..old(self)@
            }),
    {
        self.generations[n].send(data);
        assert(self@.generations =~= old(self)@.generations.update(
            n as int,
            after_data(old(self)@.generations[n as int], data@),
        ));
    }

    /// Dials. A dial that is allowed to succeed gets a generation of its own.
    pub fn dial(&mut self) -> (outcome: Dial)
        ensures
            outcome == next_dial(old(self)@),
            final(self)@ == after_dial(old(self)@),
    {
        self.dials = self.dials.wrapping_add(1);
        if self.dial_hangs {
            return Dial::Parked;
        }
        if self.dials_that_fail > 0 {
            self.dials_that_fail = self.dials_that_fail - 1;
            return Dial::Refused;
        }
        let n: usize = self.generations.len();
        self.spin_up();
        Dial::Connected(n)
    }

    /// Establishes a session on a fresh socket, if the credentials are still good.
    pub fn reauthenticate(&self) -> (session: Result<Readmission, Error>)
        ensures
            match session {
                Ok(s) => !self@.auth_fails && s == (Readmission {
                    credits: READMISSION_CREDITS,
                    session_id: SessionId(READMISSION_SESSION),
                }),
                Err(e) => {
                    &&& self@.auth_fails
                    &&& e matches Error::Auth { message }
                    &&& message@ == "the password changed while we were away"@
                },
            },
    {
        if self.auth_fails {
            return Err(
                Error::Auth { message: "the password changed while we were away".to_string() },
            );
        }
        Ok(
            Readmission {
                credits: READMISSION_CREDITS,
                session_id: SessionId(READMISSION_SESSION),
            },
        )
    }
}

// ── What the harness sends, and how long it waits ──────────────────────────

/// A WRITE request.
#[derive(Debug, PartialEq, Eq)]
pub struct WriteRequest {
    pub data_offset: u16,
    pub write_channel_info_offset: u16,
    pub write_channel_info_length: u16,
    pub offset: u64,
    pub file_id: FileId,
    pub channel: u32,
    pub remaining_bytes: u32,
    pub flags: u32,
    pub data: Vec<u8>,
}

/// A WRITE body. The command matters: ECHO is what a keepalive sends, so using it for the payload
/// would make the two indistinguishable. The bytes do not.
pub fn a_write() -> (write: WriteRequest)
    ensures
        write.data_offset == 0x70,
        write.write_channel_info_offset == 0,
        write.write_channel_info_length == 0,
        write.offset == 0,
        write.file_id == (FileId { persistent: 1, volatile: 2 }),
        write.channel == 0,
        write.remaining_bytes == 0,
        write.flags == 0,
        write.data@ == seq![0xABu8, 0xAB, 0xAB, 0xAB],
{
    let data: Vec<u8> = vec![0xAB, 0xAB, 0xAB, 0xAB];
    assert(data@ =~= seq![0xABu8, 0xAB, 0xAB, 0xAB]);
    WriteRequest {
        data_offset: 0x70,
        write_channel_info_offset: 0,
        write_channel_info_length: 0,
        offset: 0,
        file_id: FileId { persistent: 1, volatile: 2 },
        channel: 0,
        remaining_bytes: 0,
        flags: 0,
        data,
    }
}

/// The bounds on a reconnect, in milliseconds.
#[derive(Debug, Clone, Copy, PartialEq, Eq, Structural)]
pub struct ReconnectPolicy {
    pub max_attempts: u32,
    pub initial_backoff_ms: u64,
    pub max_backoff_ms: u64,
    /// The wall-clock ceiling over all attempts.
    pub total_budget_ms: u64,
    /// How long a failed reconnect's verdict stands.
    pub failure_cooldown_ms: u64,
}

/// Bounds for a harness: several attempts, growing backoff, one wall-clock ceiling over the lot,
/// which leaves every attempt its longest backoff and to spare.
pub fn test_policy() -> (policy: ReconnectPolicy)
    ensures
        policy == (ReconnectPolicy {
            max_attempts: 3,
            initial_backoff_ms: 20,
            max_backoff_ms: 80,
            total_budget_ms: 2_000,
            failure_cooldown_ms: 300,
        }),
        policy.initial_backoff_ms < policy.max_backoff_ms,
        policy.max_attempts * policy.max_backoff_ms < policy.total_budget_ms,
{
    ReconnectPolicy {
        max_attempts: 3,
        initial_backoff_ms: 20,
        max_backoff_ms: 80,
        total_budget_ms: 2_000,
        failure_cooldown_ms: 300,
    }
}

// ── Laws ───────────────────────────────────────────────────────────────────

/// Every frame the server builds is a response to the request it was built for, and says so with
/// the status that was meant.
#[verifier::spinoff_prover]
#[verifier::rlimit(60)]
pub proof fn law_replies_name_their_request(command: Command, message_id: MessageId)
    ensures
        canned_reply(command, message_id) is Some <==> command is Echo || command is Write,
        canned_reply(command, message_id) matches Some(frame) ==> header::header_of(frame) == Some(
            reply_header(command, message_id, 0),
        ),
        header::header_of(expired_reply(message_id)) == Some(
            reply_header(Command::Echo, message_id, STATUS_NETWORK_SESSION_EXPIRED),
        ),
        header::header_of(pending_reply(command, message_id)) == Some(
            reply_header(command, message_id, STATUS_PENDING),
        ),
{
    header::law_header_reads_back(reply_header(command, message_id, 0), echo_body());
    header::law_header_reads_back(
        reply_header(command, message_id, 0),
        write_body(WRITTEN as nat),
    );
    header::law_header_reads_back(
        reply_header(Command::Echo, message_id, STATUS_NETWORK_SESSION_EXPIRED),
        error_body(),
    );
    header::law_header_reads_back(reply_header(command, message_id, STATUS_PENDING), echo_body());
}

/// What each script does to a request: a silent server puts nothing on the wire, an echo-only
/// server answers exactly the ECHOs, and an ECHO answered with an error is answered all the same.
#[verifier::spinoff_prover]
#[verifier::rlimit(60)]
pub proof fn law_scripts(answer: Answer, command: Command, message_id: MessageId)
    ensures
        answer is Nothing ==> scripted_reply(answer, command, message_id) is None,
        answer is EchoOnly || answer is EchoExpired ==> (scripted_reply(
            answer,
            command,
            message_id,
        ) is Some <==> command is Echo),
        answer is Everything ==> scripted_reply(answer, command, message_id) == canned_reply(
            command,
            message_id,
        ),
        answer !is Nothing && command is Echo ==> ({
            &&& scripted_reply(answer, command, message_id) matches Some(frame)
            &&& header::header_of(frame) matches Some(h)
            &&& h.message_id == message_id
            &&& h.command is Echo
            &&& h.flags == FLAG_RESPONSE
        }),
{
    law_replies_name_their_request(command, message_id);
}

/// A request the server has a reply for is answered at once or owed an answer, and never both.
pub proof fn law_answered_or_owed(server: ServerView, command: Command, message_id: MessageId)
    ensures
        ({
            let after = after_request(server, command, message_id);
            after.outbox.len() + overdue_replies(after.seen).len() == server.outbox.len()
                + overdue_replies(server.seen).len() + (if command is Echo || command is Write {
                1int
            } else {
                0int
            })
        }),
{
    let after = after_request(server, command, message_id);
    assert(after.seen.drop_last() =~= server.seen);
}

/// Once everything outstanding has been answered nothing is owed, so answering again sends
/// nothing; and the count of ECHOs is what it was.
pub proof fn law_outstanding_is_answered_once(seen: Seq<Seen>)
    ensures
        overdue_replies(all_answered(seen)) == Seq::<Seq<u8>>::empty(),
        all_answered(all_answered(seen)) == all_answered(seen),
        echoes(all_answered(seen)) == echoes(seen),
    decreases seen.len(),
{
    if seen.len() > 0 {
        law_outstanding_is_answered_once(seen.drop_last());
        assert(all_answered(seen).drop_last() =~= all_answered(seen.drop_last()));
    }
    assert(all_answered(all_answered(seen)) =~= all_answered(seen));
}

/// The NAS after a number of dials.
pub open spec fn after_dials(nas: NasView, n: nat) -> NasView
    decreases n,
{
    if n == 0 {
        nas
    } else {
        after_dial(after_dials(nas, (n - 1) as nat))
    }
}

/// Every dial is counted, however it ends.
pub proof fn law_every_dial_is_counted(nas: NasView, n: nat)
    ensures
        after_dials(nas, n).dials as int == (nas.dials + n) % (usize::MAX + 1),
    decreases n,
{
    if n > 0 {
        law_every_dial_is_counted(nas, (n - 1) as nat);
    }
}

/// Exactly as many dials fail as were told to, without bringing anything up; the dial after them
/// gets a generation of its own, and the older generations are as they were. Each of them counts
/// as a dial.
pub proof fn law_dials_fail_then_succeed(nas: NasView, n: nat)
    requires
        !nas.dial_hangs,
        n <= nas.dials_that_fail,
    ensures
        after_dials(nas, n).generations == nas.generations,
        after_dials(nas, n).dials_that_fail == nas.dials_that_fail - n,
        after_dials(nas, n).next_answer == nas.next_answer,
        !after_dials(nas, n).dial_hangs,
        n < nas.dials_that_fail ==> next_dial(after_dials(nas, n)) is Refused,
        n == nas.dials_that_fail ==> next_dial(after_dials(nas, n)) is Connected,
        n == nas.dials_that_fail ==> after_dials(nas, n + 1).generations == nas.generations.push(
            fresh_server(nas.next_answer),
        ),
        after_dials(nas, n).dials as int == (nas.dials + n) % (usize::MAX + 1),
        after_dials(nas, n + 1).dials as int == (nas.dials + n + 1) % (usize::MAX + 1),
    decreases n,
{
    law_every_dial_is_counted(nas, n);
    law_every_dial_is_counted(nas, n + 1);
    if n > 0 {
        law_dials_fail_then_succeed(nas, (n - 1) as nat);
    }
}

/// What is in every frame the server builds: a response, with credits to spare, to the very request
/// it answers (its command, its message id in whole), with the status that was meant, and the body
/// of its kind.
#[verifier::spinoff_prover]
#[verifier::rlimit(60)]
pub proof fn law_what_a_reply_says(command: Command, message_id: MessageId)
    ensures
        canned_reply(command, message_id) is Some <==> command is Echo || command is Write,
        canned_reply(command, message_id) matches Some(frame) ==> says(frame, command, message_id, 0),
        says(expired_reply(message_id), Command::Echo, message_id, 0xC000_035C),
        says(pending_reply(command, message_id), command, message_id, 0x103),
        canned_reply(Command::Echo, message_id)->0.skip(64) == seq![4u8, 0, 0, 0],
        canned_reply(Command::Write, message_id)->0.skip(64) == seq![
            17u8,
            0,
            0,
            0,
            4,
            0,
            0,
            0,
            0,
            0,
            0,
            0,
            0,
            0,
            0,
            0,
        ],
        expired_reply(message_id).skip(64) == seq![9u8, 0, 0, 0, 0, 0, 0, 0, 0],
        pending_reply(command, message_id).skip(64) == seq![4u8, 0, 0, 0],
{
    law_replies_name_their_request(command, message_id);
    let echo = reply_header(Command::Echo, message_id, 0);
    let write = reply_header(Command::Write, message_id, 0);
    let expired = reply_header(Command::Echo, message_id, STATUS_NETWORK_SESSION_EXPIRED);
    let pending = reply_header(command, message_id, STATUS_PENDING);
    header::law_header_layout(echo, echo_body());
    header::law_header_layout(write, write_body(WRITTEN as nat));
    header::law_header_layout(expired, error_body());
    header::law_header_layout(pending, echo_body());
    reveal_with_fuel(bytes::le_bytes, 5);
    assert(echo_body() =~= seq![4u8, 0, 0, 0]);
    assert(write_body(WRITTEN as nat) =~= seq![
        17u8,
        0,
        0,
        0,
        4,
        0,
        0,
        0,
        0,
        0,
        0,
        0,
        0,
        0,
        0,
        0,
    ]);
    assert(error_body() =~= seq![9u8, 0, 0, 0, 0, 0, 0, 0, 0]);
}

/// Whether a frame is a response to this request with this status.
pub open spec fn says(frame: Seq<u8>, command: Command, message_id: MessageId, status: u32) -> bool {
    &&& header::header_of(frame) matches Some(h)
    &&& h.command == command
    &&& h.message_id == message_id
    &&& h.status.0 == status
    &&& h.flags == 1
    &&& h.credits == 8
    &&& h.tree_id.0 == 0
    &&& h.session_id.0 == 0
    &&& h.credit_charge == 0
    &&& h.next_command == 0
}

/// A request is recorded, behind those seen before, and whether it is answered depends on the script
/// alone: everything, ECHOs only, or nothing. Nothing that was on the wire is taken back, and at
/// most one frame is added: the answer to this request, an error exactly if the script says so.
#[verifier::spinoff_prover]
#[verifier::rlimit(60)]
pub proof fn law_a_request_is_recorded_and_answered(
    server: ServerView,
    command: Command,
    message_id: MessageId,
)
    ensures
        ({
            let after = after_request(server, command, message_id);
            let answered = server.answer is Everything || (server.answer !is Nothing
                && command is Echo);
            let replied = answered && (command is Echo || command is Write);
            &&& after.answer == server.answer
            &&& after.seen == server.seen.push(Seen { command, message_id, answered })
            &&& after.outbox.take(server.outbox.len() as int) == server.outbox
            &&& after.outbox.len() == server.outbox.len() + (if replied {
                1int
            } else {
                0int
            })
            &&& replied ==> says(
                after.outbox.last(),
                command,
                message_id,
                if server.answer is EchoExpired {
                    0xC000_035C
                } else {
                    0
                },
            )
        }),
{
    law_what_a_reply_says(command, message_id);
    let after = after_request(server, command, message_id);
    assert(after.outbox.take(server.outbox.len() as int) =~= server.outbox);
}

/// A message is taken as the request its header names, and what has no header changes nothing.
pub proof fn law_data_is_a_request_or_nothing(server: ServerView, h: Header, body: Seq<u8>, junk: Seq<u8>)
    requires
        header::header_of(junk) is None,
    ensures
        after_data(server, header::header_bytes(h) + body) == after_request(
            server,
            h.command,
            h.message_id,
        ),
        after_data(server, junk) == server,
{
    header::law_header_reads_back(h, body);
}

/// What is owed is owed request by request, in order: an unanswered ECHO or WRITE is owed its reply,
/// and nothing else is owed anything.
#[verifier::spinoff_prover]
#[verifier::rlimit(60)]
pub proof fn law_what_is_owed(earlier: Seq<Seen>, later: Seq<Seen>, one: Seen)
    ensures
        overdue_replies(earlier + later) == overdue_replies(earlier) + overdue_replies(later),
        ({
            let owed = overdue_replies(seq![one]);
            if !one.answered && (one.command is Echo || one.command is Write) {
                owed.len() == 1 && says(owed[0], one.command, one.message_id, 0)
            } else {
                owed.len() == 0
            }
        }),
{
    lemma_owed_concat(earlier, later);
    law_what_a_reply_says(one.command, one.message_id);
    assert(seq![one].drop_last() =~= Seq::empty());
    assert(overdue_replies(Seq::<Seen>::empty()).len() == 0);
}

proof fn lemma_owed_concat(earlier: Seq<Seen>, later: Seq<Seen>)
    ensures
        overdue_replies(earlier + later) == overdue_replies(earlier) + overdue_replies(later),
    decreases later.len(),
{
    if later.len() == 0 {
        assert(earlier + later =~= earlier);
        assert(overdue_replies(earlier) + overdue_replies(later) =~= overdue_replies(earlier));
    } else {
        lemma_owed_concat(earlier, later.drop_last());
        assert((earlier + later).drop_last() =~= earlier + later.drop_last());
        assert((earlier + later).last() == later.last());
        assert(overdue_replies(earlier + later) =~= overdue_replies(earlier) + overdue_replies(
            later,
        ));
    }
}

/// Every ECHO counts once, and nothing else counts.
pub proof fn law_echoes_are_counted(earlier: Seq<Seen>, later: Seq<Seen>, one: Seen)
    ensures
        echoes(earlier + later) == echoes(earlier) + echoes(later),
        echoes(seq![one]) == (if one.command is Echo {
            1int
        } else {
            0int
        }),
    decreases later.len(),
{
    if later.len() == 0 {
        assert(earlier + later =~= earlier);
    } else {
        law_echoes_are_counted(earlier, later.drop_last(), one);
        assert((earlier + later).drop_last() =~= earlier + later.drop_last());
    }
    assert(seq![one].drop_last() =~= Seq::empty());
    assert(echoes(Seq::<Seen>::empty()) == 0);
}

/// Answering what is outstanding changes no request but for its being answered.
pub proof fn law_answering_marks_every_request(seen: Seq<Seen>)
    ensures
        all_answered(seen).len() == seen.len(),
        forall|i: int|
            0 <= i < seen.len() ==> {
                let after = #[trigger] all_answered(seen)[i];
                after.answered && after.command == seen[i].command && after.message_id
                    == seen[i].message_id
            },
{
}

/// The first request of a command is the one with no other of that command before it; there is none
/// only if no request has the command.
pub proof fn law_first_of_is_the_first(seen: Seq<Seen>, command: Command)
    ensures
        match first_of(seen, command) {
            Some(id) => exists|i: int|
                0 <= i < seen.len() && (#[trigger] seen[i]).command == command && seen[i].message_id
                    == id && (forall|j: int| 0 <= j < i ==> (#[trigger] seen[j]).command != command),
            None => forall|i: int| 0 <= i < seen.len() ==> (#[trigger] seen[i]).command != command,
        },
    decreases seen.len(),
{
    if seen.len() > 0 && seen[0].command != command {
        let rest = seen.drop_first();
        law_first_of_is_the_first(rest, command);
        match first_of(rest, command) {
            Some(id) => {
                let i = choose|i: int|
                    0 <= i < rest.len() && (#[trigger] rest[i]).command == command
                        && rest[i].message_id == id && (forall|j: int|
                        0 <= j < i ==> (#[trigger] rest[j]).command != command);
                assert(seen[i + 1] == rest[i]);
                assert forall|j: int| 0 <= j < i + 1 implies (#[trigger] seen[j]).command
                    != command by {
                    if j > 0 {
                        assert(rest[j - 1] == seen[j]);
                    }
                }
            },
            None => {
                assert forall|i: int| 0 <= i < seen.len() implies (#[trigger] seen[i]).command
                    != command by {
                    if i > 0 {
                        assert(rest[i - 1] == seen[i]);
                    }
                }
            },
        }
    }
}

/// A dial that connects names the generation it brought up: the newest, fresh, answering what the
/// NAS was told its next generation answers. A dial that does not connect brings nothing up. A NAS
/// told to hang hangs, one told to fail fails and is a failure closer to succeeding, and any other
/// dial connects. Older generations and what the NAS was told are as they were.
pub proof fn law_a_dial_names_what_it_brought_up(nas: NasView)
    requires
        nas.generations.len() < usize::MAX,
    ensures
        ({
            let after = after_dial(nas);
            let old_len = nas.generations.len() as int;
            &&& next_dial(nas) is Parked <==> nas.dial_hangs
            &&& next_dial(nas) is Refused <==> !nas.dial_hangs && nas.dials_that_fail > 0
            &&& next_dial(nas) matches Dial::Connected(n) ==> {
                &&& n == old_len
                &&& after.generations.len() == old_len + 1
                &&& after.generations[n as int].outbox.len() == 0
                &&& after.generations[n as int].seen.len() == 0
                &&& after.generations[n as int].answer == nas.next_answer
            }
            &&& next_dial(nas) !is Connected ==> after.generations.len() == old_len
            &&& forall|i: int|
                0 <= i < old_len ==> #[trigger] after.generations[i] == nas.generations[i]
            &&& after.dials_that_fail == nas.dials_that_fail - (if next_dial(nas) is Refused {
                1int
            } else {
                0int
            })
            &&& after.next_answer == nas.next_answer
            &&& after.dial_hangs == nas.dial_hangs
            &&& after.auth_fails == nas.auth_fails
        }),
{
}

/// However many dials lie between them, two dials that connect never name the same generation: the
/// later one is newer.
pub proof fn law_no_generation_is_dialed_twice(nas: NasView, n: nat)
    requires
        next_dial(nas) is Connected,
        next_dial(after_dials(nas, n + 1)) is Connected,
        nas.generations.len() + n + 1 < usize::MAX,
    ensures
        next_dial(nas)->Connected_0 < next_dial(after_dials(nas, n + 1))->Connected_0,
{
    lemma_generations_grow(nas, n + 1);
    lemma_generations_grow(after_dial(nas), n);
    lemma_dials_compose(nas, n);
}

proof fn lemma_generations_grow(nas: NasView, n: nat)
    ensures
        nas.generations.len() <= after_dials(nas, n).generations.len() <= nas.generations.len() + n,
    decreases n,
{
    if n > 0 {
        lemma_generations_grow(nas, (n - 1) as nat);
    }
}

proof fn lemma_dials_compose(nas: NasView, n: nat)
    ensures
        after_dials(nas, n + 1) == after_dials(after_dial(nas), n),
    decreases n,
{
    reveal_with_fuel(after_dials, 2);
    if n > 0 {
        lemma_dials_compose(nas, (n - 1) as nat);
    }
}

/// A server that has just come up owes nothing, has seen nothing, and answers what it was told to.
pub proof fn law_a_fresh_server(answer: Answer)
    ensures
        fresh_server(answer).outbox.len() == 0,
        fresh_server(answer).seen.len() == 0,
        fresh_server(answer).answer == answer,
{
}

} // verus!
