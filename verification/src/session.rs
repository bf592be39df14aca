//! The IRC session protocol: the exact lines a session writes, how server
//! lines are classified during the bounded join wait, and the state machine
//! that decides when the single `PRIVMSG` may be issued. The surrounding
//! program owns the TCP connection and the clock; it feeds server lines and
//! timeouts in and writes the returned lines out.

use vstd::prelude::*;

use crate::text::{
    contains_bytes, contains_seq, matches_at, push_bytes, replace_all, replace_all_spec,
    starts_with_bytes,
};

verus! {

/// Bound in seconds on the connectivity probe's read.
pub const PROBE_WAIT_SECS: u64 = 10;

/// Bound in seconds on the channel-join wait.
pub const JOIN_WAIT_SECS: u64 = 5;

/// Politeness pause in seconds between join confirmation and the message.
pub const PRE_SEND_PAUSE_SECS: u64 = 1;

/// Pause in seconds after the message, letting the connection drain.
pub const DRAIN_SECS: u64 = 2;

/// Why a send failed. Callers may rely on the variant; the descriptive text
/// is informational only.
#[derive(Clone, Copy, Debug, PartialEq, Eq, Structural)]
pub enum SendError {
    ConnectFailed,
    JoinTimeout,
    WriteFailed,
}

/// The descriptive text of a send failure: `"connection failed"`,
/// `"could not join channel"`, or `"write failed"`.
pub open spec fn error_text_spec(e: SendError) -> Seq<u8> {
    match e {
        SendError::ConnectFailed => seq![
            99u8, 111u8, 110u8, 110u8, 101u8, 99u8, 116u8, 105u8, 111u8, 110u8, 32u8, 102u8, 97u8,
            105u8, 108u8, 101u8, 100u8,
        ],
        SendError::JoinTimeout => seq![
            99u8, 111u8, 117u8, 108u8, 100u8, 32u8, 110u8, 111u8, 116u8, 32u8, 106u8, 111u8,
            105u8, 110u8, 32u8, 99u8, 104u8, 97u8, 110u8, 110u8, 101u8, 108u8,
        ],
        SendError::WriteFailed => seq![
            119u8, 114u8, 105u8, 116u8, 101u8, 32u8, 102u8, 97u8, 105u8, 108u8, 101u8, 100u8,
        ],
    }
}

impl SendError {
    /// The human-readable cause; callers may show it but must not parse it.
    pub fn describe(&self) -> (r: Vec<u8>)
        ensures
            r@ == error_text_spec(*self),
    {
        let mut v: Vec<u8> = Vec::new();
        match self {
            SendError::ConnectFailed => {
                v.push(99);
                v.push(111);
                v.push(110);
                v.push(110);
                v.push(101);
                v.push(99);
                v.push(116);
                v.push(105);
                v.push(111);
                v.push(110);
                v.push(32);
                v.push(102);
                v.push(97);
                v.push(105);
                v.push(108);
                v.push(101);
                v.push(100);
            },
            SendError::JoinTimeout => {
                v.push(99);
                v.push(111);
                v.push(117);
                v.push(108);
                v.push(100);
                v.push(32);
                v.push(110);
                v.push(111);
                v.push(116);
                v.push(32);
                v.push(106);
                v.push(111);
                v.push(105);
                v.push(110);
                v.push(32);
                v.push(99);
                v.push(104);
                v.push(97);
                v.push(110);
                v.push(110);
                v.push(101);
                v.push(108);
            },
            SendError::WriteFailed => {
                v.push(119);
                v.push(114);
                v.push(105);
                v.push(116);
                v.push(101);
                v.push(32);
                v.push(102);
                v.push(97);
                v.push(105);
                v.push(108);
                v.push(101);
                v.push(100);
            },
        }
        proof {
            assert(v@ =~= error_text_spec(*self));
        }
        v
    }
}

/// The bytes of `"PASS oauth:"`.
pub open spec fn pass_prefix() -> Seq<u8> {
    seq![80u8, 65u8, 83u8, 83u8, 32u8, 111u8, 97u8, 117u8, 116u8, 104u8, 58u8]
}

/// The bytes of `"NICK "`.
pub open spec fn nick_prefix() -> Seq<u8> {
    seq![78u8, 73u8, 67u8, 75u8, 32u8]
}

/// The bytes of `"JOIN #"`.
pub open spec fn join_prefix() -> Seq<u8> {
    seq![74u8, 79u8, 73u8, 78u8, 32u8, 35u8]
}

/// The bytes of `"PRIVMSG #"`.
pub open spec fn privmsg_prefix() -> Seq<u8> {
    seq![80u8, 82u8, 73u8, 86u8, 77u8, 83u8, 71u8, 32u8, 35u8]
}

/// The bytes of `" :"`.
pub open spec fn colon_sep() -> Seq<u8> {
    seq![32u8, 58u8]
}

/// The bytes of `"\r\n"`.
pub open spec fn crlf() -> Seq<u8> {
    seq![13u8, 10u8]
}

/// The bytes of `"PING"`.
pub open spec fn ping_word() -> Seq<u8> {
    seq![80u8, 73u8, 78u8, 71u8]
}

/// The bytes of `"PONG"`.
pub open spec fn pong_word() -> Seq<u8> {
    seq![80u8, 79u8, 78u8, 71u8]
}

/// The bytes of `":tmi.twitch.tv 001"`.
pub open spec fn welcome_numeric() -> Seq<u8> {
    seq![
        58u8, 116u8, 109u8, 105u8, 46u8, 116u8, 119u8, 105u8, 116u8, 99u8, 104u8, 46u8, 116u8,
        118u8, 32u8, 48u8, 48u8, 49u8,
    ]
}

/// The bytes of `"Welcome"`.
pub open spec fn welcome_word() -> Seq<u8> {
    seq![87u8, 101u8, 108u8, 99u8, 111u8, 109u8, 101u8]
}

/// The bytes of `"366"`.
pub open spec fn names_end_numeric() -> Seq<u8> {
    seq![51u8, 54u8, 54u8]
}

/// The bytes of `"End of /NAMES list"`.
pub open spec fn names_end_phrase() -> Seq<u8> {
    seq![
        69u8, 110u8, 100u8, 32u8, 111u8, 102u8, 32u8, 47u8, 78u8, 65u8, 77u8, 69u8, 83u8, 32u8,
        108u8, 105u8, 115u8, 116u8,
    ]
}

fn pass_prefix_bytes() -> (v: Vec<u8>)
    ensures
        v@ == pass_prefix(),
{
    let mut v: Vec<u8> = Vec::new();
    v.push(80);
    v.push(65);
    v.push(83);
    v.push(83);
    v.push(32);
    v.push(111);
    v.push(97);
    v.push(117);
    v.push(116);
    v.push(104);
    v.push(58);
    proof {
        assert(v@ =~= pass_prefix());
    }
    v
}

fn nick_prefix_bytes() -> (v: Vec<u8>)
    ensures
        v@ == nick_prefix(),
{
    let mut v: Vec<u8> = Vec::new();
    v.push(78);
    v.push(73);
    v.push(67);
    v.push(75);
    v.push(32);
    proof {
        assert(v@ =~= nick_prefix());
    }
    v
}

fn join_prefix_bytes() -> (v: Vec<u8>)
    ensures
        v@ == join_prefix(),
{
    let mut v: Vec<u8> = Vec::new();
    v.push(74);
    v.push(79);
    v.push(73);
    v.push(78);
    v.push(32);
    v.push(35);
    proof {
        assert(v@ =~= join_prefix());
    }
    v
}

fn privmsg_prefix_bytes() -> (v: Vec<u8>)
    ensures
        v@ == privmsg_prefix(),
{
    let mut v: Vec<u8> = Vec::new();
    v.push(80);
    v.push(82);
    v.push(73);
    v.push(86);
    v.push(77);
    v.push(83);
    v.push(71);
    v.push(32);
    v.push(35);
    proof {
        assert(v@ =~= privmsg_prefix());
    }
    v
}

fn ping_bytes() -> (v: Vec<u8>)
    ensures
        v@ == ping_word(),
{
    let mut v: Vec<u8> = Vec::new();
    v.push(80);
    v.push(73);
    v.push(78);
    v.push(71);
    proof {
        assert(v@ =~= ping_word());
    }
    v
}

fn pong_bytes() -> (v: Vec<u8>)
    ensures
        v@ == pong_word(),
{
    let mut v: Vec<u8> = Vec::new();
    v.push(80);
    v.push(79);
    v.push(78);
    v.push(71);
    proof {
        assert(v@ =~= pong_word());
    }
    v
}

fn welcome_numeric_bytes() -> (v: Vec<u8>)
    ensures
        v@ == welcome_numeric(),
{
    let mut v: Vec<u8> = Vec::new();
    v.push(58);
    v.push(116);
    v.push(109);
    v.push(105);
    v.push(46);
    v.push(116);
    v.push(119);
    v.push(105);
    v.push(116);
    v.push(99);
    v.push(104);
    v.push(46);
    v.push(116);
    v.push(118);
    v.push(32);
    v.push(48);
    v.push(48);
    v.push(49);
    proof {
        assert(v@ =~= welcome_numeric());
    }
    v
}

fn welcome_word_bytes() -> (v: Vec<u8>)
    ensures
        v@ == welcome_word(),
{
    let mut v: Vec<u8> = Vec::new();
    v.push(87);
    v.push(101);
    v.push(108);
    v.push(99);
    v.push(111);
    v.push(109);
    v.push(101);
    proof {
        assert(v@ =~= welcome_word());
    }
    v
}

fn names_end_numeric_bytes() -> (v: Vec<u8>)
    ensures
        v@ == names_end_numeric(),
{
    let mut v: Vec<u8> = Vec::new();
    v.push(51);
    v.push(54);
    v.push(54);
    proof {
        assert(v@ =~= names_end_numeric());
    }
    v
}

fn names_end_phrase_bytes() -> (v: Vec<u8>)
    ensures
        v@ == names_end_phrase(),
{
    let mut v: Vec<u8> = Vec::new();
    v.push(69);
    v.push(110);
    v.push(100);
    v.push(32);
    v.push(111);
    v.push(102);
    v.push(32);
    v.push(47);
    v.push(78);
    v.push(65);
    v.push(77);
    v.push(69);
    v.push(83);
    v.push(32);
    v.push(108);
    v.push(105);
    v.push(115);
    v.push(116);
    proof {
        assert(v@ =~= names_end_phrase());
    }
    v
}

/// The line `PASS oauth:<token>\r\n`.
pub open spec fn pass_line_spec(token: Seq<u8>) -> Seq<u8> {
    pass_prefix() + token + crlf()
}

/// The line `NICK <name>\r\n`.
pub open spec fn nick_line_spec(name: Seq<u8>) -> Seq<u8> {
    nick_prefix() + name + crlf()
}

/// The line `JOIN #<channel>\r\n`.
pub open spec fn join_line_spec(channel: Seq<u8>) -> Seq<u8> {
    join_prefix() + channel + crlf()
}

/// The line `PRIVMSG #<channel> :<message>\r\n`.
pub open spec fn privmsg_line_spec(channel: Seq<u8>, message: Seq<u8>) -> Seq<u8> {
    privmsg_prefix() + channel + colon_sep() + message + crlf()
}

/// The keep-alive reply: the incoming line with every `PING` replaced by
/// `PONG`.
pub open spec fn pong_for(line: Seq<u8>) -> Seq<u8> {
    replace_all_spec(line, ping_word(), pong_word())
}

fn terminate(v: &mut Vec<u8>)
    ensures
        final(v)@ == old(v)@ + crlf(),
{
    v.push(13);
    v.push(10);
    proof {
        assert(v@ =~= old(v)@ + crlf());
    }
}

/// Builds the `PASS` line.
pub fn pass_line(token: &[u8]) -> (r: Vec<u8>)
    ensures
        r@ == pass_line_spec(token@),
{
    let mut v = pass_prefix_bytes();
    push_bytes(&mut v, token);
    terminate(&mut v);
    proof {
        assert(v@ =~= pass_line_spec(token@));
    }
    v
}

/// Builds the `NICK` line.
pub fn nick_line(name: &[u8]) -> (r: Vec<u8>)
    ensures
        r@ == nick_line_spec(name@),
{
    let mut v = nick_prefix_bytes();
    push_bytes(&mut v, name);
    terminate(&mut v);
    proof {
        assert(v@ =~= nick_line_spec(name@));
    }
    v
}

/// Builds the `JOIN` line.
pub fn join_line(channel: &[u8]) -> (r: Vec<u8>)
    ensures
        r@ == join_line_spec(channel@),
{
    let mut v = join_prefix_bytes();
    push_bytes(&mut v, channel);
    terminate(&mut v);
    proof {
        assert(v@ =~= join_line_spec(channel@));
    }
    v
}

/// A response proves the probe succeeded: it holds the numeric 001 greeting
/// or the word `Welcome`.
pub open spec fn is_welcome_spec(resp: Seq<u8>) -> bool {
    contains_seq(resp, welcome_numeric()) || contains_seq(resp, welcome_word())
}

/// Classifies a probe response; anything but an explicit welcome counts as
/// unavailable.
pub fn classify_probe_response(resp: &[u8]) -> (r: bool)
    ensures
        r == is_welcome_spec(resp@),
{
    let numeric = welcome_numeric_bytes();
    if contains_bytes(resp, numeric.as_slice()) {
        return true;
    }
    let word = welcome_word_bytes();
    contains_bytes(resp, word.as_slice())
}

/// The two lines a connectivity probe writes: `PASS`, then `NICK`.
pub fn probe_lines(name: &[u8], token: &[u8]) -> (r: Vec<Vec<u8>>)
    ensures
        r@.len() == 2,
        r@[0]@ == pass_line_spec(token@),
        r@[1]@ == nick_line_spec(name@),
{
    let mut r: Vec<Vec<u8>> = Vec::new();
    r.push(pass_line(token));
    r.push(nick_line(name));
    r
}

/// A server line confirms the channel join: it holds the numeric 366 or the
/// end-of-names phrase.
pub open spec fn is_join_confirm_spec(line: Seq<u8>) -> bool {
    contains_seq(line, names_end_numeric()) || contains_seq(line, names_end_phrase())
}

/// A server line is a keep-alive request.
pub open spec fn is_ping_spec(line: Seq<u8>) -> bool {
    matches_at(line, ping_word(), 0)
}

/// Where a send session stands.
pub enum SessionState {
    /// `PASS`, `NICK` and `JOIN` are written; waiting for join confirmation.
    AwaitJoin,
    /// Join confirmed; after the politeness pause the message may go out.
    ReadyToSend,
    /// The message line has been produced; only the drain pause remains.
    Sent,
    /// The join wait was abandoned; no message may ever be sent.
    Failed,
}

/// What the session asks of its driver after one server line.
pub enum JoinStep {
    /// Join confirmed: pause `PRE_SEND_PAUSE_SECS`, then send the message.
    Joined,
    /// Write this keep-alive reply, then keep waiting.
    Reply(Vec<u8>),
    /// Nothing of interest: keep waiting.
    KeepWaiting,
}

/// Where the join wait stands after the given server lines: confirmed as soon
/// as one line confirms the join, still waiting otherwise.
pub open spec fn join_wait_outcome(lines: Seq<Seq<u8>>) -> SessionState
    decreases lines.len(),
{
    if lines.len() == 0 {
        SessionState::AwaitJoin
    } else if is_join_confirm_spec(lines[0]) {
        SessionState::ReadyToSend
    } else {
        join_wait_outcome(lines.drop_first())
    }
}

/// A session whose server never confirms the join never leaves `AwaitJoin`,
/// whatever else the server says; since only the `ReadyToSend` state can
/// produce the message line, no `PRIVMSG` is ever issued for such a server.
pub proof fn lemma_no_confirm_no_send(lines: Seq<Seq<u8>>)
    requires
        forall|i: int| 0 <= i < lines.len() ==> !is_join_confirm_spec(#[trigger] lines[i]),
    ensures
        join_wait_outcome(lines) == SessionState::AwaitJoin,
    decreases lines.len(),
{
    if lines.len() == 0 {
    } else {
        assert(!is_join_confirm_spec(lines[0]));
        assert forall|i: int|
            0 <= i < lines.drop_first().len() implies !is_join_confirm_spec(
            #[trigger] lines.drop_first()[i],
        ) by {
            assert(lines.drop_first()[i] == lines[i + 1]);
        }
        lemma_no_confirm_no_send(lines.drop_first());
    }
}

/// One message-send session over a fresh connection.
pub struct SendSession {
    pub state: SessionState,
}

impl SendSession {
    /// A fresh session, waiting for join confirmation once the opening lines
    /// are written.
    pub fn begin() -> (s: SendSession)
        ensures
            s.state == SessionState::AwaitJoin,
    {
        SendSession { state: SessionState::AwaitJoin }
    }

    /// The three opening lines of a send session: `PASS`, `NICK`, `JOIN`.
    pub fn opening_lines(name: &[u8], token: &[u8], channel: &[u8]) -> (r: Vec<Vec<u8>>)
        ensures
            r@.len() == 3,
            r@[0]@ == pass_line_spec(token@),
            r@[1]@ == nick_line_spec(name@),
            r@[2]@ == join_line_spec(channel@),
    {
        let mut r: Vec<Vec<u8>> = Vec::new();
        r.push(pass_line(token));
        r.push(nick_line(name));
        r.push(join_line(channel));
        r
    }

    /// Consumes one server line during the join wait. A confirming line ends
    /// the wait; a `PING` line demands the matching `PONG` before waiting
    /// continues; anything else is ignored.
    pub fn on_server_line(&mut self, line: &[u8]) -> (r: JoinStep)
        requires
            old(self).state == SessionState::AwaitJoin,
        ensures
            is_join_confirm_spec(line@) ==> (r is Joined) && final(self).state
                == SessionState::ReadyToSend,
            !is_join_confirm_spec(line@) ==> final(self).state == SessionState::AwaitJoin,
            !is_join_confirm_spec(line@) && is_ping_spec(line@) ==> (r matches JoinStep::Reply(p)
                && p@ == pong_for(line@)),
            !is_join_confirm_spec(line@) && !is_ping_spec(line@) ==> (r is KeepWaiting),
    {
        let numeric = names_end_numeric_bytes();
        let phrase = names_end_phrase_bytes();
        if contains_bytes(line, numeric.as_slice()) || contains_bytes(line, phrase.as_slice()) {
            self.state = SessionState::ReadyToSend;
            JoinStep::Joined
        } else {
            let ping = ping_bytes();
            if starts_with_bytes(line, ping.as_slice()) {
                let pong = pong_bytes();
                let reply = replace_all(line, ping.as_slice(), pong.as_slice());
                JoinStep::Reply(reply)
            } else {
                JoinStep::KeepWaiting
            }
        }
    }

    /// Abandons the join wait once its time bound has elapsed (or the server
    /// closed the connection): the session fails with `JoinTimeout` and no
    /// message is sent.
    pub fn give_up(&mut self) -> (e: SendError)
        requires
            old(self).state == SessionState::AwaitJoin,
        ensures
            final(self).state == SessionState::Failed,
            e == SendError::JoinTimeout,
    {
        self.state = SessionState::Failed;
        SendError::JoinTimeout
    }

    /// Produces the one `PRIVMSG` line of the session. Only a session whose
    /// join was confirmed can reach this.
    pub fn message_line(&mut self, channel: &[u8], message: &[u8]) -> (r: Vec<u8>)
        requires
            old(self).state == SessionState::ReadyToSend,
        ensures
            final(self).state == SessionState::Sent,
            r@ == privmsg_line_spec(channel@, message@),
    {
        self.state = SessionState::Sent;
        let mut v = privmsg_prefix_bytes();
        push_bytes(&mut v, channel);
        v.push(32);
        v.push(58);
        push_bytes(&mut v, message);
        terminate(&mut v);
        proof {
            assert(v@ =~= privmsg_line_spec(channel@, message@));
        }
        v
    }
}

} // verus!
