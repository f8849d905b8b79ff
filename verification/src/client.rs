//! Per-competitor protocol state machine.
//!
//! A client owns the conversation with one sandboxed competitor process.
//! The blocking reads and writes themselves happen outside this crate; the
//! surrounding application performs each read or write under the deadline
//! this module prescribes and feeds the result back in.  Everything the
//! client decides — state transitions, message payloads, deadlines, the
//! sentinel — is here, under contract.

use vstd::prelude::*;

use crate::codec;

verus! {

/// Submitted for a competitor with no usable value; numerically the
/// maximum, so it can only win a round it has entirely to itself.
pub const SENTINEL: u32 = u32::MAX;

/// Deadline for a read while the client still awaits its handshake.
pub const HANDSHAKE_READ_DEADLINE_MS: u64 = 10000;

/// Deadline for any other read.
pub const STEADY_READ_DEADLINE_MS: u64 = 1000;

/// Deadline for every write.
pub const WRITE_DEADLINE_MS: u64 = 100;

/// Protocol position of one client.  `Error` and `Ended` are terminal;
/// `Error` is absorbing: every later operation on the client is a no-op.
#[derive(Clone, Copy, PartialEq, Eq, Structural, Debug)]
pub enum ProtocolState {
    /// Spawned, handshake line not yet received.
    Init,
    /// A protocol violation, timeout or stream failure occurred.
    Error,
    /// Handshake done; the next round may start.
    AwaitingStart,
    /// A value was requested and not yet received.
    AwaitingValue,
    /// A value was received; the round's broadcast closes the round.
    AwaitingRoundEnd,
    /// Told that the match is over.
    Ended,
}

/// The handshake line every competitor must send first.
pub open spec fn ready_line() -> Seq<u8> {
    seq![114u8, 101u8, 97u8, 100u8, 121u8]
}

/// Message requesting one value.
pub open spec fn game_msg() -> Seq<u8> {
    seq![103u8, 97u8, 109u8, 101u8, codec::NEWLINE]
}

/// Message ending the match for one competitor.
pub open spec fn end_msg() -> Seq<u8> {
    seq![101u8, 110u8, 100u8, codec::NEWLINE]
}

/// The broadcast message for a round's value vector.
pub open spec fn nums_msg(nums: Seq<u32>) -> Seq<u8> {
    codec::spec_encode(nums).push(codec::NEWLINE)
}

/// The broadcast message, received and stripped of surrounding whitespace
/// as any competitor's line reader would, parses back to exactly the value
/// vector that was sent.
pub proof fn lemma_broadcast_msg_round_trip(nums: Seq<u32>)
    ensures
        codec::is_nums_line(codec::trimmed(nums_msg(nums))),
        codec::line_values(codec::trimmed(nums_msg(nums))) == nums,
{
    let msg = nums_msg(nums);
    if nums.len() == 0 {
        assert(msg =~= seq![codec::NEWLINE]);
        assert(msg.drop_first() =~= Seq::<u8>::empty());
        assert(codec::is_ws(msg[0]));
        assert(codec::trim_front(Seq::<u8>::empty()) =~= Seq::<u8>::empty());
        assert(codec::trim_front(msg) =~= Seq::<u8>::empty());
        assert(codec::trimmed(msg) =~= Seq::<u8>::empty());
        assert(codec::line_values(codec::trimmed(msg)) =~= nums);
    } else {
        let e = codec::spec_encode(nums);
        codec::lemma_encode_len(nums);
        codec::lemma_encode_ends_in_digit(nums);
        assert(msg.first() == e.first());
        assert(!codec::is_ws(msg.first()));
        assert(codec::trim_front(msg) == msg);
        assert(msg.last() == codec::NEWLINE);
        assert(msg.drop_last() =~= e);
        assert(!codec::is_ws(e.last()));
        assert(codec::trim_back(msg) == codec::trim_back(e));
        assert(codec::trim_back(e) == e);
        assert(codec::trimmed(msg) == e);
        codec::lemma_broadcast_round_trip(nums);
    }
}

/// A line accepted while a value is awaited: a decimal token fitting `u32`
/// once surrounding whitespace is stripped.
pub open spec fn is_value_line(line: Seq<u8>) -> bool {
    codec::is_num_token(codec::trimmed(line)) && codec::token_val(codec::trimmed(line))
        <= u32::MAX
}

/// The value a well-formed value line carries.
pub open spec fn value_of_line(line: Seq<u8>) -> nat {
    codec::token_val(codec::trimmed(line))
}

/// One competitor client: display identity, protocol position, and the
/// last successfully received value.
pub struct Client {
    /// Display name, from the script path.
    pub name: Vec<u8>,
    /// Protocol position.
    pub state: ProtocolState,
    /// Last received value; `SENTINEL` until one is parsed, and again
    /// whenever the client errors.
    pub num: u32,
}

impl Client {
    /// An errored client always reports the sentinel.
    pub open spec fn wf(self) -> bool {
        self.state == ProtocolState::Error ==> self.num == SENTINEL
    }

    /// True while the read deadline is the generous handshake one.
    pub open spec fn spec_is_init(self) -> bool {
        self.state == ProtocolState::Init
    }

    /// States in which `poll` performs a read; in every other state it is a
    /// no-op.
    pub open spec fn spec_wants_poll(self) -> bool {
        self.state == ProtocolState::Init || self.state == ProtocolState::AwaitingValue
    }

    /// A fresh client for a just-spawned competitor.
    pub fn new(name: Vec<u8>) -> (c: Client)
        ensures
            c.name@ == name@,
            c.state == ProtocolState::Init,
            c.num == SENTINEL,
            c.wf(),
    {
        Client { name, state: ProtocolState::Init, num: SENTINEL }
    }

    /// Readiness check: true only before the handshake arrived.
    pub fn is_init(&self) -> (r: bool)
        ensures
            r == self.spec_is_init(),
    {
        self.state == ProtocolState::Init
    }

    pub fn is_err(&self) -> (r: bool)
        ensures
            r == (self.state == ProtocolState::Error),
    {
        self.state == ProtocolState::Error
    }

    /// Display identity.
    pub fn name(&self) -> (r: &Vec<u8>)
        ensures
            r@ == self.name@,
    {
        &self.name
    }

    /// Last received value, the sentinel if none was ever parsed or the
    /// client errored.
    pub fn get_num(&self) -> (r: u32)
        ensures
            r == self.num,
    {
        self.num
    }

    /// Moves the client to the absorbing `Error` state.  The application
    /// calls this when a read or write missed its deadline or failed.
    pub fn err(&mut self)
        ensures
            final(self).name@ == old(self).name@,
            final(self).state == ProtocolState::Error,
            final(self).num == SENTINEL,
            final(self).wf(),
    {
        self.state = ProtocolState::Error;
        self.num = SENTINEL;
    }

    /// Whether `poll` would read at all in the current state.
    pub fn wants_poll(&self) -> (r: bool)
        ensures
            r == self.spec_wants_poll(),
    {
        match self.state {
            ProtocolState::Init => true,
            ProtocolState::AwaitingValue => true,
            _ => false,
        }
    }

    /// The deadline the application must put on the next blocking read:
    /// generous for the handshake, tight afterwards.
    pub fn read_deadline_ms(&self) -> (r: u64)
        ensures
            self.spec_is_init() ==> r == HANDSHAKE_READ_DEADLINE_MS,
            !self.spec_is_init() ==> r == STEADY_READ_DEADLINE_MS,
    {
        match self.state {
            ProtocolState::Init => HANDSHAKE_READ_DEADLINE_MS,
            _ => STEADY_READ_DEADLINE_MS,
        }
    }

    /// Outcome of a poll whose read missed its deadline or failed: the
    /// client errors if it was actually reading, and is untouched otherwise.
    pub fn on_read_failed(&mut self)
        requires
            old(self).wf(),
        ensures
            final(self).name@ == old(self).name@,
            final(self).wf(),
            old(self).spec_wants_poll() ==> final(self).state == ProtocolState::Error
                && final(self).num == SENTINEL,
            !old(self).spec_wants_poll() ==> final(self).state == old(self).state
                && final(self).num == old(self).num,
    {
        match self.state {
            ProtocolState::Init | ProtocolState::AwaitingValue => {
                self.err();
            },
            _ => {},
        }
    }

    /// Outcome of a poll whose read produced `line`.
    ///
    /// In `Init`, only the handshake line (after whitespace stripping)
    /// advances the client; anything else is a protocol violation.  While a
    /// value is awaited, a well-formed decimal line is recorded and closes
    /// the read phase; anything else is a violation.  In every other state
    /// the poll was a no-op and the line is discarded.
    pub fn on_read_line(&mut self, line: &Vec<u8>)
        requires
            old(self).wf(),
        ensures
            final(self).name@ == old(self).name@,
            final(self).wf(),
            old(self).state == ProtocolState::Init && codec::trimmed(line@) == ready_line()
                ==> final(self).state == ProtocolState::AwaitingStart
                && final(self).num == old(self).num,
            old(self).state == ProtocolState::Init && codec::trimmed(line@) != ready_line()
                ==> final(self).state == ProtocolState::Error && final(self).num == SENTINEL,
            old(self).state == ProtocolState::AwaitingValue && is_value_line(line@)
                ==> final(self).state == ProtocolState::AwaitingRoundEnd
                && final(self).num as nat == value_of_line(line@),
            old(self).state == ProtocolState::AwaitingValue && !is_value_line(line@)
                ==> final(self).state == ProtocolState::Error && final(self).num == SENTINEL,
            !old(self).spec_wants_poll() ==> final(self).state == old(self).state
                && final(self).num == old(self).num,
    {
        match self.state {
            ProtocolState::Init => {
                let t = codec::trim_ascii(line);
                let mut ready: Vec<u8> = Vec::new();
                ready.push(114);
                ready.push(101);
                ready.push(97);
                ready.push(100);
                ready.push(121);
                proof {
                    assert(ready@ =~= ready_line());
                }
                if codec::bytes_eq(&t, &ready) {
                    self.state = ProtocolState::AwaitingStart;
                } else {
                    self.err();
                }
            },
            ProtocolState::AwaitingValue => {
                let t = codec::trim_ascii(line);
                match codec::parse_u32(&t) {
                    Some(v) => {
                        self.num = v;
                        self.state = ProtocolState::AwaitingRoundEnd;
                    },
                    None => {
                        self.err();
                    },
                }
            },
            _ => {},
        }
    }

    /// Decides the value-request send: no-op on an errored client, else the
    /// message to write and the state awaiting the competitor's value.
    pub fn send_game(&mut self) -> (msg: Option<Vec<u8>>)
        requires
            old(self).wf(),
        ensures
            final(self).name@ == old(self).name@,
            final(self).num == old(self).num,
            final(self).wf(),
            old(self).state == ProtocolState::Error ==> final(self).state == old(self).state
                && msg is None,
            old(self).state != ProtocolState::Error ==> final(self).state
                == ProtocolState::AwaitingValue && (msg matches Some(m) && m@ == game_msg()),
    {
        if self.is_err() {
            return None;
        }
        self.state = ProtocolState::AwaitingValue;
        let mut m: Vec<u8> = Vec::new();
        m.push(103);
        m.push(97);
        m.push(109);
        m.push(101);
        m.push(codec::NEWLINE);
        proof {
            assert(m@ =~= game_msg());
        }
        Some(m)
    }

    /// Decides the round-closing broadcast of the full value vector: no-op
    /// on an errored client, else the encoded line and the state awaiting
    /// the next round.
    pub fn send_nums(&mut self, nums: &Vec<u32>) -> (msg: Option<Vec<u8>>)
        requires
            old(self).wf(),
        ensures
            final(self).name@ == old(self).name@,
            final(self).num == old(self).num,
            final(self).wf(),
            old(self).state == ProtocolState::Error ==> final(self).state == old(self).state
                && msg is None,
            old(self).state != ProtocolState::Error ==> final(self).state
                == ProtocolState::AwaitingStart && (msg matches Some(m) && m@ == nums_msg(nums@)),
    {
        if self.is_err() {
            return None;
        }
        self.state = ProtocolState::AwaitingStart;
        let mut m = codec::encode_nums(nums);
        m.push(codec::NEWLINE);
        Some(m)
    }

    /// Decides the termination send: no-op on an errored client, else the
    /// end-of-match message and the terminal `Ended` state.
    pub fn send_end(&mut self) -> (msg: Option<Vec<u8>>)
        requires
            old(self).wf(),
        ensures
            final(self).name@ == old(self).name@,
            final(self).num == old(self).num,
            final(self).wf(),
            old(self).state == ProtocolState::Error ==> final(self).state == old(self).state
                && msg is None,
            old(self).state != ProtocolState::Error ==> final(self).state == ProtocolState::Ended
                && (msg matches Some(m) && m@ == end_msg()),
    {
        if self.is_err() {
            return None;
        }
        self.state = ProtocolState::Ended;
        let mut m: Vec<u8> = Vec::new();
        m.push(101);
        m.push(110);
        m.push(100);
        m.push(codec::NEWLINE);
        proof {
            assert(m@ =~= end_msg());
        }
        Some(m)
    }
}

} // verus!
