//! The stream engine: a state machine that moves one frame at a time over a
//! connection that may accept or deliver any number of bytes at each attempt.
//!
//! The engine touches no socket. It says what it wants next (`want`), offers
//! the bytes to send (`output`), and is told what an attempt transferred
//! (`update`). Only the bytes transferred count, never how they were split
//! over attempts: a frame is complete when the bytes taken in so far are
//! exactly its header and payload.

use crate::codec::{encode, kind_of, serialize, Message};
use crate::frame::{
    frame_bytes, header_bytes, header_length, lemma_header_bytes, lemma_header_unique, length_ok,
    spec_decode_header, FrameError, Header, PAYLOAD_LIMIT,
};
use crate::messages::{lemma_tag_round_trip, tag_of, Messages};
use vstd::prelude::*;
use vstd::slice::*;

verus! {

/// Where the engine stands.
#[derive(Copy, Clone, PartialEq, Eq, Debug, Structural)]
pub enum State {
    ReadHeader,
    ReadData,
    WriteHeader,
    WriteData,
    /// Nothing is in flight: the last read or write has completed.
    Complete,
}

/// Whether the engine arms itself for a read once a write has completed.
#[derive(Copy, Clone, PartialEq, Eq, Debug, Structural)]
pub enum TransitionToRead {
    Yes,
    No,
}

/// What one attempt on the connection came to.
#[derive(Clone, PartialEq, Eq, Debug)]
pub enum IoEvent {
    /// The connection accepted this many of the offered bytes.
    Written(usize),
    /// The connection delivered these bytes.
    Received(Vec<u8>),
    /// The attempt would have blocked: nothing was transferred.
    WouldBlock,
    /// The attempt failed for another reason.
    Failed,
}

/// What the engine needs from the connection next.
#[derive(Copy, Clone, PartialEq, Eq, Debug, Structural)]
pub enum Want {
    Nothing,
    /// Offer the bytes of `output` to the connection.
    Write,
    /// Read at most this many bytes from the connection.
    Read(usize),
}

/// What an update brought.
#[derive(Copy, Clone, PartialEq, Eq, Debug, Structural)]
pub enum Progress {
    /// Nothing is in flight.
    Idle,
    /// The frame in flight is not complete; try again later.
    Pending,
    /// A header was completed and a payload follows: attempt it right away.
    Chain,
    /// The outgoing frame has been handed over completely.
    Finished,
    /// An incoming frame is complete; its payload is in `data`.
    Message(Messages),
}

/// Why the engine refused an event. Each of them ends the connection.
#[derive(Copy, Clone, PartialEq, Eq, Debug, Structural)]
pub enum StreamError {
    /// The attempt on the connection failed.
    Io,
    /// More bytes were reported than were offered or asked for.
    Overrun,
    /// A write outcome arrived while reading, or bytes while writing.
    UnexpectedEvent,
    /// The header is not the header of a frame.
    Frame(FrameError),
}

/// The stream engine of one connection.
pub struct MessageStream {
    transition_to_read: TransitionToRead,
    state: State,
    /// The type of the frame in flight or last completed.
    message: Messages,
    /// How many header bytes have been read or written.
    header_offset: usize,
    /// How many payload bytes have been read or written.
    data_offset: usize,
    header: [u8; 8],
    /// The payload being written, or the payload bytes read so far.
    data: Vec<u8>,
    /// The payload length that the header being read announced.
    expected: usize,
}

/// The bytes that an event carries in.
pub open spec fn event_bytes(event: IoEvent) -> Seq<u8> {
    match event {
        IoEvent::Received(v) => v@,
        _ => Seq::empty(),
    }
}

/// The number of bytes that an event reports as written.
pub open spec fn event_count(event: IoEvent) -> nat {
    match event {
        IoEvent::Written(n) => n as nat,
        _ => 0,
    }
}

impl MessageStream {
    /// Where the engine stands.
    pub closed spec fn spec_state(&self) -> State {
        self.state
    }

    /// The type of the frame in flight or last completed.
    pub closed spec fn kind(&self) -> Messages {
        self.message
    }

    /// The payload held: the one being written, or what has been read of the
    /// one coming in, or the last one completed.
    pub closed spec fn payload(&self) -> Seq<u8> {
        self.data@
    }

    /// Whether a read is armed once the write in flight has completed.
    pub closed spec fn auto_read(&self) -> bool {
        self.transition_to_read == TransitionToRead::Yes
    }

    /// The invariant: offsets lie within their buffers, and the state agrees
    /// with them.
    pub closed spec fn wf(&self) -> bool {
        &&& self.header_offset <= 8
        &&& match self.state {
            State::Complete => true,
            State::WriteHeader => {
                &&& self.header_offset < 8
                &&& self.data@.len() < PAYLOAD_LIMIT
                &&& self.header@ == header_bytes(tag_of(self.message), self.data@.len())
            },
            State::WriteData => {
                &&& self.data_offset < self.data@.len()
                &&& self.data@.len() < PAYLOAD_LIMIT
            },
            State::ReadHeader => self.header_offset < 8,
            State::ReadData => {
                &&& self.header_offset == 8
                &&& self.data_offset == self.data@.len()
                &&& self.data_offset < self.expected
                &&& spec_decode_header(self.header@) == Ok::<Header, FrameError>(
                    Header { msg_type: self.message, size: self.expected },
                )
            },
        }
    }

    /// The bytes of the outgoing frame that the connection has not accepted
    /// yet.
    pub closed spec fn outgoing(&self) -> Seq<u8> {
        match self.state {
            State::WriteHeader => self.header@.subrange(self.header_offset as int, 8) + self.data@,
            State::WriteData => self.data@.subrange(
                self.data_offset as int,
                self.data@.len() as int,
            ),
            _ => Seq::empty(),
        }
    }

    /// How many bytes `output` offers.
    pub closed spec fn offered(&self) -> nat {
        match self.state {
            State::WriteHeader => (8 - self.header_offset) as nat,
            State::WriteData => (self.data@.len() - self.data_offset) as nat,
            _ => 0,
        }
    }

    /// The bytes of the incoming frame taken in so far.
    pub closed spec fn incoming(&self) -> Seq<u8> {
        match self.state {
            State::ReadHeader => self.header@.subrange(0, self.header_offset as int),
            State::ReadData => self.header@ + self.data@,
            _ => Seq::empty(),
        }
    }

    /// How many bytes the frame coming in still lacks: the rest of the
    /// header, or the rest of the payload once the header is known.
    pub closed spec fn wanted(&self) -> nat {
        match self.state {
            State::ReadHeader => (8 - self.header_offset) as nat,
            State::ReadData => (self.expected - self.data_offset) as nat,
            _ => 0,
        }
    }

    /// How the engine's measures hang together.
    pub proof fn lemma_measures(&self)
        requires
            self.wf(),
        ensures
            self.offered() <= self.outgoing().len(),
            self.spec_state() is WriteHeader ==> self.offered() > 0 && self.outgoing().len()
                == self.offered() + self.payload().len(),
            self.spec_state() is WriteData ==> self.offered() > 0 && self.outgoing().len()
                == self.offered(),
            self.spec_state() is ReadHeader ==> self.incoming().len() + self.wanted() == 8
                && self.wanted() > 0,
            self.spec_state() is ReadData ==> self.incoming().len() >= 8 && self.wanted() > 0
                && self.incoming().len() + self.wanted() == 8 + header_length(
                self.incoming().subrange(0, 8),
            ) && self.payload() == self.incoming().subrange(8, self.incoming().len() as int),
            !(self.spec_state() is WriteHeader || self.spec_state() is WriteData)
                ==> self.outgoing().len() == 0,
            !(self.spec_state() is ReadHeader || self.spec_state() is ReadData)
                ==> self.incoming().len() == 0 && self.wanted() == 0,
    {
        if self.state is ReadData {
            assert(self.incoming().subrange(0, 8) =~= self.header@);
            assert(self.incoming().subrange(8, self.incoming().len() as int) =~= self.data@);
        }
    }

    /// How a write step relates the engine before and after it: the connection
    /// accepted `n` of the offered bytes.
    pub open spec fn write_step(
        pre: MessageStream,
        n: nat,
        post: MessageStream,
        r: Result<Progress, StreamError>,
    ) -> bool {
        if n > pre.offered() {
            r == Err::<Progress, StreamError>(StreamError::Overrun) && post == pre
        } else {
            &&& post.outgoing() == pre.outgoing().skip(n as int)
            &&& post.kind() == pre.kind()
            &&& post.payload() == pre.payload()
            &&& post.auto_read() == pre.auto_read()
            &&& post.incoming().len() == 0
            &&& if post.outgoing().len() == 0 {
                &&& r == Ok::<Progress, StreamError>(Progress::Finished)
                &&& post.spec_state() == if pre.auto_read() {
                    State::ReadHeader
                } else {
                    State::Complete
                }
            } else if pre.spec_state() is WriteHeader && n == pre.offered() {
                r == Ok::<Progress, StreamError>(Progress::Chain) && post.spec_state()
                    == State::WriteData
            } else {
                r == Ok::<Progress, StreamError>(Progress::Pending) && post.spec_state()
                    == pre.spec_state()
            }
        }
    }

    /// How a read step relates the engine before and after it: the connection
    /// delivered `bytes`.
    pub open spec fn read_step(
        pre: MessageStream,
        bytes: Seq<u8>,
        post: MessageStream,
        r: Result<Progress, StreamError>,
    ) -> bool {
        let acc = pre.incoming() + bytes;
        if bytes.len() > pre.wanted() {
            r == Err::<Progress, StreamError>(StreamError::Overrun) && post == pre
        } else if acc.len() < 8 {
            &&& r == Ok::<Progress, StreamError>(Progress::Pending)
            &&& post.spec_state() == State::ReadHeader
            &&& post.incoming() == acc
            &&& post.auto_read() == pre.auto_read()
            &&& post.kind() == pre.kind()
            &&& post.payload() == pre.payload()
        } else {
            match spec_decode_header(acc.subrange(0, 8)) {
                Err(e) => r == Err::<Progress, StreamError>(StreamError::Frame(e)) && post == pre,
                Ok(h) => {
                    &&& post.kind() == h.msg_type
                    &&& post.auto_read() == pre.auto_read()
                    &&& if acc.len() == 8 + h.size {
                        &&& r == Ok::<Progress, StreamError>(Progress::Message(h.msg_type))
                        &&& post.spec_state() == State::Complete
                        &&& post.payload() == acc.subrange(8, acc.len() as int)
                        &&& acc == frame_bytes(h.msg_type, post.payload())
                    } else {
                        &&& r == Ok::<Progress, StreamError>(
                            if acc.len() == 8 && pre.spec_state() is ReadHeader {
                                Progress::Chain
                            } else {
                                Progress::Pending
                            },
                        )
                        &&& post.spec_state() == State::ReadData
                        &&& post.incoming() == acc
                    }
                },
            }
        }
    }

    /// A fresh engine: nothing in flight, no payload held.
    pub fn new() -> (s: MessageStream)
        ensures
            s.wf(),
            s.spec_state() == State::Complete,
            s.payload() == Seq::<u8>::empty(),
            s.kind() == Messages::NoMessage,
            !s.auto_read(),
    {
        MessageStream {
            transition_to_read: TransitionToRead::No,
            state: State::Complete,
            message: Messages::NoMessage,
            header_offset: 0,
            data_offset: 0,
            header: [0u8; 8],
            data: Vec::new(),
            expected: 0,
        }
    }

    /// Where the engine stands.
    pub fn state(&self) -> (s: State)
        ensures
            s == self.spec_state(),
    {
        self.state
    }

    /// The type of the frame in flight or last completed.
    pub fn message(&self) -> (k: Messages)
        ensures
            k == self.kind(),
    {
        self.message
    }

    /// The payload held; after `Progress::Message`, the payload of that
    /// message.
    pub fn data(&self) -> (d: &Vec<u8>)
        ensures
            d@ == self.payload(),
    {
        &self.data
    }

    /// Whether nothing is being written: a write begun earlier has finished.
    pub fn write_finished(&self) -> (done: bool)
        ensures
            done <==> !(self.spec_state() is WriteHeader || self.spec_state() is WriteData),
    {
        match self.state {
            State::WriteHeader | State::WriteData => false,
            _ => true,
        }
    }

    /// Arms the engine for the next incoming frame. This is possible when
    /// nothing is in flight or a read is armed already; header bytes taken in
    /// so far are dropped. While a payload is being read or a frame is being
    /// written, the call changes nothing and reports `false`.
    pub fn begin_read(&mut self) -> (armed: bool)
        requires
            old(self).wf(),
        ensures
            final(self).wf(),
            armed <==> (old(self).spec_state() is Complete || old(self).spec_state()
                is ReadHeader),
            armed ==> {
                &&& final(self).spec_state() == State::ReadHeader
                &&& final(self).incoming() == Seq::<u8>::empty()
                &&& final(self).wanted() == 8
                &&& final(self).payload() == old(self).payload()
                &&& final(self).kind() == old(self).kind()
                &&& final(self).auto_read() == old(self).auto_read()
            },
            !armed ==> *final(self) == *old(self),
    {
        match self.state {
            State::Complete | State::ReadHeader => {
                self.header_offset = 0;
                self.data_offset = 0;
                self.state = State::ReadHeader;
                assert(self.header@.subrange(0, 0) =~= Seq::<u8>::empty());
                true
            },
            _ => false,
        }
    }

    /// Stands down a read that is armed but has taken in nothing, so that a
    /// message can be sent while the engine waits for the next one. Once a
    /// byte of a frame has come in, the read must run its course: the call
    /// changes nothing and reports `false`.
    pub fn cancel_read(&mut self) -> (cancelled: bool)
        requires
            old(self).wf(),
        ensures
            final(self).wf(),
            cancelled <==> (old(self).spec_state() is ReadHeader && old(self).incoming().len()
                == 0),
            cancelled ==> {
                &&& final(self).spec_state() == State::Complete
                &&& final(self).payload() == old(self).payload()
                &&& final(self).kind() == old(self).kind()
                &&& final(self).auto_read() == old(self).auto_read()
            },
            !cancelled ==> *final(self) == *old(self),
    {
        match self.state {
            State::ReadHeader => {
                if self.header_offset == 0 {
                    self.state = State::Complete;
                    true
                } else {
                    false
                }
            },
            _ => false,
        }
    }

    /// Takes a message for sending: serializes it, builds the header, and
    /// moves to `WriteHeader`. This is possible only when nothing is in
    /// flight; otherwise the call changes nothing and reports `false`. A
    /// payload of 2^48 bytes or more is refused.
    pub fn begin_write_message(&mut self, message: &Message, trans: TransitionToRead) -> (r: Result<
        bool,
        StreamError,
    >)
        requires
            old(self).wf(),
        ensures
            final(self).wf(),
            !(old(self).spec_state() is Complete) ==> r == Ok::<bool, StreamError>(false)
                && *final(self) == *old(self),
            old(self).spec_state() is Complete && encode(message@).len() >= PAYLOAD_LIMIT ==> r
                == Err::<bool, StreamError>(
                StreamError::Frame(FrameError::LengthTooLarge(encode(message@).len() as u64)),
            ) && *final(self) == *old(self),
            old(self).spec_state() is Complete && encode(message@).len() < PAYLOAD_LIMIT ==> {
                &&& r == Ok::<bool, StreamError>(true)
                &&& final(self).spec_state() == State::WriteHeader
                &&& final(self).outgoing() == frame_bytes(kind_of(message@), encode(message@))
                &&& final(self).payload() == encode(message@)
                &&& final(self).kind() == kind_of(message@)
                &&& final(self).auto_read() == (trans == TransitionToRead::Yes)
            },
    {
        match self.state {
            State::Complete => {},
            _ => {
                return Ok(false);
            },
        }
        let payload = serialize(message);
        let kind = message.kind();
        let header = match (Header { msg_type: kind, size: payload.len() }).encode() {
            Ok(h) => h,
            Err(e) => {
                return Err(StreamError::Frame(e));
            },
        };
        self.header = header;
        self.data = payload;
        self.message = kind;
        self.transition_to_read = trans;
        self.state = State::WriteHeader;
        self.header_offset = 0;
        self.data_offset = 0;
        proof {
            assert(self.header@.subrange(0, 8) =~= self.header@);
            lemma_header_bytes(tag_of(kind), self.data@.len());
        }
        Ok(true)
    }

    /// What the engine needs from the connection next.
    pub fn want(&self) -> (w: Want)
        requires
            self.wf(),
        ensures
            match self.spec_state() {
                State::Complete => w == Want::Nothing,
                State::WriteHeader | State::WriteData => w == Want::Write,
                State::ReadHeader | State::ReadData => w == Want::Read(self.wanted() as usize),
            },
    {
        match self.state {
            State::Complete => Want::Nothing,
            State::WriteHeader | State::WriteData => Want::Write,
            State::ReadHeader => Want::Read(8 - self.header_offset),
            State::ReadData => Want::Read(self.expected - self.data_offset),
        }
    }

    /// The bytes to offer to the connection: what is left of the header while
    /// the header is being written, what is left of the payload after that.
    pub fn output(&self) -> (out: &[u8])
        requires
            self.wf(),
        ensures
            out@.len() == self.offered(),
            out@ == self.outgoing().subrange(0, self.offered() as int),
    {
        match self.state {
            State::WriteHeader => {
                let out = slice_subrange(self.header.as_slice(), self.header_offset, 8);
                assert(out@ =~= self.outgoing().subrange(0, self.offered() as int));
                out
            },
            State::WriteData => {
                let out = slice_subrange(self.data.as_slice(), self.data_offset, self.data.len());
                assert(out@ =~= self.outgoing().subrange(0, self.offered() as int));
                out
            },
            _ => {
                let out = slice_subrange(self.data.as_slice(), 0, 0);
                assert(out@ =~= self.outgoing().subrange(0, self.offered() as int));
                out
            },
        }
    }

    /// What an attempt to write came to: the number of bytes that went out. An
    /// attempt that would have blocked wrote nothing, which is no failure.
    fn write(event: &IoEvent) -> (r: Result<usize, StreamError>)
        ensures
            r == match *event {
                IoEvent::Written(n) => Ok::<usize, StreamError>(n),
                IoEvent::WouldBlock => Ok::<usize, StreamError>(0),
                IoEvent::Received(_) => Err::<usize, StreamError>(StreamError::UnexpectedEvent),
                IoEvent::Failed => Err::<usize, StreamError>(StreamError::Io),
            },
            r matches Ok(n) ==> n == event_count(*event),
    {
        match event {
            IoEvent::Written(n) => Ok(*n),
            IoEvent::WouldBlock => Ok(0),
            IoEvent::Received(_) => Err(StreamError::UnexpectedEvent),
            IoEvent::Failed => Err(StreamError::Io),
        }
    }

    /// What an attempt to read came to: the bytes that came in. An attempt
    /// that would have blocked read nothing, which is no failure.
    fn read(event: IoEvent) -> (r: Result<Vec<u8>, StreamError>)
        ensures
            match event {
                IoEvent::Received(_) | IoEvent::WouldBlock => r matches Ok(bytes) && bytes@
                    == event_bytes(event),
                IoEvent::Written(_) => r == Err::<Vec<u8>, StreamError>(
                    StreamError::UnexpectedEvent,
                ),
                IoEvent::Failed => r == Err::<Vec<u8>, StreamError>(StreamError::Io),
            },
    {
        match event {
            IoEvent::Received(bytes) => Ok(bytes),
            IoEvent::WouldBlock => Ok(Vec::new()),
            IoEvent::Written(_) => Err(StreamError::UnexpectedEvent),
            IoEvent::Failed => Err(StreamError::Io),
        }
    }

    /// The outgoing frame is complete: go back to rest, or arm a read.
    fn finish_write(&mut self) -> (r: Progress)
        requires
            old(self).header_offset <= 8,
        ensures
            r == Progress::Finished,
            final(self).wf(),
            final(self).outgoing().len() == 0,
            final(self).incoming().len() == 0,
            final(self).kind() == old(self).kind(),
            final(self).payload() == old(self).payload(),
            final(self).auto_read() == old(self).auto_read(),
            final(self).spec_state() == if old(self).auto_read() {
                State::ReadHeader
            } else {
                State::Complete
            },
    {
        self.header_offset = 0;
        match self.transition_to_read {
            TransitionToRead::Yes => {
                self.state = State::ReadHeader;
            },
            TransitionToRead::No => {
                self.state = State::Complete;
            },
        }
        Progress::Finished
    }

    /// The connection accepted `n` bytes of the header.
    fn write_header(&mut self, n: usize) -> (r: Result<Progress, StreamError>)
        requires
            old(self).wf(),
            old(self).spec_state() is WriteHeader,
        ensures
            final(self).wf(),
            Self::write_step(*old(self), n as nat, *final(self), r),
    {
        if n > 8 - self.header_offset {
            return Err(StreamError::Overrun);
        }
        let ghost before = self.outgoing();
        self.header_offset = self.header_offset + n;
        if self.header_offset == 8 {
            self.data_offset = 0;
            if self.data.len() == 0 {
                let r = self.finish_write();
                assert(before.skip(n as int) =~= self.outgoing());
                Ok(r)
            } else {
                self.state = State::WriteData;
                assert(before.skip(n as int) =~= self.outgoing());
                Ok(Progress::Chain)
            }
        } else {
            assert(before.skip(n as int) =~= self.outgoing());
            Ok(Progress::Pending)
        }
    }

    /// The connection accepted `n` bytes of the payload.
    fn write_data(&mut self, n: usize) -> (r: Result<Progress, StreamError>)
        requires
            old(self).wf(),
            old(self).spec_state() is WriteData,
        ensures
            final(self).wf(),
            Self::write_step(*old(self), n as nat, *final(self), r),
    {
        if n > self.data.len() - self.data_offset {
            return Err(StreamError::Overrun);
        }
        let ghost before = self.outgoing();
        self.data_offset = self.data_offset + n;
        if self.data_offset == self.data.len() {
            let r = self.finish_write();
            assert(before.skip(n as int) =~= self.outgoing());
            Ok(r)
        } else {
            assert(before.skip(n as int) =~= self.outgoing());
            Ok(Progress::Pending)
        }
    }

    /// The connection delivered `bytes` of the header. Once all eight are
    /// there the header is checked: the tag must name a message type and the
    /// length must be below 2^48. A header that announces an empty payload
    /// completes the frame at once.
    fn read_header(&mut self, bytes: &[u8]) -> (r: Result<Progress, StreamError>)
        requires
            old(self).wf(),
            old(self).spec_state() is ReadHeader,
        ensures
            final(self).wf(),
            Self::read_step(*old(self), bytes@, *final(self), r),
    {
        let count: usize = bytes.len();
        if count > 8 - self.header_offset {
            return Err(StreamError::Overrun);
        }
        let start: usize = self.header_offset;
        let ghost acc = self.incoming() + bytes@;
        let mut h: [u8; 8] = self.header;
        let mut i: usize = 0;
        while i < count
            invariant
                i <= count,
                count == bytes@.len(),
                start + count <= 8,
                h@.subrange(0, start + i) == self.header@.subrange(0, start as int)
                    + bytes@.subrange(0, i as int),
            decreases count - i,
        {
            let ghost prev = h@;
            h[start + i] = bytes[i];
            assert(h@.subrange(0, start + i + 1) =~= prev.subrange(0, start + i).push(
                bytes@[i as int],
            ));
            assert(bytes@.subrange(0, i + 1) =~= bytes@.subrange(0, i as int).push(
                bytes@[i as int],
            ));
            assert(prev.subrange(0, start + i).push(bytes@[i as int]) =~= self.header@.subrange(
                0,
                start as int,
            ) + bytes@.subrange(0, i + 1));
            i = i + 1;
        }
        assert(bytes@.subrange(0, count as int) =~= bytes@);
        assert(h@.subrange(0, start + count) == acc);
        if start + count < 8 {
            self.header = h;
            self.header_offset = start + count;
            return Ok(Progress::Pending);
        }
        assert(h@.subrange(0, 8) =~= h@);
        assert(acc.subrange(0, 8) =~= acc);
        let decoded = match Header::decode(&h) {
            Ok(d) => d,
            Err(e) => {
                return Err(StreamError::Frame(e));
            },
        };
        self.header = h;
        self.header_offset = 8;
        self.message = decoded.msg_type;
        self.expected = decoded.size;
        self.data = Vec::new();
        self.data_offset = 0;
        if decoded.size == 0 {
            self.state = State::Complete;
            self.header_offset = 0;
            proof {
                lemma_header_unique(h@);
                assert(acc.subrange(8, 8) =~= Seq::<u8>::empty());
                assert(acc =~= frame_bytes(decoded.msg_type, Seq::<u8>::empty()));
            }
            Ok(Progress::Message(decoded.msg_type))
        } else {
            self.state = State::ReadData;
            assert(self.header@ + self.data@ =~= acc);
            Ok(Progress::Chain)
        }
    }

    /// The connection delivered `bytes` of the payload.
    fn read_data(&mut self, bytes: &[u8]) -> (r: Result<Progress, StreamError>)
        requires
            old(self).wf(),
            old(self).spec_state() is ReadData,
        ensures
            final(self).wf(),
            Self::read_step(*old(self), bytes@, *final(self), r),
    {
        if bytes.len() > self.expected - self.data_offset {
            return Err(StreamError::Overrun);
        }
        let ghost acc = self.incoming() + bytes@;
        proof {
            assert(acc.subrange(0, 8) =~= self.header@);
        }
        self.data.extend_from_slice(bytes);
        self.data_offset = self.data_offset + bytes.len();
        assert(self.header@ + self.data@ =~= acc);
        assert(self.data@ =~= acc.subrange(8, acc.len() as int));
        if self.data_offset == self.expected {
            self.state = State::Complete;
            self.header_offset = 0;
            proof {
                lemma_header_unique(self.header@);
            }
            Ok(Progress::Message(self.message))
        } else {
            Ok(Progress::Pending)
        }
    }

    /// Tells the engine what the attempt it asked for came to.
    ///
    /// While nothing is in flight every event is answered with `Idle`. A
    /// failed attempt is an error; one that would have blocked counts as zero
    /// bytes transferred. While writing, the event says how many of the
    /// offered bytes went out; while reading, it brings the bytes that came
    /// in, which may be fewer than asked for but never more.
    pub fn update(&mut self, event: IoEvent) -> (r: Result<Progress, StreamError>)
        requires
            old(self).wf(),
        ensures
            final(self).wf(),
            match old(self).spec_state() {
                State::Complete => r == Ok::<Progress, StreamError>(Progress::Idle) && *final(self)
                    == *old(self),
                State::WriteHeader | State::WriteData => match event {
                    IoEvent::Failed => r == Err::<Progress, StreamError>(StreamError::Io) && *final(self) == *old(self),
                    IoEvent::Received(_) => r == Err::<Progress, StreamError>(
                        StreamError::UnexpectedEvent,
                    ) && *final(self) == *old(self),
                    _ => Self::write_step(*old(self), event_count(event), *final(self), r),
                },
                State::ReadHeader | State::ReadData => match event {
                    IoEvent::Failed => r == Err::<Progress, StreamError>(StreamError::Io) && *final(self) == *old(self),
                    IoEvent::Written(_) => r == Err::<Progress, StreamError>(
                        StreamError::UnexpectedEvent,
                    ) && *final(self) == *old(self),
                    _ => Self::read_step(*old(self), event_bytes(event), *final(self), r),
                },
            },
    {
        match self.state {
            State::Complete => Ok(Progress::Idle),
            State::WriteHeader => match Self::write(&event) {
                Ok(n) => self.write_header(n),
                Err(e) => Err(e),
            },
            State::WriteData => match Self::write(&event) {
                Ok(n) => self.write_data(n),
                Err(e) => Err(e),
            },
            State::ReadHeader => match Self::read(event) {
                Ok(bytes) => self.read_header(bytes.as_slice()),
                Err(e) => Err(e),
            },
            State::ReadData => match Self::read(event) {
                Ok(bytes) => self.read_data(bytes.as_slice()),
                Err(e) => Err(e),
            },
        }
    }
}

// ---------------------------------------------------------------------------
// Frames come out as they went in
// ---------------------------------------------------------------------------

/// A frame as it travels: message type and payload.
pub struct Frame {
    pub kind: Messages,
    pub payload: Seq<u8>,
}

/// The bytes of some frames one after the other.
pub open spec fn stream_bytes(frames: Seq<Frame>) -> Seq<u8>
    decreases frames.len(),
{
    if frames.len() == 0 {
        Seq::empty()
    } else {
        frame_bytes(frames[0].kind, frames[0].payload) + stream_bytes(frames.skip(1))
    }
}

/// The bytes of some chunks one after the other.
pub open spec fn chunk_bytes(chunks: Seq<Seq<u8>>) -> Seq<u8>
    decreases chunks.len(),
{
    if chunks.len() == 0 {
        Seq::empty()
    } else {
        chunks[0] + chunk_bytes(chunks.skip(1))
    }
}

/// Whether the bytes taken in are a whole frame: eight header bytes that
/// pass the check, and as many payload bytes as they announce.
pub open spec fn frame_complete(acc: Seq<u8>) -> bool {
    &&& acc.len() >= 8
    &&& spec_decode_header(acc.subrange(0, 8)) matches Ok(h) && acc.len() == 8 + h.size
}

/// The frame that complete bytes are.
pub open spec fn frame_of(acc: Seq<u8>) -> Frame {
    Frame {
        kind: spec_decode_header(acc.subrange(0, 8)).unwrap().msg_type,
        payload: acc.subrange(8, acc.len() as int),
    }
}

/// How many bytes a reader asks for at most when it has taken in `partial`
/// of a frame.
pub open spec fn wanted_after(partial: Seq<u8>) -> int {
    if partial.len() < 8 {
        8 - partial.len()
    } else {
        8 + header_length(partial.subrange(0, 8)) - partial.len()
    }
}

/// Whether every chunk is one that a read could have delivered: no longer
/// than what the reader asked for at that point.
pub open spec fn deliverable(partial: Seq<u8>, chunks: Seq<Seq<u8>>) -> bool
    decreases chunks.len(),
{
    if chunks.len() == 0 {
        true
    } else {
        let acc = partial + chunks[0];
        &&& chunks[0].len() <= wanted_after(partial)
        &&& deliverable(
            if frame_complete(acc) {
                Seq::empty()
            } else {
                acc
            },
            chunks.skip(1),
        )
    }
}

/// The frames that a reader reports when the connection delivers `chunks`
/// one after the other and the reader is armed again after each frame;
/// `partial` is what it has taken in of the frame in progress.
pub open spec fn frames_read(partial: Seq<u8>, chunks: Seq<Seq<u8>>) -> Seq<Frame>
    decreases chunks.len(),
{
    if chunks.len() == 0 {
        Seq::empty()
    } else {
        let acc = partial + chunks[0];
        if frame_complete(acc) {
            seq![frame_of(acc)] + frames_read(Seq::empty(), chunks.skip(1))
        } else {
            frames_read(acc, chunks.skip(1))
        }
    }
}

/// Frames that an engine can send and receive: payloads below 2^48 bytes
/// and within what this machine can address.
pub open spec fn sendable(frames: Seq<Frame>) -> bool {
    forall|i: int| 0 <= i < frames.len() ==> length_ok(#[trigger] frames[i].payload.len())
}

/// A whole frame is complete, and is the frame it was made from.
proof fn lemma_whole_frame(f: Frame)
    requires
        length_ok(f.payload.len()),
    ensures
        frame_complete(frame_bytes(f.kind, f.payload)),
        frame_of(frame_bytes(f.kind, f.payload)) == f,
        frame_bytes(f.kind, f.payload).len() == 8 + f.payload.len(),
{
    let acc = frame_bytes(f.kind, f.payload);
    let h = header_bytes(tag_of(f.kind), f.payload.len());
    lemma_header_bytes(tag_of(f.kind), f.payload.len());
    lemma_tag_round_trip(f.kind);
    assert(acc.subrange(0, 8) =~= h);
    assert(acc.subrange(8, acc.len() as int) =~= f.payload);
}

/// What opens a frame without being all of it is not complete, and the
/// reader asks for no more than the frame still lacks.
proof fn lemma_part_of_frame(f: Frame, part: Seq<u8>)
    requires
        length_ok(f.payload.len()),
        part.is_prefix_of(frame_bytes(f.kind, f.payload)),
        part.len() < frame_bytes(f.kind, f.payload).len(),
    ensures
        !frame_complete(part),
        part.len() + wanted_after(part) <= frame_bytes(f.kind, f.payload).len(),
{
    let whole = frame_bytes(f.kind, f.payload);
    lemma_whole_frame(f);
    lemma_header_bytes(tag_of(f.kind), f.payload.len());
    if part.len() >= 8 {
        assert(part.subrange(0, 8) =~= whole.subrange(0, 8));
        assert(whole.subrange(0, 8) =~= header_bytes(tag_of(f.kind), f.payload.len()));
    }
}

/// Framing survives chunking: when the connection delivers the bytes of
/// some frames, cut into chunks in any way that reads can deliver, the reader
/// reports exactly those frames, in order.
///
/// `partial` opens the first frame and is what the reader holds when the
/// chunks begin; for a reader freshly armed it is empty.
pub proof fn lemma_frames_survive_chunking(
    partial: Seq<u8>,
    chunks: Seq<Seq<u8>>,
    frames: Seq<Frame>,
)
    requires
        sendable(frames),
        deliverable(partial, chunks),
        partial + chunk_bytes(chunks) == stream_bytes(frames),
        frames.len() > 0 ==> partial.len() < frame_bytes(frames[0].kind, frames[0].payload).len(),
    ensures
        frames_read(partial, chunks) == frames,
    decreases chunks.len(),
{
    if chunks.len() == 0 {
        assert(partial + Seq::<u8>::empty() =~= partial);
        if frames.len() > 0 {
            assert(stream_bytes(frames).len() >= frame_bytes(
                frames[0].kind,
                frames[0].payload,
            ).len());
        }
        assert(frames =~= Seq::<Frame>::empty());
    } else {
        let c = chunks[0];
        let rest = chunks.skip(1);
        let acc = partial + c;
        assert(partial + chunk_bytes(chunks) =~= acc + chunk_bytes(rest));
        if frames.len() == 0 {
            assert(acc.len() == 0);
            assert(!frame_complete(acc));
            assert(acc =~= Seq::<u8>::empty());
            lemma_frames_survive_chunking(acc, rest, frames);
        } else {
            let f = frames[0];
            let whole = frame_bytes(f.kind, f.payload);
            let later = frames.skip(1);
            let all = stream_bytes(frames);
            assert(sendable(later)) by {
                assert forall|i: int| 0 <= i < later.len() implies length_ok(
                    #[trigger] later[i].payload.len(),
                ) by {
                    assert(later[i] == frames[i + 1]);
                }
            }
            lemma_whole_frame(f);
            assert(partial.is_prefix_of(whole)) by {
                assert(partial =~= all.subrange(0, partial.len() as int));
                assert(whole =~= all.subrange(0, whole.len() as int));
                assert(partial =~= whole.subrange(0, partial.len() as int));
            }
            lemma_part_of_frame(f, partial);
            assert(acc.len() <= whole.len());
            assert(acc.is_prefix_of(whole)) by {
                assert(acc =~= all.subrange(0, acc.len() as int));
                assert(whole =~= all.subrange(0, whole.len() as int));
                assert(acc =~= whole.subrange(0, acc.len() as int));
            }
            if acc.len() == whole.len() {
                assert(acc =~= whole);
                assert(chunk_bytes(rest) =~= stream_bytes(later)) by {
                    assert(chunk_bytes(rest) =~= all.subrange(
                        whole.len() as int,
                        all.len() as int,
                    ));
                    assert(stream_bytes(later) =~= all.subrange(
                        whole.len() as int,
                        all.len() as int,
                    ));
                }
                assert(Seq::<u8>::empty() + chunk_bytes(rest) =~= chunk_bytes(rest));
                if later.len() > 0 {
                    lemma_whole_frame(later[0]);
                }
                lemma_frames_survive_chunking(Seq::empty(), rest, later);
                assert(seq![f] + later =~= frames);
            } else {
                lemma_part_of_frame(f, acc);
                lemma_frames_survive_chunking(acc, rest, frames);
            }
        }
    }
}

/// What one read step of the engine does is what the reader above does with
/// one chunk: the frame is reported exactly when the bytes taken in are
/// complete, and until then they pile up.
pub proof fn lemma_read_step_reports(
    pre: MessageStream,
    bytes: Seq<u8>,
    post: MessageStream,
    r: Result<Progress, StreamError>,
)
    requires
        pre.wf(),
        pre.spec_state() is ReadHeader || pre.spec_state() is ReadData,
        bytes.len() <= pre.wanted(),
        MessageStream::read_step(pre, bytes, post, r),
        r is Ok,
    ensures
        pre.wanted() == wanted_after(pre.incoming()),
        frame_complete(pre.incoming() + bytes) ==> r == Ok::<Progress, StreamError>(
            Progress::Message(frame_of(pre.incoming() + bytes).kind),
        ) && post.payload() == frame_of(pre.incoming() + bytes).payload,
        !frame_complete(pre.incoming() + bytes) ==> !(r matches Ok(Progress::Message(_)))
            && post.incoming() == pre.incoming() + bytes,
{
    pre.lemma_measures();
    let acc = pre.incoming() + bytes;
    if pre.spec_state() is ReadData {
        assert(acc.subrange(0, 8) =~= pre.incoming().subrange(0, 8));
    }
}

} // verus!
