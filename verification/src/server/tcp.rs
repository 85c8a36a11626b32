//! DNS over TCP: each message travels behind a two-byte big-endian length.
//! The reading and writing sides of a connection are state machines; the
//! caller performs the reads and writes they ask for and hands back what
//! happened.
use vstd::prelude::*;

verus! {

/// The two-byte big-endian length prefix of a message of `n` bytes, cut to
/// sixteen bits.
pub open spec fn len_prefix(n: nat) -> Seq<u8> {
    seq![((n / 256) % 256) as u8, (n % 256) as u8]
}

/// The length a two-byte prefix gives.
pub open spec fn prefix_value(hi: u8, lo: u8) -> nat {
    (hi as nat) * 256 + (lo as nat)
}

/// A message framed for TCP: its length prefix, then its bytes.
pub open spec fn frame(body: Seq<u8>) -> Seq<u8> {
    len_prefix(body.len()) + body
}

/// Where the reading side of a connection stands.
pub enum ReadTcpState {
    /// Reading the length: `pos` of its two bytes are in.
    LenBytes { pos: usize, bytes: [u8; 2] },
    /// Reading the message: `pos` of its bytes are in.
    Bytes { pos: usize, bytes: Vec<u8> },
}

/// The abstract value of a reading state.
pub enum ReadV {
    LenBytes { pos: nat, bytes: Seq<u8> },
    Bytes { pos: nat, bytes: Seq<u8> },
}

impl View for ReadTcpState {
    type V = ReadV;

    open spec fn view(&self) -> ReadV {
        match self {
            ReadTcpState::LenBytes { pos, bytes } => ReadV::LenBytes { pos: *pos as nat, bytes: bytes@ },
            ReadTcpState::Bytes { pos, bytes } => ReadV::Bytes { pos: *pos as nat, bytes: bytes@ },
        }
    }
}

/// A reading state is consistent: its position lies within its buffer,
/// which for the length has two bytes.
pub open spec fn read_wf(s: ReadV) -> bool {
    match s {
        ReadV::LenBytes { pos, bytes } => bytes.len() == 2 && pos < 2,
        ReadV::Bytes { pos, bytes } => pos <= bytes.len(),
    }
}

/// How many bytes the reading state still waits for.
pub open spec fn read_room(s: ReadV) -> nat {
    match s {
        ReadV::LenBytes { pos, bytes } => (2 - pos) as nat,
        ReadV::Bytes { pos, bytes } => (bytes.len() - pos) as nat,
    }
}

/// What a read brought.
pub enum ReadOutcome {
    /// More bytes are needed.
    Pending,
    /// The peer closed the connection between messages.
    Closed,
    /// The peer closed the connection while the length was being read.
    ClosedInLength,
    /// The peer closed the connection while the message was being read.
    ClosedInMessage,
    /// A whole message came in.
    Message(Vec<u8>),
}

/// The abstract value of a read outcome.
pub enum ReadOutcomeV {
    Pending,
    Closed,
    ClosedInLength,
    ClosedInMessage,
    Message(Seq<u8>),
}

impl View for ReadOutcome {
    type V = ReadOutcomeV;

    open spec fn view(&self) -> ReadOutcomeV {
        match self {
            ReadOutcome::Pending => ReadOutcomeV::Pending,
            ReadOutcome::Closed => ReadOutcomeV::Closed,
            ReadOutcome::ClosedInLength => ReadOutcomeV::ClosedInLength,
            ReadOutcome::ClosedInMessage => ReadOutcomeV::ClosedInMessage,
            ReadOutcome::Message(b) => ReadOutcomeV::Message(b@),
        }
    }
}

/// `bytes` with `data` written over it from `pos` on.
pub open spec fn written_at(bytes: Seq<u8>, pos: nat, data: Seq<u8>) -> Seq<u8> {
    bytes.subrange(0, pos as int) + data + bytes.subrange((pos + data.len()) as int, bytes.len() as int)
}

/// What reading `data` does in state `s`: an empty read is the peer
/// closing, which between messages is a clean end; otherwise the bytes fill
/// the buffer, a full length buffer starts a message buffer of that length,
/// and a full message buffer is a message. The next state is `None` once a
/// message is complete.
pub open spec fn read_step(s: ReadV, data: Seq<u8>) -> (Option<ReadV>, ReadOutcomeV) {
    match s {
        ReadV::LenBytes { pos, bytes } => if data.len() == 0 {
            (Some(s), if pos == 0 { ReadOutcomeV::Closed } else { ReadOutcomeV::ClosedInLength })
        } else {
            let b = written_at(bytes, pos, data);
            let p = pos + data.len();
            if p == 2 {
                (Some(ReadV::Bytes { pos: 0, bytes: Seq::new(prefix_value(b[0], b[1]), |i: int| 0u8) }), ReadOutcomeV::Pending)
            } else {
                (Some(ReadV::LenBytes { pos: p, bytes: b }), ReadOutcomeV::Pending)
            }
        },
        ReadV::Bytes { pos, bytes } => if data.len() == 0 {
            (Some(s), ReadOutcomeV::ClosedInMessage)
        } else {
            let b = written_at(bytes, pos, data);
            let p = pos + data.len();
            if p == bytes.len() {
                (None, ReadOutcomeV::Message(b))
            } else {
                (Some(ReadV::Bytes { pos: p, bytes: b }), ReadOutcomeV::Pending)
            }
        },
    }
}

/// The state of reading a new message.
pub open spec fn read_start() -> ReadV {
    ReadV::LenBytes { pos: 0, bytes: seq![0u8, 0u8] }
}

impl ReadTcpState {
    /// The state of reading a new message.
    pub fn new() -> (r: ReadTcpState)
        ensures
            r@ == read_start(),
    {
        let r = ReadTcpState::LenBytes { pos: 0, bytes: [0u8; 2] };
        proof {
            assert(r@->LenBytes_bytes =~= seq![0u8, 0u8]);
        }
        r
    }

    /// How many bytes the state still waits for.
    pub fn room(&self) -> (r: usize)
        requires
            read_wf(self@),
        ensures
            r == read_room(self@),
    {
        match self {
            ReadTcpState::LenBytes { pos, .. } => 2 - *pos,
            ReadTcpState::Bytes { pos, bytes } => bytes.len() - *pos,
        }
    }
}

/// Copies `data` into `buf` from `pos` on.
fn copy_into(buf: &mut Vec<u8>, pos: usize, data: &[u8])
    requires
        pos + data@.len() <= old(buf)@.len(),
    ensures
        final(buf)@ == written_at(old(buf)@, pos as nat, data@),
{
    let total = buf.len();
    let mut i: usize = 0;
    while i < data.len()
        invariant
            i <= data@.len(),
            total == buf@.len(),
            pos + data@.len() <= buf@.len(),
            buf@.len() == old(buf)@.len(),
            buf@ == written_at(old(buf)@, pos as nat, data@.subrange(0, i as int)),
        decreases data@.len() - i,
    {
        buf.set(pos + i, data[i]);
        proof {
            assert(buf@ =~= written_at(old(buf)@, pos as nat, data@.subrange(0, i + 1)));
        }
        i = i + 1;
    }
    proof {
        assert(data@.subrange(0, data@.len() as int) =~= data@);
    }
}

/// A message buffer of `n` zero bytes.
fn zeros(n: usize) -> (r: Vec<u8>)
    ensures
        r@ == Seq::new(n as nat, |i: int| 0u8),
{
    let mut r: Vec<u8> = Vec::new();
    let mut i: usize = 0;
    while i < n
        invariant
            i <= n,
            r@ == Seq::new(i as nat, |j: int| 0u8),
        decreases n - i,
    {
        r.push(0u8);
        proof {
            assert(r@ =~= Seq::new((i + 1) as nat, |j: int| 0u8));
        }
        i = i + 1;
    }
    r
}

/// Reads `data`, the bytes one read brought, in state `state`, as
/// `read_step` says; `data` is no longer than what the state waits for.
pub fn read_step_exec(state: ReadTcpState, data: &[u8]) -> (r: (Option<ReadTcpState>, ReadOutcome))
    requires
        read_wf(state@),
        data@.len() <= read_room(state@),
    ensures
        (match r.0 { Some(s) => Some(s@), None => None }, r.1@) == read_step(state@, data@),
        r.0 matches Some(s) ==> read_wf(s@),
{
    match state {
        ReadTcpState::LenBytes { pos, bytes } => {
            if data.len() == 0 {
                let out = if pos == 0 { ReadOutcome::Closed } else { ReadOutcome::ClosedInLength };
                return (Some(ReadTcpState::LenBytes { pos, bytes }), out);
            }
            let mut buf: Vec<u8> = Vec::new();
            buf.push(bytes[0]);
            buf.push(bytes[1]);
            proof {
                assert(buf@ =~= bytes@);
            }
            copy_into(&mut buf, pos, data);
            let p = pos + data.len();
            if p == 2 {
                let n: usize = (buf[0] as usize) * 256 + (buf[1] as usize);
                (Some(ReadTcpState::Bytes { pos: 0, bytes: zeros(n) }), ReadOutcome::Pending)
            } else {
                let nb: [u8; 2] = [buf[0], buf[1]];
                proof {
                    assert(nb@ =~= buf@);
                }
                (Some(ReadTcpState::LenBytes { pos: p, bytes: nb }), ReadOutcome::Pending)
            }
        },
        ReadTcpState::Bytes { pos, bytes } => {
            if data.len() == 0 {
                return (Some(ReadTcpState::Bytes { pos, bytes }), ReadOutcome::ClosedInMessage);
            }
            let mut buf = bytes;
            let total = buf.len();
            copy_into(&mut buf, pos, data);
            let p = pos + data.len();
            if p == buf.len() {
                (None, ReadOutcome::Message(buf))
            } else {
                (Some(ReadTcpState::Bytes { pos: p, bytes: buf }), ReadOutcome::Pending)
            }
        },
    }
}

/// Where the writing side of a connection stands.
pub enum WriteTcpState {
    /// Writing the length prefix: `pos` of its two bytes are out.
    LenBytes { pos: usize, length: [u8; 2], bytes: Vec<u8> },
    /// Writing the message: `pos` of its bytes are out.
    Bytes { pos: usize, bytes: Vec<u8> },
    /// Flushing what was written.
    Flushing,
}

/// The abstract value of a writing state.
pub enum WriteV {
    LenBytes { pos: nat, length: Seq<u8>, bytes: Seq<u8> },
    Bytes { pos: nat, bytes: Seq<u8> },
    Flushing,
}

impl View for WriteTcpState {
    type V = WriteV;

    open spec fn view(&self) -> WriteV {
        match self {
            WriteTcpState::LenBytes { pos, length, bytes } => WriteV::LenBytes {
                pos: *pos as nat,
                length: length@,
                bytes: bytes@,
            },
            WriteTcpState::Bytes { pos, bytes } => WriteV::Bytes { pos: *pos as nat, bytes: bytes@ },
            WriteTcpState::Flushing => WriteV::Flushing,
        }
    }
}

/// A writing state is consistent: its position lies within what it writes.
pub open spec fn write_wf(s: WriteV) -> bool {
    match s {
        WriteV::LenBytes { pos, length, bytes } => length.len() == 2 && pos < 2,
        WriteV::Bytes { pos, bytes } => pos <= bytes.len(),
        WriteV::Flushing => true,
    }
}

/// The bytes the writing state still has to write.
pub open spec fn write_pending(s: WriteV) -> Seq<u8> {
    match s {
        WriteV::LenBytes { pos, length, bytes } => length.subrange(pos as int, 2),
        WriteV::Bytes { pos, bytes } => bytes.subrange(pos as int, bytes.len() as int),
        WriteV::Flushing => Seq::empty(),
    }
}

/// The state after `n` more bytes were written: a finished length goes on
/// to the message, a finished message to flushing.
pub open spec fn write_step(s: WriteV, n: nat) -> WriteV {
    match s {
        WriteV::LenBytes { pos, length, bytes } => if pos + n < 2 {
            WriteV::LenBytes { pos: pos + n, length, bytes }
        } else {
            WriteV::Bytes { pos: 0, bytes }
        },
        WriteV::Bytes { pos, bytes } => if pos + n < bytes.len() {
            WriteV::Bytes { pos: pos + n, bytes }
        } else {
            WriteV::Flushing
        },
        WriteV::Flushing => WriteV::Flushing,
    }
}

/// The state of writing `body` with its length prefix.
pub open spec fn write_start(body: Seq<u8>) -> WriteV {
    WriteV::LenBytes { pos: 0, length: len_prefix(body.len()), bytes: body }
}

impl WriteTcpState {
    /// The state of writing message `bytes` with its length prefix.
    pub fn new(bytes: Vec<u8>) -> (r: WriteTcpState)
        ensures
            r@ == write_start(bytes@),
    {
        let n = bytes.len();
        let length: [u8; 2] = [((n / 256) % 256) as u8, (n % 256) as u8];
        proof {
            assert(length@ =~= len_prefix(bytes@.len()));
        }
        WriteTcpState::LenBytes { pos: 0, length, bytes }
    }

    /// The bytes still to write, in order.
    pub fn pending(&self) -> (r: &[u8])
        requires
            write_wf(self@),
        ensures
            r@ == write_pending(self@),
    {
        match self {
            WriteTcpState::LenBytes { pos, length, .. } => {
                let s = length.as_slice();
                vstd::slice::slice_subrange(s, *pos, 2)
            },
            WriteTcpState::Bytes { pos, bytes } => vstd::slice::slice_subrange(bytes.as_slice(), *pos, bytes.len()),
            WriteTcpState::Flushing => {
                let e: &[u8] = &[];
                proof {
                    assert(e@ =~= Seq::<u8>::empty());
                }
                e
            },
        }
    }

    /// Records that `n` of the pending bytes were written, as `write_step`
    /// says.
    pub fn wrote(self, n: usize) -> (r: WriteTcpState)
        requires
            write_wf(self@),
            n <= write_pending(self@).len(),
        ensures
            r@ == write_step(self@, n as nat),
            write_wf(r@),
    {
        match self {
            WriteTcpState::LenBytes { pos, length, bytes } => if n < 2 - pos {
                WriteTcpState::LenBytes { pos: pos + n, length, bytes }
            } else {
                WriteTcpState::Bytes { pos: 0, bytes }
            },
            WriteTcpState::Bytes { pos, bytes } => if n < bytes.len() - pos {
                WriteTcpState::Bytes { pos: pos + n, bytes }
            } else {
                WriteTcpState::Flushing
            },
            WriteTcpState::Flushing => WriteTcpState::Flushing,
        }
    }
}

/// What the reading side has taken in: `consumed` is every byte read since
/// the start of the current message, and the state holds exactly them.
pub open spec fn reader_inv(s: ReadV, consumed: Seq<u8>) -> bool {
    match s {
        ReadV::LenBytes { pos, bytes } => {
            &&& bytes.len() == 2
            &&& pos < 2
            &&& consumed.len() == pos
            &&& bytes.subrange(0, pos as int) == consumed
        },
        ReadV::Bytes { pos, bytes } => {
            &&& consumed.len() == 2 + pos
            &&& bytes.len() == prefix_value(consumed[0], consumed[1])
            &&& pos <= bytes.len()
            &&& bytes.subrange(0, pos as int) == consumed.subrange(2, 2 + pos as int)
        },
    }
}

/// A read that brings bytes keeps the reading side in step with the bytes
/// taken in, and a message it completes is exactly the bytes after the
/// length prefix, as many as the prefix says: what is read back is what was
/// framed.
pub proof fn lemma_read_frames(s: ReadV, consumed: Seq<u8>, data: Seq<u8>)
    requires
        reader_inv(s, consumed),
        0 < data.len() <= read_room(s),
    ensures
        ({
            let (s2, out) = read_step(s, data);
            let c2 = consumed + data;
            match out {
                ReadOutcomeV::Message(b) => c2.len() >= 2 && b.len() == prefix_value(c2[0], c2[1]) && b == c2.subrange(
                    2,
                    c2.len() as int,
                ),
                ReadOutcomeV::Pending => s2 is Some && reader_inv(s2->0, c2),
                _ => false,
            }
        }),
{
    let c2 = consumed + data;
    match s {
        ReadV::LenBytes { pos, bytes } => {
            let b = written_at(bytes, pos, data);
            assert(b.subrange(0, (pos + data.len()) as int) =~= c2);
            if pos + data.len() == 2 {
                assert(b[0] == c2[0] && b[1] == c2[1]);
                let nb = Seq::new(prefix_value(b[0], b[1]), |i: int| 0u8);
                assert(nb.subrange(0, 0) =~= c2.subrange(2, 2));
            }
        },
        ReadV::Bytes { pos, bytes } => {
            let b = written_at(bytes, pos, data);
            assert(c2[0] == consumed[0] && c2[1] == consumed[1]);
            assert(b.subrange(0, (pos + data.len()) as int) =~= c2.subrange(2, (2 + pos + data.len()) as int));
            if pos + data.len() == bytes.len() {
                assert(b =~= b.subrange(0, (pos + data.len()) as int));
            }
        },
    }
}

/// What the writing side has put out: `written` is every byte written for
/// message `body`.
pub open spec fn writer_inv(s: WriteV, written: Seq<u8>, body: Seq<u8>) -> bool {
    match s {
        WriteV::LenBytes { pos, length, bytes } => {
            &&& length == len_prefix(body.len())
            &&& bytes == body
            &&& pos < 2
            &&& written == length.subrange(0, pos as int)
        },
        WriteV::Bytes { pos, bytes } => {
            &&& bytes == body
            &&& pos <= bytes.len()
            &&& written == len_prefix(body.len()) + bytes.subrange(0, pos as int)
        },
        WriteV::Flushing => written == frame(body),
    }
}

/// Writing the pending bytes in any pieces puts out the length prefix and
/// then the message, and flushing starts once all of it is out: what is
/// written is the framed message.
pub proof fn lemma_write_frames(s: WriteV, written: Seq<u8>, body: Seq<u8>, n: nat)
    requires
        writer_inv(s, written, body),
        n <= write_pending(s).len(),
    ensures
        writer_inv(write_step(s, n), written + write_pending(s).subrange(0, n as int), body),
{
    let w2 = written + write_pending(s).subrange(0, n as int);
    match s {
        WriteV::LenBytes { pos, length, bytes } => {
            if pos + n < 2 {
                assert(w2 =~= length.subrange(0, (pos + n) as int));
            } else {
                assert(w2 =~= len_prefix(body.len()) + body.subrange(0, 0));
            }
        },
        WriteV::Bytes { pos, bytes } => {
            if pos + n < bytes.len() {
                assert(w2 =~= len_prefix(body.len()) + bytes.subrange(0, (pos + n) as int));
            } else {
                assert(w2 =~= frame(body));
            }
        },
        WriteV::Flushing => {
            assert(w2 =~= written);
        },
    }
}

/// The length prefix of a message shorter than 65536 bytes gives back its
/// length.
pub proof fn lemma_prefix_round_trip(n: nat)
    requires
        n < 65536,
    ensures
        prefix_value(len_prefix(n)[0], len_prefix(n)[1]) == n,
{
    assert(n / 256 < 256) by (nonlinear_arith)
        requires
            n < 65536,
    ;
    assert((n / 256) * 256 + n % 256 == n) by (nonlinear_arith);
}

/// A response of fewer than 65536 bytes that the handler gives back is sent
/// first with its two-byte big-endian length, high byte first, which reads
/// back as its length, and then its bytes, nothing of it written yet.
pub proof fn lemma_response_prefix(body: Seq<u8>)
    requires
        body.len() < 65536,
    ensures
        write_start(body) matches WriteV::LenBytes { pos, length, bytes } && pos == 0 && bytes == body && length.len() == 2
            && length[0] == body.len() / 256 && length[1] == body.len() % 256 && prefix_value(length[0], length[1]) == body.len(),
        writer_inv(write_start(body), Seq::empty(), body),
{
    lemma_prefix_round_trip(body.len());
    lemma_starts(body);
    assert(body.len() / 256 < 256) by (nonlinear_arith)
        requires
            body.len() < 65536,
    ;
}

/// A fresh reading side has taken in nothing; a fresh writing side has put
/// out nothing.
pub proof fn lemma_starts(body: Seq<u8>)
    ensures
        reader_inv(read_start(), Seq::empty()),
        writer_inv(write_start(body), Seq::empty(), body),
{
    assert(read_start()->LenBytes_bytes.subrange(0, 0) =~= Seq::<u8>::empty());
    assert(len_prefix(body.len()).subrange(0, 0) =~= Seq::<u8>::empty());
}

/// What a connection asks its driver to do next.
pub enum TcpAction {
    /// Read at most this many bytes and hand them to `on_read`.
    Read(usize),
    /// Wait for the handler's answer to the query and hand it to
    /// `on_handled`.
    AwaitHandler,
    /// Write these bytes, or a first part of them, and hand the number
    /// written to `on_written`.
    Write(Vec<u8>),
    /// Flush the socket and call `on_flushed`.
    Flush,
}

/// The abstract state of a connection.
pub struct ConnV {
    pub read: Option<ReadV>,
    pub waiting: bool,
    pub send: Option<WriteV>,
}

/// The state of a connection: reading a query, waiting for its answer, or
/// writing the answer; one of them at a time once a query is in.
pub struct TcpStreamWrapper {
    read_state: Option<ReadTcpState>,
    waiting: bool,
    send_state: Option<WriteTcpState>,
}

impl View for TcpStreamWrapper {
    type V = ConnV;

    closed spec fn view(&self) -> ConnV {
        ConnV {
            read: match self.read_state { Some(r) => Some(r@), None => None },
            waiting: self.waiting,
            send: match self.send_state { Some(w) => Some(w@), None => None },
        }
    }
}

/// The states are consistent.
pub open spec fn conn_wf(c: ConnV) -> bool {
    &&& c.read matches Some(r) ==> read_wf(r)
    &&& c.send matches Some(w) ==> write_wf(w)
}

/// What the connection asks for in state `c`: reading while a query is
/// coming in, then waiting for its answer, then writing it out.
pub open spec fn next_action(c: ConnV) -> Option<TcpActionV> {
    if c.read is Some {
        Some(TcpActionV::Read(read_room(c.read->0)))
    } else if c.waiting {
        Some(TcpActionV::AwaitHandler)
    } else if c.send is Some {
        match c.send->0 {
            WriteV::Flushing => Some(TcpActionV::Flush),
            w => Some(TcpActionV::Write(write_pending(w))),
        }
    } else {
        None
    }
}

/// The abstract value of an action.
pub enum TcpActionV {
    Read(nat),
    AwaitHandler,
    Write(Seq<u8>),
    Flush,
}

impl View for TcpAction {
    type V = TcpActionV;

    open spec fn view(&self) -> TcpActionV {
        match self {
            TcpAction::Read(n) => TcpActionV::Read(*n as nat),
            TcpAction::AwaitHandler => TcpActionV::AwaitHandler,
            TcpAction::Write(b) => TcpActionV::Write(b@),
            TcpAction::Flush => TcpActionV::Flush,
        }
    }
}

/// Copies a slice into a vector.
fn slice_to_vec(s: &[u8]) -> (r: Vec<u8>)
    ensures
        r@ == s@,
{
    let mut r: Vec<u8> = Vec::new();
    let mut i: usize = 0;
    while i < s.len()
        invariant
            i <= s@.len(),
            r@ == s@.subrange(0, i as int),
        decreases s@.len() - i,
    {
        r.push(s[i]);
        proof {
            assert(r@ =~= s@.subrange(0, i + 1));
        }
        i = i + 1;
    }
    proof {
        assert(s@.subrange(0, s@.len() as int) =~= s@);
    }
    r
}

impl TcpStreamWrapper {
    /// A new connection, about to read a query.
    pub fn from_stream() -> (r: TcpStreamWrapper)
        ensures
            r@ == (ConnV { read: Some(read_start()), waiting: false, send: None }),
            conn_wf(r@),
    {
        TcpStreamWrapper { read_state: Some(ReadTcpState::new()), waiting: false, send_state: None }
    }

    /// The consistency of the states.
    pub closed spec fn wf(&self) -> bool {
        conn_wf(self@)
    }

    /// What the connection asks for next, as `next_action` says; `None`
    /// where it asks for nothing.
    pub fn poll_action(&self) -> (r: Option<TcpAction>)
        requires
            conn_wf(self@),
        ensures
            match r { Some(a) => Some(a@), None => None } == next_action(self@),
    {
        match &self.read_state {
            Some(rs) => {
                return Some(TcpAction::Read(rs.room()));
            },
            None => {},
        }
        if self.waiting {
            return Some(TcpAction::AwaitHandler);
        }
        match &self.send_state {
            Some(WriteTcpState::Flushing) => Some(TcpAction::Flush),
            Some(w) => Some(TcpAction::Write(slice_to_vec(w.pending()))),
            None => None,
        }
    }

    /// Takes in the bytes of one read, as `read_step` says. A complete
    /// message ends the reading; the driver decodes it and calls
    /// `start_handling`, or ends the connection where it cannot be decoded.
    pub fn on_read(&mut self, data: &[u8]) -> (r: ReadOutcome)
        requires
            conn_wf(old(self)@),
            old(self)@.read is Some,
            data@.len() <= read_room(old(self)@.read->0),
        ensures
            conn_wf(final(self)@),
            ({
                let (s2, out) = read_step(old(self)@.read->0, data@);
                &&& r@ == out
                &&& final(self)@ == (ConnV { read: s2, ..old(self)@ })
            }),
    {
        let mut st: Option<ReadTcpState> = None;
        std::mem::swap(&mut st, &mut self.read_state);
        match st {
            Some(rs) => {
                let (next, out) = read_step_exec(rs, data);
                self.read_state = next;
                out
            },
            None => {
                proof {
                    assert(false);
                }
                ReadOutcome::Pending
            },
        }
    }

    /// A decoded query was handed to the handler: wait for its answer.
    pub fn start_handling(&mut self)
        ensures
            final(self)@ == (ConnV { waiting: true, ..old(self)@ }),
    {
        self.waiting = true;
    }

    /// The handler answered: with the bytes of the response, which are then
    /// written with their length prefix (for fewer than 65536 bytes, the
    /// big-endian length that reading decodes, as `lemma_response_prefix`
    /// proves); or with a failure, after which the next query is read.
    pub fn on_handled(&mut self, response: Option<Vec<u8>>)
        requires
            conn_wf(old(self)@),
        ensures
            conn_wf(final(self)@),
            match response {
                Some(b) => final(self)@ == (ConnV { waiting: false, send: Some(write_start(b@)), ..old(self)@ }),
                None => final(self)@ == (ConnV { waiting: false, read: Some(read_start()), ..old(self)@ }),
            },
    {
        self.waiting = false;
        match response {
            Some(b) => {
                self.send_state = Some(WriteTcpState::new(b));
            },
            None => {
                self.read_state = Some(ReadTcpState::new());
            },
        }
    }

    /// `n` of the pending bytes were written, as `write_step` says.
    pub fn on_written(&mut self, n: usize)
        requires
            conn_wf(old(self)@),
            old(self)@.send is Some,
            n <= write_pending(old(self)@.send->0).len(),
        ensures
            conn_wf(final(self)@),
            final(self)@ == (ConnV { send: Some(write_step(old(self)@.send->0, n as nat)), ..old(self)@ }),
    {
        let mut st: Option<WriteTcpState> = None;
        std::mem::swap(&mut st, &mut self.send_state);
        match st {
            Some(w) => {
                self.send_state = Some(w.wrote(n));
            },
            None => {
                proof {
                    assert(false);
                }
            },
        }
    }

    /// The written response was flushed: read the next query.
    pub fn on_flushed(&mut self)
        requires
            conn_wf(old(self)@),
        ensures
            conn_wf(final(self)@),
            final(self)@ == (ConnV { send: None, read: Some(read_start()), ..old(self)@ }),
    {
        self.send_state = None;
        self.read_state = Some(ReadTcpState::new());
    }
}

} // verus!
