//! The client side of the transport: an order-preserving queue of encoded
//! frames, fed by producers, and the decisions of the single worker that owns
//! the connection (connect, back off, write, reconnect after a failed write).
//!
//! The worker itself performs the I/O: it asks `poll` what to do next, does
//! it, and reports the outcome through `connect_result` or `write_result`.
use std::collections::VecDeque;
use vstd::prelude::*;
use vstd::string::StringSliceAdditionalSpecFns;

use crate::protocol::{copy_range, encode_frame, frame_bytes, MessageType, MAX_PAYLOAD_LEN};

verus! {

/// Numeric host identifier of the peer that the worker connects to.
pub const HOST_CID: u32 = 3;

/// Service port of the peer.
pub const SERVICE_PORT: u32 = 1234;

/// Longest pause, in seconds, between two connection attempts.
pub const MAX_BACKOFF_SECS: u64 = 60;

/// Size of the blocks in which a file's contents are framed.
pub const BLOCK_SIZE: usize = 8192;

/// Seconds to wait after the `retry_count`-th failed connection attempt in a row.
pub open spec fn backoff_secs(retry_count: nat) -> nat {
    if retry_count < MAX_BACKOFF_SECS {
        retry_count
    } else {
        MAX_BACKOFF_SECS as nat
    }
}

/// Seconds to wait after the `retry_count`-th failed connection attempt in a row.
pub fn backoff_delay(retry_count: u64) -> (r: u64)
    ensures
        r == backoff_secs(retry_count as nat),
{
    if retry_count < MAX_BACKOFF_SECS {
        retry_count
    } else {
        MAX_BACKOFF_SECS
    }
}

/// The delay grows by one second per failed attempt up to its cap and never
/// shrinks as the attempts go on.
pub proof fn lemma_backoff_monotonic(n1: nat, n2: nat)
    requires
        n1 <= n2,
    ensures
        backoff_secs(n1) <= backoff_secs(n2),
        backoff_secs(n1) == if n1 < 60 { n1 } else { 60 },
        backoff_secs(n2) <= 60,
{
}

/// The bytes of a log entry: `[timestamp] message` and a line feed.
pub open spec fn log_line(timestamp: Seq<u8>, message: Seq<u8>) -> Seq<u8> {
    seq![91u8] + timestamp + seq![93u8, 32u8] + message + seq![10u8]
}

/// `after` is `before` with the log entry of `message` stamped `timestamp`
/// enqueued, or unchanged where that entry is too long for a frame.
pub open spec fn logged(
    before: ClientState,
    after: ClientState,
    timestamp: Seq<u8>,
    message: Seq<u8>,
) -> bool {
    if timestamp.len() + message.len() + 4 <= MAX_PAYLOAD_LEN {
        after == before.enqueue(frame_bytes(MessageType::Log, log_line(timestamp, message)))
    } else {
        after == before
    }
}

/// The frames that carry `data` in blocks of `BLOCK_SIZE` bytes, the last one
/// possibly shorter; no frame for an empty block.
pub open spec fn block_frames(data: Seq<u8>) -> Seq<Seq<u8>>
    decreases data.len(),
{
    if data.len() == 0 {
        seq![]
    } else if data.len() <= BLOCK_SIZE {
        seq![frame_bytes(MessageType::FileTransfer, data)]
    } else {
        seq![frame_bytes(MessageType::FileTransfer, data.take(BLOCK_SIZE as int))] + block_frames(
            data.skip(BLOCK_SIZE as int),
        )
    }
}

/// The frames of one file transfer: the name, then the contents in blocks.
pub open spec fn file_frames_of(name: Seq<u8>, data: Seq<u8>) -> Seq<Seq<u8>> {
    seq![frame_bytes(MessageType::FileTransfer, name)] + block_frames(data)
}

/// The abstract state of a client: the frames waiting to be written, whether a
/// connection is up, and the number of failed connection attempts in a row.
pub struct ClientState {
    pub queue: Seq<Seq<u8>>,
    pub connected: bool,
    pub retry_count: nat,
}

/// What the worker is to do next.
pub enum Action {
    /// Open a connection to the peer and report the outcome.
    Connect,
    /// Wait until a producer enqueues a frame.
    WaitForFrame,
    /// Write this frame to the connection and report the outcome.
    Write(Vec<u8>),
}

/// An `Action` with its frame as a sequence of bytes.
pub enum ActionView {
    Connect,
    WaitForFrame,
    Write(Seq<u8>),
}

impl Action {
    pub open spec fn view(self) -> ActionView {
        match self {
            Action::Connect => ActionView::Connect,
            Action::WaitForFrame => ActionView::WaitForFrame,
            Action::Write(f) => ActionView::Write(f@),
        }
    }
}

impl ClientState {
    pub open spec fn enqueue(self, frame: Seq<u8>) -> ClientState {
        ClientState { queue: self.queue.push(frame), ..self }
    }

    pub open spec fn enqueue_all(self, frames: Seq<Seq<u8>>) -> ClientState {
        ClientState { queue: self.queue + frames, ..self }
    }

    /// The worker's next step. A frame to write leaves the queue at once,
    /// before the write is tried.
    pub open spec fn poll(self) -> (ClientState, ActionView) {
        if !self.connected {
            (self, ActionView::Connect)
        } else if self.queue.len() == 0 {
            (self, ActionView::WaitForFrame)
        } else {
            (ClientState { queue: self.queue.drop_first(), ..self }, ActionView::Write(self.queue[0]))
        }
    }

    /// The state after a connection attempt, and the seconds to wait before the
    /// next attempt where it failed.
    pub open spec fn after_connect(self, ok: bool) -> (ClientState, Option<nat>) {
        if ok {
            (ClientState { connected: true, retry_count: 0, ..self }, None)
        } else {
            let n = if self.retry_count < u64::MAX {
                self.retry_count + 1
            } else {
                self.retry_count
            };
            (ClientState { connected: false, retry_count: n, ..self }, Some(backoff_secs(n)))
        }
    }

    /// The state after a write: a failed write drops the connection; the
    /// frame that was being written is not put back.
    pub open spec fn after_write(self, ok: bool) -> ClientState {
        if ok {
            self
        } else {
            ClientState { connected: false, ..self }
        }
    }

    /// The frames written by `n` polls in a row whose writes all succeed.
    pub open spec fn drain(self, n: nat) -> (ClientState, Seq<Seq<u8>>)
        decreases n,
    {
        if n == 0 {
            (self, seq![])
        } else {
            let (s1, a) = self.poll();
            let (s2, w) = s1.drain((n - 1) as nat);
            match a {
                ActionView::Write(f) => (s2, seq![f] + w),
                _ => (s2, w),
            }
        }
    }
}

/// On a live connection, `n` polls with successful writes write the first `n`
/// queued frames in queue order.
pub proof fn lemma_drain_in_order(s: ClientState, n: nat)
    requires
        s.connected,
        n <= s.queue.len(),
    ensures
        s.drain(n).1 == s.queue.take(n as int),
        s.drain(n).0 == (ClientState { queue: s.queue.skip(n as int), ..s }),
    decreases n,
{
    if n > 0 {
        let s1 = s.poll().0;
        lemma_drain_in_order(s1, (n - 1) as nat);
        assert(seq![s.queue[0]] + s1.queue.take(n - 1) =~= s.queue.take(n as int));
        assert(s1.queue.skip(n - 1) =~= s.queue.skip(n as int));
    } else {
        assert(s.queue.skip(0) =~= s.queue);
    }
}

/// Frames that one producer enqueues in order, `f1` then `f2`, with frames of
/// other producers in between, are written in that order as long as the
/// connection holds: `f1` at the position after the frames queued before it,
/// `f2` after those of the other producers.
pub proof fn lemma_fifo_per_producer(
    s: ClientState,
    f1: Seq<u8>,
    others: Seq<Seq<u8>>,
    f2: Seq<u8>,
)
    requires
        s.connected,
    ensures
        ({
            let t = s.enqueue(f1).enqueue_all(others).enqueue(f2);
            let n = s.queue.len() + others.len() + 2;
            let w = t.drain(n as nat).1;
            &&& w.len() == n
            &&& w[s.queue.len() as int] == f1
            &&& w[s.queue.len() + others.len() + 1int] == f2
        }),
{
    let t = s.enqueue(f1).enqueue_all(others).enqueue(f2);
    let n = s.queue.len() + others.len() + 2;
    assert(t.queue =~= s.queue + seq![f1] + others + seq![f2]);
    lemma_drain_in_order(t, n as nat);
    assert(t.queue.take(n as int) =~= t.queue);
}

/// Frames enqueued while the connection holds are written in the order in
/// which they were enqueued: after the frames `a` of one call (the frame of a
/// `log`, or those of a `send_file`) and then the frames `b` of later calls,
/// draining the queue writes the frames queued before, then all of `a` in
/// order, then all of `b`.
pub proof fn lemma_calls_written_in_order(s: ClientState, a: Seq<Seq<u8>>, b: Seq<Seq<u8>>)
    requires
        s.connected,
    ensures
        s.enqueue_all(a).enqueue_all(b).drain(s.queue.len() + a.len() + b.len()).1 == s.queue + a
            + b,
{
    let t = s.enqueue_all(a).enqueue_all(b);
    assert(t.queue =~= s.queue + a + b);
    lemma_drain_in_order(t, t.queue.len());
    assert(t.queue.take(t.queue.len() as int) =~= t.queue);
}

/// When a write fails after frame `f1` has left the queue, `f1` is lost: once
/// the worker has reconnected, it writes the frames that were queued behind
/// `f1` and then a frame `f2` enqueued after the failure, and never `f1` again.
pub proof fn lemma_lost_on_disconnect(s: ClientState, f1: Seq<u8>, rest: Seq<Seq<u8>>, f2: Seq<u8>)
    requires
        s.connected,
        s.queue == seq![f1] + rest,
    ensures
        ({
            let (s1, a1) = s.poll();
            let s2 = s1.after_write(false).enqueue(f2);
            let (s3, a3) = s2.poll();
            let s4 = s3.after_connect(true).0;
            &&& a1 == ActionView::Write(f1)
            &&& a3 == ActionView::Connect
            &&& s4.drain(rest.len() + 1).1 == rest.push(f2)
        }),
{
    let (s1, a1) = s.poll();
    assert(s1.queue =~= rest);
    let s2 = s1.after_write(false).enqueue(f2);
    let s4 = s2.poll().0.after_connect(true).0;
    lemma_drain_in_order(s4, rest.len() + 1);
    assert(s4.queue.take(rest.len() + 1int) =~= rest.push(f2));
}

/// The queue and connection state of a client.
pub struct VsockClient {
    queue: VecDeque<Vec<u8>>,
    connected: bool,
    retry_count: u64,
}

impl VsockClient {
    pub closed spec fn view(&self) -> ClientState {
        ClientState {
            queue: self.queue@.map_values(|f: Vec<u8>| f@),
            connected: self.connected,
            retry_count: self.retry_count as nat,
        }
    }

    /// A client with an empty queue and no connection.
    pub fn new() -> (r: Self)
        ensures
            r.view() == (ClientState { queue: seq![], connected: false, retry_count: 0 }),
    {
        let r = VsockClient { queue: VecDeque::new(), connected: false, retry_count: 0 };
        assert(r.view().queue =~= Seq::<Seq<u8>>::empty());
        r
    }

    /// Appends an encoded frame to the queue.
    fn enqueue(&mut self, frame: Vec<u8>)
        ensures
            final(self).view() == old(self).view().enqueue(frame@),
    {
        let ghost before = self.view();
        self.queue.push_back(frame);
        assert(self.view().queue =~= before.queue.push(frame@));
    }

    /// Enqueues the log entry `[timestamp] message` as one `Log` frame.
    fn enqueue_log_entry(&mut self, timestamp: &str, message: &str)
        requires
            timestamp.spec_bytes().len() + message.spec_bytes().len() + 4 <= MAX_PAYLOAD_LEN,
        ensures
            final(self).view() == old(self).view().enqueue(
                frame_bytes(
                    MessageType::Log,
                    log_line(timestamp.spec_bytes(), message.spec_bytes()),
                ),
            ),
    {
        let mut entry: Vec<u8> = Vec::new();
        entry.push(91u8);
        entry.extend_from_slice(timestamp.as_bytes());
        entry.push(93u8);
        entry.push(32u8);
        entry.extend_from_slice(message.as_bytes());
        entry.push(10u8);
        assert(entry@ =~= log_line(timestamp.spec_bytes(), message.spec_bytes()));
        let frame = encode_frame(MessageType::Log, entry.as_slice());
        self.enqueue(frame);
    }

    /// Enqueues `message`, stamped with `timestamp` (the caller's reading of
    /// the clock), as one `Log` frame `[timestamp] message`. An entry too long
    /// for the header's length field is dropped; nothing is reported either
    /// way, as logging is best effort.
    pub fn log(&mut self, timestamp: &str, message: &str)
        ensures
            logged(old(self).view(), final(self).view(), timestamp.spec_bytes(), message.spec_bytes()),
    {
        let ts_len = timestamp.as_bytes().len() as u64;
        let msg_len = message.as_bytes().len() as u64;
        if ts_len <= MAX_PAYLOAD_LEN - 4 && msg_len <= MAX_PAYLOAD_LEN - 4 - ts_len {
            self.enqueue_log_entry(timestamp, message);
        }
    }

    /// Starts a file transfer read block by block: enqueues the
    /// `FileTransfer` frame that holds the file's name.
    pub fn start_file(&mut self, name: &str)
        requires
            name.spec_bytes().len() <= MAX_PAYLOAD_LEN,
        ensures
            final(self).view() == old(self).view().enqueue(
                frame_bytes(MessageType::FileTransfer, name.spec_bytes()),
            ),
    {
        let frame = encode_frame(MessageType::FileTransfer, name.as_bytes());
        self.enqueue(frame);
    }

    /// Takes the bytes that one read of the file returned. An empty read ends
    /// the transfer: nothing is enqueued and the result is `false`. Any other
    /// block is enqueued as one `FileTransfer` frame and the result is `true`.
    pub fn send_file_block(&mut self, block: &[u8]) -> (more: bool)
        requires
            block@.len() <= MAX_PAYLOAD_LEN,
        ensures
            more == (block@.len() > 0),
            more ==> final(self).view() == old(self).view().enqueue(
                frame_bytes(MessageType::FileTransfer, block@),
            ),
            !more ==> final(self).view() == old(self).view(),
    {
        if block.len() == 0 {
            false
        } else {
            let frame = encode_frame(MessageType::FileTransfer, block);
            self.enqueue(frame);
            true
        }
    }

    /// Enqueues a file transfer: one `FileTransfer` frame holding `name`, then
    /// one per block of `contents`.
    pub fn send_file(&mut self, name: &str, contents: &[u8])
        requires
            name.spec_bytes().len() <= MAX_PAYLOAD_LEN,
        ensures
            final(self).view() == old(self).view().enqueue_all(
                file_frames_of(name.spec_bytes(), contents@),
            ),
    {
        let frames = file_frames(name, contents);
        let ghost before = self.view();
        let ghost fv = frames@.map_values(|f: Vec<u8>| f@);
        let mut i: usize = 0;
        while i < frames.len()
            invariant
                0 <= i <= frames@.len(),
                fv == frames@.map_values(|f: Vec<u8>| f@),
                self.view() == before.enqueue_all(fv.take(i as int)),
            decreases frames@.len() - i,
        {
            self.enqueue(frames[i].clone());
            assert(fv.take(i + 1) =~= fv.take(i as int).push(fv[i as int]));
            assert(before.queue + fv.take(i as int) + seq![fv[i as int]] =~= before.queue + fv.take(
                i + 1,
            ));
            i = i + 1;
        }
        assert(fv.take(frames@.len() as int) =~= fv);
    }

    /// The worker's next step: connect while there is no connection; else
    /// wait for a frame, or take the oldest frame off the queue to write it.
    pub fn poll(&mut self) -> (r: Action)
        ensures
            (final(self).view(), r.view()) == old(self).view().poll(),
    {
        if !self.connected {
            Action::Connect
        } else {
            let ghost before = self.view();
            match self.queue.pop_front() {
                None => Action::WaitForFrame,
                Some(frame) => {
                    assert(self.view().queue =~= before.queue.drop_first());
                    Action::Write(frame)
                },
            }
        }
    }

    /// Records the outcome of a connection attempt. After a failure it
    /// returns the seconds to wait before the next attempt.
    pub fn connect_result(&mut self, ok: bool) -> (r: Option<u64>)
        ensures
            final(self).view() == old(self).view().after_connect(ok).0,
            old(self).view().after_connect(ok).1 == match r {
                Some(d) => Some(d as nat),
                None => None::<nat>,
            },
    {
        if ok {
            self.connected = true;
            self.retry_count = 0;
            None
        } else {
            self.connected = false;
            if self.retry_count < u64::MAX {
                self.retry_count = self.retry_count + 1;
            }
            Some(backoff_delay(self.retry_count))
        }
    }

    /// Records the outcome of a write; a failed write drops the connection.
    pub fn write_result(&mut self, ok: bool)
        ensures
            final(self).view() == old(self).view().after_write(ok),
    {
        if !ok {
            self.connected = false;
        }
    }

    pub fn is_connected(&self) -> (r: bool)
        ensures
            r == self.view().connected,
    {
        self.connected
    }

    pub fn retry_count(&self) -> (r: u64)
        ensures
            r == self.view().retry_count,
    {
        self.retry_count
    }

    pub fn pending(&self) -> (r: usize)
        ensures
            r == self.view().queue.len(),
    {
        self.queue.len()
    }
}

/// The frames of one file transfer: a `FileTransfer` frame holding `name`,
/// then one per block of `BLOCK_SIZE` bytes of `contents`, the last block
/// possibly shorter.
pub fn file_frames(name: &str, contents: &[u8]) -> (r: Vec<Vec<u8>>)
    requires
        name.spec_bytes().len() <= MAX_PAYLOAD_LEN,
    ensures
        r@.map_values(|f: Vec<u8>| f@) == file_frames_of(name.spec_bytes(), contents@),
{
    let mut out: Vec<Vec<u8>> = Vec::new();
    out.push(encode_frame(MessageType::FileTransfer, name.as_bytes()));
    let ghost data = contents@;
    let mut pos: usize = 0;
    assert(data.skip(0) =~= data);
    while pos < contents.len()
        invariant
            pos <= contents@.len(),
            data == contents@,
            out@.map_values(|f: Vec<u8>| f@) + block_frames(data.skip(pos as int))
                == file_frames_of(name.spec_bytes(), data),
        decreases contents@.len() - pos,
    {
        let ghost rest = data.skip(pos as int);
        let end: usize = if contents.len() - pos <= BLOCK_SIZE {
            contents.len()
        } else {
            pos + BLOCK_SIZE
        };
        let block = copy_range(contents, pos, end);
        let frame = encode_frame(MessageType::FileTransfer, block.as_slice());
        let ghost before = out@.map_values(|f: Vec<u8>| f@);
        out.push(frame);
        assert(out@.map_values(|f: Vec<u8>| f@) =~= before.push(frame@));
        if end == contents.len() {
            assert(rest =~= block@);
            assert(data.skip(end as int).len() == 0);
            assert(block_frames(data.skip(end as int)) =~= Seq::<Seq<u8>>::empty());
        } else {
            assert(rest.take(BLOCK_SIZE as int) =~= block@);
            assert(rest.skip(BLOCK_SIZE as int) =~= data.skip(end as int));
        }
        assert(before.push(frame@) + block_frames(data.skip(end as int)) =~= before + block_frames(
            rest,
        ));
        pos = end;
    }
    assert(block_frames(data.skip(pos as int)) =~= Seq::<Seq<u8>>::empty());
    assert(out@.map_values(|f: Vec<u8>| f@) =~= file_frames_of(name.spec_bytes(), data));
    out
}

} // verus!
