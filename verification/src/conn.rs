//! What a connection decides: how it takes the bytes of a read, how it
//! consumes bytes it has yet to receive, and what it does with each request
//! that reaches its handler.
use vstd::prelude::*;
use crate::buffer::{BufModel, MsgBufferStatic};
use crate::err::NetError;
use tokio::sync::mpsc::Sender;
use tokio::time::Instant;

verus! {

#[verifier::external_type_specification]
#[verifier::external_body]
pub struct ExInstant(Instant);

#[verifier::external_type_specification]
#[verifier::external_body]
#[verifier::reject_recursive_types(T)]
pub struct ExSender<T>(Sender<T>);

/// How many bytes of room a read asks the buffer for.
pub const READ_CHUNK: usize = 8192;

/// Bytes to write, and the time by which the write must be done, if any.
pub struct WriteData {
    pub data: Vec<u8>,
    pub time_out: Option<Instant>,
}

/// A request to a connection's handler.
pub enum ReactOperation {
    /// Stop the handler, for the given reason.
    Exit(Option<String>),
    /// Stop the handler and the server, for the given reason.
    ExitServer(Option<String>),
    /// Write bytes to the peer.
    Write(WriteData),
    /// Run the delayed task with the given id.
    Afterfn(u64),
}

/// The answer to a request, sent where the request asks for one.
pub enum ReactOperationResult {
    Exit,
    WriteOk,
    WriteTimeOut,
}

/// A request and the channel where its answer goes, if any.
pub struct ReactOperationChannel {
    pub op: ReactOperation,
    pub res: Option<Sender<ReactOperationResult>>,
}

/// What the handler does next.
pub enum ReactStep {
    /// Write `data` to the peer; with a deadline, answer `WriteOk` or
    /// `WriteTimeOut` to `reply`.
    Write {
        data: Vec<u8>,
        deadline: Option<Instant>,
        reply: Option<Sender<ReactOperationResult>>,
    },
    /// Run the delayed task with this id.
    RunTask(u64),
    /// Stop with this reason; first send `shutdown` to the server's exit
    /// channel, where there is one.
    Stop { reason: Option<String>, shutdown: Option<NetError> },
}

/// The reason the handler gives when its request channel has closed.
pub open spec fn channel_closed_reason() -> Seq<char> {
    "channel none exit"@
}

/// The step that the handler takes on `msg`, the next item of its request
/// channel (`None` once the channel has closed).
pub fn react_step(msg: Option<ReactOperationChannel>) -> (r: ReactStep)
    ensures
        match msg {
            None => r matches ReactStep::Stop { reason: Some(s), shutdown: None } && s@
                == channel_closed_reason(),
            Some(m) => match m.op {
                ReactOperation::Write(w) => r == (ReactStep::Write {
                    data: w.data,
                    deadline: w.time_out,
                    reply: m.res,
                }),
                ReactOperation::Afterfn(id) => r == ReactStep::RunTask(id),
                ReactOperation::Exit(reason) => r == (ReactStep::Stop { reason, shutdown: None }),
                ReactOperation::ExitServer(reason) => r matches ReactStep::Stop {
                    reason: rr,
                    shutdown: Some(NetError::ShutdownServer(s)),
                } && rr == reason && s@ == match reason {
                    Some(t) => t@,
                    None => Seq::<char>::empty(),
                },
            },
        },
{
    match msg {
        None => ReactStep::Stop { reason: Some("channel none exit".to_owned()), shutdown: None },
        Some(m) => match m.op {
            ReactOperation::Write(w) => ReactStep::Write {
                data: w.data,
                deadline: w.time_out,
                reply: m.res,
            },
            ReactOperation::Afterfn(id) => ReactStep::RunTask(id),
            ReactOperation::Exit(reason) => ReactStep::Stop { reason, shutdown: None },
            ReactOperation::ExitServer(reason) => {
                let text = match &reason {
                    Some(t) => t.clone(),
                    None => String::new(),
                };
                ReactStep::Stop { reason, shutdown: Some(NetError::ShutdownServer(text)) }
            },
        },
    }
}

/// Whether the handler's `react` is called after a read: while bytes are
/// buffered and its last call since the read (`None` before the first)
/// did not say that the message is still incomplete.
pub fn react_again(buffer_len: usize, last: Option<bool>) -> (r: bool)
    ensures
        r == (buffer_len > 0 && last != Some(false)),
{
    buffer_len > 0 && match last {
        Some(go_on) => go_on,
        None => true,
    }
}

/// The answer to a write with a deadline.
pub fn write_reply(timed_out: bool) -> (r: ReactOperationResult)
    ensures
        timed_out ==> r is WriteTimeOut,
        !timed_out ==> r is WriteOk,
{
    if timed_out {
        ReactOperationResult::WriteTimeOut
    } else {
        ReactOperationResult::WriteOk
    }
}

/// Takes in the `size` bytes that a read placed just past the live bytes of
/// `readbuf`: a read of nothing means the peer has gone; more live bytes
/// than `max_package_size` are refused.
pub fn after_read(readbuf: &mut MsgBufferStatic, size: usize, max_package_size: usize) -> (r: Result<
    (),
    NetError,
>)
    requires
        old(readbuf).wf(),
        old(readbuf).model().end + size <= usize::MAX,
    ensures
        final(readbuf).wf(),
        size == 0 ==> r == Err::<(), NetError>(NetError::TcpDisconnected) && final(readbuf).model()
            == old(readbuf).model(),
        size > 0 && old(readbuf)@.len() + size > max_package_size ==> r == Err::<(), NetError>(
            NetError::LargePackage,
        ) && final(readbuf).model() == old(readbuf).model(),
        size > 0 && old(readbuf)@.len() + size <= max_package_size ==> r is Ok && final(readbuf).model() == old(readbuf).model().truncated(old(readbuf)@.len() + size),
{
    if size == 0 {
        return Err(NetError::TcpDisconnected);
    }
    let newlen = readbuf.len() + size;
    if newlen > max_package_size {
        return Err(NetError::LargePackage);
    }
    readbuf.truncate(newlen);
    Ok(())
}

/// Drops up to `n` live bytes of `readbuf` and gives how many of the `n`
/// are still to come.
pub fn shift_step(readbuf: &mut MsgBufferStatic, n: usize) -> (r: usize)
    requires
        old(readbuf).wf(),
        old(readbuf).model().compact_ok(),
        n < old(readbuf)@.len() ==> old(readbuf).model().with_range(
            old(readbuf).model().pos + n,
            old(readbuf).model().end,
        ).compact_ok(),
    ensures
        final(readbuf).wf(),
        n <= old(readbuf)@.len() ==> r == 0 && final(readbuf).model() == old(readbuf).model().shifted(n as int) && final(readbuf)@ == old(readbuf)@.subrange(
            n as int,
            old(readbuf)@.len() as int,
        ),
        n > old(readbuf)@.len() ==> r == n - old(readbuf)@.len() && final(readbuf).model() == old(readbuf).model().shifted(old(readbuf)@.len() as int) && final(readbuf)@ == Seq::<u8>::empty(),
{
    let l = readbuf.len();
    if l >= n {
        readbuf.shift(n);
        assert(n == l ==> old(readbuf)@.subrange(n as int, l as int) =~= Seq::<u8>::empty());
        0
    } else {
        readbuf.shift(l);
        n - l
    }
}

/// Bytes that a read placed in the room `spare` handed out come after the
/// live bytes once the read is taken in.
pub proof fn law_read_appends(m: BufModel, n: int, out: Seq<u8>, size: int)
    requires
        m.wf(),
        0 <= n,
        out.len() == m.spare_end(n) - m.spared(n).end,
        0 <= size <= out.len(),
    ensures
        m.spare_filled(n, out).truncated(m.contents().len() + size).contents() =~= m.contents()
            + out.subrange(0, size),
{
    crate::buffer::lemma_spared(m, n);
    let s = m.spared(n);
    let f = m.spare_filled(n, out);
    assert(f.data.len() == s.data.len());
    assert(f.pos == s.pos);
    assert(s.end - s.pos == m.contents().len());
    assert(f.data.subrange(f.pos, s.end) =~= s.data.subrange(s.pos, s.end));
}

/// The smaller of two lengths.
pub open spec fn min_len(a: int, b: int) -> int {
    if a <= b {
        a
    } else {
        b
    }
}

/// The state and the count of bytes still to drop after consuming `r` bytes
/// of `m` while `reads` arrive: one step of `shift_step`, then for each read
/// `(room, out, size)` the room asked of `spare`, what that room holds once
/// the read is done, and how many bytes the read placed, taken in by
/// `after_read`, followed by another step of `shift_step`.
pub open spec fn consume_run(m: BufModel, r: int, reads: Seq<(int, Seq<u8>, int)>) -> (BufModel, int)
    decreases reads.len(),
{
    let a = min_len(r, m.contents().len() as int);
    let m1 = m.shifted(a);
    if reads.len() == 0 {
        (m1, r - a)
    } else {
        let (room, out, size) = reads[0];
        let m2 = m1.spare_filled(room, out).truncated(m1.contents().len() + size);
        consume_run(m2, r - a, reads.drop_first())
    }
}

/// Each read of `reads` fits the room that `spare` hands out at its turn.
pub open spec fn reads_fit(m: BufModel, r: int, reads: Seq<(int, Seq<u8>, int)>) -> bool
    decreases reads.len(),
{
    let a = min_len(r, m.contents().len() as int);
    let m1 = m.shifted(a);
    if reads.len() == 0 {
        true
    } else {
        let (room, out, size) = reads[0];
        let m2 = m1.spare_filled(room, out).truncated(m1.contents().len() + size);
        &&& 0 <= room
        &&& out.len() == m1.spare_end(room) - m1.spared(room).end
        &&& 0 <= size <= out.len()
        &&& reads_fit(m2, r - a, reads.drop_first())
    }
}

/// The bytes that `reads` placed, in the order received.
pub open spec fn received(reads: Seq<(int, Seq<u8>, int)>) -> Seq<u8>
    decreases reads.len(),
{
    if reads.len() == 0 {
        Seq::<u8>::empty()
    } else {
        reads[0].1.subrange(0, reads[0].2) + received(reads.drop_first())
    }
}

/// Consuming `r` bytes while any number of reads arrive drops `r` bytes in
/// all, or every byte there was, and leaves the rest of what was live and
/// received, in order.
pub proof fn law_consume_across_reads(m: BufModel, r: int, reads: Seq<(int, Seq<u8>, int)>)
    requires
        m.wf(),
        0 <= r,
        reads_fit(m, r, reads),
    ensures
        ({
            let (mf, rf) = consume_run(m, r, reads);
            let all = m.contents() + received(reads);
            &&& mf.wf()
            &&& 0 <= rf
            &&& r - rf == min_len(r, all.len() as int)
            &&& mf.contents() =~= all.subrange(r - rf, all.len() as int)
        }),
    decreases reads.len(),
{
    let a = min_len(r, m.contents().len() as int);
    crate::buffer::law_shifted(m, a);
    let m1 = m.shifted(a);
    if reads.len() == 0 {
        let all = m.contents() + received(reads);
        assert(all =~= m.contents());
    } else {
        let (room, out, size) = reads[0];
        law_read_appends(m1, room, out, size);
        crate::buffer::lemma_spared(m1, room);
        let m2 = m1.spare_filled(room, out).truncated(m1.contents().len() + size);
        let rest = reads.drop_first();
        law_consume_across_reads(m2, r - a, rest);
        let all = m.contents() + received(reads);
        let all2 = m2.contents() + received(rest);
        assert(received(reads) =~= out.subrange(0, size) + received(rest));
        assert(m1.contents() =~= m.contents().subrange(a, m.contents().len() as int));
        assert(all2 =~= all.subrange(a, all.len() as int));
    }
}

} // verus!
