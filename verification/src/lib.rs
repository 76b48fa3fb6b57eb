//! A byte-buffer and connection-bookkeeping library for an event-driven
//! network server.
use vstd::prelude::*;
use std::time::Duration;
use crate::buffer::{MsgBufferPool, DEFAULT_BUF_SIZE, MAX_BUF_SIZE};

pub mod afterfunc;
pub mod buffer;
pub mod conn;
pub mod err;
pub mod pool;

verus! {

/// The duration of `secs` whole seconds.
pub uninterp spec fn duration_of_secs(secs: u64) -> Duration;

/// `Duration::from_secs`: claims only that equal arguments give equal
/// durations (the result is named `duration_of_secs(secs)`).
#[verifier::external_body]
fn from_secs(secs: u64) -> (d: Duration)
    ensures
        d == duration_of_secs(secs),
{
    Duration::from_secs(secs)
}

/// How many buffers a server keeps for reuse, unless told otherwise.
pub const DEFAULT_BUF_NUM: usize = 128;

/// How long a server waits on a read or a write, unless told otherwise.
pub const DEFAULT_TIMEOUT_SECS: u64 = 60;

/// The settings of a server and the handler of its connections' events.
pub struct Server<E> {
    addr: String,
    max_package_size: usize,
    eventhandler: E,
    readtimeout: Duration,
    writetimeout: Duration,
    max_buf_size: usize,
    default_buf_size: usize,
    buf_num: usize,
}

impl<E: Copy> Server<E> {
    pub closed spec fn spec_addr(&self) -> Seq<char> {
        self.addr@
    }

    pub closed spec fn spec_max_package_size(&self) -> usize {
        self.max_package_size
    }

    pub closed spec fn spec_eventhandler(&self) -> E {
        self.eventhandler
    }

    pub closed spec fn spec_readtimeout(&self) -> Duration {
        self.readtimeout
    }

    pub closed spec fn spec_writetimeout(&self) -> Duration {
        self.writetimeout
    }

    pub closed spec fn spec_max_buf_size(&self) -> usize {
        self.max_buf_size
    }

    pub closed spec fn spec_default_buf_size(&self) -> usize {
        self.default_buf_size
    }

    pub closed spec fn spec_buf_num(&self) -> usize {
        self.buf_num
    }

    /// A server for `addr` with the default settings: packages of up to
    /// `u32::MAX` bytes, 60-second timeouts, buffers of the default sizes,
    /// 128 of them kept.
    pub fn new(addr: &str, eventhandler: E) -> (r: Server<E>)
        ensures
            r.spec_addr() == addr@,
            r.spec_max_package_size() == u32::MAX as usize,
            r.spec_eventhandler() == eventhandler,
            r.spec_readtimeout() == duration_of_secs(DEFAULT_TIMEOUT_SECS),
            r.spec_writetimeout() == duration_of_secs(DEFAULT_TIMEOUT_SECS),
            r.spec_max_buf_size() == MAX_BUF_SIZE,
            r.spec_default_buf_size() == DEFAULT_BUF_SIZE,
            r.spec_buf_num() == DEFAULT_BUF_NUM,
    {
        Server {
            addr: addr.to_owned(),
            max_package_size: u32::MAX as usize,
            eventhandler,
            readtimeout: from_secs(DEFAULT_TIMEOUT_SECS),
            writetimeout: from_secs(DEFAULT_TIMEOUT_SECS),
            max_buf_size: MAX_BUF_SIZE,
            default_buf_size: DEFAULT_BUF_SIZE,
            buf_num: DEFAULT_BUF_NUM,
        }
    }

    /// As `new`, for connections without TLS.
    pub fn new_with_nossl(addr: &str, eventhandler: E) -> (r: Server<E>)
        ensures
            r.spec_addr() == addr@,
            r.spec_max_package_size() == u32::MAX as usize,
            r.spec_eventhandler() == eventhandler,
            r.spec_readtimeout() == duration_of_secs(DEFAULT_TIMEOUT_SECS),
            r.spec_writetimeout() == duration_of_secs(DEFAULT_TIMEOUT_SECS),
            r.spec_max_buf_size() == MAX_BUF_SIZE,
            r.spec_default_buf_size() == DEFAULT_BUF_SIZE,
            r.spec_buf_num() == DEFAULT_BUF_NUM,
    {
        Server::new(addr, eventhandler)
    }

    /// The same settings but for one.
    pub open spec fn same_but(&self, other: &Server<E>, field: int) -> bool {
        &&& field != 0 ==> other.spec_addr() == self.spec_addr()
        &&& field != 1 ==> other.spec_max_package_size() == self.spec_max_package_size()
        &&& other.spec_eventhandler() == self.spec_eventhandler()
        &&& field != 2 ==> other.spec_readtimeout() == self.spec_readtimeout()
        &&& field != 3 ==> other.spec_writetimeout() == self.spec_writetimeout()
        &&& field != 4 ==> other.spec_max_buf_size() == self.spec_max_buf_size()
        &&& field != 5 ==> other.spec_default_buf_size() == self.spec_default_buf_size()
        &&& field != 6 ==> other.spec_buf_num() == self.spec_buf_num()
    }

    pub fn with_max_package_size(self, size: usize) -> (r: Server<E>)
        ensures
            self.same_but(&r, 1),
            r.spec_max_package_size() == size,
    {
        let mut s = self;
        s.max_package_size = size;
        s
    }

    pub fn with_readtimeout(self, readtimeout: Duration) -> (r: Server<E>)
        ensures
            self.same_but(&r, 2),
            r.spec_readtimeout() == readtimeout,
    {
        let mut s = self;
        s.readtimeout = readtimeout;
        s
    }

    pub fn with_writetimeout(self, writetimeout: Duration) -> (r: Server<E>)
        ensures
            self.same_but(&r, 3),
            r.spec_writetimeout() == writetimeout,
    {
        let mut s = self;
        s.writetimeout = writetimeout;
        s
    }

    /// Keeps up to `size` buffers for reuse.
    pub fn with_max_buf_num(self, size: usize) -> (r: Server<E>)
        ensures
            self.same_but(&r, 6),
            r.spec_buf_num() == size,
    {
        let mut s = self;
        s.buf_num = size;
        s
    }

    pub fn with_max_buf_size(self, size: usize) -> (r: Server<E>)
        ensures
            self.same_but(&r, 4),
            r.spec_max_buf_size() == size,
    {
        let mut s = self;
        s.max_buf_size = size;
        s
    }

    pub fn with_default_buf_size(self, size: usize) -> (r: Server<E>)
        ensures
            self.same_but(&r, 5),
            r.spec_default_buf_size() == size,
    {
        let mut s = self;
        s.default_buf_size = size;
        s
    }

    /// Readies the server to start: the default buffer size is cut down to
    /// the largest one, and the pool of buffers is made from the settings.
    pub fn prepare(&mut self) -> (r: MsgBufferPool)
        ensures
            old(self).same_but(&*final(self), 5),
            final(self).spec_default_buf_size() == if old(self).spec_default_buf_size() > old(
                self,
            ).spec_max_buf_size() {
                old(self).spec_max_buf_size()
            } else {
                old(self).spec_default_buf_size()
            },
            r.wf(),
            r.pooled() == Seq::<buffer::MsgBuffer>::empty(),
            r.max_buf_num() == final(self).spec_buf_num(),
            r.max_buf_size() == final(self).spec_max_buf_size(),
            r.default_buf_size() == final(self).spec_default_buf_size(),
    {
        if self.default_buf_size > self.max_buf_size {
            self.default_buf_size = self.max_buf_size;
        }
        MsgBufferPool::new().with_max_buf_num(self.buf_num).with_max_buf_size(
            self.max_buf_size,
        ).with_default_buf_size(self.default_buf_size)
    }

    pub fn addr(&self) -> (r: &str)
        ensures
            r@ == self.spec_addr(),
    {
        self.addr.as_str()
    }

    pub fn max_package_size(&self) -> (r: usize)
        ensures
            r == self.spec_max_package_size(),
    {
        self.max_package_size
    }

    pub fn eventhandler(&self) -> (r: E)
        ensures
            r == self.spec_eventhandler(),
    {
        self.eventhandler
    }

    pub fn readtimeout(&self) -> (r: Duration)
        ensures
            r == self.spec_readtimeout(),
    {
        self.readtimeout
    }

    pub fn writetimeout(&self) -> (r: Duration)
        ensures
            r == self.spec_writetimeout(),
    {
        self.writetimeout
    }
}

} // verus!
