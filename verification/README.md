# rustnet

Buffers and connection bookkeeping for an event-driven TCP server built on
tokio, with their behaviour stated in contracts and proved by Verus.

- `src/buffer.rs`: `MsgBuffer`, a growable byte buffer read from the front
  and written at the back, its connection-side wrapper `MsgBufferStatic`, and
  `MsgBufferPool`. The whole state of a buffer is modelled by `BufModel`;
  each operation is stated as a function on that model, and the laws
  (appending, consuming in order, truncating, emptying) are proof functions.
- `src/pool.rs`: `Pool<T>`, a bounded stack of values kept for reuse.
- `src/afterfunc.rs`: `AfterFn`, the table of delayed tasks, with due times
  and drop times in nanoseconds.
- `src/conn.rs`: what a connection decides on a read, on consuming bytes it
  has yet to receive, and on each request that reaches its handler.
- `src/err.rs`: `NetError` and the text of each error.
- `src/lib.rs`: `Server`, the settings of a server.
- `app/`: the asynchronous server itself (sockets, tasks, channels, timers),
  which carries out what the library decides.
