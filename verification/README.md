# cynosure

Concurrency primitives for thread-per-core async executors, verified with Verus.

- `src/site_c`: primitives for the tasks of one thread: a queue that stays inline
  while it is short, a mutex, a readers-writer lock that prefers writers, a fair
  semaphore, a pool of aligned buffers and a scoped cell.
- `src/site_d`: primitives for the tasks of several threads: the wakeup core, a
  oneshot channel, a bip buffer, a triple buffer, a bounded channel from many
  senders to one receiver, aligned buffers, and the value that `app/` pads to a
  cache line.
- `src/chartgen`: reads tables of benchmark results and draws them as SVG.

Each primitive is a value. An operation is handed it by `&mut`, and returns the
wakers that the caller has to call. Guards, permits, grants, ends and futures are
tokens that carry the tag of the primitive they belong to. Contracts speak of a
state (`MutexState`, `ChannelState`, ...), and the laws that relate several
operations are proof functions whose names begin with `law_`.

`app/` puts the primitives behind shared references, implements the traits of std
and of I/O drivers, and writes charts to files.
