# dirgather

Machinery for fast multithreaded directory traversal. Many threads take directories from a
priority queue, list them and hand every entry to a user supplied function, which may send
sub directories back to the queue and entries to output channels. Once no work is left a
`Done` message tells the receivers on the output channels that the traversal is complete.

## Layout

- `src/` is the library, verified with Verus:
  - `priority_queue.rs`: a priority queue that tracks the work in progress, a binary heap (`QueueHeap`) that hands
    out the entry of least priority first, and a count of the work in flight (`WorkCount`);
    when the last piece of work is released a single `Drained` entry is queued. An entry
    sent while the queue is locked elsewhere waits in the sender's stash. `PriorityQueue`
    puts both parts together; the laws about ordering and the accounting of work are proof
    functions at the end of the file.
  - `internednames.rs`: names stored once, sharded by the sum of their bytes.
  - `objectpath.rs`: paths stored as a name and a shared parent, how they are joined into
    path bytes, how paths are ordered, and where a directory handle comes from.
  - `dirhandle.rs`: the count of directory handles in use.
  - `lrulist.rs`: one step of expiring least recently used elements.
  - `gatherer.rs`: the configuration of a traversal and the decisions of its threads:
    traversal order (deepest directories first, then by inode), retrying when file
    descriptors run out, and the choice of output channel.
- `app/` holds what needs threads, locks, channels and system calls: the Gatherer and its
  threads (its input queue is the `mpmcpq` crate), directory handles (`openat_ct`), the
  shared form of `src/priority_queue.rs` with blocking receive and guards that release their
  entry when dropped, and the messages passed to the user.
- `tests/` runs the library on concrete values.
