//! The configuration of a Gatherer and the decisions its traversal threads take: the order
//! in which directories are traversed, what happens when directory handles run out, and
//! which output channel receives an entry.
use vstd::prelude::*;

verus! {

/// `libc::EMFILE`, the error number of a process that ran out of file descriptors. Nothing
/// is claimed of its value, which libc defines per target.
#[verifier::external_body]
fn emfile() -> i32 {
    libc::EMFILE
}

/// What a traversal thread does with a directory taken from the input queue.
#[derive(Debug, Clone, Copy, PartialEq, Eq, Structural)]
pub enum DirAction {
    /// Open the directory and list it.
    Open,
    /// Too many handles in use: put the directory back on the queue (and pause briefly).
    Resend,
}

/// What a traversal thread does when opening or listing a directory failed.
#[derive(Debug, Clone, Copy, PartialEq, Eq, Structural)]
pub enum ErrorAction {
    /// The process ran out of file descriptors: put the directory back on the queue.
    Resend,
    /// Hand the error to the processing function.
    Report,
}

/// Decides what to do with a directory to traverse: it is put back while at least
/// `fd_limit` handles are in use.
pub fn directory_action(used_handles: usize, fd_limit: usize) -> (a: DirAction)
    ensures
        a == (if used_handles >= fd_limit { DirAction::Resend } else { DirAction::Open }),
{
    if used_handles >= fd_limit {
        DirAction::Resend
    } else {
        DirAction::Open
    }
}

/// Decides what to do about an error opening or listing a directory, given its raw OS
/// error number and the error number of running out of file descriptors (`emfile`): that
/// error is retried later, anything else is reported.
pub fn error_action(raw_os_error: Option<i32>, emfile: i32) -> (a: ErrorAction)
    ensures
        a == (if raw_os_error == Some(emfile) { ErrorAction::Resend } else { ErrorAction::Report }),
{
    match raw_os_error {
        Some(errno) => {
            if errno == emfile {
                ErrorAction::Resend
            } else {
                ErrorAction::Report
            }
        },
        None => ErrorAction::Report,
    }
}

/// Decides what to do about an error opening or listing a directory on this target: the
/// decision of `error_action` with libc's EMFILE. An error without OS error number is
/// always reported.
pub fn io_error_action(raw_os_error: Option<i32>) -> (a: ErrorAction)
    ensures
        raw_os_error is None ==> a == ErrorAction::Report,
        a == ErrorAction::Resend ==> raw_os_error is Some,
{
    error_action(raw_os_error, emfile())
}

/// The queue priority of a directory at `depth` with inode number `inode`: the upper 16
/// bits hold `u16::MAX - depth`, the inode is added below. Smaller priorities are traversed
/// first, so directories are traversed depth first in increasing inode order.
pub open spec fn dir_priority_of(depth: u16, inode: u64) -> int {
    (u16::MAX - depth) * 0x1_0000_0000_0000 + inode
}

/// Computes the priority of a directory at `depth` with inode number `inode`.
pub fn dir_priority(depth: u16, inode: u64) -> (p: u64)
    requires
        dir_priority_of(depth, inode) <= u64::MAX,
    ensures
        p == dir_priority_of(depth, inode),
{
    let high: u64 = (u16::MAX - depth) as u64;
    assert(high << 48u64 == high * 0x1_0000_0000_0000) by (bit_vector)
        requires
            high <= 0xffff,
    ;
    let dir_prio: u64 = high << 48u64;
    dir_prio + inode
}

/// A deeper directory is traversed before a shallower one, whatever their inodes.
pub proof fn law_deeper_first(d1: u16, i1: u64, d2: u16, i2: u64)
    requires
        d1 > d2,
        i1 < 0x1_0000_0000_0000,
        i2 < 0x1_0000_0000_0000,
    ensures
        dir_priority_of(d1, i1) < dir_priority_of(d2, i2),
{
}

/// At the same depth, directories are traversed in increasing inode order.
pub proof fn law_same_depth_by_inode(d: u16, i1: u64, i2: u64)
    requires
        i1 < i2,
    ensures
        dir_priority_of(d, i1) < dir_priority_of(d, i2),
{
}

/// The output channel that receives a message addressed to `channel`: any number may be
/// given, it is wrapped modulo the actual number of channels.
pub fn output_channel(channel: usize, num_channels: usize) -> (c: usize)
    requires
        num_channels > 0,
    ensures
        c == channel % num_channels,
        c < num_channels,
{
    channel % num_channels
}

/// The output channels that a drained input queue is announced on (with `Done`): every one
/// of the `num_channels` channels, in order.
pub fn done_channels(num_channels: usize) -> (v: Vec<usize>)
    ensures
        v@ == Seq::new(num_channels as nat, |i: int| i as usize),
{
    let mut v: Vec<usize> = Vec::new();
    let mut n: usize = 0;
    while n < num_channels
        invariant
            n <= num_channels,
            v@ == Seq::new(n as nat, |i: int| i as usize),
        decreases num_channels - n,
    {
        v.push(n);
        n = n + 1;
        proof {
            assert(v@ =~= Seq::new(n as nat, |i: int| i as usize));
        }
    }
    v
}

/// Configures a Gatherer
pub struct GathererBuilder {
    num_gather_threads: usize,
    num_output_channels: usize,
    inventory_backlog: usize,
    fd_limit: usize,
    message_batch: usize,
}

/// The settings of a GathererBuilder.
pub struct GathererSettings {
    /// Number of threads traversing directories.
    pub gather_threads: nat,
    /// Number of output channels.
    pub output_channels: nat,
    /// Capacity of each output channel, 0 for automatic.
    pub inventory_backlog: nat,
    /// Maximum number of directory handles in use.
    pub fd_limit: nat,
    /// Number of messages batched together.
    pub message_batch: nat,
}

impl View for GathererBuilder {
    type V = GathererSettings;

    open spec fn view(&self) -> GathererSettings {
        self.settings()
    }
}

impl GathererBuilder {
    /// The settings.
    pub closed spec fn settings(&self) -> GathererSettings {
        GathererSettings {
            gather_threads: self.num_gather_threads as nat,
            output_channels: self.num_output_channels as nat,
            inventory_backlog: self.inventory_backlog as nat,
            fd_limit: self.fd_limit as nat,
            message_batch: self.message_batch as nat,
        }
    }

    /// Conservative defaults: 16 threads, one output channel, automatic backlog, 512
    /// handles, batches of 512 messages.
    pub fn new() -> (b: Self)
        ensures
            b@ == (GathererSettings {
                gather_threads: 16,
                output_channels: 1,
                inventory_backlog: 0,
                fd_limit: 512,
                message_batch: 512,
            }),
    {
        GathererBuilder {
            num_gather_threads: 16,
            num_output_channels: 1,
            inventory_backlog: 0,
            fd_limit: 512,
            message_batch: 512,
        }
    }

    /// Sets the number of threads which traverse the directories. These are IO-bound
    /// operations and the more threads are used the better are the opportunities for the
    /// kernel to optimize IO-Requests. Must at least use one thread. Default is 16 threads.
    pub fn with_gather_threads(self, num_threads: usize) -> (b: Self)
        requires
            num_threads > 0,
        ensures
            b@ == (GathererSettings { gather_threads: num_threads as nat, ..self@ }),
    {
        GathererBuilder { num_gather_threads: num_threads, ..self }
    }

    /// Sets the number of output channels. Must at least use one channel. Default is one.
    pub fn with_output_channels(self, num_channels: usize) -> (b: Self)
        requires
            num_channels > 0,
        ensures
            b@ == (GathererSettings { output_channels: num_channels as nat, ..self@ }),
    {
        GathererBuilder { num_output_channels: num_channels, ..self }
    }

    /// Sets the amount of messages the output channels can hold. When zero (the default)
    /// 4k per thread are used.
    pub fn with_inventory_backlog(self, backlog_size: usize) -> (b: Self)
        ensures
            b@ == (GathererSettings { inventory_backlog: backlog_size as nat, ..self@ }),
    {
        GathererBuilder { inventory_backlog: backlog_size, ..self }
    }

    /// Sets the maximum number of directory handles the Gatherer may use. Defaults to 512.
    pub fn with_fd_limit(self, fd_limit: usize) -> (b: Self)
        ensures
            b@ == (GathererSettings { fd_limit: fd_limit as nat, ..self@ }),
    {
        GathererBuilder { fd_limit, ..self }
    }

    /// Sets size of message batched together. Defaults to 512.
    pub fn with_message_batch(self, message_batch: usize) -> (b: Self)
        ensures
            b@ == (GathererSettings { message_batch: message_batch as nat, ..self@ }),
    {
        GathererBuilder { message_batch, ..self }
    }

    /// The capacity of each output channel: the backlog when set, else 4096 per thread.
    pub open spec fn capacity_of(s: GathererSettings) -> int {
        if s.inventory_backlog == 0 {
            (4096 * s.gather_threads) as int
        } else {
            s.inventory_backlog as int
        }
    }

    /// A backlog that was set is the capacity of each output channel, whatever the number of
    /// threads; without one, every thread adds 4096 to the capacity.
    pub proof fn law_capacity(s: GathererSettings, t: GathererSettings)
        ensures
            s.inventory_backlog != 0 ==> Self::capacity_of(s) == s.inventory_backlog,
            s.inventory_backlog == 0 ==> Self::capacity_of(s) == 4096 * s.gather_threads,
            s.inventory_backlog == t.inventory_backlog && s.inventory_backlog != 0 ==> Self::capacity_of(s)
                == Self::capacity_of(t),
            s.inventory_backlog == 0 && t.inventory_backlog == 0 && t.gather_threads == s.gather_threads + 1
                ==> Self::capacity_of(t) == Self::capacity_of(s) + 4096,
    {
    }

    /// Computes the capacity of each output channel.
    pub fn channel_capacity(&self) -> (c: usize)
        requires
            Self::capacity_of(self@) <= usize::MAX,
        ensures
            c == Self::capacity_of(self@),
            self@.inventory_backlog != 0 ==> c == self@.inventory_backlog,
            self@.inventory_backlog == 0 ==> c == 4096 * self@.gather_threads,
    {
        if self.inventory_backlog == 0 {
            4096 * self.num_gather_threads
        } else {
            self.inventory_backlog
        }
    }

    /// The number of threads which traverse the directories.
    pub fn gather_threads(&self) -> (n: usize)
        ensures
            n == self@.gather_threads,
    {
        self.num_gather_threads
    }

    /// The number of output channels.
    pub fn output_channels(&self) -> (n: usize)
        ensures
            n == self@.output_channels,
    {
        self.num_output_channels
    }

    /// The capacity of the output channels as configured, 0 for automatic.
    pub fn inventory_backlog(&self) -> (n: usize)
        ensures
            n == self@.inventory_backlog,
    {
        self.inventory_backlog
    }

    /// The maximum number of directory handles to use.
    pub fn fd_limit(&self) -> (n: usize)
        ensures
            n == self@.fd_limit,
    {
        self.fd_limit
    }

    /// The number of messages batched together.
    pub fn message_batch(&self) -> (n: usize)
        ensures
            n == self@.message_batch,
    {
        self.message_batch
    }
}

impl Default for GathererBuilder {
    fn default() -> (b: Self)
        ensures
            b@ == (GathererSettings {
                gather_threads: 16,
                output_channels: 1,
                inventory_backlog: 0,
                fd_limit: 512,
                message_batch: 512,
            }),
    {
        Self::new()
    }
}

} // verus!
