//! A message queue ordered by priority (smallest first) that keeps track of the work in
//! progress. Every entry sent counts as work in progress until the guard that hands it out
//! is released. Once the last piece of work is released a single `Drained` entry is queued
//! to tell one receiver that nothing more is to be expected.
//!
//! This is the queue's state and its decisions. Locking it and waking waiting receivers is
//! left to the caller, who acts on the `Notify` that each operation returns.
use vstd::prelude::*;
use vstd::std_specs::cmp::PartialEqSpecImpl;
use std::cmp::Ordering;
use vstd::multiset::Multiset;

verus! {

broadcast use vstd::seq_lib::group_to_multiset_ensures, vstd::multiset::group_multiset_axioms,
    vstd::multiset::group_multiset_properties;

/// Type for the received message
#[derive(Debug, Clone, Copy)]
pub enum QueueEntry<K: Send, P: Ord> {
    /// Entry with data K and priority P
    Entry(K, P),
    /// Queue got empty and no other workers processing a ReceiveGuard
    Drained,
    /// Default value when taken from a ReceiveGuard
    Taken,
}

impl<K: Send, P: Ord> QueueEntry<K, P> {
    /// Returns a reference to the value of the entry.
    pub fn entry(&self) -> (r: Option<&K>)
        ensures
            match *self {
                QueueEntry::Entry(k, _) => r == Some(&k),
                _ => r is None,
            },
    {
        match self {
            QueueEntry::Entry(k, _) => Some(k),
            _ => None,
        }
    }

    /// Returns a reference to the priority of the entry.
    pub fn priority(&self) -> (r: Option<&P>)
        ensures
            match *self {
                QueueEntry::Entry(_, p) => r == Some(&p),
                _ => r is None,
            },
    {
        match self {
            QueueEntry::Entry(_, prio) => Some(prio),
            _ => None,
        }
    }

    /// Returns 'true' when the queue is drained
    pub fn is_drained(&self) -> (r: bool)
        ensures
            r == (*self is Drained),
    {
        matches!(self, QueueEntry::Drained)
    }

    /// Entries that may be held by a queue or a stash: everything but `Taken`.
    pub open spec fn is_queueable(self) -> bool {
        !(self is Taken)
    }
}

impl<K: Send> QueueEntry<K, u64> {
    /// The order in which entries leave the queue, as `cmp` computes it: `Drained` first,
    /// then entries by ascending priority. `Greater` leaves first.
    pub open spec fn order(self, other: Self) -> Ordering {
        match (self, other) {
            (QueueEntry::Entry(_, a), QueueEntry::Entry(_, b)) => {
                if b < a {
                    Ordering::Less
                } else if b == a {
                    Ordering::Equal
                } else {
                    Ordering::Greater
                }
            },
            (QueueEntry::Drained, QueueEntry::Drained) => Ordering::Equal,
            (QueueEntry::Drained, _) => Ordering::Greater,
            (_, QueueEntry::Drained) => Ordering::Less,
            (_, _) => Ordering::Equal,
        }
    }

    /// `self` leaves the queue no later than `other`.
    pub open spec fn precedes(self, other: Self) -> bool {
        match (self, other) {
            (QueueEntry::Drained, _) => true,
            (QueueEntry::Entry(_, a), QueueEntry::Entry(_, b)) => a <= b,
            _ => false,
        }
    }

    /// Compares two entries by the order in which they leave the queue. `Taken` only
    /// compares against `Drained`.
    pub fn cmp(&self, other: &Self) -> (o: Ordering)
        requires
            (*self is Taken || *other is Taken) ==> (*self is Drained || *other is Drained),
        ensures
            o == self.order(*other),
    {
        match (self, other) {
            (QueueEntry::Entry(_, a), QueueEntry::Entry(_, b)) => {
                if *b < *a {
                    Ordering::Less
                } else if *b == *a {
                    Ordering::Equal
                } else {
                    Ordering::Greater
                }
            },
            (QueueEntry::Drained, QueueEntry::Drained) => Ordering::Equal,
            (QueueEntry::Drained, _) => Ordering::Greater,
            (_, QueueEntry::Drained) => Ordering::Less,
            (_, _) => Ordering::Equal,
        }
    }
}

/// Two entries are equal when both are `Entry` with equal priorities (whatever they
/// carry), both `Drained` or both `Taken`.
impl<K: Send> PartialEq for QueueEntry<K, u64> {
    fn eq(&self, other: &Self) -> (r: bool) {
        match (self, other) {
            (QueueEntry::Entry(_, a), QueueEntry::Entry(_, b)) => *a == *b,
            (QueueEntry::Drained, QueueEntry::Drained) => true,
            (QueueEntry::Taken, QueueEntry::Taken) => true,
            (_, _) => false,
        }
    }
}

impl<K: Send> PartialEqSpecImpl for QueueEntry<K, u64> {
    open spec fn obeys_eq_spec() -> bool {
        true
    }

    open spec fn eq_spec(&self, other: &Self) -> bool {
        match (*self, *other) {
            (QueueEntry::Entry(_, a), QueueEntry::Entry(_, b)) => a == b,
            (QueueEntry::Drained, QueueEntry::Drained) => true,
            (QueueEntry::Taken, QueueEntry::Taken) => true,
            (_, _) => false,
        }
    }
}

impl<K: Send> Eq for QueueEntry<K, u64> {

}

impl<K: Send, P: Ord> Default for QueueEntry<K, P> {
    fn default() -> (r: Self)
        ensures
            r is Taken,
    {
        QueueEntry::Taken
    }
}

/// What a caller holding the queue's lock shall do about receivers waiting for an entry.
#[derive(Debug, Clone, Copy, PartialEq, Eq, Structural)]
pub enum Notify {
    /// Nothing new arrived, nobody needs to wake up.
    Nobody,
    /// One entry arrived, wake one waiting receiver.
    One,
    /// Several entries arrived, wake all waiting receivers.
    All,
}

/// The wake-up that `n` newly arrived entries call for.
pub open spec fn notify_for(n: nat) -> Notify {
    if n == 0 {
        Notify::Nobody
    } else if n == 1 {
        Notify::One
    } else {
        Notify::All
    }
}

/// For (mostly) contentions free queue insertion every thread maintains a private
/// 'stash'. When messages are send to the PriorityQueue while it is locked they are stored in
/// this stash. Once the lock is obtained the stashed messages will be moved to the
/// PriorityQueue. This can also be enforced with the 'PriorityQueue::sync()' function.
pub struct Stash<K, P>(Vec<QueueEntry<K, P>>) where K: Send, P: PartialOrd + Default + Ord;

impl<K, P> Stash<K, P> where K: Send, P: PartialOrd + Default + Ord {
    /// A stash only ever holds entries sent by a user.
    pub closed spec fn wf(&self) -> bool {
        forall|i: int| 0 <= i < self.0@.len() ==> (#[trigger] self.0@[i]).is_queueable()
    }

    /// The entries waiting in the stash.
    pub closed spec fn entries(&self) -> Seq<QueueEntry<K, P>> {
        self.0@
    }

    /// Creates a new stash.
    pub fn new() -> (s: Self)
        ensures
            s.wf(),
            s.entries() == Seq::<QueueEntry<K, P>>::empty(),
    {
        Stash(Vec::new())
    }
}

impl<K, P> Default for Stash<K, P> where K: Send, P: PartialOrd + Default + Ord {
    fn default() -> (s: Self)
        ensures
            s.wf(),
            s.entries() == Seq::<QueueEntry<K, P>>::empty(),
    {
        Self::new()
    }
}


impl<K> Stash<K, u64> where K: Send {
    /// Keeps `entry` in the stash, to be moved onto the queue later: this is where an
    /// entry goes that is sent while the queue is locked elsewhere.
    pub fn push(&mut self, entry: QueueEntry<K, u64>)
        requires
            old(self).wf(),
            entry.is_queueable(),
        ensures
            final(self).wf(),
            final(self).entries() == old(self).entries().push(entry),
    {
        self.0.push(entry);
    }
}

/// The work in progress of a queue: the number of entries sent (and `Drained` entries
/// queued) whose guards have not yet been released, counted modulo the machine word, and
/// whether a `Drained` entry was queued since the last entry was sent.
pub struct WorkCount {
    in_progress: usize,
    is_drained: bool,
}

impl WorkCount {
    /// The number of pieces of work in flight.
    pub closed spec fn count(&self) -> nat {
        self.in_progress as nat
    }

    /// Whether a `Drained` entry was queued since the last entry was sent.
    pub closed spec fn drained(&self) -> bool {
        self.is_drained
    }

    /// `after` is this count once the claim to queue `Drained` was answered with `claimed`.
    pub open spec fn claimed(self, claimed: bool, after: Self) -> bool {
        &&& claimed == !self.drained()
        &&& after.drained()
        &&& after.count() == (if claimed { count_up(self.count()) } else { self.count() })
    }

    /// `after` is this count once a guard was released, answered with whether `Drained` is to
    /// be queued now.
    pub open spec fn released(self, queue_drained: bool, after: Self) -> bool {
        &&& queue_drained == (self.count() == 1 && !self.drained())
        &&& queue_drained ==> after.count() == 1 && after.drained()
        &&& !queue_drained ==> after.count() == count_down(self.count()) && after.drained() == self.drained()
    }

    /// No work in flight, drained.
    pub fn new() -> (w: Self)
        ensures
            w.count() == 0,
            w.drained(),
    {
        WorkCount { in_progress: 0, is_drained: true }
    }

    /// Counts an entry sent: one more piece of work, not drained.
    pub fn begin(&mut self)
        ensures
            final(self).count() == count_up(old(self).count()),
            !final(self).drained(),
    {
        self.in_progress = self.in_progress.wrapping_add(1);
        self.is_drained = false;
    }

    /// Claims the right to queue the 'Drained' entry: granted unless one was queued since the
    /// last entry was sent. The `Drained` entry granted counts as work of its own.
    pub fn claim_drained(&mut self) -> (claimed: bool)
        ensures
            old(self).claimed(claimed, *final(self)),
    {
        if !self.is_drained {
            self.is_drained = true;
            self.in_progress = self.in_progress.wrapping_add(1);
            true
        } else {
            false
        }
    }

    /// Counts a released guard: one piece of work less. Returns whether a `Drained` entry is
    /// to be queued now, which is so when this was the last piece of work and the claim to
    /// queue `Drained` was granted.
    pub fn release(&mut self) -> (queue_drained: bool)
        ensures
            old(self).released(queue_drained, *final(self)),
    {
        let prev = self.in_progress;
        self.in_progress = prev.wrapping_sub(1);
        if prev == 1 {
            self.claim_drained()
        } else {
            false
        }
    }
}

impl Default for WorkCount {
    fn default() -> (w: Self)
        ensures
            w.count() == 0,
            w.drained(),
    {
        WorkCount::new()
    }
}

/// The entries of a queue, kept as a binary heap: the part of the queue that is locked to
/// send and receive.
pub struct QueueHeap<K, P> where K: Send, P: PartialOrd + Default + Ord {
    heap: Vec<QueueEntry<K, P>>,
}

impl<K, P> QueueHeap<K, P> where K: Send, P: PartialOrd + Default + Ord {
    /// The entries in the queue, waiting to be received.
    pub closed spec fn queued(&self) -> Multiset<QueueEntry<K, P>> {
        self.heap@.to_multiset()
    }
}

/// A queue which orders entrys by priority (smallest first)
pub struct PriorityQueue<K, P> where K: Send, P: PartialOrd + Default + Ord {
    entries: QueueHeap<K, P>,
    work: WorkCount,
}

impl<K, P> PriorityQueue<K, P> where K: Send, P: PartialOrd + Default + Ord {
    /// The entries in the queue, waiting to be received.
    pub closed spec fn queued(&self) -> Multiset<QueueEntry<K, P>> {
        self.entries.queued()
    }

    /// The number of entries sent (and `Drained` entries queued) whose guards have not yet
    /// been released, counted modulo the machine word.
    pub closed spec fn in_flight(&self) -> nat {
        self.work.count()
    }

    /// Whether a `Drained` entry was queued since the last entry was sent.
    pub closed spec fn drained(&self) -> bool {
        self.work.drained()
    }
}

impl<K> Default for PriorityQueue<K, u64> where K: Send {
    fn default() -> (q: Self)
        ensures
            q.wf(),
            q.queued() =~= Multiset::empty(),
            q.in_flight() == 0,
            q.drained(),
    {
        Self::new()
    }
}

/// The counter of work in flight after one more entry is counted (the machine word wraps).
pub open spec fn count_up(n: nat) -> nat {
    if n < usize::MAX {
        n + 1
    } else {
        0
    }
}

/// The counter of work in flight after one entry is released (the machine word wraps).
pub open spec fn count_down(n: nat) -> nat {
    if n > 0 {
        (n - 1) as nat
    } else {
        usize::MAX as nat
    }
}

/// `e` leaves the queue no later than any entry in `m`.
pub open spec fn is_first_of<K: Send>(e: QueueEntry<K, u64>, m: Multiset<QueueEntry<K, u64>>) -> bool {
    forall|x: QueueEntry<K, u64>| m.count(x) > 0 ==> e.precedes(x)
}

/// `a` leaves the queue strictly before `b`.
fn leaves_before<K: Send>(a: &QueueEntry<K, u64>, b: &QueueEntry<K, u64>) -> (r: bool)
    requires
        a.is_queueable(),
        b.is_queueable(),
    ensures
        r ==> a.precedes(*b),
        !r ==> b.precedes(*a),
{
    match a.cmp(b) {
        Ordering::Greater => true,
        _ => false,
    }
}

/// All entries of `s` may be held by a queue.
spec fn all_queueable<K: Send>(s: Seq<QueueEntry<K, u64>>) -> bool {
    forall|i: int| 0 <= i < s.len() ==> (#[trigger] s[i]).is_queueable()
}

/// The entry at `j` leaves no earlier than its parent in the binary heap `s`.
spec fn below_parent<K: Send>(s: Seq<QueueEntry<K, u64>>, j: int) -> bool {
    s[(j - 1) / 2].precedes(s[j])
}

/// `s` is a binary heap: every entry leaves no earlier than its parent.
spec fn heap_ordered<K: Send>(s: Seq<QueueEntry<K, u64>>) -> bool {
    forall|j: int| 0 < j < s.len() ==> #[trigger] below_parent(s, j)
}

/// `s` is a binary heap but for the entry at `i`, which may leave before its parent, while
/// the parent of `i` leaves no later than the children of `i`.
spec fn heap_but_up<K: Send>(s: Seq<QueueEntry<K, u64>>, i: int) -> bool {
    &&& forall|j: int| 0 < j < s.len() && j != i ==> #[trigger] below_parent(s, j)
    &&& i > 0 ==> forall|c: int|
        0 < c < s.len() && (c - 1) / 2 == i ==> s[(i - 1) / 2].precedes(#[trigger] s[c])
}

/// `s` is a binary heap but for the children of `i`, which may leave before `i`, while the
/// parent of `i` leaves no later than the children of `i`.
spec fn heap_but_down<K: Send>(s: Seq<QueueEntry<K, u64>>, i: int) -> bool {
    &&& forall|j: int| 0 < j < s.len() && (j - 1) / 2 != i ==> #[trigger] below_parent(s, j)
    &&& i > 0 ==> forall|c: int|
        0 < c < s.len() && (c - 1) / 2 == i ==> s[(i - 1) / 2].precedes(#[trigger] s[c])
}

/// The order of leaving is transitive.
proof fn lemma_precedes_transitive<K: Send>(a: QueueEntry<K, u64>, b: QueueEntry<K, u64>, c: QueueEntry<K, u64>)
    requires
        a.precedes(b),
        b.precedes(c),
    ensures
        a.precedes(c),
{
}

/// The root of a binary heap leaves no later than the entry at `i`.
proof fn lemma_root_first_at<K: Send>(s: Seq<QueueEntry<K, u64>>, i: int)
    requires
        heap_ordered(s),
        all_queueable(s),
        0 <= i < s.len(),
    ensures
        s[0].precedes(s[i]),
    decreases i,
{
    if i > 0 {
        assert(below_parent(s, i));
        lemma_root_first_at(s, (i - 1) / 2);
        lemma_precedes_transitive(s[0], s[(i - 1) / 2], s[i]);
    }
}

/// Exchanges the entries at `i` and `j`.
fn swap_entries<K: Send>(v: &mut Vec<QueueEntry<K, u64>>, i: usize, j: usize)
    requires
        i < old(v)@.len(),
        j < old(v)@.len(),
        i != j,
    ensures
        final(v)@ == old(v)@.update(i as int, old(v)@[j as int]).update(j as int, old(v)@[i as int]),
        final(v)@.to_multiset() =~= old(v)@.to_multiset(),
{
    let mut tmp: QueueEntry<K, u64> = QueueEntry::Taken;
    std::mem::swap(&mut tmp, &mut v[i]);
    std::mem::swap(&mut tmp, &mut v[j]);
    std::mem::swap(&mut tmp, &mut v[i]);
    proof {
        let s = old(v)@;
        let s1 = s.update(i as int, s[j as int]);
        assert(v@ =~= s1.update(j as int, s[i as int]));
        assert(s1.to_multiset() =~= s.to_multiset().insert(s[j as int]).remove(s[i as int]));
        assert(v@.to_multiset() =~= s1.to_multiset().insert(s[i as int]).remove(s1[j as int]));
    }
}

/// Moves the entry at `i` up until it leaves no earlier than its parent.
fn sift_up<K: Send>(v: &mut Vec<QueueEntry<K, u64>>, i: usize)
    requires
        i < old(v)@.len(),
        all_queueable(old(v)@),
        heap_but_up(old(v)@, i as int),
    ensures
        final(v)@.to_multiset() =~= old(v)@.to_multiset(),
        all_queueable(final(v)@),
        heap_ordered(final(v)@),
    decreases i,
{
    if i == 0 {
        return;
    }
    let p = (i - 1) / 2;
    if leaves_before(&v[i], &v[p]) {
        let ghost s = v@;
        swap_entries(v, i, p);
        proof {
            let t = v@;
            assert forall|j: int| 0 < j < t.len() && j != p implies #[trigger] below_parent(t, j) by {
                let q = (j - 1) / 2;
                if j == i {
                } else if q == i {
                    assert(s[(i - 1) / 2].precedes(s[j]));
                } else if q == p {
                    assert(below_parent(s, j));
                    lemma_precedes_transitive(s[i as int], s[p as int], s[j]);
                } else {
                    assert(below_parent(s, j));
                }
            }
            if p > 0 {
                assert forall|c: int| 0 < c < t.len() && (c - 1) / 2 == p implies t[(p - 1) / 2].precedes(#[trigger] t[c]) by {
                    assert(below_parent(s, p as int));
                    if c != i {
                        assert(below_parent(s, c));
                        lemma_precedes_transitive(s[(p - 1) / 2], s[p as int], s[c]);
                    }
                }
            }
        }
        sift_up(v, p);
    } else {
        proof {
            assert forall|j: int| 0 < j < v@.len() implies #[trigger] below_parent(v@, j) by {
                if j == i {
                }
            }
        }
    }
}

/// Moves the entry at `i` down until its children leave no earlier than it.
fn sift_down<K: Send>(v: &mut Vec<QueueEntry<K, u64>>, i: usize)
    requires
        i < old(v)@.len(),
        all_queueable(old(v)@),
        heap_but_down(old(v)@, i as int),
    ensures
        final(v)@.to_multiset() =~= old(v)@.to_multiset(),
        all_queueable(final(v)@),
        heap_ordered(final(v)@),
    decreases old(v)@.len() - i,
{
    let len = v.len();
    if i >= len / 2 {
        proof {
            assert forall|j: int| 0 < j < v@.len() implies #[trigger] below_parent(v@, j) by {
            }
        }
        return;
    }
    let l = 2 * i + 1;
    let r = l + 1;
    let mut c = l;
    if r < len && leaves_before(&v[r], &v[l]) {
        c = r;
    }
    let ghost s = v@;
    assert(r < len ==> s[c as int].precedes(s[l as int]) && s[c as int].precedes(s[r as int]));
    if leaves_before(&v[c], &v[i]) {
        swap_entries(v, i, c);
        proof {
            let t = v@;
            assert forall|j: int| 0 < j < t.len() && (j - 1) / 2 != c implies #[trigger] below_parent(t, j) by {
                let q = (j - 1) / 2;
                if j == c {
                } else if q == i {
                    assert(j == l || j == r);
                } else if j == i {
                    assert(s[(i - 1) / 2].precedes(s[c as int]));
                } else {
                    assert(below_parent(s, j));
                }
            }
            assert forall|g: int| 0 < g < t.len() && (g - 1) / 2 == c implies t[(c - 1) / 2].precedes(#[trigger] t[g]) by {
                assert(below_parent(s, g));
            }
        }
        sift_down(v, c);
    } else {
        proof {
            assert forall|j: int| 0 < j < v@.len() implies #[trigger] below_parent(v@, j) by {
                if (j - 1) / 2 == i {
                    assert(j == l || j == r);
                    if j == r {
                        lemma_precedes_transitive(s[i as int], s[c as int], s[r as int]);
                    } else {
                        lemma_precedes_transitive(s[i as int], s[c as int], s[l as int]);
                    }
                }
            }
        }
    }
}

impl<K> QueueHeap<K, u64> where K: Send {
    /// The heap only holds sent entries and `Drained`, in heap order.
    pub closed spec fn wf(&self) -> bool {
        &&& all_queueable(self.heap@)
        &&& heap_ordered(self.heap@)
    }

    /// No entries.
    pub fn new() -> (h: Self)
        ensures
            h.wf(),
            h.queued() =~= Multiset::empty(),
    {
        QueueHeap { heap: Vec::new() }
    }

    /// Adds `e` to the heap.
    fn push_entry(&mut self, e: QueueEntry<K, u64>)
        requires
            old(self).wf(),
            e.is_queueable(),
        ensures
            final(self).wf(),
            final(self).queued() =~= old(self).queued().insert(e),
    {
        self.heap.push(e);
        let i = self.heap.len() - 1;
        proof {
            let t = self.heap@;
            assert forall|j: int| 0 < j < t.len() && j != i implies #[trigger] below_parent(t, j) by {
                assert(below_parent(old(self).heap@, j));
            }
        }
        sift_up(&mut self.heap, i);
    }

    /// Moves all entries of `stash` onto the queue.
    fn push_stash(&mut self, stash: &mut Stash<K, u64>)
        requires
            old(self).wf(),
            old(stash).wf(),
        ensures
            final(self).wf(),
            final(stash).wf(),
            final(stash).entries() == Seq::<QueueEntry<K, u64>>::empty(),
            final(self).queued() =~= old(self).queued().add(old(stash).entries().to_multiset()),
    {
        let ghost total = old(self).queued().add(old(stash).entries().to_multiset());
        while stash.0.len() > 0
            invariant
                self.wf(),
                stash.wf(),
                self.queued().add(stash.entries().to_multiset()) =~= total,
            decreases stash.0@.len(),
        {
            let ghost before = stash.0@;
            match stash.0.pop() {
                Some(e) => {
                    proof {
                        assert(before =~= stash.0@.push(e));
                        assert(before[before.len() - 1] == e);
                    }
                    self.push_entry(e);
                },
                None => {},
            }
        }
        proof {
            assert(stash.0@ =~= Seq::<QueueEntry<K, u64>>::empty());
        }
    }

    /// Inserts all elements from the stash to the heap, emties stash.
    pub fn sync(&mut self, stash: &mut Stash<K, u64>) -> (n: Notify)
        requires
            old(self).wf(),
            old(stash).wf(),
        ensures
            final(self).wf(),
            final(stash).wf(),
            final(stash).entries() == Seq::<QueueEntry<K, u64>>::empty(),
            final(self).queued() == old(self).queued().add(old(stash).entries().to_multiset()),
            n == notify_for(old(stash).entries().len()),
            old(stash).entries().len() == 0 ==> n == Notify::Nobody,
            old(stash).entries().len() == 1 ==> n == Notify::One,
            old(stash).entries().len() >= 2 ==> n == Notify::All,
    {
        let mut notify = Notify::Nobody;
        if stash.0.len() != 0 {
            if stash.0.len() == 1 {
                notify = Notify::One;
            } else {
                notify = Notify::All;
            }
            self.push_stash(stash);
        } else {
            proof {
                assert(stash.0@ =~= Seq::<QueueEntry<K, u64>>::empty());
                assert(old(stash).entries().to_multiset() =~= Multiset::empty());
                assert(old(self).queued().add(Multiset::empty()) =~= old(self).queued());
            }
        }
        proof {
            assert(self.queued() =~= old(self).queued().add(old(stash).entries().to_multiset()));
        }
        notify
    }

    /// Queues `entry` while holding the lock on the heap: the stash goes first, then the
    /// entry.
    pub fn send_msg(&mut self, entry: QueueEntry<K, u64>, stash: &mut Stash<K, u64>) -> (n: Notify)
        requires
            old(self).wf(),
            old(stash).wf(),
            entry.is_queueable(),
        ensures
            final(self).wf(),
            final(stash).wf(),
            final(stash).entries() == Seq::<QueueEntry<K, u64>>::empty(),
            final(self).queued() =~= old(self).queued().add(old(stash).entries().to_multiset()).insert(entry),
            n == (if old(stash).entries().len() == 0 { Notify::One } else { Notify::All }),
    {
        let notify;
        if stash.0.len() == 0 {
            notify = Notify::One;
            proof {
                assert(stash.0@ =~= Seq::<QueueEntry<K, u64>>::empty());
                assert(old(self).queued().add(Multiset::empty()) =~= old(self).queued());
            }
        } else {
            notify = Notify::All;
            self.push_stash(stash);
        }
        self.push_entry(entry);
        notify
    }

    /// Queues the 'Drained' entry (after its claim was granted) and wakes one receiver.
    pub fn push_drained(&mut self) -> (n: Notify)
        requires
            old(self).wf(),
        ensures
            final(self).wf(),
            final(self).queued() =~= old(self).queued().insert(QueueEntry::Drained),
            n == Notify::One,
    {
        self.push_entry(QueueEntry::Drained);
        Notify::One
    }

    /// Removes the entry that leaves first, if any.
    fn pop(&mut self) -> (r: Option<QueueEntry<K, u64>>)
        requires
            old(self).wf(),
        ensures
            final(self).wf(),
            old(self).queued().len() == 0 ==> r is None && final(self).queued() == old(self).queued(),
            old(self).queued().len() > 0 ==> (r matches Some(e) && old(self).queued().count(e) > 0
                && is_first_of(e, old(self).queued())
                && final(self).queued() =~= old(self).queued().remove(e)),
            r matches Some(e) ==> e.is_queueable(),
    {
        if self.heap.len() == 0 {
            return None;
        }
        let ghost s = self.heap@;
        proof {
            assert forall|x: QueueEntry<K, u64>| old(self).queued().count(x) > 0 implies s[0].precedes(x) by {
                assert(s.contains(x));
                let j = choose|j: int| 0 <= j < s.len() && s[j] == x;
                lemma_root_first_at(s, j);
            }
            assert(s.to_multiset().count(s[0]) > 0);
        }
        let mut top = match self.heap.pop() {
            Some(last) => last,
            None => QueueEntry::Taken,
        };
        proof {
            assert(s =~= self.heap@.push(top));
        }
        if self.heap.len() == 0 {
            proof {
                assert(self.heap@.to_multiset() =~= s.to_multiset().remove(top));
            }
            return Some(top);
        }
        let ghost v1 = self.heap@;
        std::mem::swap(&mut top, &mut self.heap[0]);
        proof {
            let t = self.heap@;
            assert(t =~= v1.update(0, s.last()));
            assert(t.to_multiset() =~= v1.to_multiset().insert(s.last()).remove(v1[0]));
            assert forall|j: int| 0 < j < t.len() && (j - 1) / 2 != 0 implies #[trigger] below_parent(t, j) by {
                assert(below_parent(s, j));
            }
        }
        sift_down(&mut self.heap, 0);
        Some(top)
    }

    /// Try to get the smallest entry from the heap. Will return Some<ReceiveGuard> when an
    /// entry is available.
    pub fn try_recv(&mut self) -> (r: Option<ReceiveGuard<K, u64>>)
        requires
            old(self).wf(),
        ensures
            final(self).wf(),
            old(self).queued().len() == 0 ==> r is None && final(self).queued() == old(self).queued(),
            old(self).queued().len() > 0 ==> (r matches Some(g) && old(self).queued().count(g.view()) > 0
                && is_first_of(g.view(), old(self).queued())
                && final(self).queued() =~= old(self).queued().remove(g.view())),
    {
        match self.pop() {
            Some(entry) => Some(ReceiveGuard::new(entry)),
            None => None,
        }
    }
}

impl<K> Default for QueueHeap<K, u64> where K: Send {
    fn default() -> (h: Self)
        ensures
            h.wf(),
            h.queued() =~= Multiset::empty(),
    {
        Self::new()
    }
}

impl<K> PriorityQueue<K, u64> where K: Send {
    /// The entries are a well formed heap.
    pub closed spec fn wf(&self) -> bool {
        self.entries.wf()
    }

    /// Create a new PriorityQueue
    pub fn new() -> (q: Self)
        ensures
            q.wf(),
            q.queued() =~= Multiset::empty(),
            q.in_flight() == 0,
            q.drained(),
    {
        PriorityQueue { entries: QueueHeap::new(), work: WorkCount::new() }
    }

    /// `after` is this queue once the entries of `stash` were moved onto it.
    pub open spec fn synced(self, stash: Seq<QueueEntry<K, u64>>, after: Self) -> bool {
        &&& after.queued() == self.queued().add(stash.to_multiset())
        &&& after.in_flight() == self.in_flight()
        &&& after.drained() == self.drained()
    }

    /// `after` (with `stash_after`) is this queue (with `stash`) once `e` was handed to it:
    /// with the queue locked, behind the entries of `stash`; otherwise kept in the stash.
    pub open spec fn sent_msg(
        self,
        stash: Seq<QueueEntry<K, u64>>,
        e: QueueEntry<K, u64>,
        locked: bool,
        after: Self,
        stash_after: Seq<QueueEntry<K, u64>>,
    ) -> bool {
        &&& locked ==> after.queued() == self.queued().add(stash.to_multiset()).insert(e)
            && stash_after == Seq::<QueueEntry<K, u64>>::empty()
        &&& !locked ==> after.queued() == self.queued() && stash_after == stash.push(e)
        &&& after.in_flight() == self.in_flight()
        &&& after.drained() == self.drained()
    }

    /// `after` (with `stash_after`) is this queue (with `stash`) once `e` was sent: one more
    /// piece of work in flight, not drained, and `e` handed to the queue as `sent_msg` says.
    pub open spec fn sent(
        self,
        stash: Seq<QueueEntry<K, u64>>,
        e: QueueEntry<K, u64>,
        locked: bool,
        after: Self,
        stash_after: Seq<QueueEntry<K, u64>>,
    ) -> bool {
        &&& locked ==> after.queued() == self.queued().add(stash.to_multiset()).insert(e)
            && stash_after == Seq::<QueueEntry<K, u64>>::empty()
        &&& !locked ==> after.queued() == self.queued() && stash_after == stash.push(e)
        &&& after.in_flight() == count_up(self.in_flight())
        &&& !after.drained()
    }

    /// `after` is this queue once `e`, an entry that leaves first, was received from it.
    pub open spec fn received(self, e: QueueEntry<K, u64>, after: Self) -> bool {
        &&& self.queued().count(e) > 0
        &&& is_first_of(e, self.queued())
        &&& after.queued() == self.queued().remove(e)
        &&& after.in_flight() == self.in_flight()
        &&& after.drained() == self.drained()
    }

    /// The release of a guard finishes the last piece of work in flight, and no `Drained`
    /// entry was queued since the last entry was sent.
    pub open spec fn finishes_work(self) -> bool {
        self.in_flight() == 1 && !self.drained()
    }

    /// `after` is this queue once a guard was released to it.
    pub open spec fn released(self, after: Self) -> bool {
        if self.finishes_work() {
            &&& after.queued() == self.queued().insert(QueueEntry::Drained)
            &&& after.in_flight() == 1
            &&& after.drained()
        } else {
            &&& after.queued() == self.queued()
            &&& after.in_flight() == count_down(self.in_flight())
            &&& after.drained() == self.drained()
        }
    }

    /// Inserts all elements from the stash to the PriorityQueue, emties stash.
    pub fn sync(&mut self, stash: &mut Stash<K, u64>) -> (n: Notify)
        requires
            old(self).wf(),
            old(stash).wf(),
        ensures
            final(self).wf(),
            final(stash).wf(),
            final(stash).entries() == Seq::<QueueEntry<K, u64>>::empty(),
            old(self).synced(old(stash).entries(), *final(self)),
            n == notify_for(old(stash).entries().len()),
            old(stash).entries().len() == 0 ==> n == Notify::Nobody,
            old(stash).entries().len() == 1 ==> n == Notify::One,
            old(stash).entries().len() >= 2 ==> n == Notify::All,
    {
        self.entries.sync(stash)
    }

    /// Hands `entry` to the queue. `locked` tells whether the lock on the queue was
    /// obtained: then the stash goes onto the queue first, then the entry, and receivers are
    /// to be woken. Otherwise the entry waits in the stash and nobody is woken.
    pub fn send_msg(&mut self, entry: QueueEntry<K, u64>, stash: &mut Stash<K, u64>, locked: bool) -> (n: Notify)
        requires
            old(self).wf(),
            old(stash).wf(),
            entry.is_queueable(),
        ensures
            final(self).wf(),
            final(stash).wf(),
            old(self).sent_msg(old(stash).entries(), entry, locked, *final(self), final(stash).entries()),
            n == (if !locked { Notify::Nobody } else if old(stash).entries().len() == 0 { Notify::One } else { Notify::All }),
    {
        if locked {
            self.entries.send_msg(entry, stash)
        } else {
            stash.push(entry);
            Notify::Nobody
        }
    }

    /// Pushes an entry with some prio onto the queue, after all entries waiting in `stash`;
    /// when the queue was not locked (`locked` false) the entry waits in the stash.
    pub fn send(&mut self, entry: K, prio: u64, stash: &mut Stash<K, u64>, locked: bool) -> (n: Notify)
        requires
            old(self).wf(),
            old(stash).wf(),
        ensures
            final(self).wf(),
            final(stash).wf(),
            old(self).sent(old(stash).entries(), QueueEntry::Entry(entry, prio), locked, *final(self), final(stash).entries()),
            n == (if !locked { Notify::Nobody } else if old(stash).entries().len() == 0 { Notify::One } else { Notify::All }),
    {
        self.work.begin();
        self.send_msg(QueueEntry::Entry(entry, prio), stash, locked)
    }

    /// Returns the entry that leaves first, wrapped in a ReceiveGuard. The queue must hold
    /// an entry: a receiver of a shared queue waits until one arrives.
    pub fn recv(&mut self) -> (g: ReceiveGuard<K, u64>)
        requires
            old(self).wf(),
            old(self).queued().len() > 0,
        ensures
            final(self).wf(),
            old(self).received(g.view(), *final(self)),
    {
        match self.entries.try_recv() {
            Some(guard) => guard,
            None => {
                proof {
                    assert(false);
                }
                ReceiveGuard::new(QueueEntry::Drained)
            },
        }
    }

    /// Try to get the smallest entry from a queue. Will return Some<ReceiveGuard> when an entry is available.
    pub fn try_recv(&mut self) -> (r: Option<ReceiveGuard<K, u64>>)
        requires
            old(self).wf(),
        ensures
            final(self).wf(),
            old(self).queued().len() == 0 ==> r is None && final(self).queued() == old(self).queued(),
            old(self).queued().len() > 0 ==> (r matches Some(g) && old(self).received(g.view(), *final(self))),
            final(self).in_flight() == old(self).in_flight(),
            final(self).drained() == old(self).drained(),
    {
        self.entries.try_recv()
    }

    /// Ends the processing of a received entry: one piece of work less is in flight. When
    /// this was the last one, the 'Drained' entry is queued (once).
    pub fn release(&mut self, guard: ReceiveGuard<K, u64>) -> (n: Notify)
        requires
            old(self).wf(),
        ensures
            final(self).wf(),
            old(self).released(*final(self)),
            n == (if old(self).finishes_work() { Notify::One } else { Notify::Nobody }),
    {
        let (_entry, queue_drained) = guard.finish(&mut self.work);
        if queue_drained {
            self.entries.push_drained()
        } else {
            Notify::Nobody
        }
    }
}

/// Wraps a QueueEntry that was received from a queue. Releasing it to the queue ends the
/// processing of the entry and may queue the final 'Drained' entry.
#[derive(Debug)]
pub struct ReceiveGuard<K, P> where K: Send, P: PartialOrd + Default + Ord {
    entry: QueueEntry<K, P>,
}

impl<K, P> ReceiveGuard<K, P> where K: Send, P: PartialOrd + Default + Ord {
    /// The received entry.
    pub closed spec fn view(&self) -> QueueEntry<K, P> {
        self.entry
    }

    fn new(entry: QueueEntry<K, P>) -> (g: Self)
        ensures
            g.view() == entry,
    {
        ReceiveGuard { entry }
    }

    /// Returns a reference to the received entry.
    pub fn entry(&self) -> (r: &QueueEntry<K, P>)
        ensures
            *r == self.view(),
    {
        &self.entry
    }

    /// Takes the entry out of the guard and counts its work as done in `work`. Returns the
    /// entry and whether the 'Drained' entry is to be queued now.
    pub fn finish(self, work: &mut WorkCount) -> (r: (QueueEntry<K, P>, bool))
        ensures
            r.0 == self.view(),
            old(work).released(r.1, *final(work)),
    {
        let queue_drained = work.release();
        (self.entry, queue_drained)
    }
}

impl<K> ReceiveGuard<K, u64> where K: Send {
    /// Takes the 'QueueEntry' entry out of a ReceiveGuard and releases the guard to `pq`
    /// (which may by that queue the 'Drained' entry).
    pub fn into_entry(self, pq: &mut PriorityQueue<K, u64>) -> (r: (QueueEntry<K, u64>, Notify))
        requires
            old(pq).wf(),
        ensures
            final(pq).wf(),
            r.0 == self.view(),
            old(pq).released(*final(pq)),
            r.1 == (if old(pq).finishes_work() { Notify::One } else { Notify::Nobody }),
    {
        let (taken, queue_drained) = self.finish(&mut pq.work);
        let n = if queue_drained {
            pq.entries.push_drained()
        } else {
            Notify::Nobody
        };
        (taken, n)
    }
}

/// The wake-up after moving entries onto a queue reaches as many receivers as entries
/// arrived: nobody for none, one receiver for one entry, and every waiting receiver for two
/// or more; more entries never wake fewer receivers.
pub proof fn law_wake_up_covers_arrivals(n: nat, m: nat)
    ensures
        (notify_for(n) == Notify::Nobody) == (n == 0),
        (notify_for(n) == Notify::One) == (n == 1),
        (notify_for(n) == Notify::All) == (n >= 2),
        n <= m && notify_for(n) == Notify::All ==> notify_for(m) == Notify::All,
        n <= m && notify_for(n) != Notify::Nobody ==> notify_for(m) != Notify::Nobody,
{
}

/// The work in flight is exactly what is queued, what waits in `stash` and what `guards`
/// receivers hold.
pub open spec fn accounted<K: Send>(q: PriorityQueue<K, u64>, stash: Seq<QueueEntry<K, u64>>, guards: nat) -> bool {
    q.in_flight() == q.queued().len() + stash.len() + guards
}

/// Entries leave the queue in a total order: every two queueable entries are ordered, the
/// order is transitive, and `cmp` reports it consistently from both sides.
pub proof fn law_order_is_total<K: Send>(a: QueueEntry<K, u64>, b: QueueEntry<K, u64>, c: QueueEntry<K, u64>)
    requires
        a.is_queueable(),
        b.is_queueable(),
        c.is_queueable(),
    ensures
        a.precedes(a),
        a.precedes(b) || b.precedes(a),
        a.precedes(b) && b.precedes(c) ==> a.precedes(c),
        (a.order(b) == Ordering::Greater) == (a.precedes(b) && !b.precedes(a)),
        (a.order(b) == Ordering::Equal) == (a.precedes(b) && b.precedes(a)),
        (a.order(b) == Ordering::Less) == (b.order(a) == Ordering::Greater),
{
}

/// What leaves the queue first is `Drained` when one is queued, and otherwise an entry of
/// least priority.
pub proof fn law_first_is_drained_or_least<K: Send>(e: QueueEntry<K, u64>, m: Multiset<QueueEntry<K, u64>>, x: QueueEntry<K, u64>)
    requires
        is_first_of(e, m),
        m.count(x) > 0,
    ensures
        x is Drained ==> e is Drained,
        x is Entry ==> (e is Drained || (e is Entry && e->1 <= x->1)),
{
    assert(e.precedes(x));
}

/// `Drained` is queued at most once between two sends: a claim leaves the count drained,
/// and once drained, neither a claim nor a release asks for another `Drained` and the count
/// stays drained, until an entry is sent (`begin`).
pub proof fn law_drained_once_between_sends(w0: WorkCount, c: bool, w1: WorkCount, claim: bool, w2: WorkCount)
    requires
        w0.claimed(c, w1),
    ensures
        w1.drained(),
        w1.claimed(claim, w2) ==> !claim && w2.drained(),
        w1.released(claim, w2) ==> !claim && w2.drained(),
{
}

/// Two entries received one after the other, with nothing sent in between, leave in order:
/// the first leaves no later than the second.
pub proof fn law_receives_in_order<K: Send>(
    q0: PriorityQueue<K, u64>,
    e1: QueueEntry<K, u64>,
    q1: PriorityQueue<K, u64>,
    e2: QueueEntry<K, u64>,
    q2: PriorityQueue<K, u64>,
)
    requires
        q0.received(e1, q1),
        q1.received(e2, q2),
    ensures
        e1.precedes(e2),
{
    assert(q0.queued().count(e2) > 0);
}

/// A new queue with an empty stash has no work in flight that nobody accounts for.
pub proof fn law_new_is_accounted<K: Send>(q: PriorityQueue<K, u64>, stash: Seq<QueueEntry<K, u64>>)
    requires
        q.queued() =~= Multiset::empty(),
        q.in_flight() == 0,
        stash.len() == 0,
    ensures
        accounted(q, stash, 0),
{
}

/// Sending keeps the work in flight accounted for (as long as the counter does not wrap),
/// whether the entry went onto the queue or waits in the stash.
pub proof fn law_send_keeps_account<K: Send>(
    q0: PriorityQueue<K, u64>,
    stash: Seq<QueueEntry<K, u64>>,
    e: QueueEntry<K, u64>,
    locked: bool,
    q1: PriorityQueue<K, u64>,
    stash_after: Seq<QueueEntry<K, u64>>,
    guards: nat,
)
    requires
        q0.sent(stash, e, locked, q1, stash_after),
        accounted(q0, stash, guards),
        q0.in_flight() < usize::MAX,
    ensures
        accounted(q1, stash_after, guards),
{
}

/// Sending never loses nor duplicates an entry: what is queued and what waits in the stash
/// together grow by exactly the entry sent.
pub proof fn law_send_keeps_entries<K: Send>(
    q0: PriorityQueue<K, u64>,
    stash: Seq<QueueEntry<K, u64>>,
    e: QueueEntry<K, u64>,
    locked: bool,
    q1: PriorityQueue<K, u64>,
    stash_after: Seq<QueueEntry<K, u64>>,
)
    requires
        q0.sent(stash, e, locked, q1, stash_after),
    ensures
        q1.queued().add(stash_after.to_multiset()) =~= q0.queued().add(stash.to_multiset()).insert(e),
{
    assert(Seq::<QueueEntry<K, u64>>::empty().to_multiset() =~= Multiset::empty());
}

/// Moving a stash onto the queue keeps the work in flight accounted for.
pub proof fn law_sync_keeps_account<K: Send>(
    q0: PriorityQueue<K, u64>,
    stash: Seq<QueueEntry<K, u64>>,
    q1: PriorityQueue<K, u64>,
    guards: nat,
)
    requires
        q0.synced(stash, q1),
        accounted(q0, stash, guards),
    ensures
        accounted(q1, Seq::<QueueEntry<K, u64>>::empty(), guards),
{
}

/// Receiving hands one piece of work from the queue to one more guard.
pub proof fn law_receive_keeps_account<K: Send>(
    q0: PriorityQueue<K, u64>,
    e: QueueEntry<K, u64>,
    q1: PriorityQueue<K, u64>,
    stash: Seq<QueueEntry<K, u64>>,
    guards: nat,
)
    requires
        q0.received(e, q1),
        accounted(q0, stash, guards),
    ensures
        accounted(q1, stash, guards + 1),
{
}

/// Releasing a guard keeps the work in flight accounted for: the guard's work ends, and a
/// `Drained` entry queued in its place counts as work of its own.
pub proof fn law_release_keeps_account<K: Send>(
    q0: PriorityQueue<K, u64>,
    q1: PriorityQueue<K, u64>,
    stash: Seq<QueueEntry<K, u64>>,
    guards: nat,
)
    requires
        q0.released(q1),
        accounted(q0, stash, guards + 1),
    ensures
        accounted(q1, stash, guards),
{
}

/// With the work accounted for, releasing a guard queues `Drained` exactly when this
/// guard held the last piece of work (nothing queued, nothing stashed, no other guard)
/// and no `Drained` was queued since the last entry was sent.
pub proof fn law_drained_when_work_is_done<K: Send>(
    q0: PriorityQueue<K, u64>,
    q1: PriorityQueue<K, u64>,
    stash: Seq<QueueEntry<K, u64>>,
    guards: nat,
)
    requires
        q0.released(q1),
        accounted(q0, stash, guards + 1),
    ensures
        (q1.queued().count(QueueEntry::Drained) > q0.queued().count(QueueEntry::Drained)) == (
        q0.queued().len() == 0 && stash.len() == 0 && guards == 0 && !q0.drained()),
{
}

} // verus!
