//! Interned object names. Every distinct name is stored once and shared by all paths that
//! use it. The store is split into `N` shards; a name lives in the shard that the sum of its
//! bytes selects.
use std::sync::Arc;
use vstd::prelude::*;

verus! {

/// The sum of all bytes of `s`.
pub open spec fn byte_sum(s: Seq<u8>) -> nat
    decreases s.len(),
{
    if s.len() == 0 {
        0
    } else {
        byte_sum(s.drop_last()) + (s.last() as nat)
    }
}

/// The sum of a prefix never exceeds the sum of the whole.
pub proof fn lemma_byte_sum_prefix(s: Seq<u8>, i: int)
    requires
        0 <= i <= s.len(),
    ensures
        byte_sum(s.take(i)) <= byte_sum(s),
    decreases s.len() - i,
{
    if i < s.len() {
        lemma_byte_sum_prefix(s, i + 1);
        assert(s.take(i + 1).drop_last() =~= s.take(i));
    } else {
        assert(s.take(i) =~= s);
    }
}

/// The shard into which a name falls: the sum of its bytes modulo the number of shards.
pub open spec fn bucket_of(s: Seq<u8>, n: nat) -> nat
    recommends
        n > 0,
{
    byte_sum(s) % n
}

/// Defines into which of `N` buckets a name falls: sums up all its bytes modulo `N`.
pub fn bucket<const N: usize>(name: &[u8]) -> (b: usize)
    requires
        N > 0,
        byte_sum(name@) <= usize::MAX,
    ensures
        b == bucket_of(name@, N as nat),
        b < N,
{
    let mut sum: usize = 0;
    let mut i: usize = 0;
    while i < name.len()
        invariant
            0 <= i <= name@.len(),
            sum == byte_sum(name@.take(i as int)),
            byte_sum(name@) <= usize::MAX,
        decreases name@.len() - i,
    {
        proof {
            lemma_byte_sum_prefix(name@, i + 1);
            assert(name@.take(i + 1).drop_last() =~= name@.take(i as int));
        }
        sum = sum + name[i] as usize;
        i = i + 1;
    }
    proof {
        assert(name@.take(i as int) =~= name@);
    }
    sum % N
}

/// Compares two names byte by byte.
pub(crate) fn same_bytes(a: &[u8], b: &[u8]) -> (r: bool)
    ensures
        r == (a@ == b@),
{
    if a.len() != b.len() {
        return false;
    }
    let mut i: usize = 0;
    while i < a.len()
        invariant
            a@.len() == b@.len(),
            0 <= i <= a@.len(),
            forall|j: int| 0 <= j < i ==> a@[j] == b@[j],
        decreases a@.len() - i,
    {
        if a[i] != b[i] {
            return false;
        }
        i = i + 1;
    }
    proof {
        assert(a@ =~= b@);
    }
    true
}

/// An Arc shared name used for objectnames
#[derive(Debug, Hash, PartialEq, Eq, PartialOrd, Ord)]
pub struct InternedName {
    name: Arc<Vec<u8>>,
}

impl View for InternedName {
    type V = Seq<u8>;

    open spec fn view(&self) -> Seq<u8> {
        self.bytes()
    }
}

impl InternedName {
    /// The bytes of the name.
    pub closed spec fn bytes(&self) -> Seq<u8> {
        self.name@
    }

    /// Create a new InterenedName from a name. This InternedName is not yet part of any
    /// InternedNames collection. Use InternedNames::interning() for that!
    pub fn new(s: &[u8]) -> (n: InternedName)
        ensures
            n@ == s@,
    {
        let mut v: Vec<u8> = Vec::new();
        let mut i: usize = 0;
        while i < s.len()
            invariant
                0 <= i <= s@.len(),
                v@ == s@.take(i as int),
            decreases s@.len() - i,
        {
            v.push(s[i]);
            proof {
                assert(s@.take(i + 1) =~= s@.take(i as int).push(s@[i as int]));
            }
            i = i + 1;
        }
        proof {
            assert(s@.take(i as int) =~= s@);
        }
        InternedName { name: Arc::new(v) }
    }

    /// The bytes of the name.
    pub fn as_bytes(&self) -> (r: &[u8])
        ensures
            r@ == self@,
    {
        self.name.as_slice()
    }

    /// The length of the name in bytes.
    pub fn len(&self) -> (r: usize)
        ensures
            r == self@.len(),
    {
        self.name.len()
    }
}

impl Clone for InternedName {
    /// Shares the name: the clone refers to the same storage.
    fn clone(&self) -> (r: InternedName)
        ensures
            r@ == self@,
    {
        InternedName { name: self.name.clone() }
    }
}

/// Storage for all interned names, in `N` shards.
pub struct InternedNames<const N: usize> {
    cached_names: Vec<Vec<InternedName>>,
}

impl<const N: usize> InternedNames<N> {
    /// There are `N` shards, each name is stored once and in the shard its bucket selects.
    pub closed spec fn wf(&self) -> bool {
        &&& self.cached_names@.len() == N
        &&& forall|b: int, i: int|
            0 <= b < N && 0 <= i < self.cached_names@[b]@.len() ==> bucket_of(
                (#[trigger] self.cached_names@[b]@[i])@,
                N as nat,
            ) == b
        &&& forall|b: int, i: int, j: int|
            0 <= b < N && 0 <= i < j < self.cached_names@[b]@.len() ==> (
            #[trigger] self.cached_names@[b]@[i])@ != (#[trigger] self.cached_names@[b]@[j])@
    }

    /// The names stored.
    pub closed spec fn names(&self) -> Set<Seq<u8>> {
        Set::new(
            |s: Seq<u8>|
                exists|b: int, i: int|
                    0 <= b < self.cached_names@.len() && 0 <= i < self.cached_names@[b]@.len() && (
                    #[trigger] self.cached_names@[b]@[i])@ == s,
        )
    }

    /// Create a new InternedNames storage
    pub fn new() -> (r: InternedNames<N>)
        ensures
            r.wf(),
            r.names() =~= Set::<Seq<u8>>::empty(),
    {
        let mut cached_names: Vec<Vec<InternedName>> = Vec::new();
        let mut b: usize = 0;
        while b < N
            invariant
                0 <= b <= N,
                cached_names@.len() == b,
                forall|k: int| 0 <= k < b ==> (#[trigger] cached_names@[k])@.len() == 0,
            decreases N - b,
        {
            cached_names.push(Vec::new());
            b = b + 1;
        }
        InternedNames { cached_names }
    }

    /// interns the given name by either creating a new instance or returning the existing
    /// instance.
    pub fn interning(&mut self, name: &[u8]) -> (r: InternedName)
        requires
            old(self).wf(),
            N > 0,
            byte_sum(name@) <= usize::MAX,
        ensures
            final(self).wf(),
            r@ == name@,
            final(self).names() =~= old(self).names().insert(name@),
            old(self).names().contains(name@) ==> *final(self) == *old(self),
            !old(self).names().contains(name@) ==> (forall|b: int| 0 <= b < N && b != bucket_of(name@, N as nat)
                ==> #[trigger] final(self).shard_len(b) == old(self).shard_len(b)) && final(self).shard_len(
                bucket_of(name@, N as nat) as int,
            ) == old(self).shard_len(bucket_of(name@, N as nat) as int) + 1,
    {
        let b = bucket::<N>(name);
        let len = self.cached_names[b].len();
        let mut i: usize = 0;
        while i < len
            invariant
                self.wf(),
                b < N,
                len == self.cached_names@[b as int]@.len(),
                0 <= i <= len,
                forall|j: int| 0 <= j < i ==> (#[trigger] self.cached_names@[b as int]@[j])@ != name@,
            decreases len - i,
        {
            if same_bytes(self.cached_names[b][i].as_bytes(), name) {
                let found = self.cached_names[b][i].clone();
                proof {
                    assert(self.names() =~= self.names().insert(name@));
                }
                return found;
            }
            i = i + 1;
        }
        let fresh = InternedName::new(name);
        let ghost before = self.cached_names@;
        let mut shard = Vec::new();
        std::mem::swap(&mut shard, &mut self.cached_names[b]);
        shard.push(fresh.clone());
        std::mem::swap(&mut shard, &mut self.cached_names[b]);
        proof {
            assert(self.cached_names@ =~= before.update(b as int, self.cached_names@[b as int]));
            assert forall|s: Seq<u8>| #[trigger] self.names().contains(s) == old(self).names().insert(name@).contains(s) by {
                if old(self).names().contains(s) {
                    let (bb, ii) = choose|bb: int, ii: int|
                        0 <= bb < before.len() && 0 <= ii < before[bb]@.len() && (#[trigger] before[bb]@[ii])@ == s;
                    assert(self.cached_names@[bb]@[ii]@ == s);
                }
                if s == name@ {
                    assert(self.cached_names@[b as int]@[len as int]@ == s);
                }
                if self.names().contains(s) {
                    let (bb, ii) = choose|bb: int, ii: int|
                        0 <= bb < self.cached_names@.len() && 0 <= ii < self.cached_names@[bb]@.len() && (
                        #[trigger] self.cached_names@[bb]@[ii])@ == s;
                    if bb != b || ii != len {
                        assert(before[bb]@[ii]@ == s);
                    }
                }
            }
        }
        fresh
    }
}

impl<const N: usize> InternedNames<N> {
    /// The number of names stored in shard `b`.
    pub closed spec fn shard_len(&self, b: int) -> nat {
        self.cached_names@[b]@.len()
    }

    /// The name stored at position `i` of shard `b`.
    pub closed spec fn stored(&self, b: int, i: int) -> Seq<u8> {
        self.cached_names@[b]@[i]@
    }

    /// Every name is stored once: it sits in the shard its bucket selects, and no shard
    /// holds it twice. The names stored are exactly those at the positions of the shards.
    pub proof fn law_stored_once(&self)
        requires
            self.wf(),
            N > 0,
        ensures
            forall|b: int, i: int| 0 <= b < N && 0 <= i < self.shard_len(b) ==> bucket_of(#[trigger] self.stored(b, i), N as nat) == b,
            forall|b: int, i: int, j: int| 0 <= b < N && 0 <= i < j < self.shard_len(b) ==> #[trigger] self.stored(b, i) != #[trigger] self.stored(b, j),
            forall|s: Seq<u8>| #[trigger] self.names().contains(s) <==> exists|b: int, i: int| 0 <= b < N && 0 <= i < self.shard_len(b) && #[trigger] self.stored(b, i) == s,
    {
        assert forall|b: int, i: int| 0 <= b < N && 0 <= i < self.shard_len(b) implies bucket_of(#[trigger] self.stored(b, i), N as nat) == b by {
            assert(bucket_of(self.cached_names@[b]@[i]@, N as nat) == b);
        }
        assert forall|b: int, i: int, j: int| 0 <= b < N && 0 <= i < j < self.shard_len(b) implies #[trigger] self.stored(b, i) != #[trigger] self.stored(b, j) by {
            assert(self.cached_names@[b]@[i]@ != self.cached_names@[b]@[j]@);
        }
        assert forall|s: Seq<u8>| #[trigger] self.names().contains(s) <==> exists|b: int, i: int| 0 <= b < N && 0 <= i < self.shard_len(b) && #[trigger] self.stored(b, i) == s by {
            if self.names().contains(s) {
                let (b, i) = choose|b: int, i: int|
                    0 <= b < self.cached_names@.len() && 0 <= i < self.cached_names@[b]@.len() && (#[trigger] self.cached_names@[b]@[i])@ == s;
                assert(self.stored(b, i) == s);
            }
            if exists|b: int, i: int| 0 <= b < N && 0 <= i < self.shard_len(b) && #[trigger] self.stored(b, i) == s {
                let (b, i) = choose|b: int, i: int| 0 <= b < N && 0 <= i < self.shard_len(b) && #[trigger] self.stored(b, i) == s;
                assert(self.cached_names@[b]@[i]@ == s);
            }
        }
    }
}

impl<const N: usize> Default for InternedNames<N> {
    fn default() -> (r: Self)
        ensures
            r.wf(),
            r.names() =~= Set::<Seq<u8>>::empty(),
    {
        Self::new()
    }
}

} // verus!
