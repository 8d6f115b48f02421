//! Space efficient storage of paths. Instead of storing full path-names an ObjectPath stores
//! only the interned name of the object itself and a reference to its parent. ObjectPaths
//! are reference counted.
use std::sync::Arc;
use std::sync::atomic::AtomicBool;
use std::cmp::Ordering;
use vstd::prelude::*;
use vstd::std_specs::cmp::{PartialEqSpecImpl, PartialOrdSpecImpl};
use crate::internednames::{InternedName, InternedNames, byte_sum, same_bytes};

verus! {

/// The path separator.
pub const SEPARATOR: u8 = 47u8;

/// `buf` with `comp` pushed onto it as a path component: a component that starts with the
/// separator is absolute and replaces `buf`; otherwise a separator is put between them,
/// unless `buf` is empty or already ends with one.
pub open spec fn push_component(buf: Seq<u8>, comp: Seq<u8>) -> Seq<u8> {
    if comp.len() > 0 && comp[0] == SEPARATOR {
        comp
    } else if buf.len() > 0 && buf.last() != SEPARATOR {
        buf + seq![SEPARATOR] + comp
    } else {
        buf + comp
    }
}

/// `buf` with all of `comps` pushed onto it, first to last.
pub open spec fn joined(buf: Seq<u8>, comps: Seq<Seq<u8>>) -> Seq<u8>
    decreases comps.len(),
{
    if comps.len() == 0 {
        buf
    } else {
        push_component(joined(buf, comps.drop_last()), comps.last())
    }
}

/// The path that the components `comps` spell.
pub open spec fn path_of(comps: Seq<Seq<u8>>) -> Seq<u8> {
    joined(Seq::empty(), comps)
}

/// Pushes `comp` onto `target` as a path component.
fn push_component_exec(target: &mut Vec<u8>, comp: &[u8])
    ensures
        final(target)@ == push_component(old(target)@, comp@),
{
    if comp.len() > 0 && comp[0] == SEPARATOR {
        target.clear();
    } else if target.len() > 0 && target[target.len() - 1] != SEPARATOR {
        target.push(SEPARATOR);
    }
    let ghost start = target@;
    let mut i: usize = 0;
    while i < comp.len()
        invariant
            0 <= i <= comp@.len(),
            target@ == start + comp@.take(i as int),
        decreases comp@.len() - i,
    {
        target.push(comp[i]);
        proof {
            assert(comp@.take(i + 1) =~= comp@.take(i as int).push(comp@[i as int]));
        }
        i = i + 1;
    }
    proof {
        assert(comp@.take(i as int) =~= comp@);
        if comp@.len() > 0 && comp@[0] == SEPARATOR {
            assert(start =~= Seq::<u8>::empty());
        } else if old(target)@.len() > 0 && old(target)@.last() != SEPARATOR {
            assert(start =~= old(target)@ + seq![SEPARATOR]);
        }
    }
}

/// Where the directory handle of a path comes from.
#[derive(Debug, Clone, Copy, PartialEq, Eq, Structural)]
pub enum DirSource {
    /// The handle opened before for this path is still alive: reuse it.
    Reuse,
    /// The parent's handle is alive: open the directory relative to it.
    SubDirOfParent,
    /// Open the directory by its full path.
    OpenPath,
}

/// Decides where the directory handle of a path comes from: the path's own handle while it
/// lives, else through the parent's live handle, else by opening the full path.
pub fn dir_source(cached_alive: bool, parent_alive: bool) -> (s: DirSource)
    ensures
        s == (if cached_alive {
            DirSource::Reuse
        } else if parent_alive {
            DirSource::SubDirOfParent
        } else {
            DirSource::OpenPath
        }),
{
    if cached_alive {
        DirSource::Reuse
    } else if parent_alive {
        DirSource::SubDirOfParent
    } else {
        DirSource::OpenPath
    }
}

/// Space efficient storage of paths. Instead storing full path-names it stores only interned
/// strings of the actual object names and a reference to its parent. ObjectPaths are reference counted.
pub struct ObjectPath {
    inner: Arc<ObjectPathInner>,
}

/// The shared part of an ObjectPath: its parent, its name and whether it is watched.
pub struct ObjectPathInner {
    parent: Option<ObjectPath>,
    name: InternedName,
    watched: AtomicBool,
}

/// `Arc::strong_count` on the shared part of a path: the number of strong pointers to it.
/// Claims only that the number is at least one, since `inner` itself is such a pointer;
/// how many more there are is left unsaid, as other holders change it at any time.
#[verifier::external_body]
fn strong_count_of(inner: &Arc<ObjectPathInner>) -> (n: usize)
    ensures
        n >= 1,
{
    Arc::strong_count(inner)
}

impl ObjectPath {
    /// The components of the path, from the root to the object itself.
    pub closed spec fn components(self) -> Seq<Seq<u8>>
        decreases self,
    {
        match self.inner.parent {
            Some(p) => p.components().push(self.inner.name@),
            None => seq![self.inner.name@],
        }
    }

    /// A path always has at least one component.
    pub proof fn lemma_components_not_empty(self)
        ensures
            self.components().len() > 0,
    {
    }

    fn from_parts(parent: Option<ObjectPath>, name: InternedName) -> (p: ObjectPath)
        ensures
            p.components() == (match parent {
                Some(q) => q.components().push(name@),
                None => seq![name@],
            }),
    {
        ObjectPath { inner: Arc::new(ObjectPathInner { parent, name, watched: AtomicBool::new(false) }) }
    }

    /// Creates a new ObjectPath without a parent, with its name interned in `names`.
    pub fn new<const N: usize>(path: &[u8], names: &mut InternedNames<N>) -> (p: ObjectPath)
        requires
            old(names).wf(),
            N > 0,
            byte_sum(path@) <= usize::MAX,
        ensures
            final(names).wf(),
            final(names).names() =~= old(names).names().insert(path@),
            p.components() == seq![path@],
    {
        let name = names.interning(path);
        Self::from_parts(None, name)
    }

    /// Creates a new ObjectPath without a parent, its name not interned anywhere.
    pub fn without_gatherer(path: &[u8]) -> (p: ObjectPath)
        ensures
            p.components() == seq![path@],
    {
        Self::from_parts(None, InternedName::new(path))
    }

    /// Creates a new ObjectPath as sub-object to some existing ObjectPath object, with its
    /// name interned in `names`.
    pub fn sub_object<const N: usize>(&self, name: &[u8], names: &mut InternedNames<N>) -> (p: ObjectPath)
        requires
            old(names).wf(),
            N > 0,
            byte_sum(name@) <= usize::MAX,
        ensures
            final(names).wf(),
            final(names).names() =~= old(names).names().insert(name@),
            p.components() == self.components().push(name@),
    {
        let interned = names.interning(name);
        Self::from_parts(Some(self.clone()), interned)
    }

    /// Creates a new ObjectPath as sub-object to some existing ObjectPath object, its name
    /// not interned anywhere.
    pub fn sub_object_without_gatherer(&self, name: &[u8]) -> (p: ObjectPath)
        ensures
            p.components() == self.components().push(name@),
    {
        Self::from_parts(Some(self.clone()), InternedName::new(name))
    }

    fn pathbuf_push_parents(&self, target: &mut Vec<u8>, len: usize)
        ensures
            final(target)@ == joined(old(target)@, self.components()),
        decreases self,
    {
        proof {
            match self.parent_path() {
                Some(parent) => {
                    assert(self.components().drop_last() =~= parent.components());
                },
                None => {
                    assert(self.components().drop_last() =~= Seq::<Seq<u8>>::empty());
                },
            }
        }
        match &self.inner.parent {
            Some(parent) => {
                // the name and a delimiter char
                let more = len.saturating_add(self.inner.name.len()).saturating_add(1);
                parent.pathbuf_push_parents(target, more);
            },
            None => {
                target.reserve(len.saturating_add(self.inner.name.len()));
            },
        }
        let ghost mid = target@;
        assert(mid == joined(old(target)@, self.components().drop_last()));
        push_component_exec(target, self.inner.name.as_bytes());
        assert(self.components().last() == self.inner.name@);
        assert(joined(old(target)@, self.components()) == push_component(mid, self.components().last()));
    }

    /// Writes the full ObjectPath including all parents to the given buffer.
    pub fn write_pathbuf<'a>(&self, target: &'a mut Vec<u8>) -> (r: &'a Vec<u8>)
        ensures
            final(target)@ == path_of(self.components()),
            r@ == path_of(self.components()),
    {
        target.clear();
        self.pathbuf_push_parents(target, 1 /* for root delimiter */);
        target
    }

    /// Create the path of the given ObjectPath.
    pub fn to_pathbuf(&self) -> (r: Vec<u8>)
        ensures
            r@ == path_of(self.components()),
    {
        let mut target = Vec::new();
        self.pathbuf_push_parents(&mut target, 1 /* for root delimiter */);
        target
    }

    /// Returns the number of components in the path.
    pub fn depth(&self) -> (d: u16)
        requires
            self.components().len() <= u16::MAX,
        ensures
            d == self.components().len(),
        decreases self,
    {
        match &self.inner.parent {
            Some(parent) => parent.depth() + 1,
            None => 1,
        }
    }

    /// Returns the name of the object, without any preceding path components.
    pub fn name(&self) -> (r: &[u8])
        ensures
            r@ == self.components().last(),
    {
        self.inner.name.as_bytes()
    }

    /// The directory in which the object's metadata is looked up: the parent's path, or
    /// for an object without parent the root directory when its name is absolute and the
    /// current directory otherwise.
    pub fn metadata_dir(&self) -> (r: Vec<u8>)
        ensures
            r@ == (match self.parent_path() {
                Some(p) => path_of(p.components()),
                None => if self.components().last().len() > 0 && self.components().last()[0] == SEPARATOR {
                    seq![SEPARATOR]
                } else {
                    seq![46u8]
                },
            }),
    {
        match &self.inner.parent {
            Some(parent) => parent.to_pathbuf(),
            None => {
                let name = self.inner.name.as_bytes();
                let mut r = Vec::new();
                if name.len() > 0 && name[0] == SEPARATOR {
                    r.push(SEPARATOR);
                } else {
                    r.push(46u8);
                }
                proof {
                    assert(r@ =~= (if name@.len() > 0 && name@[0] == SEPARATOR { seq![SEPARATOR] } else { seq![46u8] }));
                }
                r
            },
        }
    }

    /// The parent of this path, if any.
    pub closed spec fn parent_path(self) -> Option<ObjectPath> {
        self.inner.parent
    }

    /// Returns the parent if available
    pub fn parent(&self) -> (r: Option<&ObjectPath>)
        ensures
            r == match self.parent_path() {
                Some(p) => Some(&p),
                None => None::<&ObjectPath>,
            },
            r matches Some(p) ==> self.components() == p.components().push(self.components().last()),
            r is None ==> self.components().len() == 1,
    {
        self.inner.parent.as_ref()
    }

    /// Returns the number of strong references pointing to this object; this handle is one
    /// of them.
    pub fn strong_count(&self) -> (n: usize)
        ensures
            n >= 1,
    {
        strong_count_of(&self.inner)
    }

    /// Sets the notification state on this ObjectPath.
    pub fn watch(&self, watch: bool) {
        self.inner.watched.store(watch, std::sync::atomic::Ordering::Relaxed);
    }

    /// Queries the notification state on this ObjectPath.
    pub fn is_watched(&self) -> bool {
        self.inner.watched.load(std::sync::atomic::Ordering::Relaxed)
    }
}

impl Clone for ObjectPath {
    /// Shares the path: the clone refers to the same object.
    fn clone(&self) -> (r: Self)
        ensures
            r.components() == self.components(),
    {
        ObjectPath { inner: self.inner.clone() }
    }
}

/// The lexicographic order of two byte strings.
pub open spec fn bytes_order(a: Seq<u8>, b: Seq<u8>) -> Ordering
    decreases a.len(),
{
    if a.len() == 0 {
        if b.len() == 0 {
            Ordering::Equal
        } else {
            Ordering::Less
        }
    } else if b.len() == 0 {
        Ordering::Greater
    } else if a[0] < b[0] {
        Ordering::Less
    } else if b[0] < a[0] {
        Ordering::Greater
    } else {
        bytes_order(a.drop_first(), b.drop_first())
    }
}

/// The order of two paths given by their components: the parents are compared first (a
/// path without parent comes before one with a parent), then the names.
pub open spec fn components_order(a: Seq<Seq<u8>>, b: Seq<Seq<u8>>) -> Ordering
    decreases a.len(),
{
    if a.len() <= 1 {
        if b.len() <= 1 {
            bytes_order(a.last(), b.last())
        } else {
            Ordering::Less
        }
    } else if b.len() <= 1 {
        Ordering::Greater
    } else {
        match components_order(a.drop_last(), b.drop_last()) {
            Ordering::Equal => bytes_order(a.last(), b.last()),
            o => o,
        }
    }
}

/// Compares two byte strings lexicographically.
fn compare_bytes(a: &[u8], b: &[u8]) -> (o: Ordering)
    ensures
        o == bytes_order(a@, b@),
{
    let mut i: usize = 0;
    let ghost mut k: int = 0;
    proof {
        assert(a@.skip(0) =~= a@);
        assert(b@.skip(0) =~= b@);
    }
    while i < a.len() && i < b.len()
        invariant
            k == i,
            0 <= k <= a@.len(),
            k <= b@.len(),
            bytes_order(a@, b@) == bytes_order(a@.skip(k), b@.skip(k)),
        decreases a@.len() - k,
    {
        if a[i] < b[i] {
            return Ordering::Less;
        } else if b[i] < a[i] {
            return Ordering::Greater;
        }
        proof {
            assert(a@.skip(k).drop_first() =~= a@.skip(k + 1));
            assert(b@.skip(k).drop_first() =~= b@.skip(k + 1));
            k = k + 1;
        }
        i = i + 1;
    }
    if i < a.len() {
        Ordering::Greater
    } else if i < b.len() {
        Ordering::Less
    } else {
        Ordering::Equal
    }
}

impl ObjectPath {
    /// Compares two paths: their parents first, then their names.
    pub fn path_cmp(&self, other: &ObjectPath) -> (o: Ordering)
        ensures
            o == components_order(self.components(), other.components()),
        decreases self,
    {
        proof {
            self.lemma_components_not_empty();
            other.lemma_components_not_empty();
            match self.parent_path() {
                Some(p) => {
                    assert(self.components().drop_last() =~= p.components());
                },
                None => {},
            }
            match other.parent_path() {
                Some(p) => {
                    assert(other.components().drop_last() =~= p.components());
                },
                None => {},
            }
        }
        match (&self.inner.parent, &other.inner.parent) {
            (None, None) => compare_bytes(self.inner.name.as_bytes(), other.inner.name.as_bytes()),
            (None, Some(_)) => Ordering::Less,
            (Some(_), None) => Ordering::Greater,
            (Some(a), Some(b)) => {
                match a.path_cmp(b) {
                    Ordering::Equal => compare_bytes(self.inner.name.as_bytes(), other.inner.name.as_bytes()),
                    o => o,
                }
            },
        }
    }

    /// Whether two paths have the same components.
    pub fn same_path(&self, other: &ObjectPath) -> (r: bool)
        ensures
            r == (self.components() == other.components()),
        decreases self,
    {
        proof {
            match self.parent_path() {
                Some(p) => {
                    assert(self.components().drop_last() =~= p.components());
                },
                None => {},
            }
            match other.parent_path() {
                Some(p) => {
                    assert(other.components().drop_last() =~= p.components());
                },
                None => {},
            }
        }
        let r = match (&self.inner.parent, &other.inner.parent) {
            (None, None) => same_bytes(self.inner.name.as_bytes(), other.inner.name.as_bytes()),
            (Some(a), Some(b)) => a.same_path(b) && same_bytes(self.inner.name.as_bytes(), other.inner.name.as_bytes()),
            (_, _) => false,
        };
        proof {
            if r {
                assert(self.components() =~= other.components());
            } else if self.components() == other.components() {
                assert(self.components().len() == other.components().len());
                assert(self.components().last() == other.components().last());
            }
        }
        r
    }
}

impl PartialEq for ObjectPath {
    fn eq(&self, other: &Self) -> (r: bool) {
        self.same_path(other)
    }
}

impl PartialEqSpecImpl for ObjectPath {
    open spec fn obeys_eq_spec() -> bool {
        true
    }

    open spec fn eq_spec(&self, other: &Self) -> bool {
        self.components() == other.components()
    }
}

impl Eq for ObjectPath {

}

impl PartialOrd for ObjectPath {
    fn partial_cmp(&self, other: &Self) -> (r: Option<Ordering>) {
        Some(self.path_cmp(other))
    }
}

impl PartialOrdSpecImpl for ObjectPath {
    open spec fn obeys_partial_cmp_spec() -> bool {
        true
    }

    open spec fn partial_cmp_spec(&self, other: &Self) -> Option<Ordering> {
        Some(components_order(self.components(), other.components()))
    }
}

/// Byte strings are ordered consistently: equal exactly when they are the same, and
/// `Less` one way exactly when `Greater` the other way.
pub proof fn lemma_bytes_order_consistent(a: Seq<u8>, b: Seq<u8>)
    ensures
        (bytes_order(a, b) == Ordering::Equal) == (a == b),
        (bytes_order(a, b) == Ordering::Less) == (bytes_order(b, a) == Ordering::Greater),
    decreases a.len(),
{
    if a.len() > 0 && b.len() > 0 && a[0] == b[0] {
        lemma_bytes_order_consistent(a.drop_first(), b.drop_first());
        if a.drop_first() == b.drop_first() {
            assert(a =~= b) by {
                assert forall|i: int| 0 <= i < a.len() implies a[i] == b[i] by {
                    if i > 0 {
                        assert(a[i] == a.drop_first()[i - 1]);
                        assert(b[i] == b.drop_first()[i - 1]);
                    }
                }
            }
        }
    } else if a.len() > 0 && b.len() > 0 {
        assert(a != b);
    } else if a.len() != b.len() {
        assert(a != b);
    } else {
        assert(a =~= b);
    }
}

/// Names are ordered lexicographically: a proper prefix orders before the longer name.
pub proof fn law_bytes_prefix_first(a: Seq<u8>, t: Seq<u8>)
    requires
        t.len() > 0,
    ensures
        bytes_order(a, a + t) == Ordering::Less,
        bytes_order(a + t, a) == Ordering::Greater,
    decreases a.len(),
{
    if a.len() > 0 {
        assert((a + t)[0] == a[0]);
        assert((a + t).drop_first() =~= a.drop_first() + t);
        law_bytes_prefix_first(a.drop_first(), t);
    } else {
        assert(a + t =~= t);
    }
}

/// Names are ordered lexicographically: the first byte in which two names differ decides,
/// the smaller byte ordering first.
pub proof fn law_bytes_first_difference_decides(a: Seq<u8>, b: Seq<u8>, k: int)
    requires
        0 <= k < a.len(),
        k < b.len(),
        a.take(k) == b.take(k),
        a[k] < b[k],
    ensures
        bytes_order(a, b) == Ordering::Less,
        bytes_order(b, a) == Ordering::Greater,
    decreases k,
{
    if k > 0 {
        assert(a[0] == a.take(k)[0]);
        assert(b[0] == b.take(k)[0]);
        assert(a.drop_first().take(k - 1) =~= a.take(k).drop_first());
        assert(b.drop_first().take(k - 1) =~= b.take(k).drop_first());
        law_bytes_first_difference_decides(a.drop_first(), b.drop_first(), k - 1);
    }
}

/// Paths are ordered by their parents first and by their names only among equal parents;
/// a path without parent orders before any path with one.
pub proof fn law_path_parent_first(p: Seq<Seq<u8>>, q: Seq<Seq<u8>>, x: Seq<u8>, y: Seq<u8>)
    requires
        p.len() > 0,
        q.len() > 0,
    ensures
        components_order(p.push(x), q.push(y)) == (if p == q {
            bytes_order(x, y)
        } else {
            components_order(p, q)
        }),
        components_order(seq![x], q.push(y)) == Ordering::Less,
        components_order(q.push(y), seq![x]) == Ordering::Greater,
        components_order(seq![x], seq![y]) == bytes_order(x, y),
{
    assert(p.push(x).drop_last() =~= p);
    assert(q.push(y).drop_last() =~= q);
    law_path_order_consistent(p, q);
}

/// The order of byte strings is transitive.
pub proof fn lemma_bytes_order_transitive(a: Seq<u8>, b: Seq<u8>, c: Seq<u8>)
    requires
        bytes_order(a, b) == Ordering::Less,
        bytes_order(b, c) == Ordering::Less,
    ensures
        bytes_order(a, c) == Ordering::Less,
    decreases a.len(),
{
    if a.len() > 0 && b.len() > 0 && c.len() > 0 && a[0] == b[0] && b[0] == c[0] {
        lemma_bytes_order_transitive(a.drop_first(), b.drop_first(), c.drop_first());
    }
}

/// Paths are ordered consistently with their equality: two paths compare `Equal` exactly
/// when they have the same components, and `Less` one way exactly when `Greater` the other
/// way.
pub proof fn law_path_order_consistent(a: Seq<Seq<u8>>, b: Seq<Seq<u8>>)
    requires
        a.len() > 0,
        b.len() > 0,
    ensures
        (components_order(a, b) == Ordering::Equal) == (a == b),
        (components_order(a, b) == Ordering::Less) == (components_order(b, a) == Ordering::Greater),
    decreases a.len() + b.len(),
{
    lemma_bytes_order_consistent(a.last(), b.last());
    lemma_bytes_order_consistent(b.last(), a.last());
    if a.len() > 1 && b.len() > 1 {
        law_path_order_consistent(a.drop_last(), b.drop_last());
        law_path_order_consistent(b.drop_last(), a.drop_last());
        if a.drop_last() == b.drop_last() && a.last() == b.last() {
            assert(a =~= a.drop_last().push(a.last()));
            assert(b =~= b.drop_last().push(b.last()));
        }
        if a == b {
            assert(a.drop_last() == b.drop_last());
        }
    } else if a.len() == 1 && b.len() == 1 {
        if a.last() == b.last() {
            assert(a =~= b);
        }
    } else {
        assert(a.len() != b.len());
    }
}

/// The order of paths is transitive.
pub proof fn law_path_order_transitive(a: Seq<Seq<u8>>, b: Seq<Seq<u8>>, c: Seq<Seq<u8>>)
    requires
        a.len() > 0,
        b.len() > 0,
        c.len() > 0,
        components_order(a, b) == Ordering::Less,
        components_order(b, c) == Ordering::Less,
    ensures
        components_order(a, c) == Ordering::Less,
    decreases a.len(),
{
    if a.len() > 1 && b.len() > 1 && c.len() > 1 {
        let pa = a.drop_last();
        let pb = b.drop_last();
        let pc = c.drop_last();
        law_path_order_consistent(pa, pb);
        law_path_order_consistent(pb, pc);
        law_path_order_consistent(pa, pc);
        if components_order(pa, pb) == Ordering::Less && components_order(pb, pc) == Ordering::Less {
            law_path_order_transitive(pa, pb, pc);
        } else if components_order(pa, pb) == Ordering::Equal && components_order(pb, pc) == Ordering::Equal {
            lemma_bytes_order_transitive(a.last(), b.last(), c.last());
        }
    } else if a.len() == 1 && b.len() == 1 && c.len() == 1 {
        lemma_bytes_order_transitive(a.last(), b.last(), c.last());
    }
}

} // verus!
