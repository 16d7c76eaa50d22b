//! Small general-purpose helpers shared by the phases: character classes for
//! the scanner, character-indexed string access, a cursor over a vector, and
//! the stack used by the resolver and the virtual machine.

use vstd::prelude::*;
use vstd::std_specs::hash::DefaultHasherAdditionalSpecFns;
use vstd::string::StringExecFns;
use vstd::string::StringSliceAdditionalSpecFns;

verus! {

/// Whether a character is a decimal digit.
pub open spec fn spec_is_digit(c: char) -> bool {
    '0' <= c && c <= '9'
}

/// Whether a character can begin an identifier.
pub open spec fn spec_is_alpha(c: char) -> bool {
    ('a' <= c && c <= 'z') || ('A' <= c && c <= 'Z') || c == '_'
}

/// Whether a character can continue an identifier.
pub open spec fn spec_is_alphanumeric(c: char) -> bool {
    spec_is_alpha(c) || spec_is_digit(c)
}

pub fn is_digit(c: char) -> (r: bool)
    ensures
        r == spec_is_digit(c),
{
    c >= '0' && c <= '9'
}

pub fn is_alpha(c: char) -> (r: bool)
    ensures
        r == spec_is_alpha(c),
{
    (c >= 'a' && c <= 'z') || (c >= 'A' && c <= 'Z') || c == '_'
}

pub fn is_alphanumeric(c: char) -> (r: bool)
    ensures
        r == spec_is_alphanumeric(c),
{
    is_alpha(c) || is_digit(c)
}

/// Selects between two values by a condition.
pub fn ifte<T>(condition: bool, true_val: T, false_val: T) -> (r: T)
    ensures
        r == if condition {
            true_val
        } else {
            false_val
        },
{
    if condition {
        true_val
    } else {
        false_val
    }
}

/// The character at position `idx` of `s`, counted in characters.
pub fn char_at(s: &str, idx: usize) -> (r: Option<char>)
    ensures
        idx < s@.len() ==> r == Some(s@[idx as int]),
        idx >= s@.len() ==> r is None,
{
    let n = s.unicode_len();
    if idx < n {
        Some(s.get_char(idx))
    } else {
        None
    }
}

/// The substring of `s` that starts at character `start` and runs for `len`
/// characters, if that range lies inside `s`.
pub fn substring<'a>(s: &'a str, start: usize, len: usize) -> (r: Option<&'a str>)
    requires
        1 <= start + len <= usize::MAX,
    ensures
        start < s@.len() && start + len - 1 < s@.len() ==> (r matches Some(sub) && sub@ == s@
            .subrange(start as int, start + len)),
        !(start < s@.len() && start + len - 1 < s@.len()) ==> r is None,
{
    let n = s.unicode_len();
    if start < n && start + len - 1 < n {
        Some(s.substring_char(start, start + len))
    } else {
        None
    }
}

/// The value bound to `k` in an association list, where a later entry for
/// the same key supersedes an earlier one.
pub open spec fn assoc_lookup<V>(s: Seq<(u64, V)>, k: u64) -> Option<V>
    decreases s.len(),
{
    if s.len() == 0 {
        None
    } else if s.last().0 == k {
        Some(s.last().1)
    } else {
        assoc_lookup(s.drop_last(), k)
    }
}

/// A key for an interned string: the hash of its text.
#[derive(Debug, Clone, Copy, PartialEq, Hash, Eq, Structural)]
pub struct StringKey {
    pub key: u64,
}

/// The key a string hashes to.
pub open spec fn spec_string_key(s: Seq<u8>) -> u64 {
    std::collections::hash_map::DefaultHasher::spec_finish(seq![s])
}

impl StringKey {
    pub fn new(s: &str) -> (r: StringKey)
        ensures
            r.key == spec_string_key(s.spec_bytes()),
    {
        let mut hasher = std::collections::hash_map::DefaultHasher::new();
        std::hash::Hasher::write(&mut hasher, s.as_bytes());
        let key = std::hash::Hasher::finish(&hasher);
        StringKey { key }
    }
}

/// A store of interned strings, looked up by their key.  Two distinct
/// strings whose texts hash alike would share a key; the first one stored
/// under a key stays.
pub struct StringCache {
    db: Vec<(u64, String)>,
}

impl StringCache {
    /// The stored text under each key.
    pub closed spec fn contents(&self) -> Seq<(u64, String)> {
        self.db@
    }

    pub fn new() -> (r: StringCache)
        ensures
            r.contents() == Seq::<(u64, String)>::empty(),
    {
        StringCache { db: Vec::new() }
    }

    /// Interns a string and returns its key.
    pub fn puts(&mut self, s: &str) -> (r: StringKey)
        ensures
            r.key == spec_string_key(s.spec_bytes()),
            assoc_lookup(final(self).contents(), r.key) is Some,
            match assoc_lookup(old(self).contents(), r.key) {
                Some(_) => final(self).contents() == old(self).contents(),
                None => {
                    &&& final(self).contents().len() == old(self).contents().len() + 1
                    &&& final(self).contents().drop_last() == old(self).contents()
                    &&& final(self).contents().last().0 == r.key
                    &&& final(self).contents().last().1@ == s@
                },
            },
    {
        let key = StringKey::new(s);
        let existing = Self::find(&self.db, key.key);
        match existing {
            Some(_) => key,
            None => {
                self.db.push((key.key, String::from_str(s)));
                proof {
                    assert(self.db@.drop_last() =~= old(self).db@);
                }
                key
            },
        }
    }

    /// The stored text under a key.  The caller is responsible for only
    /// asking for keys that are in the cache.
    pub fn gets(&self, key: StringKey) -> (r: &String)
        requires
            assoc_lookup(self.contents(), key.key) is Some,
        ensures
            Some(*r) == assoc_lookup(self.contents(), key.key),
    {
        let found = Self::find(&self.db, key.key);
        match found {
            Some(i) => &self.db[i].1,
            None => {
                proof {
                    assert(false);
                }
                &self.db[0].1
            },
        }
    }

    /// The position of the newest entry for `k`, if any.
    #[verifier::loop_isolation(false)]
    fn find(db: &Vec<(u64, String)>, k: u64) -> (r: Option<usize>)
        ensures
            match r {
                Some(i) => i < db@.len() && Some(db@[i as int].1) == assoc_lookup(db@, k),
                None => assoc_lookup(db@, k) is None,
            },
    {
        let mut i = db.len();
        proof {
            assert(db@.take(i as int) =~= db@);
        }
        while i > 0
            invariant
                i <= db@.len(),
                assoc_lookup(db@, k) == assoc_lookup(db@.take(i as int), k),
            decreases i,
        {
            i = i - 1;
            proof {
                assert(db@.take(i + 1).last() == db@[i as int]);
                assert(db@.take(i + 1).drop_last() =~= db@.take(i as int));
            }
            if db[i].0 == k {
                return Some(i);
            }
        }
        None
    }
}

/// A read cursor over a vector of items, with one-item lookahead and lookback.
pub struct Stream<T> {
    vec: Vec<T>,
    pos: usize,
}

impl<T> Stream<T> {
    /// The items the cursor ranges over.
    pub closed spec fn items(&self) -> Seq<T> {
        self.vec@
    }

    /// The current cursor position; never exceeds `items().len()`.
    pub closed spec fn pos(&self) -> int {
        self.pos as int
    }

    pub fn new(data: Vec<T>) -> (r: Stream<T>)
        ensures
            r.items() == data@,
            r.pos() == 0,
    {
        Stream { vec: data, pos: 0 }
    }

    pub fn has_prev(&self) -> (r: bool)
        ensures
            r == (1 <= self.pos() && self.pos() - 1 < self.items().len()),
    {
        self.pos >= 1 && self.pos - 1 < self.vec.len()
    }

    pub fn has_curr(&self) -> (r: bool)
        ensures
            r == (self.pos() < self.items().len()),
    {
        self.pos < self.vec.len()
    }

    pub fn has_next(&self) -> (r: bool)
        ensures
            r == (self.pos() + 1 < self.items().len()),
    {
        let n = self.vec.len();
        n >= 2 && self.pos < n - 1
    }

    pub fn prev(&self) -> (r: &T)
        requires
            1 <= self.pos(),
            self.pos() - 1 < self.items().len(),
        ensures
            *r == self.items()[self.pos() - 1],
    {
        &self.vec[self.pos - 1]
    }

    pub fn curr(&self) -> (r: &T)
        requires
            self.pos() < self.items().len(),
        ensures
            *r == self.items()[self.pos()],
    {
        &self.vec[self.pos]
    }

    pub fn next(&self) -> (r: &T)
        requires
            self.pos() + 1 < self.items().len(),
        ensures
            *r == self.items()[self.pos() + 1],
    {
        proof {
            assert(self.pos + 1 < self.vec.len());
        }
        &self.vec[self.pos + 1]
    }

    /// Moves the cursor one item forward, unless it is already at the end.
    pub fn adv(&mut self)
        requires
            old(self).pos() <= old(self).items().len(),
        ensures
            final(self).items() == old(self).items(),
            final(self).pos() == if old(self).pos() < old(self).items().len() {
                old(self).pos() + 1
            } else {
                old(self).pos()
            },
    {
        if self.pos >= self.vec.len() {
            return ;
        }
        self.pos = self.pos + 1;
    }

    /// Moves the cursor one item back, unless it is already at the start.
    pub fn rev(&mut self)
        ensures
            final(self).items() == old(self).items(),
            final(self).pos() == if old(self).pos() == 0 {
                0
            } else {
                old(self).pos() - 1
            },
    {
        if self.pos == 0 {
            return ;
        }
        self.pos = self.pos - 1;
    }
}

/// A last-in-first-out stack; the sequence view lists items bottom first.
#[derive(Clone, Debug)]
pub struct Stack<T> {
    vec: Vec<T>,
}

impl<T> View for Stack<T> {
    type V = Seq<T>;

    closed spec fn view(&self) -> Seq<T> {
        self.vec@
    }
}

impl<T> Stack<T> {
    pub fn new() -> (r: Stack<T>)
        ensures
            r@ == Seq::<T>::empty(),
    {
        Stack { vec: Vec::new() }
    }

    pub fn clear(&mut self)
        ensures
            final(self)@ == Seq::<T>::empty(),
    {
        self.vec.clear();
    }

    pub fn is_empty(&self) -> (r: bool)
        ensures
            r == (self@.len() == 0),
    {
        self.vec.len() == 0
    }

    pub fn depth(&self) -> (r: usize)
        ensures
            r == self@.len(),
    {
        self.vec.len()
    }

    /// The item `depth` slots below the top.
    pub fn peek(&self, depth: usize) -> (r: &T)
        requires
            depth < self@.len(),
        ensures
            *r == self@[self@.len() - 1 - depth],
    {
        &self.vec[self.vec.len() - 1 - depth]
    }

    /// A mutable borrow of the item `depth` slots below the top.
    pub fn peek_mut(&mut self, depth: usize) -> (r: &mut T)
        requires
            depth < old(self)@.len(),
        ensures
            *r == old(self)@[old(self)@.len() - 1 - depth],
            final(self)@ == old(self)@.update(old(self)@.len() - 1 - depth, *final(r)),
    {
        let idx = self.vec.len() - 1 - depth;
        &mut self.vec[idx]
    }

    pub fn pop(&mut self) -> (r: T)
        requires
            old(self)@.len() > 0,
        ensures
            r == old(self)@.last(),
            final(self)@ == old(self)@.drop_last(),
    {
        self.vec.pop().unwrap()
    }

    pub fn push(&mut self, value: T)
        ensures
            final(self)@ == old(self)@.push(value),
    {
        self.vec.push(value);
    }
}

} // verus!

verus! {

/// A tree of nodes addressed by numeric keys, with the root at key 0.
/// Node records and child lists are kept as association lists; a later
/// entry for a key supersedes an earlier one, as an overwriting insert
/// would.
pub struct Tree<N> {
    nodes: Vec<(u64, N)>,
    children: Vec<(u64, Vec<u64>)>,
    key: u64,
}

/// Maps each node of a tree to a value and folds the children's results
/// into the parent's, for callers outside the library to implement.
pub trait TreeFolder<N, T, E> {
    fn map(&self, db: &Tree<N>, node_key: u64, depth: u32) -> Result<T, E>;

    fn fold(&self, parent_result: &T, children_results: &Vec<T>) -> T;
}

/// The walk that drives a [`TreeFolder`].
pub trait TreeFolderTgt<N, T, E> {
    fn map_fold<V: TreeFolder<N, T, E>>(&self, visitor: &V, node_key: u64, depth: u32) -> Result<
        T,
        E,
    >;
}

/// Visits each node of a tree read-only.
pub trait TreeVisitor<N, E> {
    fn visit(&mut self, db: &Tree<N>, node_key: u64, depth: u32) -> Result<(), E>;

    fn before_children(&mut self, db: &Tree<N>, node_key: u64, depth: u32);

    fn after_children(&mut self, db: &Tree<N>, node_key: u64, depth: u32);
}

/// The walk that drives a [`TreeVisitor`].
pub trait TreeVisitorTgt<N, E> {
    fn accept<V: TreeVisitor<N, E>>(&self, visitor: &mut V, node_key: u64, depth: u32) -> Result<
        (),
        E,
    >;
}

/// Visits each node of a tree with mutable access.
pub trait TreeMutVisitor<N, E> {
    fn visit(&mut self, db: &mut Tree<N>, node_key: u64, depth: u32) -> Result<(), E>;

    fn before_children(&mut self, db: &mut Tree<N>, node_key: u64, depth: u32);

    fn after_children(&mut self, db: &mut Tree<N>, node_key: u64, depth: u32);
}

/// The walk that drives a [`TreeMutVisitor`].
pub trait TreeMutVisitorTgt<N, E> {
    fn accept_mut<V: TreeMutVisitor<N, E>>(
        &mut self,
        visitor: &mut V,
        node_key: u64,
        depth: u32,
    ) -> Result<(), E>;
}

/// The children recorded for `k`, newest record winning.
pub closed spec fn spec_kids<N>(t: Tree<N>, k: u64) -> Seq<u64> {
    match assoc_lookup(t.children@, k) {
        Some(v) => v@,
        None => Seq::<u64>::empty(),
    }
}

/// Whether any children have been recorded under `k`.
pub closed spec fn spec_has_kids<N>(t: Tree<N>, k: u64) -> bool {
    assoc_lookup(t.children@, k) is Some
}

/// The node stored under `k`, newest record winning.
pub closed spec fn spec_node<N>(t: Tree<N>, k: u64) -> Option<N> {
    assoc_lookup(t.nodes@, k)
}

impl<N> Tree<N> {
    /// The next key the tree will hand out; every key handed out so far
    /// is below it.
    pub closed spec fn spec_key(&self) -> u64 {
        self.key
    }

    pub fn new(root: N) -> (r: Tree<N>)
        ensures
            r.spec_key() == 1,
            spec_node(r, 0) == Some(root),
            forall|k: u64| k != 0 ==> spec_node(r, k) is None,
            forall|k: u64| spec_kids(r, k) == Seq::<u64>::empty(),
    {
        let mut nodes: Vec<(u64, N)> = Vec::new();
        nodes.push((0, root));
        let t = Tree { nodes, children: Vec::new(), key: 1 };
        proof {
            assert(t.nodes@.drop_last() =~= Seq::<(u64, N)>::empty());
            assert forall|k: u64| k != 0 implies spec_node(t, k) is None by {
                assert(assoc_lookup(t.nodes@, k) == assoc_lookup(t.nodes@.drop_last(), k));
            }
            assert forall|k: u64| spec_kids(t, k) == Seq::<u64>::empty() by {
                assert(assoc_lookup(t.children@, k) is None);
            }
        }
        t
    }

    /// Whether `node_key` has been handed out by this tree.
    pub fn has_node(&self, node_key: u64) -> (r: bool)
        ensures
            r == (node_key < self.spec_key()),
    {
        node_key < self.key
    }

    /// Whether any children have been recorded under `parent_node`.
    pub fn has_children(&self, parent_node: u64) -> (r: bool)
        ensures
            r == spec_has_kids(*self, parent_node),
    {
        Self::find_children(&self.children, parent_node).is_some()
    }

    /// Adds `node` as a new child of `parent_key` and returns the fresh
    /// key chosen for it.
    pub fn add_node(&mut self, parent_key: u64, node: N) -> (r: u64)
        requires
            old(self).spec_key() < u64::MAX,
        ensures
            r == old(self).spec_key(),
            final(self).spec_key() == old(self).spec_key() + 1,
            spec_node(*final(self), r) == Some(node),
            forall|k: u64| k != r ==> spec_node(*final(self), k) == spec_node(*old(self), k),
            spec_kids(*final(self), parent_key) == spec_kids(*old(self), parent_key).push(r),
            forall|k: u64| k != parent_key ==> spec_kids(*final(self), k) == spec_kids(
                *old(self),
                k,
            ),
    {
        let ghost pre = *self;
        let child_key = self.key;
        self.key = self.key + 1;
        let ghost bumped = *self;
        self.push_node(child_key, node);
        let ghost mid = *self;
        self.push_child(parent_key, child_key);
        proof {
            assert forall|k: u64| k != child_key implies spec_node(*self, k) == spec_node(
                pre,
                k,
            ) by {
                assert(assoc_lookup(self.nodes@, k) == assoc_lookup(mid.nodes@, k));
                assert(spec_node(mid, k) == spec_node(bumped, k));
                assert(assoc_lookup(bumped.nodes@, k) == assoc_lookup(pre.nodes@, k));
            }
            assert(spec_node(*self, child_key) == spec_node(mid, child_key));
            assert forall|k: u64| spec_kids(mid, k) == spec_kids(bumped, k) by {
                assert(assoc_lookup(mid.children@, k) == assoc_lookup(bumped.children@, k));
            }
            assert forall|k: u64| spec_kids(bumped, k) == spec_kids(pre, k) by {
                assert(assoc_lookup(bumped.children@, k) == assoc_lookup(pre.children@, k));
            }
        }
        child_key
    }

    /// Adds `node` under a caller-chosen key, as a child of `parent_key`.
    /// A key already in use is superseded.
    pub fn add_node_with_key(&mut self, parent_key: u64, node: N, child_key: u64) -> (r: u64)
        ensures
            r == child_key,
            final(self).spec_key() == old(self).spec_key(),
            spec_node(*final(self), child_key) == Some(node),
            forall|k: u64| k != child_key ==> spec_node(*final(self), k) == spec_node(
                *old(self),
                k,
            ),
            spec_kids(*final(self), parent_key) == spec_kids(*old(self), parent_key).push(
                child_key,
            ),
            forall|k: u64| k != parent_key ==> spec_kids(*final(self), k) == spec_kids(
                *old(self),
                k,
            ),
    {
        let ghost pre = *self;
        self.push_node(child_key, node);
        let ghost mid = *self;
        self.push_child(parent_key, child_key);
        proof {
            assert forall|k: u64| k != child_key implies spec_node(*self, k) == spec_node(
                pre,
                k,
            ) by {
                assert(assoc_lookup(self.nodes@, k) == assoc_lookup(mid.nodes@, k));
                assert(assoc_lookup(mid.nodes@, k) == assoc_lookup(pre.nodes@, k));
            }
            assert(spec_node(*self, child_key) == spec_node(mid, child_key));
            assert forall|k: u64| spec_kids(mid, k) == spec_kids(pre, k) by {
                assert(assoc_lookup(mid.children@, k) == assoc_lookup(pre.children@, k));
            }
        }
        child_key
    }

    /// Records `node` under `key`, superseding any earlier record.
    fn push_node(&mut self, key: u64, node: N)
        ensures
            final(self).children == old(self).children,
            final(self).key == old(self).key,
            spec_node(*final(self), key) == Some(node),
            forall|k: u64| k != key ==> spec_node(*final(self), k) == spec_node(*old(self), k),
    {
        self.nodes.push((key, node));
        proof {
            assert(self.nodes@.drop_last() =~= old(self).nodes@);
            assert(forall|k: u64|
                k != key ==> spec_node(*self, k) == spec_node(*old(self), k)) by {
                assert forall|k: u64| k != key implies spec_node(*self, k) == spec_node(
                    *old(self),
                    k,
                ) by {
                    assert(assoc_lookup(self.nodes@, k) == assoc_lookup(
                        self.nodes@.drop_last(),
                        k,
                    ));
                }
            }
        }
    }

    /// Appends `child_key` to the record of children under `parent_key`.
    fn push_child(&mut self, parent_key: u64, child_key: u64)
        ensures
            final(self).nodes == old(self).nodes,
            final(self).key == old(self).key,
            spec_kids(*final(self), parent_key) == spec_kids(*old(self), parent_key).push(
                child_key,
            ),
            forall|k: u64| k != parent_key ==> spec_kids(*final(self), k) == spec_kids(
                *old(self),
                k,
            ),
    {
        let found = Self::find_children(&self.children, parent_key);
        match found {
            Some(i) => {
                let slot = &mut self.children[i];
                slot.1.push(child_key);
                proof {
                    lemma_assoc_update::<Vec<u64>>(
                        old(self).children@,
                        self.children@,
                        i as int,
                        parent_key,
                    );
                }
            },
            None => {
                let mut kids: Vec<u64> = Vec::new();
                kids.push(child_key);
                self.children.push((parent_key, kids));
                proof {
                    assert(self.children@.drop_last() =~= old(self).children@);
                    assert(forall|k: u64|
                        k != parent_key ==> assoc_lookup(self.children@, k) == assoc_lookup(
                            old(self).children@,
                            k,
                        ));
                }
            },
        }
    }

    /// Whether `parent_key`'s recorded children include `child_key`.
    pub fn is_parent_of(&self, parent_key: u64, child_key: u64) -> (r: bool)
        ensures
            r == spec_kids(*self, parent_key).contains(child_key),
    {
        let found = Self::find_children(&self.children, parent_key);
        match found {
            Some(i) => {
                let kids = &self.children[i].1;
                let n = kids.len();
                let mut j: usize = 0;
                while j < n
                    invariant
                        j <= n,
                        n == kids@.len(),
                        kids@ == spec_kids(*self, parent_key),
                        forall|q: int| 0 <= q < j ==> kids@[q] != child_key,
                    decreases n - j,
                {
                    if kids[j] == child_key {
                        return true;
                    }
                    j = j + 1;
                }
                proof {
                    assert(!spec_kids(*self, parent_key).contains(child_key));
                }
                false
            },
            None => {
                proof {
                    assert(spec_kids(*self, parent_key) =~= Seq::<u64>::empty());
                }
                false
            },
        }
    }

    /// The key of a node whose recorded children include `child_key`.
    /// The caller is responsible for checking that a parent exists.
    pub fn get_parent_key(&self, child_key: u64) -> (r: u64)
        requires
            exists|k: u64|
                spec_node(*self, k) is Some && (#[trigger] spec_kids(*self, k)).contains(
                    child_key,
                ),
        ensures
            spec_kids(*self, r).contains(child_key),
    {
        proof {
            let k = choose|k: u64|
                spec_node(*self, k) is Some && (#[trigger] spec_kids(*self, k)).contains(
                    child_key,
                );
            lemma_assoc_some_index::<N>(self.nodes@, k);
        }
        let n = self.nodes.len();
        let mut i: usize = 0;
        while i < n
            invariant
                i <= n,
                n == self.nodes@.len(),
                exists|q: int|
                    i <= q < self.nodes@.len() && spec_kids(*self, self.nodes@[q].0).contains(
                        child_key,
                    ),
            decreases n - i,
        {
            let node_key = self.nodes[i].0;
            if self.is_parent_of(node_key, child_key) {
                return node_key;
            }
            i = i + 1;
        }
        proof {
            assert(false);
        }
        0
    }

    /// The recorded children of `parent_key`.  The caller is responsible
    /// for checking that the node has children.
    pub fn get_children(&self, parent_key: u64) -> (r: &Vec<u64>)
        requires
            spec_has_kids(*self, parent_key),
        ensures
            r@ == spec_kids(*self, parent_key),
    {
        let found = Self::find_children(&self.children, parent_key);
        match found {
            Some(i) => &self.children[i].1,
            None => {
                proof {
                    assert(false);
                }
                &self.children[0].1
            },
        }
    }

    /// The node stored under `node_key`.  The caller is responsible for
    /// checking that the node exists.
    pub fn read_node(&self, node_key: u64) -> (r: &N)
        requires
            spec_node(*self, node_key) is Some,
        ensures
            Some(*r) == spec_node(*self, node_key),
    {
        let found = Self::find_node(&self.nodes, node_key);
        match found {
            Some(i) => &self.nodes[i].1,
            None => {
                proof {
                    assert(false);
                }
                &self.nodes[0].1
            },
        }
    }

    /// A mutable borrow of the node stored under `node_key`.  The caller
    /// is responsible for checking that the node exists.
    pub fn write_node(&mut self, node_key: u64) -> (r: &mut N)
        requires
            spec_node(*old(self), node_key) is Some,
        ensures
            Some(*r) == spec_node(*old(self), node_key),
            forall|k: u64| #[trigger] spec_kids(*final(self), k) == spec_kids(*old(self), k),
            final(self).spec_key() == old(self).spec_key(),
    {
        let found = Self::find_node(&self.nodes, node_key);
        let i = match found {
            Some(i) => i,
            None => {
                proof {
                    assert(false);
                }
                0
            },
        };
        let slot = &mut self.nodes[i];
        &mut slot.1
    }

    /// The position of the newest node record for `k`, if any.
    #[verifier::loop_isolation(false)]
    fn find_node(nodes: &Vec<(u64, N)>, k: u64) -> (r: Option<usize>)
        ensures
            match r {
                Some(i) => i < nodes@.len() && nodes@[i as int].0 == k && Some(
                    nodes@[i as int].1,
                ) == assoc_lookup(nodes@, k) && (forall|q: int|
                    i < q < nodes@.len() ==> (#[trigger] nodes@[q]).0 != k),
                None => assoc_lookup(nodes@, k) is None,
            },
    {
        let mut i = nodes.len();
        proof {
            assert(nodes@.take(i as int) =~= nodes@);
        }
        while i > 0
            invariant
                i <= nodes@.len(),
                assoc_lookup(nodes@, k) == assoc_lookup(nodes@.take(i as int), k),
                forall|q: int| i <= q < nodes@.len() ==> (#[trigger] nodes@[q]).0 != k,
            decreases i,
        {
            i = i - 1;
            proof {
                assert(nodes@.take(i + 1).last() == nodes@[i as int]);
                assert(nodes@.take(i + 1).drop_last() =~= nodes@.take(i as int));
            }
            if nodes[i].0 == k {
                return Some(i);
            }
        }
        None
    }

    /// The position of the newest child record for `k`, if any.
    #[verifier::loop_isolation(false)]
    fn find_children(children: &Vec<(u64, Vec<u64>)>, k: u64) -> (r: Option<usize>)
        ensures
            match r {
                Some(i) => i < children@.len() && children@[i as int].0 == k && Some(
                    children@[i as int].1,
                ) == assoc_lookup(children@, k) && (forall|q: int|
                    i < q < children@.len() ==> (#[trigger] children@[q]).0 != k),
                None => assoc_lookup(children@, k) is None,
            },
    {
        let mut i = children.len();
        proof {
            assert(children@.take(i as int) =~= children@);
        }
        while i > 0
            invariant
                i <= children@.len(),
                assoc_lookup(children@, k) == assoc_lookup(children@.take(i as int), k),
                forall|q: int| i <= q < children@.len() ==> (#[trigger] children@[q]).0 != k,
            decreases i,
        {
            i = i - 1;
            proof {
                assert(children@.take(i + 1).last() == children@[i as int]);
                assert(children@.take(i + 1).drop_last() =~= children@.take(i as int));
            }
            if children[i].0 == k {
                return Some(i);
            }
        }
        None
    }
}

/// A key that an association list binds has an entry somewhere in it.
proof fn lemma_assoc_some_index<V>(s: Seq<(u64, V)>, k: u64)
    requires
        assoc_lookup(s, k) is Some,
    ensures
        exists|i: int| 0 <= i < s.len() && (#[trigger] s[i]).0 == k,
    decreases s.len(),
{
    if s.len() > 0 {
        if s.last().0 == k {
            assert(s[s.len() - 1].0 == k);
        } else {
            lemma_assoc_some_index(s.drop_last(), k);
            let i = choose|i: int| 0 <= i < s.drop_last().len() && (#[trigger] s.drop_last()[i]).0
                == k;
            assert(s[i].0 == k);
        }
    }
}

/// Updating the newest record for a key changes only that key's lookup.
proof fn lemma_assoc_update<V>(pre: Seq<(u64, V)>, post: Seq<(u64, V)>, i: int, key: u64)
    requires
        pre.len() == post.len(),
        0 <= i < pre.len(),
        pre[i].0 == key,
        post[i].0 == key,
        forall|q: int| 0 <= q < pre.len() && q != i ==> post[q] == pre[q],
        forall|q: int| i < q < pre.len() ==> (#[trigger] pre[q]).0 != key,
    ensures
        assoc_lookup(post, key) == Some(post[i].1),
        forall|k: u64| k != key ==> assoc_lookup(post, k) == assoc_lookup(pre, k),
    decreases pre.len(),
{
    if pre.len() == 0 {
    } else {
        if i == pre.len() - 1 {
            assert(pre.drop_last() =~= post.drop_last());
            assert forall|k: u64| k != key implies assoc_lookup(post, k) == assoc_lookup(
                pre,
                k,
            ) by {
                assert(assoc_lookup(post, k) == assoc_lookup(post.drop_last(), k));
                assert(assoc_lookup(pre, k) == assoc_lookup(pre.drop_last(), k));
            }
        } else {
            assert(post.last() == pre.last());
            assert(pre.drop_last()[i].0 == key);
            assert(post.drop_last()[i].0 == key);
            assert(forall|q: int|
                0 <= q < pre.drop_last().len() && q != i ==> post.drop_last()[q]
                    == pre.drop_last()[q]);
            assert(forall|q: int|
                i < q < pre.drop_last().len() ==> (#[trigger] pre.drop_last()[q]).0 != key);
            lemma_assoc_update::<V>(pre.drop_last(), post.drop_last(), i, key);
            assert(post[i].1 == post.drop_last()[i].1);
            assert forall|k: u64| k != key implies assoc_lookup(post, k) == assoc_lookup(
                pre,
                k,
            ) by {
                if post.last().0 == k {
                } else {
                    assert(assoc_lookup(post, k) == assoc_lookup(post.drop_last(), k));
                    assert(assoc_lookup(pre, k) == assoc_lookup(pre.drop_last(), k));
                }
            }
        }
    }
}

} // verus!
