//! The mathematical model of the inode table and of the remembered listings.
//!
//! Inode `1` is the root. Every other inode is bound to a pair of a parent
//! inode and a name when the pair is first referred to, and keeps that
//! binding. A directory whose children have been listed once keeps that
//! listing: the inodes of its children, in the order in which they came.
use vstd::prelude::*;
use crate::filesystem::node::{FileKind, EIO, ENOENT};

verus! {

/// The inode of the root.
pub const ROOT: u64 = 1;

/// What an inode stands for.
#[verifier::ext_equal]
pub struct Slot<N> {
    /// The inode of the directory that holds the entry; the root holds itself.
    pub parent: u64,
    /// The name of the entry in that directory.
    pub name: Seq<char>,
    /// The node that the entry resolved to.
    pub node: N,
}

/// The inode table and the listings that have been remembered.
#[verifier::ext_equal]
pub struct Tree<N> {
    /// Inode `i` is `slots[i - 1]`.
    pub slots: Seq<Slot<N>>,
    /// The listing of each directory that has been expanded.
    pub listings: Map<u64, Seq<u64>>,
}

/// The name under which a directory lists itself.
pub open spec fn dot() -> Seq<char> {
    seq!['.']
}

/// The name under which a directory lists its parent.
pub open spec fn dotdot() -> Seq<char> {
    seq!['.', '.']
}

impl<N> Tree<N> {
    /// A tree that holds `root` alone.
    pub open spec fn rooted(root: N) -> Tree<N> {
        Tree { slots: seq![Slot { parent: ROOT, name: Seq::empty(), node: root }], listings: Map::empty() }
    }

    /// `ino` has been assigned.
    pub open spec fn known(self, ino: u64) -> bool {
        1 <= ino <= self.slots.len()
    }

    /// What `ino` stands for.
    pub open spec fn slot(self, ino: u64) -> Slot<N> {
        self.slots[ino - 1]
    }

    /// `ino` is the inode of the entry `name` of directory `parent`.
    pub open spec fn bound(self, parent: u64, name: Seq<char>, ino: u64) -> bool {
        &&& 2 <= ino <= self.slots.len()
        &&& self.slot(ino).parent == parent
        &&& self.slot(ino).name == name
    }

    /// The inode of the entry `name` of directory `parent`, if it has one.
    pub open spec fn binding(self, parent: u64, name: Seq<char>) -> Option<u64> {
        if exists|ino: u64| self.bound(parent, name, ino) {
            Some(choose|ino: u64| self.bound(parent, name, ino))
        } else {
            None
        }
    }

    /// The table can take `n` more inodes.
    pub open spec fn room(self, n: nat) -> bool {
        self.slots.len() + n <= usize::MAX
    }

    /// The invariant: the root is there, every other inode hangs under an
    /// earlier one, no pair of parent and name has two inodes, and a listing
    /// belongs to a known directory and names children of that directory.
    pub open spec fn wf(self) -> bool {
        &&& 1 <= self.slots.len() <= usize::MAX
        &&& self.slots[0].parent == ROOT
        &&& forall|ino: u64| 2 <= ino <= self.slots.len() ==> 1 <= (#[trigger] self.slot(ino)).parent < ino
        &&& forall|a: u64, b: u64|
            #![trigger self.slot(a), self.slot(b)]
            2 <= a <= self.slots.len() && 2 <= b <= self.slots.len() && self.slot(a).parent == self.slot(b).parent
                && self.slot(a).name == self.slot(b).name ==> a == b
        &&& forall|k: u64| #[trigger] self.listings.contains_key(k) ==> self.known(k)
        &&& forall|k: u64, j: int|
            self.listings.contains_key(k) && 0 <= j < self.listings[k].len() ==> 2 <= (
            #[trigger] self.listings[k][j]) <= self.slots.len() && self.slot(self.listings[k][j]).parent == k
    }

    /// `later` holds everything that this tree holds: the same inodes with
    /// the same bindings and nodes, and the same listings.
    pub open spec fn extends(self, later: Tree<N>) -> bool {
        &&& self.slots.len() <= later.slots.len()
        &&& forall|i: int| 0 <= i < self.slots.len() ==> #[trigger] later.slots[i] == self.slots[i]
        &&& forall|k: u64| #[trigger]
            self.listings.contains_key(k) ==> later.listings.contains_key(k) && later.listings[k]
                == self.listings[k]
    }

    /// Binds the entry `name` of `parent` to `node`, unless the pair is bound
    /// already: then the binding stays and `node` is not used. Gives the tree
    /// and the inode of the pair.
    pub open spec fn bind(self, parent: u64, name: Seq<char>, node: N) -> (Tree<N>, u64) {
        match self.binding(parent, name) {
            Some(ino) => (self, ino),
            None => (
                Tree { slots: self.slots.push(Slot { parent, name, node }), listings: self.listings },
                (self.slots.len() + 1) as u64,
            ),
        }
    }

    /// Binds the first `n` of `items` under `parent`, in order. Gives the
    /// tree and the inodes of the items.
    pub open spec fn bind_all(self, parent: u64, items: Seq<(Seq<char>, N)>, n: int) -> (Tree<N>, Seq<u64>)
        decreases n,
    {
        if n <= 0 {
            (self, Seq::empty())
        } else {
            let (tree, inos) = self.bind_all(parent, items, n - 1);
            let (tree, ino) = tree.bind(parent, items[n - 1].0, items[n - 1].1);
            (tree, inos.push(ino))
        }
    }

    /// Binds `items` under directory `ino` and remembers them as its listing.
    pub open spec fn populate(self, ino: u64, items: Seq<(Seq<char>, N)>) -> Tree<N> {
        let (tree, inos) = self.bind_all(ino, items, items.len() as int);
        Tree { slots: tree.slots, listings: tree.listings.insert(ino, inos) }
    }

    /// What directory `ino` lists: itself, its parent, then the remembered
    /// children in the order in which they came, each with its inode.
    pub open spec fn entries(self, ino: u64) -> Seq<(u64, Seq<char>)> {
        seq![(ino, dot()), (self.slot(ino).parent, dotdot())] + Seq::new(
            self.listings[ino].len(),
            |j: int| (self.listings[ino][j], self.slot(self.listings[ino][j]).name),
        )
    }

    /// What a lookup returns where the tree alone decides: an unknown parent
    /// has no entries, and a bound pair has its inode.
    pub open spec fn decided(self, parent: u64, name: Seq<char>) -> Option<Result<u64, i32>> {
        if !self.known(parent) {
            Some(Err(ENOENT))
        } else if self.binding(parent, name) is Some {
            Some(Ok(self.binding(parent, name)->Some_0))
        } else {
            None
        }
    }

    /// What the listing of `parent` says of `name` once it is remembered:
    /// every listed name is bound, so a name that is not bound is not there.
    pub open spec fn listed_answer(self, parent: u64, name: Seq<char>) -> Result<u64, i32> {
        match self.binding(parent, name) {
            Some(ino) => Ok(ino),
            None => Err(ENOENT),
        }
    }

    /// What a listing returns where the tree alone decides: an unknown inode
    /// fails, and a directory that has been listed shows what it showed.
    pub open spec fn listed(self, ino: u64) -> Option<Result<Seq<(u64, Seq<char>)>, i32>> {
        if !self.known(ino) {
            Some(Err(ENOENT))
        } else if self.listings.contains_key(ino) {
            Some(Ok(self.entries(ino)))
        } else {
            None
        }
    }

    /// A listing of `ino`, where the node of `ino` reports itself of kind
    /// `kind` and expands to `expanded` if it is asked.
    ///
    /// Where the tree does not decide, a node that is no directory gives an
    /// I/O error and is not asked for children. A failure of the expansion
    /// is handed on. Children are bound and remembered if the table has room
    /// for all of them.
    pub open spec fn readdir(self, ino: u64, kind: FileKind, expanded: Result<Seq<(Seq<char>, N)>, i32>) -> (
        Tree<N>,
        Result<Seq<(u64, Seq<char>)>, i32>,
    ) {
        match self.listed(ino) {
            Some(answer) => (self, answer),
            None => if kind != FileKind::Directory {
                (self, Err(EIO))
            } else {
                match expanded {
                    Err(code) => (self, Err(code)),
                    Ok(items) => if self.room(items.len()) {
                        (self.populate(ino, items), Ok(self.populate(ino, items).entries(ino)))
                    } else {
                        (self, Err(EIO))
                    },
                }
            },
        }
    }

    /// A lookup of `name` in `parent`, where the node of `parent` reports
    /// itself of kind `kind`, resolves the name to `resolved` and expands to
    /// `expanded` if it is asked.
    ///
    /// Where the tree does not decide, a node that is no directory gives an
    /// I/O error and is asked nothing more. A directory is asked for the
    /// name. A failure is handed on. A node that it names takes the next
    /// free inode. Where it names none and leaves the answer to its listing,
    /// the directory is listed as by [`Tree::readdir`], and the name is
    /// there exactly if the listing bound it.
    pub open spec fn lookup(
        self,
        parent: u64,
        name: Seq<char>,
        kind: FileKind,
        resolved: Result<Option<N>, i32>,
        expanded: Result<Seq<(Seq<char>, N)>, i32>,
    ) -> (Tree<N>, Result<u64, i32>) {
        match self.decided(parent, name) {
            Some(answer) => (self, answer),
            None => if kind != FileKind::Directory {
                (self, Err(EIO))
            } else {
                match resolved {
                    Err(code) => (self, Err(code)),
                    Ok(Some(node)) => if self.room(1) {
                        (self.bind(parent, name, node).0, Ok(self.bind(parent, name, node).1))
                    } else {
                        (self, Err(EIO))
                    },
                    Ok(None) => match self.readdir(parent, kind, expanded).1 {
                        Err(code) => (self.readdir(parent, kind, expanded).0, Err(code)),
                        Ok(_) => (
                            self.readdir(parent, kind, expanded).0,
                            self.readdir(parent, kind, expanded).0.listed_answer(parent, name),
                        ),
                    },
                }
            },
        }
    }
}

/// A pair that is bound to an inode is bound to no other.
pub proof fn lemma_binding_unique<N>(tree: Tree<N>, parent: u64, name: Seq<char>, ino: u64)
    requires
        tree.wf(),
        tree.bound(parent, name, ino),
    ensures
        tree.binding(parent, name) == Some(ino),
{
    let other = choose|other: u64| tree.bound(parent, name, other);
    assert(tree.slot(other).parent == tree.slot(ino).parent);
}

/// A pair that no inode is bound to has no binding.
pub proof fn lemma_binding_none<N>(tree: Tree<N>, parent: u64, name: Seq<char>)
    requires
        forall|ino: u64| 2 <= ino <= tree.slots.len() ==> !tree.bound(parent, name, ino),
    ensures
        tree.binding(parent, name) is None,
{
}

/// What a tree holds, every tree after a later tree holds.
pub proof fn lemma_extends_transitive<N>(a: Tree<N>, b: Tree<N>, c: Tree<N>)
    requires
        a.extends(b),
        b.extends(c),
    ensures
        a.extends(c),
{
    assert forall|i: int| 0 <= i < a.slots.len() implies #[trigger] c.slots[i] == a.slots[i] by {
        assert(b.slots[i] == a.slots[i]);
    }
    assert forall|k: u64| #[trigger] a.listings.contains_key(k) implies c.listings.contains_key(k)
        && c.listings[k] == a.listings[k] by {
        assert(b.listings.contains_key(k));
    }
}

/// A binding survives in every later tree.
pub proof fn lemma_binding_kept<N>(tree: Tree<N>, later: Tree<N>, parent: u64, name: Seq<char>, ino: u64)
    requires
        later.wf(),
        tree.extends(later),
        tree.bound(parent, name, ino),
    ensures
        later.bound(parent, name, ino),
        later.binding(parent, name) == Some(ino),
{
    assert(later.slots[ino - 1] == tree.slots[ino - 1]);
    lemma_binding_unique(later, parent, name, ino);
}

/// Binding a pair under a known directory keeps the invariant, keeps all
/// that was there, and leaves the pair bound to the inode given.
pub proof fn lemma_bind<N>(tree: Tree<N>, parent: u64, name: Seq<char>, node: N)
    requires
        tree.wf(),
        tree.known(parent),
        tree.room(1),
    ensures
        tree.bind(parent, name, node).0.wf(),
        tree.extends(tree.bind(parent, name, node).0),
        tree.bind(parent, name, node).0.bound(parent, name, tree.bind(parent, name, node).1),
        tree.bind(parent, name, node).0.listings == tree.listings,
        tree.bind(parent, name, node).0.slots.len() <= tree.slots.len() + 1,
{
    let (after, ino) = tree.bind(parent, name, node);
    match tree.binding(parent, name) {
        Some(found) => {},
        None => {
            assert forall|a: u64| 2 <= a <= tree.slots.len() implies after.slot(a) == tree.slot(a) by {}
            assert forall|a: u64, b: u64|
                #![trigger after.slot(a), after.slot(b)]
                2 <= a <= after.slots.len() && 2 <= b <= after.slots.len() && after.slot(a).parent == after.slot(
                    b,
                ).parent && after.slot(a).name == after.slot(b).name implies a == b by {
                if a <= tree.slots.len() && b <= tree.slots.len() {
                    assert(tree.slot(a).parent == tree.slot(b).parent);
                } else if a <= tree.slots.len() {
                    assert(tree.bound(parent, name, a));
                } else if b <= tree.slots.len() {
                    assert(tree.bound(parent, name, b));
                }
            }
            assert forall|i: u64| 2 <= i <= after.slots.len() implies 1 <= (#[trigger] after.slot(i)).parent
                < i by {
                if i <= tree.slots.len() {
                    assert(after.slot(i) == tree.slot(i));
                }
            }
            assert forall|k: u64, j: int|
                after.listings.contains_key(k) && 0 <= j < after.listings[k].len() implies 2 <= (
            #[trigger] after.listings[k][j]) <= after.slots.len() && after.slot(after.listings[k][j]).parent
                == k by {
                let e = tree.listings[k][j];
                assert(after.slot(e) == tree.slot(e));
            }
        },
    }
}

/// Binding a run of items under a known directory keeps the invariant and
/// all that was there, and leaves every item bound to the inode given for it.
pub proof fn lemma_bind_all<N>(tree: Tree<N>, parent: u64, items: Seq<(Seq<char>, N)>, n: int)
    requires
        tree.wf(),
        tree.known(parent),
        0 <= n <= items.len(),
        tree.room(n as nat),
    ensures
        tree.bind_all(parent, items, n).0.wf(),
        tree.extends(tree.bind_all(parent, items, n).0),
        tree.bind_all(parent, items, n).0.listings == tree.listings,
        tree.bind_all(parent, items, n).0.slots.len() <= tree.slots.len() + n,
        tree.bind_all(parent, items, n).1.len() == n,
        forall|j: int|
            0 <= j < n ==> tree.bind_all(parent, items, n).0.bound(
                parent,
                items[j].0,
                #[trigger] tree.bind_all(parent, items, n).1[j],
            ),
    decreases n,
{
    if n > 0 {
        lemma_bind_all(tree, parent, items, n - 1);
        let (mid, inos) = tree.bind_all(parent, items, n - 1);
        lemma_bind(mid, parent, items[n - 1].0, items[n - 1].1);
        let (after, ino) = mid.bind(parent, items[n - 1].0, items[n - 1].1);
        lemma_extends_transitive(tree, mid, after);
        assert forall|j: int| 0 <= j < n implies after.bound(parent, items[j].0, #[trigger] inos.push(ino)[j]) by {
            if j < n - 1 {
                lemma_binding_kept(mid, after, parent, items[j].0, inos[j]);
            }
        }
    }
}

/// Remembering the listing of a known directory that had none keeps the
/// invariant and all that was there.
pub proof fn lemma_populate<N>(tree: Tree<N>, ino: u64, items: Seq<(Seq<char>, N)>)
    requires
        tree.wf(),
        tree.known(ino),
        !tree.listings.contains_key(ino),
        tree.room(items.len()),
    ensures
        tree.populate(ino, items).wf(),
        tree.extends(tree.populate(ino, items)),
        tree.populate(ino, items).listings.contains_key(ino),
        tree.populate(ino, items).listings[ino].len() == items.len(),
{
    lemma_bind_all(tree, ino, items, items.len() as int);
    let (mid, inos) = tree.bind_all(ino, items, items.len() as int);
    let after = tree.populate(ino, items);
    assert(after.slots == mid.slots);
    assert forall|a: u64| 1 <= a <= after.slots.len() implies after.slot(a) == mid.slot(a) by {}
    assert forall|k: u64, j: int|
        after.listings.contains_key(k) && 0 <= j < after.listings[k].len() implies 2 <= (
    #[trigger] after.listings[k][j]) <= after.slots.len() && after.slot(after.listings[k][j]).parent == k by {
        if k == ino {
            assert(after.listings[k] == inos);
            assert(mid.bound(ino, items[j].0, inos[j]));
        } else {
            assert(mid.listings.contains_key(k));
            assert(after.listings[k] == mid.listings[k]);
            let e = mid.listings[k][j];
            assert(2 <= e <= mid.slots.len() && mid.slot(e).parent == k);
        }
    }
    assert forall|k: u64| #[trigger] after.listings.contains_key(k) implies after.known(k) by {
        if k != ino {
            assert(mid.listings.contains_key(k));
        }
    }
    assert forall|i: u64| 2 <= i <= after.slots.len() implies 1 <= (#[trigger] after.slot(i)).parent < i by {
        assert(1 <= mid.slot(i).parent < i);
    }
    assert forall|a: u64, b: u64|
        #![trigger after.slot(a), after.slot(b)]
        2 <= a <= after.slots.len() && 2 <= b <= after.slots.len() && after.slot(a).parent == after.slot(b).parent
            && after.slot(a).name == after.slot(b).name implies a == b by {
        assert(mid.slot(a).parent == mid.slot(b).parent);
    }
}

/// A listing keeps the invariant and all that was there, and where it
/// succeeds the directory's listing is remembered from then on.
pub proof fn lemma_readdir<N>(tree: Tree<N>, ino: u64, kind: FileKind, expanded: Result<Seq<(Seq<char>, N)>, i32>)
    requires
        tree.wf(),
    ensures
        tree.readdir(ino, kind, expanded).0.wf(),
        tree.extends(tree.readdir(ino, kind, expanded).0),
        tree.readdir(ino, kind, expanded).1 is Ok ==> tree.readdir(ino, kind, expanded).0.known(ino)
            && tree.readdir(ino, kind, expanded).0.listings.contains_key(ino),
{
    match tree.listed(ino) {
        Some(answer) => {},
        None => match expanded {
            Ok(items) => if tree.room(items.len()) && kind == FileKind::Directory {
                lemma_populate(tree, ino, items);
            },
            Err(_) => {},
        },
    }
}

/// A lookup keeps the invariant and all that was there, and the inode it
/// gives is bound to the pair.
pub proof fn lemma_lookup<N>(
    tree: Tree<N>,
    parent: u64,
    name: Seq<char>,
    kind: FileKind,
    resolved: Result<Option<N>, i32>,
    expanded: Result<Seq<(Seq<char>, N)>, i32>,
)
    requires
        tree.wf(),
    ensures
        tree.lookup(parent, name, kind, resolved, expanded).0.wf(),
        tree.extends(tree.lookup(parent, name, kind, resolved, expanded).0),
        tree.lookup(parent, name, kind, resolved, expanded).1 matches Ok(ino) ==> tree.lookup(
            parent,
            name,
            kind,
            resolved,
            expanded,
        ).0.bound(parent, name, ino),
{
    match tree.decided(parent, name) {
        Some(answer) => {
            if tree.known(parent) && tree.binding(parent, name) is Some {
                let ino = choose|ino: u64| tree.bound(parent, name, ino);
                assert(tree.bound(parent, name, ino));
            }
        },
        None => if kind == FileKind::Directory {
            match resolved {
                Ok(Some(node)) => if tree.room(1) {
                    lemma_bind(tree, parent, name, node);
                },
                Ok(None) => {
                    lemma_readdir(tree, parent, kind, expanded);
                    let after = tree.readdir(parent, kind, expanded).0;
                    if after.binding(parent, name) is Some {
                        let ino = choose|ino: u64| after.bound(parent, name, ino);
                        assert(after.bound(parent, name, ino));
                    }
                },
                Err(_) => {},
            }
        },
    }
}

/// A pair that a lookup resolved resolves to the same inode in every later
/// tree, whatever the node would report and answer then.
pub proof fn lemma_lookup_stable<N>(
    tree: Tree<N>,
    parent: u64,
    name: Seq<char>,
    first: (FileKind, Result<Option<N>, i32>, Result<Seq<(Seq<char>, N)>, i32>),
    later: Tree<N>,
    second: (FileKind, Result<Option<N>, i32>, Result<Seq<(Seq<char>, N)>, i32>),
)
    requires
        tree.wf(),
        later.wf(),
        tree.lookup(parent, name, first.0, first.1, first.2).0.extends(later),
        tree.lookup(parent, name, first.0, first.1, first.2).1 is Ok,
    ensures
        later.lookup(parent, name, second.0, second.1, second.2).1 == tree.lookup(
            parent,
            name,
            first.0,
            first.1,
            first.2,
        ).1,
        later.lookup(parent, name, second.0, second.1, second.2).0 == later,
{
    lemma_lookup(tree, parent, name, first.0, first.1, first.2);
    let (mid, answer) = tree.lookup(parent, name, first.0, first.1, first.2);
    let ino = answer->Ok_0;
    lemma_bound_stays(mid, later, parent, name, ino);
}

/// A pair that is bound to an inode resolves to that inode in every later
/// tree, whatever the node would report and answer, and the lookup changes
/// nothing.
pub proof fn lemma_bound_stays<N>(tree: Tree<N>, later: Tree<N>, parent: u64, name: Seq<char>, ino: u64)
    requires
        tree.wf(),
        later.wf(),
        tree.extends(later),
        tree.bound(parent, name, ino),
    ensures
        later.decided(parent, name) == Some(Ok::<u64, i32>(ino)),
        forall|kind: FileKind, resolved: Result<Option<N>, i32>, expanded: Result<Seq<(Seq<char>, N)>, i32>| #[trigger]
            later.lookup(parent, name, kind, resolved, expanded) == (later, Ok::<u64, i32>(ino)),
{
    lemma_binding_kept(tree, later, parent, name, ino);
    assert(1 <= later.slot(ino).parent < ino);
}

/// A directory that has been listed lists the same entries in the same
/// order in every later tree, whatever its node would report and answer
/// then, and the listing changes nothing.
pub proof fn lemma_readdir_snapshot<N>(tree: Tree<N>, ino: u64, later: Tree<N>)
    requires
        tree.wf(),
        later.wf(),
        tree.known(ino),
        tree.listings.contains_key(ino),
        tree.extends(later),
    ensures
        later.listed(ino) == Some(Ok::<Seq<(u64, Seq<char>)>, i32>(tree.entries(ino))),
        forall|kind: FileKind, expanded: Result<Seq<(Seq<char>, N)>, i32>| #[trigger]
            later.readdir(ino, kind, expanded) == (later, Ok::<Seq<(u64, Seq<char>)>, i32>(tree.entries(ino))),
{
    assert(later.listings.contains_key(ino));
    assert(later.slots[ino - 1] == tree.slots[ino - 1]);
    assert forall|j: int| 0 <= j < tree.listings[ino].len() implies later.slot(tree.listings[ino][j])
        == tree.slot(tree.listings[ino][j]) by {
        let e = tree.listings[ino][j];
        assert(2 <= e <= tree.slots.len());
        assert(later.slots[e - 1] == tree.slots[e - 1]);
    }
    assert(later.entries(ino) =~= tree.entries(ino));
}

/// A name that a directory listed resolves to the inode that the listing
/// showed for it, in every later tree and whatever the node would answer.
pub proof fn lemma_listed_names_resolve<N>(tree: Tree<N>, ino: u64, j: int, later: Tree<N>)
    requires
        tree.wf(),
        later.wf(),
        tree.listings.contains_key(ino),
        0 <= j < tree.listings[ino].len(),
        tree.extends(later),
    ensures
        tree.entries(ino)[j + 2] == (tree.listings[ino][j], tree.slot(tree.listings[ino][j]).name),
        later.decided(ino, tree.slot(tree.listings[ino][j]).name) == Some(
            Ok::<u64, i32>(tree.listings[ino][j]),
        ),
{
    let child = tree.listings[ino][j];
    let name = tree.slot(child).name;
    assert(tree.known(ino));
    assert(tree.bound(ino, name, child));
    lemma_bound_stays(tree, later, ino, name, child);
}

} // verus!
