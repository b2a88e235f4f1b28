//! The inode table, the remembered listings and the open files, and the
//! requests that are answered from them.
use vstd::prelude::*;
use crate::filesystem::cache::ExpansionCache;
use crate::filesystem::inodes::{
    Slot,
    Tree,
    ROOT,
    lemma_bind,
    lemma_bind_all,
    lemma_binding_none,
    lemma_binding_unique,
    lemma_lookup,
    lemma_populate,
    lemma_readdir,
};
use crate::filesystem::node::{Error, FileAttributes, FileKind, Node, Stream, EIO, ENOENT};
use crate::ioutil::readseek::{ReadSeek, SourceError, delivered, fails_with, none_pending, settled_kept};

verus! {

/// One line of a directory listing.
#[derive(Debug, PartialEq, Eq)]
pub struct DirEntry {
    /// The inode of the entry.
    pub ino: u64,
    /// The name of the entry.
    pub name: String,
}

/// A listing as pairs of inode and name.
pub open spec fn shown(entries: Seq<DirEntry>) -> Seq<(u64, Seq<char>)> {
    Seq::new(entries.len(), |j: int| (entries[j].ino, entries[j].name@))
}

/// The children that a node listed, as pairs of name and node.
pub open spec fn named<N>(items: Seq<(String, N)>) -> Seq<(Seq<char>, N)> {
    Seq::new(items.len(), |j: int| (items[j].0@, items[j].1))
}

/// The model of what a node answered to a request for its children.
pub open spec fn expansion<N>(expanded: Result<Vec<(String, N)>, i32>) -> Result<Seq<(Seq<char>, N)>, i32> {
    match expanded {
        Ok(items) => Ok(named(items@)),
        Err(code) => Err(code),
    }
}

/// `code` is a status that `e` reports for itself.
pub open spec fn status<E: Error>(e: E, code: i32) -> bool {
    call_ensures(E::errno, (&e,), code)
}

/// `out` is the answer `raw` of a node with its failure turned into the
/// status that the failure reports for itself.
pub open spec fn translated<T, E: Error>(raw: Result<T, E>, out: Result<T, i32>) -> bool {
    match raw {
        Ok(value) => out == Ok::<T, i32>(value),
        Err(e) => out matches Err(code) && status(e, code),
    }
}

/// `attrs` is what `node` reports of itself when asked under inode `ino`.
pub open spec fn reports<N: Node>(node: N, ino: u64, attrs: FileAttributes) -> bool {
    call_ensures(N::file_attributes, (&node, ino), attrs)
}

/// `resolved` is what `node` answers when asked for its child `name`.
pub open spec fn resolves<N: Node>(node: N, name: &str, resolved: Result<Option<N>, i32>) -> bool {
    exists|raw: Result<Option<N>, N::Error>| #[trigger]
        call_ensures(N::child_by_name, (&node, name), raw) && translated(raw, resolved)
}

/// `expanded` is what `node` answers when asked for its children.
pub open spec fn expands<N: Node>(node: N, expanded: Result<Vec<(String, N)>, i32>) -> bool {
    exists|raw: Result<Vec<(String, N)>, N::Error>| #[trigger]
        call_ensures(N::children, (&node,), raw) && translated(raw, expanded)
}

/// `opened` is what `node` answers when asked to open.
pub open spec fn opens<N: Node>(node: N, opened: Result<Stream<N::Producer>, i32>) -> bool {
    exists|raw: Result<Stream<N::Producer>, N::Error>| #[trigger]
        call_ensures(N::open_ro, (&node,), raw) && translated(raw, opened)
}

/// `link` is what `node` answers when asked for its link target.
pub open spec fn links<N: Node>(node: N, link: Result<String, i32>) -> bool {
    exists|raw: Result<String, N::Error>| #[trigger]
        call_ensures(N::read_link, (&node,), raw) && translated(raw, link)
}

/// What a lookup of `name` asks of the node of the directory, and what
/// comes back: the node reports `attrs`; if it reports a directory it is
/// asked for the name and answers `resolved`; and if it leaves the answer to
/// a listing that is not remembered yet, it is asked for its children and
/// answers `expanded`.
pub open spec fn asked_for_name<N: Node>(
    node: N,
    ino: u64,
    name: &str,
    listed: bool,
    attrs: FileAttributes,
    resolved: Result<Option<N>, i32>,
    expanded: Result<Vec<(String, N)>, i32>,
) -> bool {
    &&& reports(node, ino, attrs)
    &&& attrs.kind == FileKind::Directory ==> resolves(node, name, resolved)
    &&& attrs.kind == FileKind::Directory && (resolved matches Ok(None)) && !listed ==> expands(node, expanded)
}

/// What a listing asks of the node of the directory, and what comes back:
/// the node reports `attrs`, and if it reports a directory it is asked for
/// its children and answers `expanded`.
pub open spec fn asked_for_listing<N: Node>(
    node: N,
    ino: u64,
    attrs: FileAttributes,
    expanded: Result<Vec<(String, N)>, i32>,
) -> bool {
    &&& reports(node, ino, attrs)
    &&& attrs.kind == FileKind::Directory ==> expands(node, expanded)
}

/// What opening asks of the node, and what comes back: the node reports
/// `attrs`, and if it reports a regular file it is asked to open and
/// answers `opened`.
pub open spec fn asked_to_open<N: Node>(
    node: N,
    ino: u64,
    attrs: FileAttributes,
    opened: Result<Stream<N::Producer>, i32>,
) -> bool {
    &&& reports(node, ino, attrs)
    &&& attrs.kind == FileKind::RegularFile ==> opens(node, opened)
}

/// What reading a link asks of the node, and what comes back: the node
/// reports `attrs`, and if it reports a symbolic link it is asked for its
/// target and answers `link`.
pub open spec fn asked_for_link<N: Node>(node: N, ino: u64, attrs: FileAttributes, link: Result<String, i32>) -> bool {
    &&& reports(node, ino, attrs)
    &&& attrs.kind == FileKind::Symlink ==> links(node, link)
}

struct Inode<N> {
    parent: u64,
    name: String,
    node: N,
}

/// A tree of nodes under inode numbers, with the listings that directories
/// gave and the streams of the files that are open.
pub struct FS<N: Node> {
    inodes: Vec<Inode<N>>,
    cache: ExpansionCache<Vec<u64>>,
    handles: Vec<Option<Stream<N::Producer>>>,
}

impl<N: Node> View for FS<N> {
    type V = Tree<N>;

    closed spec fn view(&self) -> Tree<N> {
        Tree {
            slots: Seq::new(
                self.inodes.len() as nat,
                |i: int| Slot { parent: self.inodes[i].parent, name: self.inodes[i].name@, node: self.inodes[i].node },
            ),
            listings: Map::new(|k: u64| self.cache@.contains_key(k), |k: u64| self.cache@[k]@),
        }
    }
}

impl<N: Node> FS<N> {
    /// The stream behind each handle; a handle that was released has none.
    pub closed spec fn streams(&self) -> Seq<Option<Stream<N::Producer>>> {
        self.handles@
    }

    /// `handle` names an open file.
    pub open spec fn is_open(&self, handle: u64) -> bool {
        handle < self.streams().len() && self.streams()[handle as int] is Some
    }

    /// The invariant: the tree is well-formed and so is every open stream.
    pub open spec fn wf(&self) -> bool {
        &&& self@.wf()
        &&& forall|h: int| 0 <= h < self.streams().len() ==> (#[trigger] self.streams()[h] matches Some(s) ==> s.wf())
    }

    /// A tree that holds `root` alone, under inode 1.
    pub fn new(root: N) -> (fs: FS<N>)
        ensures
            fs.wf(),
            fs@ == Tree::rooted(root),
            fs.streams().len() == 0,
    {
        let mut inodes: Vec<Inode<N>> = Vec::new();
        inodes.push(Inode { parent: ROOT, name: String::new(), node: root });
        let fs = FS { inodes, cache: ExpansionCache::new(), handles: Vec::new() };
        proof {
            assert(fs@.slots =~= Tree::rooted(root).slots);
            assert(fs@.listings =~= Tree::rooted(root).listings);
        }
        fs
    }

    /// The number of inodes that have been assigned.
    pub fn inode_count(&self) -> (n: usize)
        ensures
            n == self@.slots.len(),
    {
        self.inodes.len()
    }

    /// Whether `ino` has been assigned.
    pub fn is_known(&self, ino: u64) -> (b: bool)
        ensures
            b == self@.known(ino),
    {
        1 <= ino && ino <= self.inodes.len() as u64
    }

    /// The inode that the entry `name` of `parent` is bound to, if any.
    fn find(&self, parent: u64, name: &String) -> (found: Option<u64>)
        requires
            self@.wf(),
        ensures
            found == self@.binding(parent, name@),
    {
        let mut i: usize = 1;
        while i < self.inodes.len()
            invariant
                self@.wf(),
                1 <= i <= self.inodes.len(),
                forall|ino: u64| 2 <= ino <= i ==> !self@.bound(parent, name@, ino),
            decreases self.inodes.len() - i,
        {
            if self.inodes[i].parent == parent && self.inodes[i].name == *name {
                let ino: u64 = (i + 1) as u64;
                proof {
                    assert(self@.bound(parent, name@, ino));
                    lemma_binding_unique(self@, parent, name@, ino);
                }
                return Some(ino);
            }
            i += 1;
        }
        proof {
            lemma_binding_none(self@, parent, name@);
        }
        None
    }

    /// The answer to a lookup where the tree alone decides.
    fn decide(&self, parent: u64, name: &String) -> (answer: Option<Result<u64, i32>>)
        requires
            self@.wf(),
        ensures
            answer == self@.decided(parent, name@),
    {
        if !self.is_known(parent) {
            return Some(Err(ENOENT));
        }
        match self.find(parent, name) {
            Some(ino) => Some(Ok(ino)),
            None => None,
        }
    }

    /// Binds the entry `name` of `parent` to `node` unless it is bound.
    fn adopt(&mut self, parent: u64, name: String, node: N) -> (ino: u64)
        requires
            old(self).wf(),
            old(self)@.known(parent),
            old(self)@.room(1),
        ensures
            final(self).wf(),
            final(self).streams() == old(self).streams(),
            (final(self)@, ino) == old(self)@.bind(parent, name@, node),
    {
        proof {
            lemma_bind(self@, parent, name@, node);
        }
        match self.find(parent, &name) {
            Some(ino) => ino,
            None => {
                self.inodes.push(Inode { parent, name, node });
                proof {
                    let expected = old(self)@.bind(parent, name@, node).0;
                    assert(self@.slots =~= expected.slots);
                    assert(self@.listings =~= expected.listings);
                }
                self.inodes.len() as u64
            },
        }
    }

    /// A lookup of `name` in `parent`, given the kind that the node of
    /// `parent` reports, what it resolves the name to and what it expands
    /// to. The answers are used only where the tree does not decide: a pair
    /// that is bound keeps its inode. A node that is no directory gives an
    /// I/O error. A node that was resolved takes the next free inode and a
    /// failure is handed on. Where the node leaves the answer to its
    /// listing, the directory is listed as by [`FS::readdir_with`] and the
    /// name is looked up among what the listing bound.
    pub fn lookup_with(
        &mut self,
        parent: u64,
        name: String,
        kind: FileKind,
        resolved: Result<Option<N>, i32>,
        expanded: Result<Vec<(String, N)>, i32>,
    ) -> (r: Result<u64, i32>)
        requires
            old(self).wf(),
        ensures
            final(self).wf(),
            final(self).streams() == old(self).streams(),
            old(self)@.extends(final(self)@),
            (final(self)@, r) == old(self)@.lookup(parent, name@, kind, resolved, expansion(expanded)),
            r matches Ok(ino) ==> final(self)@.bound(parent, name@, ino),
    {
        proof {
            lemma_lookup(self@, parent, name@, kind, resolved, expansion(expanded));
        }
        match self.decide(parent, &name) {
            Some(answer) => answer,
            None => match kind {
                FileKind::Directory => match resolved {
                    Err(code) => Err(code),
                    Ok(Some(node)) => {
                        if self.inodes.len() >= usize::MAX {
                            Err(EIO)
                        } else {
                            Ok(self.adopt(parent, name, node))
                        }
                    },
                    Ok(None) => match self.readdir_with(parent, kind, expanded) {
                        Err(code) => Err(code),
                        Ok(_) => match self.find(parent, &name) {
                            Some(ino) => Ok(ino),
                            None => Err(ENOENT),
                        },
                    },
                },
                _ => Err(EIO),
            },
        }
    }

    /// Resolves `name` in directory `parent` to an inode.
    ///
    /// A pair that is bound keeps its inode, and an unknown parent holds
    /// nothing; the node is not asked then. Otherwise the node of `parent`
    /// is asked what it is. If it reports a directory it is asked for the
    /// name, and for its children if it leaves the answer to its listing and
    /// has not been listed before. A failure comes back as the status that
    /// it reports for itself. The outcome is that of [`FS::lookup_with`] for
    /// what the node answered.
    pub fn lookup(&mut self, parent: u64, name: &str) -> (r: Result<u64, i32>)
        requires
            old(self).wf(),
        ensures
            final(self).wf(),
            final(self).streams() == old(self).streams(),
            old(self)@.extends(final(self)@),
            r matches Ok(ino) ==> final(self)@.bound(parent, name@, ino),
            old(self)@.decided(parent, name@) matches Some(answer) ==> r == answer && final(self)@ == old(self)@,
            old(self)@.decided(parent, name@) is None ==> exists|
                attrs: FileAttributes,
                resolved: Result<Option<N>, i32>,
                expanded: Result<Vec<(String, N)>, i32>,
            | #[trigger]
                asked_for_name(
                    old(self)@.slot(parent).node,
                    parent,
                    name,
                    old(self)@.listings.contains_key(parent),
                    attrs,
                    resolved,
                    expanded,
                ) && old(self)@.lookup(parent, name@, attrs.kind, resolved, expansion(expanded)) == (final(self)@, r),
    {
        let owned: String = name.to_owned();
        if self.decide(parent, &owned).is_some() {
            return self.lookup_with(parent, owned, FileKind::Directory, Err(EIO), Err(EIO));
        }
        let node = &self.inodes[(parent - 1) as usize].node;
        let ghost asked = *node;
        let attrs = node.file_attributes(parent);
        let mut resolved: Result<Option<N>, i32> = Err(EIO);
        let mut expanded: Result<Vec<(String, N)>, i32> = Err(EIO);
        match attrs.kind {
            FileKind::Directory => {
                let raw = node.child_by_name(name);
                let ghost answer = raw;
                match raw {
                    Ok(Some(child)) => {
                        resolved = Ok(Some(child));
                    },
                    Ok(None) => {
                        resolved = Ok(None);
                        if !self.cache.contains(parent) {
                            let listing = node.children();
                            let ghost listed = listing;
                            match listing {
                                Ok(items) => {
                                    expanded = Ok(items);
                                },
                                Err(e) => {
                                    expanded = Err(e.errno());
                                },
                            }
                            assert(translated(listed, expanded));
                            assert(expands(asked, expanded));
                        }
                    },
                    Err(e) => {
                        resolved = Err(e.errno());
                    },
                }
                assert(translated(answer, resolved));
                assert(resolves(asked, name, resolved));
            },
            _ => {},
        }
        let ghost given = (resolved, expanded);
        proof {
            assert(asked == old(self)@.slot(parent).node);
            assert(asked_for_name(
                asked,
                parent,
                name,
                old(self)@.listings.contains_key(parent),
                attrs,
                given.0,
                given.1,
            ));
        }
        let r = self.lookup_with(parent, owned, attrs.kind, resolved, expanded);
        assert(old(self)@.lookup(parent, name@, attrs.kind, given.0, expansion(given.1)) == (self@, r));
        r
    }

    /// The attributes of `ino`: what its node reports of itself under that
    /// inode, with the inode number set to `ino`. An inode that was never
    /// assigned has none.
    pub fn getattr(&self, ino: u64) -> (r: Result<FileAttributes, i32>)
        requires
            self.wf(),
        ensures
            match r {
                Ok(attrs) => self@.known(ino) && exists|reported: FileAttributes| #[trigger]
                    reports(self@.slot(ino).node, ino, reported) && attrs == (FileAttributes { ino, ..reported }),
                Err(code) => !self@.known(ino) && code == ENOENT,
            },
    {
        if !self.is_known(ino) {
            return Err(ENOENT);
        }
        let node = &self.inodes[(ino - 1) as usize].node;
        let reported = node.file_attributes(ino);
        assert(reports(self@.slot(ino).node, ino, reported));
        let mut attrs = reported;
        attrs.ino = ino;
        Ok(attrs)
    }

    /// The listing of a directory that has been expanded.
    fn entries(&self, ino: u64) -> (out: Vec<DirEntry>)
        requires
            self@.wf(),
            self@.known(ino),
            self@.listings.contains_key(ino),
        ensures
            shown(out@) == self@.entries(ino),
    {
        proof {
            reveal_strlit(".");
            reveal_strlit("..");
        }
        let listing: &Vec<u64> = self.cache.get(ino).unwrap();
        let mut out: Vec<DirEntry> = Vec::new();
        out.push(DirEntry { ino, name: ".".to_owned() });
        out.push(DirEntry { ino: self.inodes[(ino - 1) as usize].parent, name: "..".to_owned() });
        let mut j: usize = 0;
        while j < listing.len()
            invariant
                self@.wf(),
                self@.known(ino),
                self@.listings.contains_key(ino),
                listing@ == self@.listings[ino],
                j <= listing.len(),
                out.len() == j + 2,
                forall|k: int| 0 <= k < out.len() ==> (#[trigger] shown(out@)[k]) == self@.entries(ino)[k],
            decreases listing.len() - j,
        {
            let child: u64 = listing[j];
            assert(2 <= self@.listings[ino][j as int] <= self@.slots.len());
            let name: String = self.inodes[(child - 1) as usize].name.clone();
            let ghost before = out@;
            out.push(DirEntry { ino: child, name });
            proof {
                assert forall|k: int| 0 <= k < out.len() implies (#[trigger] shown(out@)[k]) == self@.entries(
                    ino,
                )[k] by {
                    if k < before.len() {
                        assert(out@[k] == before[k]);
                        assert(shown(before)[k] == self@.entries(ino)[k]);
                    } else {
                        assert(self@.slot(child).name == name@);
                    }
                }
            }
            j += 1;
        }
        assert(shown(out@) =~= self@.entries(ino));
        out
    }

    /// A listing of directory `ino`, given the kind that its node reports
    /// and what it expands to. The answers are used only where the directory
    /// has not been listed before: then a node that is no directory gives an
    /// I/O error; otherwise every child is bound to an inode, in the order
    /// given, and the listing is remembered; a failure is handed on and
    /// nothing is remembered. A directory that has been listed shows what it
    /// showed.
    pub fn readdir_with(&mut self, ino: u64, kind: FileKind, expanded: Result<Vec<(String, N)>, i32>) -> (r: Result<
        Vec<DirEntry>,
        i32,
    >)
        requires
            old(self).wf(),
        ensures
            final(self).wf(),
            final(self).streams() == old(self).streams(),
            old(self)@.extends(final(self)@),
            final(self)@ == old(self)@.readdir(ino, kind, expansion(expanded)).0,
            match r {
                Ok(entries) => old(self)@.readdir(ino, kind, expansion(expanded)).1 == Ok::<
                    Seq<(u64, Seq<char>)>,
                    i32,
                >(shown(entries@)) && final(self)@.listings.contains_key(ino),
                Err(code) => old(self)@.readdir(ino, kind, expansion(expanded)).1 == Err::<
                    Seq<(u64, Seq<char>)>,
                    i32,
                >(code),
            },
    {
        proof {
            lemma_readdir(self@, ino, kind, expansion(expanded));
        }
        if !self.is_known(ino) {
            return Err(ENOENT);
        }
        if self.cache.contains(ino) {
            return Ok(self.entries(ino));
        }
        match kind {
            FileKind::Directory => {},
            _ => {
                return Err(EIO);
            },
        }
        match expanded {
            Err(code) => Err(code),
            Ok(items) => {
                if items.len() > usize::MAX - self.inodes.len() {
                    return Err(EIO);
                }
                let ghost all = named(items@);
                let ghost given = items@;
                let mut inos: Vec<u64> = Vec::new();
                for item in it: items.into_iter()
                    invariant
                        it.seq() == given,
                        all == named(given),
                        old(self)@.wf(),
                        old(self)@.known(ino),
                        old(self)@.room(given.len()),
                        self.wf(),
                        self.streams() == old(self).streams(),
                        (self@, inos@) == old(self)@.bind_all(ino, all, it.index() as int),
                {
                    proof {
                        lemma_bind_all(old(self)@, ino, all, it.index() as int);
                    }
                    let (name, node) = item;
                    let child: u64 = self.adopt(ino, name, node);
                    inos.push(child);
                }
                proof {
                    lemma_populate(old(self)@, ino, all);
                    lemma_bind_all(old(self)@, ino, all, all.len() as int);
                }
                let ghost before = self@;
                self.cache.populate(ino, inos);
                proof {
                    let expected = old(self)@.populate(ino, all);
                    assert(self@.slots =~= expected.slots);
                    assert(self@.listings =~= expected.listings);
                }
                Ok(self.entries(ino))
            },
        }
    }

    /// Lists directory `ino`: itself, its parent, then its children in the
    /// order in which its node gave them.
    ///
    /// A directory that has been listed shows what it showed, and an unknown
    /// inode fails; the node is not asked then. Otherwise the node is asked
    /// what it is, and for its children if it reports a directory. A failure
    /// comes back as the status that it reports for itself. The outcome is
    /// that of [`FS::readdir_with`] for what the node answered.
    pub fn readdir(&mut self, ino: u64) -> (r: Result<Vec<DirEntry>, i32>)
        requires
            old(self).wf(),
        ensures
            final(self).wf(),
            final(self).streams() == old(self).streams(),
            old(self)@.extends(final(self)@),
            r is Ok ==> final(self)@.listings.contains_key(ino),
            old(self)@.listed(ino) matches Some(answer) ==> final(self)@ == old(self)@ && (match r {
                Ok(entries) => answer == Ok::<Seq<(u64, Seq<char>)>, i32>(shown(entries@)),
                Err(code) => answer == Err::<Seq<(u64, Seq<char>)>, i32>(code),
            }),
            old(self)@.listed(ino) is None ==> exists|attrs: FileAttributes, expanded: Result<Vec<(String, N)>, i32>| #[trigger]
                asked_for_listing(old(self)@.slot(ino).node, ino, attrs, expanded) && final(self)@ == old(self)@.readdir(ino, attrs.kind, expansion(expanded)).0 && (match r {
                    Ok(entries) => old(self)@.readdir(ino, attrs.kind, expansion(expanded)).1 == Ok::<
                        Seq<(u64, Seq<char>)>,
                        i32,
                    >(shown(entries@)),
                    Err(code) => old(self)@.readdir(ino, attrs.kind, expansion(expanded)).1 == Err::<
                        Seq<(u64, Seq<char>)>,
                        i32,
                    >(code),
                }),
    {
        if !self.is_known(ino) || self.cache.contains(ino) {
            return self.readdir_with(ino, FileKind::Directory, Err(EIO));
        }
        let node = &self.inodes[(ino - 1) as usize].node;
        let ghost asked = *node;
        let attrs = node.file_attributes(ino);
        let mut expanded: Result<Vec<(String, N)>, i32> = Err(EIO);
        match attrs.kind {
            FileKind::Directory => {
                let listing = node.children();
                let ghost listed = listing;
                match listing {
                    Ok(items) => {
                        expanded = Ok(items);
                    },
                    Err(e) => {
                        expanded = Err(e.errno());
                    },
                }
                assert(translated(listed, expanded));
                assert(expands(asked, expanded));
            },
            _ => {},
        }
        let ghost given = expanded;
        proof {
            assert(asked == old(self)@.slot(ino).node);
            assert(asked_for_listing(asked, ino, attrs, given));
        }
        let r = self.readdir_with(ino, attrs.kind, expanded);
        assert(self@ == old(self)@.readdir(ino, attrs.kind, expansion(given)).0);
        r
    }

    /// What opening `ino` leaves behind and returns, given the kind that its
    /// node reports and what it opened: an unknown inode fails, a node that
    /// is no regular file gives an I/O error, a failure of the node is handed
    /// on, and a stream is kept under the next handle, which no file had
    /// before.
    pub open spec fn open_outcome(&self, ino: u64, kind: FileKind, opened: Result<Stream<N::Producer>, i32>) -> (
        Seq<Option<Stream<N::Producer>>>,
        Result<u64, i32>,
    ) {
        if !self@.known(ino) {
            (self.streams(), Err(ENOENT))
        } else if kind != FileKind::RegularFile {
            (self.streams(), Err(EIO))
        } else {
            match opened {
                Err(code) => (self.streams(), Err(code)),
                Ok(stream) => (self.streams().push(Some(stream)), Ok(self.streams().len() as u64)),
            }
        }
    }

    /// Opens `ino`, given the kind that its node reports and what it opened.
    pub fn open_with(&mut self, ino: u64, kind: FileKind, opened: Result<Stream<N::Producer>, i32>) -> (r: Result<
        u64,
        i32,
    >)
        requires
            old(self).wf(),
            opened matches Ok(stream) ==> stream.wf(),
        ensures
            final(self).wf(),
            final(self)@ == old(self)@,
            (final(self).streams(), r) == old(self).open_outcome(ino, kind, opened),
    {
        if !self.is_known(ino) {
            return Err(ENOENT);
        }
        match kind {
            FileKind::RegularFile => {},
            _ => {
                return Err(EIO);
            },
        }
        match opened {
            Err(code) => Err(code),
            Ok(stream) => {
                let handle: u64 = self.handles.len() as u64;
                self.handles.push(Some(stream));
                Ok(handle)
            },
        }
    }

    /// Opens the file `ino` for reading and gives the handle of its stream.
    ///
    /// An unknown inode fails and its node is not asked. Otherwise the node
    /// is asked what it is, and to open if it reports a regular file. A
    /// failure comes back as the status that it reports for itself. The
    /// outcome is that of [`FS::open_with`] for what the node answered.
    pub fn open(&mut self, ino: u64) -> (r: Result<u64, i32>)
        requires
            old(self).wf(),
        ensures
            final(self).wf(),
            final(self)@ == old(self)@,
            !old(self)@.known(ino) ==> r == Err::<u64, i32>(ENOENT) && final(self).streams() == old(self).streams(),
            old(self)@.known(ino) ==> exists|attrs: FileAttributes, opened: Result<Stream<N::Producer>, i32>| #[trigger]
                asked_to_open(old(self)@.slot(ino).node, ino, attrs, opened) && old(self).open_outcome(
                    ino,
                    attrs.kind,
                    opened,
                ) == (final(self).streams(), r),
    {
        if !self.is_known(ino) {
            return Err(ENOENT);
        }
        let node = &self.inodes[(ino - 1) as usize].node;
        let ghost asked = *node;
        let attrs = node.file_attributes(ino);
        let mut opened: Result<Stream<N::Producer>, i32> = Err(EIO);
        match attrs.kind {
            FileKind::RegularFile => {
                let raw = node.open_ro();
                let ghost answer = raw;
                match raw {
                    Ok(stream) => {
                        opened = Ok(stream);
                    },
                    Err(e) => {
                        opened = Err(e.errno());
                    },
                }
                assert(translated(answer, opened));
                assert(opens(asked, opened));
            },
            _ => {},
        }
        let ghost given = opened;
        proof {
            assert(asked == old(self)@.slot(ino).node);
            assert(asked_to_open(asked, ino, attrs, given));
        }
        let r = self.open_with(ino, attrs.kind, opened);
        assert(old(self).open_outcome(ino, attrs.kind, given) == (self.streams(), r));
        r
    }

    /// Reads up to `count` bytes at `offset` from the file behind `handle`.
    ///
    /// The stream is positioned at `offset` and read; fewer than `count`
    /// bytes come back only where the stream ends. Content is produced only
    /// for the sources that hold bytes of the read. A stream that fails to
    /// deliver, and a handle that names no open file, give an I/O error.
    pub fn read(&mut self, handle: u64, offset: u64, count: usize) -> (r: Result<Vec<u8>, i32>)
        requires
            old(self).wf(),
        ensures
            final(self).wf(),
            final(self)@ == old(self)@,
            final(self).streams().len() == old(self).streams().len(),
            forall|h: int|
                0 <= h < old(self).streams().len() && h != handle ==> #[trigger] final(self).streams()[h] == old(self).streams()[h],
            !old(self).is_open(handle) ==> r == Err::<Vec<u8>, i32>(EIO) && final(self).streams() == old(self).streams(),
            old(self).is_open(handle) ==> final(self).is_open(handle) && ({
                let before = old(self).streams()[handle as int]->Some_0;
                let after = final(self).streams()[handle as int]->Some_0;
                &&& after.sources().len() == before.sources().len()
                &&& after.follows(before, offset, count)
                &&& settled_kept(before.bytes(), after.bytes())
                &&& none_pending(before.bytes(), offset, count) ==> after.bytes() == before.bytes()
                &&& forall|k: int|
                    0 <= k < before.sources().len() && before.untouched(k, offset, count)
                        ==> #[trigger] after.sources()[k] == before.sources()[k]
                &&& match r {
                    Ok(data) => delivered(after.bytes(), offset, count, data@) && after.position() == offset
                        + data@.len(),
                    Err(code) => code == EIO && after.position() == offset && exists|e: SourceError|
                        fails_with(after.bytes(), offset, count, e),
                }
            }),
    {
        if handle >= self.handles.len() as u64 {
            return Err(EIO);
        }
        let h: usize = handle as usize;
        match &mut self.handles[h] {
            Some(stream) => {
                stream.seek(offset);
                match stream.read(count) {
                    Ok(data) => Ok(data),
                    Err(e) => {
                        assert(fails_with(stream.bytes(), offset, count, e));
                        Err(EIO)
                    },
                }
            },
            None => Err(EIO),
        }
    }

    /// What reading the link `ino` returns, given the kind that its node
    /// reports and the target that it gives: an unknown inode fails, a node
    /// that is no symbolic link gives an I/O error, and otherwise the answer
    /// of the node comes back.
    pub open spec fn readlink_outcome(&self, ino: u64, kind: FileKind, link: Result<String, i32>) -> Result<
        String,
        i32,
    > {
        if !self@.known(ino) {
            Err(ENOENT)
        } else if kind != FileKind::Symlink {
            Err(EIO)
        } else {
            link
        }
    }

    /// Reads the link `ino`, given the kind that its node reports and the
    /// target that it gives.
    pub fn readlink_with(&self, ino: u64, kind: FileKind, link: Result<String, i32>) -> (r: Result<String, i32>)
        requires
            self.wf(),
        ensures
            r == self.readlink_outcome(ino, kind, link),
    {
        if !self.is_known(ino) {
            return Err(ENOENT);
        }
        match kind {
            FileKind::Symlink => link,
            _ => Err(EIO),
        }
    }

    /// The path that the symbolic link `ino` resolves to.
    ///
    /// An unknown inode fails and its node is not asked. Otherwise the node
    /// is asked what it is, and for its target if it reports a symbolic
    /// link. A failure comes back as the status that it reports for itself.
    /// The outcome is that of [`FS::readlink_with`] for what the node
    /// answered.
    pub fn readlink(&self, ino: u64) -> (r: Result<String, i32>)
        requires
            self.wf(),
        ensures
            !self@.known(ino) ==> r == Err::<String, i32>(ENOENT),
            self@.known(ino) ==> exists|attrs: FileAttributes, link: Result<String, i32>| #[trigger]
                asked_for_link(self@.slot(ino).node, ino, attrs, link) && r == self.readlink_outcome(
                    ino,
                    attrs.kind,
                    link,
                ),
    {
        if !self.is_known(ino) {
            return Err(ENOENT);
        }
        let node = &self.inodes[(ino - 1) as usize].node;
        let attrs = node.file_attributes(ino);
        let mut link: Result<String, i32> = Err(EIO);
        match attrs.kind {
            FileKind::Symlink => {
                let raw = node.read_link();
                let ghost answer = raw;
                match raw {
                    Ok(path) => {
                        link = Ok(path);
                    },
                    Err(e) => {
                        link = Err(e.errno());
                    },
                }
                assert(translated(answer, link));
                assert(links(*node, link));
            },
            _ => {},
        }
        proof {
            assert(*node == self@.slot(ino).node);
            assert(asked_for_link(*node, ino, attrs, link));
        }
        self.readlink_with(ino, attrs.kind, link)
    }

    /// Closes `handle` and drops its stream. The handle is not given out
    /// again. A handle that names no open file is ignored.
    pub fn release(&mut self, handle: u64)
        requires
            old(self).wf(),
        ensures
            final(self).wf(),
            final(self)@ == old(self)@,
            final(self).streams() == if handle < old(self).streams().len() {
                old(self).streams().update(handle as int, None)
            } else {
                old(self).streams()
            },
    {
        if handle < self.handles.len() as u64 {
            let h: usize = handle as usize;
            self.handles[h] = None;
        }
    }
}

} // verus!
