use soundcloud_fs::filesystem::{DirEntry, Error, FileAttributes, FileKind, Node, Stream, Timespec, EIO, ENOENT, FS};
use soundcloud_fs::ioutil::{zeros, Concat, LazyOpen, ReadSeek, Source};
use std::cell::{Cell, RefCell};
use std::collections::HashMap;
use std::rc::Rc;

type Producer = Box<dyn FnOnce() -> Result<Vec<u8>, String>>;

#[derive(Debug)]
enum Fail {
    Missing,
    Upstream,
}

impl Error for Fail {
    fn errno(&self) -> i32 {
        match self {
            Fail::Missing => ENOENT,
            Fail::Upstream => EIO,
        }
    }
}

struct World {
    listings: RefCell<HashMap<String, Vec<(String, FileKind)>>>,
    expansions: Cell<u32>,
    resolutions: Cell<u32>,
    fetches: Cell<u32>,
    failing: Cell<bool>,
}

struct Stub {
    path: String,
    kind: FileKind,
    world: Rc<World>,
}

impl Stub {
    fn child(&self, name: &str, kind: FileKind) -> Stub {
        Stub { path: format!("{}/{}", self.path, name), kind, world: self.world.clone() }
    }
}

impl Node for Stub {
    type Error = Fail;
    type Producer = Producer;

    fn file_attributes(&self, _ino: u64) -> FileAttributes {
        let t = Timespec { sec: 11, nsec: 22 };
        FileAttributes {
            ino: 0,
            size: self.path.len() as u64,
            blocks: 1,
            atime: t,
            mtime: t,
            ctime: t,
            crtime: t,
            kind: self.kind,
            perm: 0o444,
            nlink: 1,
            uid: 0,
            gid: 0,
            rdev: 0,
            flags: 0,
        }
    }

    fn open_ro(&self) -> Result<Stream<Producer>, Fail> {
        if self.path.ends_with("broken.mp3") {
            return Err(Fail::Upstream);
        }
        let world = self.world.clone();
        let producer: Producer = Box::new(move || {
            world.fetches.set(world.fetches.get() + 1);
            Ok(vec![50, 51, 52, 53])
        });
        let parts: Vec<Source<Producer>> =
            vec![Source::Buffer(self.path.clone().into_bytes()), zeros(100), Source::Lazy(LazyOpen::new(4, producer))];
        Ok(Concat::new(parts).unwrap())
    }

    fn children(&self) -> Result<Vec<(String, Stub)>, Fail> {
        self.world.expansions.set(self.world.expansions.get() + 1);
        if self.world.failing.get() {
            return Err(Fail::Upstream);
        }
        match self.world.listings.borrow().get(&self.path) {
            Some(items) => Ok(items.iter().map(|(name, kind)| (name.clone(), self.child(name, *kind))).collect()),
            None => Ok(Vec::new()),
        }
    }

    fn child_by_name(&self, name: &str) -> Result<Option<Stub>, Fail> {
        if name.starts_with('.') || name == "autorun.inf" {
            return Err(Fail::Missing);
        }
        if self.path.is_empty() && name.starts_with("user-") {
            self.world.resolutions.set(self.world.resolutions.get() + 1);
            if self.world.failing.get() {
                return Err(Fail::Upstream);
            }
            return Ok(Some(self.child(name, FileKind::Directory)));
        }
        Ok(None)
    }

    fn read_link(&self) -> Result<String, Fail> {
        Ok(format!("../..{}", self.path))
    }
}

fn world() -> Rc<World> {
    let mut listings: HashMap<String, Vec<(String, FileKind)>> = HashMap::new();
    listings.insert(
        "".to_string(),
        vec![
            ("favorites".to_string(), FileKind::Directory),
            ("following".to_string(), FileKind::Directory),
            ("zebra.mp3".to_string(), FileKind::RegularFile),
            ("alpha.mp3".to_string(), FileKind::RegularFile),
        ],
    );
    listings.insert(
        "/favorites".to_string(),
        vec![
            ("newest.mp3".to_string(), FileKind::RegularFile),
            ("middle.mp3".to_string(), FileKind::RegularFile),
            ("oldest.mp3".to_string(), FileKind::RegularFile),
        ],
    );
    listings.insert(
        "/following".to_string(),
        vec![("bob".to_string(), FileKind::Symlink), ("bob".to_string(), FileKind::Symlink)],
    );
    Rc::new(World {
        listings: RefCell::new(listings),
        expansions: Cell::new(0),
        resolutions: Cell::new(0),
        fetches: Cell::new(0),
        failing: Cell::new(false),
    })
}

fn mount(world: &Rc<World>) -> FS<Stub> {
    FS::new(Stub { path: String::new(), kind: FileKind::Directory, world: world.clone() })
}

fn names(entries: &[DirEntry]) -> Vec<String> {
    entries.iter().map(|e| e.name.clone()).collect()
}

#[test]
fn root_is_inode_one() {
    let w = world();
    let fs = mount(&w);
    assert_eq!(fs.inode_count(), 1);
    assert!(fs.is_known(1));
    assert!(!fs.is_known(0));
    assert!(!fs.is_known(2));
    let attrs = fs.getattr(1).unwrap();
    assert_eq!(attrs.ino, 1);
    assert_eq!(attrs.kind, FileKind::Directory);
}

#[test]
fn lookup_twice_gives_the_same_inode() {
    let w = world();
    let mut fs = mount(&w);
    let first = fs.lookup(1, "favorites").unwrap();
    assert_eq!(first, 2);
    let other = fs.lookup(1, "alpha.mp3").unwrap();
    assert_eq!(other, 5);
    let second = fs.lookup(1, "favorites").unwrap();
    assert_eq!(second, first);
    assert_eq!(w.expansions.get(), 1);
    assert_eq!(w.resolutions.get(), 0);
    assert_eq!(fs.inode_count(), 5);
}

#[test]
fn lookup_survives_listing() {
    let w = world();
    let mut fs = mount(&w);
    let direct = fs.lookup(1, "user-bob").unwrap();
    assert_eq!(direct, 2);
    assert_eq!(w.expansions.get(), 0);
    assert_eq!(w.resolutions.get(), 1);
    let listing = fs.readdir(1).unwrap();
    assert_eq!(names(&listing), vec![".", "..", "favorites", "following", "zebra.mp3", "alpha.mp3"]);
    let alpha = fs.lookup(1, "alpha.mp3").unwrap();
    let listed = listing.iter().find(|e| e.name == "alpha.mp3").unwrap();
    assert_eq!(listed.ino, alpha);
    assert_eq!(fs.lookup(1, "user-bob").unwrap(), direct);
    assert_eq!(w.resolutions.get(), 1);
    assert_eq!(fs.inode_count(), 6);
}

#[test]
fn directory_resolves_names_it_does_not_list() {
    let w = world();
    let mut fs = mount(&w);
    fs.readdir(1).unwrap();
    assert_eq!(fs.lookup(1, "user-carol"), Ok(6));
    assert_eq!(fs.lookup(1, "user-carol"), Ok(6));
    assert_eq!(w.resolutions.get(), 1);
    assert_eq!(names(&fs.readdir(1).unwrap()).len(), 6);
    assert_eq!(fs.lookup(2, "user-carol"), Err(ENOENT));
}

#[test]
fn readdir_lists_self_parent_and_children_in_given_order() {
    let w = world();
    let mut fs = mount(&w);
    let listing = fs.readdir(1).unwrap();
    assert_eq!(names(&listing), vec![".", "..", "favorites", "following", "zebra.mp3", "alpha.mp3"]);
    let inos: Vec<u64> = listing.iter().map(|e| e.ino).collect();
    assert_eq!(inos, vec![1, 1, 2, 3, 4, 5]);
    let fav = fs.readdir(2).unwrap();
    assert_eq!(names(&fav), vec![".", "..", "newest.mp3", "middle.mp3", "oldest.mp3"]);
    assert_eq!(fav[0].ino, 2);
    assert_eq!(fav[1].ino, 1);
}

#[test]
fn listing_is_a_snapshot() {
    let w = world();
    let mut fs = mount(&w);
    let fav = fs.lookup(1, "favorites").unwrap();
    let first = fs.readdir(fav).unwrap();
    w.listings.borrow_mut().insert(
        "/favorites".to_string(),
        vec![("oldest.mp3".to_string(), FileKind::RegularFile), ("brand-new.mp3".to_string(), FileKind::RegularFile)],
    );
    let second = fs.readdir(fav).unwrap();
    assert_eq!(first, second);
    assert_eq!(names(&second), vec![".", "..", "newest.mp3", "middle.mp3", "oldest.mp3"]);
    assert_eq!(w.expansions.get(), 2);
    assert_eq!(fs.lookup(fav, "brand-new.mp3"), Err(ENOENT));
    assert_eq!(fs.lookup(fav, "oldest.mp3"), Ok(8));
    assert_eq!(w.expansions.get(), 2);
}

#[test]
fn reserved_names_fail_without_upstream_call() {
    let w = world();
    let mut fs = mount(&w);
    assert_eq!(fs.lookup(1, ".hidden"), Err(ENOENT));
    assert_eq!(fs.lookup(1, "autorun.inf"), Err(ENOENT));
    assert_eq!(w.resolutions.get(), 0);
    assert_eq!(w.expansions.get(), 0);
    assert_eq!(fs.inode_count(), 1);
}

#[test]
fn directory_is_expanded_once() {
    let w = world();
    let mut fs = mount(&w);
    let a = fs.readdir(1).unwrap();
    let b = fs.readdir(1).unwrap();
    assert_eq!(a, b);
    assert_eq!(w.expansions.get(), 1);
}

#[test]
fn listed_directory_answers_lookups_by_itself() {
    let w = world();
    let mut fs = mount(&w);
    fs.readdir(1).unwrap();
    assert_eq!(fs.lookup(1, "zebra.mp3"), Ok(4));
    assert_eq!(fs.lookup(1, "nobody"), Err(ENOENT));
    assert_eq!(w.resolutions.get(), 0);
    assert_eq!(w.expansions.get(), 1);
}

#[test]
fn failed_expansion_is_reported_and_not_remembered() {
    let w = world();
    let mut fs = mount(&w);
    w.failing.set(true);
    assert_eq!(fs.readdir(1), Err(EIO));
    assert_eq!(fs.lookup(1, "favorites"), Err(EIO));
    assert_eq!(fs.lookup(1, "user-bob"), Err(EIO));
    assert_eq!(fs.inode_count(), 1);
    w.failing.set(false);
    assert_eq!(fs.readdir(1).unwrap().len(), 6);
    assert_eq!(w.expansions.get(), 3);
}

#[test]
fn repeated_names_share_an_inode() {
    let w = world();
    let mut fs = mount(&w);
    let following = fs.lookup(1, "following").unwrap();
    let listing = fs.readdir(following).unwrap();
    assert_eq!(names(&listing), vec![".", "..", "bob", "bob"]);
    assert_eq!(listing[2].ino, listing[3].ino);
    assert_eq!(fs.inode_count(), 6);
}

#[test]
fn unknown_inodes_do_not_exist() {
    let w = world();
    let mut fs = mount(&w);
    assert_eq!(fs.getattr(9).err(), Some(ENOENT));
    assert_eq!(fs.lookup(9, "x"), Err(ENOENT));
    assert_eq!(fs.readdir(9), Err(ENOENT));
    assert_eq!(fs.open(9), Err(ENOENT));
    assert_eq!(fs.readlink(9), Err(ENOENT));
    assert_eq!(fs.getattr(0).err(), Some(ENOENT));
    assert_eq!(w.expansions.get() + w.resolutions.get(), 0);
}

#[test]
fn operations_respect_the_kind() {
    let w = world();
    let mut fs = mount(&w);
    let file = fs.lookup(1, "alpha.mp3").unwrap();
    let dir = fs.lookup(1, "following").unwrap();
    let link = fs.lookup(dir, "bob").unwrap();
    assert_eq!(fs.getattr(file).unwrap().kind, FileKind::RegularFile);
    assert_eq!(fs.getattr(file).unwrap().ino, file);
    assert_eq!(fs.lookup(file, "x"), Err(EIO));
    assert_eq!(fs.readdir(file), Err(EIO));
    assert_eq!(fs.open(dir), Err(EIO));
    assert_eq!(fs.readlink(file), Err(EIO));
    assert_eq!(fs.readlink(link), Ok("../../following/bob".to_string()));
    assert_eq!(w.expansions.get(), 2);
}

#[test]
fn open_read_release() {
    let w = world();
    let mut fs = mount(&w);
    let file = fs.lookup(1, "alpha.mp3").unwrap();
    let fh = fs.open(file).unwrap();
    assert_eq!(fh, 0);
    assert_eq!(fs.read(fh, 0, 6), Ok(b"/alpha".to_vec()));
    assert_eq!(fs.read(fh, 10, 5), Ok(vec![0u8; 5]));
    assert_eq!(w.fetches.get(), 0);
    assert_eq!(fs.read(fh, 108, 100), Ok(vec![0u8, 0, 50, 51, 52, 53]));
    assert_eq!(w.fetches.get(), 1);
    assert_eq!(fs.read(fh, 114, 100), Ok(Vec::new()));

    let other = fs.open(file).unwrap();
    assert_eq!(other, 1);
    assert_eq!(fs.read(other, 110, 2), Ok(vec![50u8, 51]));
    assert_eq!(w.fetches.get(), 2);

    fs.release(fh);
    assert_eq!(fs.read(fh, 0, 1), Err(EIO));
    assert_eq!(fs.read(other, 0, 1), Ok(vec![b'/']));
    fs.release(77);
    assert_eq!(fs.read(77, 0, 1), Err(EIO));
    assert_eq!(fs.open(file), Ok(2));
}

#[test]
fn open_failure_is_reported() {
    let w = world();
    w.listings.borrow_mut().insert("".to_string(), vec![("broken.mp3".to_string(), FileKind::RegularFile)]);
    let mut fs = mount(&w);
    let file = fs.lookup(1, "broken.mp3").unwrap();
    assert_eq!(fs.open(file), Err(EIO));
    assert_eq!(fs.read(0, 0, 1), Err(EIO));
}

#[test]
fn answers_can_be_handed_in() {
    let w = world();
    let mut fs = mount(&w);
    let root = Stub { path: String::new(), kind: FileKind::Directory, world: w.clone() };
    let dir = FileKind::Directory;
    assert_eq!(fs.lookup_with(1, "a".to_string(), dir, Err(13), Err(14)), Err(13));
    assert_eq!(fs.lookup_with(1, "a".to_string(), dir, Ok(None), Err(14)), Err(14));
    assert_eq!(
        fs.lookup_with(1, "a".to_string(), FileKind::RegularFile, Ok(Some(root.child("a", dir))), Err(14)),
        Err(EIO)
    );
    assert_eq!(fs.lookup_with(1, "a".to_string(), FileKind::Symlink, Ok(None), Ok(Vec::new())), Err(EIO));
    assert_eq!(fs.inode_count(), 1);
    assert_eq!(fs.lookup_with(1, "a".to_string(), dir, Ok(Some(root.child("a", dir))), Err(14)), Ok(2));
    assert_eq!(fs.lookup_with(1, "a".to_string(), FileKind::RegularFile, Err(13), Err(14)), Ok(2));
    assert_eq!(fs.lookup_with(5, "a".to_string(), dir, Ok(Some(root.child("a", dir))), Err(14)), Err(ENOENT));
    assert_eq!(fs.readdir_with(2, dir, Err(13)), Err(13));
    assert_eq!(fs.readdir_with(2, FileKind::RegularFile, Ok(Vec::new())), Err(EIO));
    assert_eq!(fs.readdir_with(9, dir, Ok(Vec::new())), Err(ENOENT));
    let items = vec![
        ("x".to_string(), root.child("a/x", FileKind::RegularFile)),
        ("y".to_string(), root.child("a/y", FileKind::RegularFile)),
    ];
    assert_eq!(fs.lookup_with(2, "y".to_string(), dir, Ok(None), Ok(items)), Ok(4));
    let listing = fs.readdir_with(2, FileKind::Symlink, Err(13)).unwrap();
    assert_eq!(
        listing,
        vec![
            DirEntry { ino: 2, name: ".".to_string() },
            DirEntry { ino: 1, name: "..".to_string() },
            DirEntry { ino: 3, name: "x".to_string() },
            DirEntry { ino: 4, name: "y".to_string() },
        ]
    );
    assert_eq!(fs.lookup_with(2, "z".to_string(), dir, Ok(None), Err(14)), Err(ENOENT));
    assert_eq!(
        fs.lookup_with(2, "z".to_string(), dir, Ok(Some(root.child("a/z", FileKind::RegularFile))), Err(14)),
        Ok(5)
    );
    assert_eq!(fs.open_with(3, FileKind::RegularFile, Err(13)), Err(13));
    let parts: Vec<Source<Producer>> = vec![Source::Buffer(vec![1, 2, 3])];
    assert_eq!(fs.open_with(3, dir, Ok(Concat::new(parts).unwrap())), Err(EIO));
    let parts: Vec<Source<Producer>> = vec![Source::Buffer(vec![1, 2, 3])];
    assert_eq!(fs.open_with(9, FileKind::RegularFile, Ok(Concat::new(parts).unwrap())), Err(ENOENT));
    let parts: Vec<Source<Producer>> = vec![Source::Buffer(vec![1, 2, 3])];
    assert_eq!(fs.open_with(3, FileKind::RegularFile, Ok(Concat::new(parts).unwrap())), Ok(0));
    assert_eq!(fs.read(0, 1, 5), Ok(vec![2u8, 3]));
    assert_eq!(fs.readlink_with(3, FileKind::Symlink, Ok("../x".to_string())), Ok("../x".to_string()));
    assert_eq!(fs.readlink_with(3, FileKind::Symlink, Err(13)), Err(13));
    assert_eq!(fs.readlink_with(3, FileKind::RegularFile, Ok("../x".to_string())), Err(EIO));
    assert_eq!(fs.readlink_with(9, FileKind::Symlink, Ok("../x".to_string())), Err(ENOENT));
    assert_eq!(w.expansions.get() + w.resolutions.get(), 0);
}

#[test]
fn attributes_are_the_nodes_under_the_inode() {
    let w = world();
    let mut fs = mount(&w);
    let file = fs.lookup(1, "alpha.mp3").unwrap();
    let attrs = fs.getattr(file).unwrap();
    let t = Timespec { sec: 11, nsec: 22 };
    assert_eq!(
        attrs,
        FileAttributes {
            ino: file,
            size: 10,
            blocks: 1,
            atime: t,
            mtime: t,
            ctime: t,
            crtime: t,
            kind: FileKind::RegularFile,
            perm: 0o444,
            nlink: 1,
            uid: 0,
            gid: 0,
            rdev: 0,
            flags: 0,
        }
    );
}
