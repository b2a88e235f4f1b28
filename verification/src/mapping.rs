//! The tree that is exposed: the users that were asked for, their tracks,
//! their favorites and the users they follow.
//!
//! An entry holds what is known of a user or a track as plain values. What
//! has to be fetched from the remote service is named by a [`Request`]; the
//! caller performs it and hands the answer back as [`Fetched`].
use vstd::prelude::*;
use vstd::string::*;
use crate::filesystem::node::{FileAttributes, FileKind, Stream, Timespec, EIO, ENOENT};
use crate::filesystem::projection::named;
use crate::ioutil::concat::{Concat, parts_of, start_of};
use crate::ioutil::lazyopen::{LazyOpen, LazyState};
use crate::ioutil::readseek::{ReadSeek, Source, zeros};

verus! {

/// The size of a block in the attributes of a file.
pub const BLOCK_SIZE: u64 = 1024;

/// The number of zero bytes between the tag of a track and its audio. A
/// program that reads only the start of a file to learn its tags stays
/// inside the padding, and the audio is never fetched for it.
pub const PADDING: u64 = 1_000_000;

/// What can go wrong with an entry.
#[derive(Debug, Clone, PartialEq, Eq)]
pub enum Error {
    /// There is no such entry.
    EntityNotFound,
    /// The remote service failed.
    UpstreamFailure(String),
    /// The content of a file could not be put together.
    MalformedContent(String),
    /// The operation does not apply to this kind of entry, or was handed
    /// something that does not belong to it.
    NotApplicable,
}

/// The status code of an error: "no such entry" for an entry that is not
/// there, "I/O error" for everything else.
pub open spec fn errno_of(e: Error) -> i32 {
    match e {
        Error::EntityNotFound => ENOENT,
        _ => EIO,
    }
}

impl Error {
    /// The error for an entry that is not there.
    pub fn not_found() -> (e: Error)
        ensures
            e == Error::EntityNotFound,
    {
        Error::EntityNotFound
    }
}

impl crate::filesystem::node::Error for Error {
    fn errno(&self) -> (code: i32)
        ensures
            code == errno_of(*self),
    {
        match self {
            Error::EntityNotFound => ENOENT,
            Error::UpstreamFailure(_) => EIO,
            Error::MalformedContent(_) => EIO,
            Error::NotApplicable => EIO,
        }
    }
}

/// A point in time as the remote service reports it: seconds since the
/// epoch and nanoseconds within the second.
#[derive(Debug, Clone, Copy, PartialEq, Eq)]
pub struct Timestamp {
    pub secs: i64,
    pub nanos: u32,
}

impl Timestamp {
    /// The nanoseconds stay within one second.
    pub open spec fn wf(&self) -> bool {
        self.nanos < 1_000_000_000
    }
}

/// What is known of a user.
#[derive(Debug, Clone, PartialEq, Eq)]
pub struct User {
    /// The name of the user in paths.
    pub permalink: String,
    /// When the user was last changed.
    pub last_modified: Timestamp,
}

/// What is known of a track.
#[derive(Debug, Clone, PartialEq, Eq)]
pub struct Track {
    /// The name of the track in paths.
    pub permalink: String,
    /// When the track was created.
    pub created_at: Timestamp,
    /// When the track was last changed.
    pub last_modified: Timestamp,
    /// The size of the audio in bytes.
    pub original_content_size: u64,
}

/// One entry of the tree.
#[derive(Debug, Clone, PartialEq, Eq)]
pub enum Entry {
    /// The root: the users that were asked for, by name.
    Users { show: Vec<String> },
    /// The directory of a user. Only a user that was asked for lists
    /// favorites and followings, so that the tree does not go on for ever.
    User { user: User, recurse: bool },
    /// The directory of the tracks that a user likes.
    UserFavorites(User),
    /// The directory of the users that a user follows.
    UserFollowing(User),
    /// A link to the directory of a user.
    UserReference(User),
    /// The file of a track.
    Track(Track),
}

/// What has to be fetched before an entry can answer.
#[derive(Debug, Clone, Copy, PartialEq, Eq, Structural)]
pub enum Request {
    /// Nothing: the entry answers by itself.
    Nothing,
    /// The users that the root shows, by name and in that order.
    ShownUsers,
    /// The one user of the name that is looked up.
    NamedUser,
    /// The tracks of the entry's user.
    Tracks,
    /// The tracks that the entry's user likes.
    Favorites,
    /// The users that the entry's user follows.
    Following,
}

/// What was fetched.
#[derive(Debug, Clone, PartialEq, Eq)]
pub enum Fetched {
    /// Nothing was asked for.
    Nothing,
    /// Users, in the order in which they were asked for or came.
    Users(Vec<User>),
    /// Tracks, in the order in which they came.
    Tracks(Vec<Track>),
}

/// The point in time as seconds and nanoseconds.
pub fn timespec_from_datetime(t: &Timestamp) -> (ts: Timespec)
    requires
        t.wf(),
    ensures
        ts.sec == t.secs,
        ts.nsec == t.nanos,
{
    Timespec { sec: t.secs, nsec: t.nanos as i32 }
}

/// The current time: the system clock as `std::time::SystemTime::now`
/// reads it, turned into a `chrono::DateTime<Utc>` by chrono's conversion
/// from a system time, and taken apart with `DateTime::timestamp` and
/// `DateTime::timestamp_subsec_nanos`.
///
/// Nothing is claimed of the time itself. The nanoseconds stay within one
/// second: the conversion takes them from the sub-second part of the
/// distance between the clock and the epoch, on either side of the epoch.
#[verifier::external_body]
fn utc_now() -> (now: Timestamp)
    ensures
        now.nanos < 1_000_000_000,
{
    let now = chrono::DateTime::<chrono::Utc>::from(std::time::SystemTime::now());
    Timestamp { secs: now.timestamp(), nanos: now.timestamp_subsec_nanos() }
}

/// The name of the file of a track.
pub open spec fn track_file_name(permalink: Seq<char>) -> Seq<char> {
    permalink + ".mp3"@
}

/// The directory entry of a track.
pub open spec fn track_child(track: Track) -> (Seq<char>, Entry) {
    (track_file_name(track.permalink@), Entry::Track(track))
}

/// The directory entry of a track: its name with the ending of an audio
/// file, and the track itself.
pub fn map_track_to_child(track: Track) -> (child: (String, Entry))
    ensures
        (child.0@, child.1) == track_child(track),
{
    let name: String = track.permalink.clone().concat(".mp3");
    (name, Entry::Track(track))
}

/// A name that programs probe for on their own and that never names a
/// user: a marker file of removable media, or a hidden file.
pub open spec fn is_reserved(name: Seq<char>) -> bool {
    ||| name == "autorun.inf"@
    ||| name == "BDMV"@
    ||| (name.len() > 0 && name[0] == '.')
}

/// Whether `name` is reserved.
pub fn reserved(name: &str) -> (b: bool)
    ensures
        b == is_reserved(name@),
{
    let owned: String = name.to_owned();
    if owned == "autorun.inf".to_owned() || owned == "BDMV".to_owned() {
        true
    } else {
        name.unicode_len() > 0 && name.get_char(0) == '.'
    }
}

fn copy_user(user: &User) -> (copy: User)
    ensures
        copy == *user,
{
    User { permalink: user.permalink.clone(), last_modified: user.last_modified }
}

/// Whether `name` is among `names`.
fn contains_name(names: &Vec<String>, name: &String) -> (found: bool)
    ensures
        found == exists|i: int| 0 <= i < names.len() && (#[trigger] names[i])@ == name@,
{
    let mut i: usize = 0;
    while i < names.len()
        invariant
            i <= names.len(),
            forall|k: int| 0 <= k < i ==> (#[trigger] names[k])@ != name@,
        decreases names.len() - i,
    {
        if names[i] == *name {
            return true;
        }
        i += 1;
    }
    false
}

/// The index of the first of `items` that goes by `name`.
pub fn position_of<N>(items: &Vec<(String, N)>, name: &str) -> (at: Option<usize>)
    ensures
        match at {
            Some(i) => i < items.len() && items[i as int].0@ == name@ && forall|j: int|
                0 <= j < i ==> (#[trigger] items[j]).0@ != name@,
            None => forall|j: int| 0 <= j < items.len() ==> (#[trigger] items[j]).0@ != name@,
        },
{
    let wanted: String = name.to_owned();
    let mut i: usize = 0;
    while i < items.len()
        invariant
            i <= items.len(),
            wanted@ == name@,
            forall|j: int| 0 <= j < i ==> (#[trigger] items[j]).0@ != name@,
        decreases items.len() - i,
    {
        if items[i].0 == wanted {
            return Some(i);
        }
        i += 1;
    }
    None
}

/// The first of `items` that goes by `name`, from index `from` on.
pub open spec fn first_named(items: Seq<(Seq<char>, Entry)>, name: Seq<char>, from: int) -> Option<Entry>
    decreases items.len() - from,
{
    if from < 0 || from >= items.len() {
        None
    } else if items[from].0 == name {
        Some(items[from].1)
    } else {
        first_named(items, name, from + 1)
    }
}

/// Where no item from `from` up to `at` goes by `name` and the item at
/// `at` does, the first item of that name is the one at `at`.
proof fn lemma_first_named(items: Seq<(Seq<char>, Entry)>, name: Seq<char>, from: int, at: int)
    requires
        0 <= from <= at < items.len(),
        items[at].0 == name,
        forall|j: int| from <= j < at ==> (#[trigger] items[j]).0 != name,
    ensures
        first_named(items, name, from) == Some(items[at].1),
    decreases at - from,
{
    if from < at {
        lemma_first_named(items, name, from + 1, at);
    }
}

/// Where no item from `from` on goes by `name`, there is no first one.
proof fn lemma_none_named(items: Seq<(Seq<char>, Entry)>, name: Seq<char>, from: int)
    requires
        0 <= from,
        forall|j: int| from <= j < items.len() ==> (#[trigger] items[j]).0 != name,
    ensures
        first_named(items, name, from) is None,
    decreases items.len() - from,
{
    if from < items.len() {
        lemma_none_named(items, name, from + 1);
    }
}

impl User {
    /// The time stamp is well-formed.
    pub open spec fn wf(&self) -> bool {
        self.last_modified.wf()
    }
}

impl Track {
    /// The time stamps are well-formed.
    pub open spec fn wf(&self) -> bool {
        self.last_modified.wf() && self.created_at.wf()
    }
}

/// The attributes of a directory or link that was last changed at `mtime`.
pub open spec fn plain_attributes(ino: u64, kind: FileKind, mtime: Timespec) -> FileAttributes {
    FileAttributes {
        ino,
        size: 0,
        blocks: 1,
        atime: mtime,
        mtime,
        ctime: mtime,
        crtime: mtime,
        kind,
        perm: 0o555,
        nlink: 1,
        uid: 0,
        gid: 0,
        rdev: 1,
        flags: 0,
    }
}

/// The point in time as seconds and nanoseconds.
pub open spec fn timespec_of(t: Timestamp) -> Timespec {
    Timespec { sec: t.secs, nsec: t.nanos as i32 }
}

impl Entry {
    /// The time stamps of the entry are well-formed.
    pub open spec fn wf(&self) -> bool {
        match self {
            Entry::Users { .. } => true,
            Entry::User { user, .. } => user.wf(),
            Entry::UserFavorites(user) => user.wf(),
            Entry::UserFollowing(user) => user.wf(),
            Entry::UserReference(user) => user.wf(),
            Entry::Track(track) => track.wf(),
        }
    }

    /// The kind of the entry.
    pub open spec fn kind(&self) -> FileKind {
        match self {
            Entry::UserReference(_) => FileKind::Symlink,
            Entry::Track(_) => FileKind::RegularFile,
            _ => FileKind::Directory,
        }
    }

    /// The attributes of the entry under inode `ino` at time `now`.
    ///
    /// Directories and links are empty, take one block and can be read and
    /// entered by everyone; their times are the time at which the user was
    /// last changed, and for the root the current time. A track has the
    /// size of its audio, one block more than its size holds in full, can be
    /// read by everyone, and has the times of its creation and last change.
    pub open spec fn attributes(&self, ino: u64, now: Timestamp) -> FileAttributes {
        match self {
            Entry::Users { .. } => plain_attributes(ino, FileKind::Directory, timespec_of(now)),
            Entry::User { user, .. } => plain_attributes(ino, FileKind::Directory, timespec_of(user.last_modified)),
            Entry::UserFavorites(user) => plain_attributes(
                ino,
                FileKind::Directory,
                timespec_of(user.last_modified),
            ),
            Entry::UserFollowing(user) => plain_attributes(
                ino,
                FileKind::Directory,
                timespec_of(user.last_modified),
            ),
            Entry::UserReference(user) => plain_attributes(ino, FileKind::Symlink, timespec_of(user.last_modified)),
            Entry::Track(track) => FileAttributes {
                ino,
                size: track.original_content_size,
                blocks: (track.original_content_size / BLOCK_SIZE + 1) as u64,
                atime: timespec_of(track.last_modified),
                mtime: timespec_of(track.last_modified),
                ctime: timespec_of(track.created_at),
                crtime: timespec_of(track.created_at),
                kind: FileKind::RegularFile,
                perm: 0o444,
                nlink: 1,
                uid: 0,
                gid: 0,
                rdev: 1,
                flags: 0,
            },
        }
    }

    /// The attributes of the entry under inode `ino` at time `now`.
    pub fn file_attributes_at(&self, ino: u64, now: &Timestamp) -> (attrs: FileAttributes)
        requires
            self.wf(),
            now.wf(),
        ensures
            attrs == self.attributes(ino, *now),
    {
        match self {
            Entry::Users { .. } => Self::plain(ino, FileKind::Directory, now),
            Entry::User { user, .. } => Self::plain(ino, FileKind::Directory, &user.last_modified),
            Entry::UserFavorites(user) => Self::plain(ino, FileKind::Directory, &user.last_modified),
            Entry::UserFollowing(user) => Self::plain(ino, FileKind::Directory, &user.last_modified),
            Entry::UserReference(user) => Self::plain(ino, FileKind::Symlink, &user.last_modified),
            Entry::Track(track) => {
                let ctime = timespec_from_datetime(&track.created_at);
                let mtime = timespec_from_datetime(&track.last_modified);
                FileAttributes {
                    ino,
                    size: track.original_content_size,
                    blocks: track.original_content_size / BLOCK_SIZE + 1,
                    atime: mtime,
                    mtime,
                    ctime,
                    crtime: ctime,
                    kind: FileKind::RegularFile,
                    perm: 0o444,
                    nlink: 1,
                    uid: 0,
                    gid: 0,
                    rdev: 1,
                    flags: 0,
                }
            },
        }
    }

    fn plain(ino: u64, kind: FileKind, changed: &Timestamp) -> (attrs: FileAttributes)
        requires
            changed.wf(),
        ensures
            attrs == plain_attributes(ino, kind, timespec_of(*changed)),
    {
        let mtime = timespec_from_datetime(changed);
        FileAttributes {
            ino,
            size: 0,
            blocks: 1,
            atime: mtime,
            mtime,
            ctime: mtime,
            crtime: mtime,
            kind,
            perm: 0o555,
            nlink: 1,
            uid: 0,
            gid: 0,
            rdev: 1,
            flags: 0,
        }
    }

    /// The attributes of the entry under inode `ino`. Only the root reads
    /// the clock: its times are the time of the call.
    pub fn file_attributes(&self, ino: u64) -> (attrs: FileAttributes)
        requires
            self.wf(),
        ensures
            exists|now: Timestamp| now.wf() && attrs == #[trigger] self.attributes(ino, now),
            !(self is Users) ==> forall|now: Timestamp| attrs == #[trigger] self.attributes(ino, now),
    {
        match self {
            Entry::Users { .. } => {
                let now = utc_now();
                let attrs = self.file_attributes_at(ino, &now);
                assert(attrs == self.attributes(ino, now));
                attrs
            },
            _ => {
                let epoch = Timestamp { secs: 0, nanos: 0 };
                let attrs = self.file_attributes_at(ino, &epoch);
                assert(attrs == self.attributes(ino, epoch));
                attrs
            },
        }
    }

    /// What has to be fetched before the children can be listed.
    pub open spec fn request(&self) -> Request {
        match self {
            Entry::Users { .. } => Request::ShownUsers,
            Entry::User { .. } => Request::Tracks,
            Entry::UserFavorites(_) => Request::Favorites,
            Entry::UserFollowing(_) => Request::Following,
            _ => Request::Nothing,
        }
    }

    /// What has to be fetched before the children can be listed.
    pub fn wants(&self) -> (req: Request)
        ensures
            req == self.request(),
    {
        match self {
            Entry::Users { .. } => Request::ShownUsers,
            Entry::User { .. } => Request::Tracks,
            Entry::UserFavorites(_) => Request::Favorites,
            Entry::UserFollowing(_) => Request::Following,
            _ => Request::Nothing,
        }
    }

    /// What has to be fetched before `name` can be looked up: for the root
    /// the user of that name, unless the name is reserved, and for every
    /// other directory its listing.
    pub fn wants_for(&self, name: &str) -> (req: Request)
        ensures
            req == match self {
                Entry::Users { .. } => if is_reserved(name@) {
                    Request::Nothing
                } else {
                    Request::NamedUser
                },
                _ => self.request(),
            },
    {
        match self {
            Entry::Users { .. } => if reserved(name) {
                Request::Nothing
            } else {
                Request::NamedUser
            },
            _ => self.wants(),
        }
    }

    /// The children of the entry, given what was fetched for it, or nothing
    /// where the entry has no children or was handed something else than it
    /// asks for.
    ///
    /// The root lists the users that were asked for, under the names they
    /// were asked by. A user lists favorites and followings if it was asked
    /// for, then its tracks. Favorites list tracks. Followings list links to
    /// users. The order is that of what was fetched.
    pub open spec fn listing(&self, fetched: Fetched) -> Option<Seq<(Seq<char>, Entry)>> {
        match (*self, fetched) {
            (Entry::Users { show }, Fetched::Users(users)) => if users.len() == show.len() {
                Some(Seq::new(show.len() as nat, |i: int| (show[i]@, Entry::User { user: users[i], recurse: true })))
            } else {
                None
            },
            (Entry::User { user, recurse }, Fetched::Tracks(tracks)) => Some(
                own_directories(user, recurse) + track_children(tracks@),
            ),
            (Entry::UserFavorites(_), Fetched::Tracks(tracks)) => Some(track_children(tracks@)),
            (Entry::UserFollowing(_), Fetched::Users(users)) => Some(user_links(users@)),
            _ => None,
        }
    }

    /// Lists the children of the entry from what was fetched for it.
    pub fn children(&self, fetched: Fetched) -> (r: Result<Vec<(String, Entry)>, Error>)
        ensures
            match r {
                Ok(items) => self.listing(fetched) == Some(named(items@)),
                Err(e) => e == Error::NotApplicable && self.listing(fetched) is None,
            },
    {
        match self {
            Entry::Users { show } => match fetched {
                Fetched::Users(users) => {
                    if users.len() != show.len() {
                        return Err(Error::NotApplicable);
                    }
                    let ghost given = users@;
                    let mut out: Vec<(String, Entry)> = Vec::new();
                    for user in it: users.into_iter()
                        invariant
                            it.seq() == given,
                            given.len() == show.len(),
                            out.len() == it.index(),
                            forall|k: int|
                                0 <= k < out.len() ==> (#[trigger] named(out@)[k]) == (
                                    show[k]@,
                                    Entry::User { user: given[k], recurse: true },
                                ),
                    {
                        let ghost before = out@;
                        let i: usize = out.len();
                        out.push((show[i].clone(), Entry::User { user, recurse: true }));
                        assert forall|k: int| 0 <= k < out.len() implies (#[trigger] named(out@)[k]) == (
                            show[k]@,
                            Entry::User { user: given[k], recurse: true },
                        ) by {
                            if k < before.len() {
                                assert(named(before)[k] == named(out@)[k]);
                            }
                        }
                    }
                    assert(named(out@) =~= self.listing(fetched)->Some_0);
                    Ok(out)
                },
                _ => Err(Error::NotApplicable),
            },
            Entry::User { user, recurse } => match fetched {
                Fetched::Tracks(tracks) => {
                    let mut out: Vec<(String, Entry)> = Vec::new();
                    if *recurse {
                        out.push(("favorites".to_owned(), Entry::UserFavorites(copy_user(user))));
                        out.push(("following".to_owned(), Entry::UserFollowing(copy_user(user))));
                    }
                    assert(named(out@) =~= own_directories(*user, *recurse));
                    push_tracks(&mut out, tracks);
                    Ok(out)
                },
                _ => Err(Error::NotApplicable),
            },
            Entry::UserFavorites(_) => match fetched {
                Fetched::Tracks(tracks) => {
                    let mut out: Vec<(String, Entry)> = Vec::new();
                    assert(named(out@) =~= Seq::<(Seq<char>, Entry)>::empty());
                    push_tracks(&mut out, tracks);
                    assert(named(out@) =~= track_children(tracks@));
                    Ok(out)
                },
                _ => Err(Error::NotApplicable),
            },
            Entry::UserFollowing(_) => match fetched {
                Fetched::Users(users) => {
                    let ghost given = users@;
                    let mut out: Vec<(String, Entry)> = Vec::new();
                    for user in it: users.into_iter()
                        invariant
                            it.seq() == given,
                            out.len() == it.index(),
                            forall|k: int| 0 <= k < out.len() ==> (#[trigger] named(out@)[k]) == user_links(given)[k],
                    {
                        let ghost before = out@;
                        out.push((user.permalink.clone(), Entry::UserReference(user)));
                        assert forall|k: int| 0 <= k < out.len() implies (#[trigger] named(out@)[k]) == user_links(
                            given,
                        )[k] by {
                            if k < before.len() {
                                assert(named(before)[k] == named(out@)[k]);
                            }
                        }
                    }
                    assert(named(out@) =~= user_links(given));
                    Ok(out)
                },
                _ => Err(Error::NotApplicable),
            },
            _ => Err(Error::NotApplicable),
        }
    }

    /// The child that goes by `name`, given what was fetched for the lookup.
    ///
    /// The root turns a reserved name down without looking at what was
    /// fetched; any other name is the user that was fetched, who lists
    /// favorites and followings only if the root shows that name. Every
    /// other directory gives the first of its children that goes by the
    /// name. What does not belong to the entry gives nothing.
    pub open spec fn child(&self, name: Seq<char>, fetched: Fetched) -> Result<Entry, Error> {
        match *self {
            Entry::Users { show } => if is_reserved(name) {
                Err(Error::EntityNotFound)
            } else {
                match fetched {
                    Fetched::Users(users) => if users.len() == 1 {
                        Ok(
                            Entry::User {
                                user: users[0],
                                recurse: exists|i: int| 0 <= i < show.len() && (#[trigger] show[i])@ == name,
                            },
                        )
                    } else {
                        Err(Error::NotApplicable)
                    },
                    _ => Err(Error::NotApplicable),
                }
            },
            _ => match self.listing(fetched) {
                None => Err(Error::NotApplicable),
                Some(items) => match first_named(items, name, 0) {
                    Some(entry) => Ok(entry),
                    None => Err(Error::EntityNotFound),
                },
            },
        }
    }

    /// Looks `name` up among the children of the entry.
    pub fn child_by_name(&self, name: &str, fetched: Fetched) -> (r: Result<Entry, Error>)
        ensures
            r == self.child(name@, fetched),
    {
        match self {
            Entry::Users { show } => {
                if reserved(name) {
                    return Err(Error::EntityNotFound);
                }
                match fetched {
                    Fetched::Users(users) => {
                        let mut users = users;
                        if users.len() != 1 {
                            return Err(Error::NotApplicable);
                        }
                        let user: User = users.remove(0);
                        let wanted: String = name.to_owned();
                        let recurse: bool = contains_name(show, &wanted);
                        Ok(Entry::User { user, recurse })
                    },
                    _ => Err(Error::NotApplicable),
                }
            },
            _ => {
                let mut items: Vec<(String, Entry)> = match self.children(fetched) {
                    Ok(items) => items,
                    Err(_) => {
                        return Err(Error::NotApplicable);
                    },
                };
                let ghost all = named(items@);
                match position_of(&items, name) {
                    Some(at) => {
                        proof {
                            lemma_first_named(all, name@, 0, at as int);
                        }
                        let found: (String, Entry) = items.remove(at);
                        Ok(found.1)
                    },
                    None => {
                        proof {
                            lemma_none_named(all, name@, 0);
                        }
                        Err(Error::EntityNotFound)
                    },
                }
            },
        }
    }

    /// The path that a link to a user resolves to: two directories up, then
    /// the user's name.
    pub fn read_link(&self) -> (r: Result<String, Error>)
        ensures
            match r {
                Ok(path) => self matches Entry::UserReference(user) && path@ == "../../"@ + user.permalink@,
                Err(e) => !(self is UserReference) && e == Error::NotApplicable,
            },
    {
        match self {
            Entry::UserReference(user) => Ok("../../".to_owned().concat(user.permalink.as_str())),
            _ => Err(Error::NotApplicable),
        }
    }

    /// Whether the entry opens with `tag`, and with which bytes in front.
    ///
    /// Nothing but a track can be opened. A tag with more text than the
    /// encoder takes cannot be encoded. A failure of the encoder is handed
    /// on with its text. The encoded tag, the padding and the audio must
    /// together stay within what an offset can address.
    pub open spec fn opening(&self, tag: TrackTag) -> Opening {
        match self {
            Entry::Track(track) => if !tag.fits() {
                Opening::TooMuchText
            } else {
                match tag_encoding(tag.title@, tag.artist@, tag.genre@) {
                    Err(detail) => Opening::EncoderFailed(detail),
                    Ok(bytes) => if bytes.len() + PADDING + track.original_content_size <= u64::MAX {
                        Opening::Opens(bytes)
                    } else {
                        Opening::TooLong
                    },
                }
            },
            _ => Opening::NotATrack,
        }
    }

    /// The stream of a track: the encoded `tag`, the padding, and the audio
    /// that `audio` delivers when a read first reaches it. No audio is asked
    /// for.
    ///
    /// Whether the entry opens, and with which bytes in front, is
    /// [`Entry::opening`]; the stream is the one that [`compose`] puts
    /// together from those bytes.
    pub fn open_ro<F: FnOnce() -> Result<Vec<u8>, String>>(&self, tag: &TrackTag, audio: F) -> (r: Result<
        Stream<F>,
        Error,
    >)
        requires
            call_requires(audio, ()),
        ensures
            match self.opening(*tag) {
                Opening::NotATrack => r matches Err(e) && e == Error::NotApplicable,
                Opening::TooMuchText => r matches Err(e) && e is MalformedContent,
                Opening::EncoderFailed(detail) => r matches Err(Error::MalformedContent(text)) && text@ == detail,
                Opening::TooLong => r matches Err(e) && e is MalformedContent,
                Opening::Opens(bytes) => r matches Ok(stream) && self matches Entry::Track(track) && starts_as_tag(
                    bytes,
                ) && exists|encoded: Vec<u8>|
                    encoded@ == bytes && #[trigger] composed(stream, encoded, track.original_content_size, audio),
            },
    {
        match self {
            Entry::Track(track) => {
                if !tag.check_fits() {
                    return Err(Error::MalformedContent("too much text in the tag".to_owned()));
                }
                match encode_tag(tag.title.as_str(), tag.artist.as_str(), tag.genre.as_str()) {
                    Ok(encoded) => {
                        let r = compose(encoded, track.original_content_size, audio);
                        proof {
                            if let Ok(stream) = &r {
                                assert(composed(*stream, encoded, track.original_content_size, audio));
                            }
                        }
                        r
                    },
                    Err(detail) => Err(Error::MalformedContent(detail)),
                }
            },
            _ => Err(Error::NotApplicable),
        }
    }
}

/// What comes of opening an entry.
pub enum Opening {
    /// The entry is no track.
    NotATrack,
    /// The tag holds more text than the encoder takes.
    TooMuchText,
    /// The encoder failed with this text.
    EncoderFailed(Seq<char>),
    /// Tag, padding and audio together are longer than an offset can address.
    TooLong,
    /// The entry opens, with these bytes in front.
    Opens(Seq<u8>),
}

/// What the tag of a track says.
#[derive(Debug, Clone, PartialEq, Eq)]
pub struct TrackTag {
    /// The title of the track.
    pub title: String,
    /// The name of the artist.
    pub artist: String,
    /// The genre.
    pub genre: String,
}

/// The most bytes of text that the encoder takes in one tag. A tag is
/// written with its length in twenty-eight bits, and so is each of its
/// three frames; beside the text a tag of three frames holds thirty-three
/// bytes.
pub const MAX_TAG_TEXT: usize = 0x0fff_0000;

/// The number of bytes that `text` takes in a tag.
pub open spec fn text_bytes(text: Seq<char>) -> nat {
    vstd::utf8::encode_utf8(text).len()
}

impl TrackTag {
    /// The text of the tag is no more than the encoder takes.
    pub open spec fn fits(&self) -> bool {
        text_bytes(self.title@) + text_bytes(self.artist@) + text_bytes(self.genre@) <= MAX_TAG_TEXT
    }

    /// Whether the text of the tag is no more than the encoder takes.
    pub fn check_fits(&self) -> (b: bool)
        ensures
            b == self.fits(),
    {
        let title: usize = self.title.as_str().as_bytes().len();
        let artist: usize = self.artist.as_str().as_bytes().len();
        let genre: usize = self.genre.as_str().as_bytes().len();
        title <= MAX_TAG_TEXT && artist <= MAX_TAG_TEXT - title && genre <= MAX_TAG_TEXT - title - artist
    }
}

/// The directories that every user that was asked for holds.
pub open spec fn own_directories(user: User, recurse: bool) -> Seq<(Seq<char>, Entry)> {
    if recurse {
        seq![("favorites"@, Entry::UserFavorites(user)), ("following"@, Entry::UserFollowing(user))]
    } else {
        Seq::empty()
    }
}

/// The directory entries of `tracks`, in order.
pub open spec fn track_children(tracks: Seq<Track>) -> Seq<(Seq<char>, Entry)> {
    Seq::new(tracks.len(), |i: int| track_child(tracks[i]))
}

/// The links to `users`, in order, each under the user's name.
pub open spec fn user_links(users: Seq<User>) -> Seq<(Seq<char>, Entry)> {
    Seq::new(users.len(), |i: int| (users[i].permalink@, Entry::UserReference(users[i])))
}

/// Appends the directory entries of `tracks` to `out`.
fn push_tracks(out: &mut Vec<(String, Entry)>, tracks: Vec<Track>)
    ensures
        named(final(out)@) == named(old(out)@) + track_children(tracks@),
{
    let ghost given = tracks@;
    let ghost start = out@;
    for track in it: tracks.into_iter()
        invariant
            it.seq() == given,
            out.len() == start.len() + it.index(),
            forall|k: int| 0 <= k < start.len() ==> (#[trigger] named(out@)[k]) == named(start)[k],
            forall|k: int|
                0 <= k < it.index() ==> (#[trigger] named(out@)[start.len() + k]) == track_child(given[k]),
    {
        let ghost before = out@;
        out.push(map_track_to_child(track));
        assert forall|k: int| 0 <= k < start.len() implies (#[trigger] named(out@)[k]) == named(start)[k] by {
            assert(named(before)[k] == named(out@)[k]);
        }
        assert forall|k: int| 0 <= k < it.index() + 1 implies (#[trigger] named(out@)[start.len() + k])
            == track_child(given[k]) by {
            if k < it.index() {
                assert(named(before)[start.len() + k] == named(out@)[start.len() + k]);
            }
        }
    }
    assert forall|k: int| start.len() <= k < out.len() implies (#[trigger] named(out@)[k]) == track_children(
        given,
    )[k - start.len()] by {
        assert(named(out@)[start.len() + (k - start.len())] == track_child(given[k - start.len()]));
    }
    assert(named(out@) =~= named(start) + track_children(given));
}

/// `stream` is the stream of a track with tag bytes `tag` and `audio_len`
/// bytes of audio that `audio` delivers: the tag, resident; the padding; and
/// the audio, whose producer has not been asked. It stands at its start.
pub open spec fn composed<F: FnOnce() -> Result<Vec<u8>, String>>(
    stream: Stream<F>,
    tag: Vec<u8>,
    audio_len: u64,
    audio: F,
) -> bool {
    &&& stream.wf()
    &&& stream.position() == 0
    &&& stream.sources().len() == 3
    &&& stream.sources()[0] == Source::<F>::Buffer(tag)
    &&& stream.sources()[1] == Source::<F>::Zeros(PADDING)
    &&& stream.sources()[2] matches Source::Lazy(lazy) && lazy.length() == audio_len && lazy.state()
        == LazyState::Untriggered(audio)
}

/// Puts the stream of a track together from the bytes of its tag, the
/// padding and the audio that `audio` will deliver. No audio is asked for.
/// A stream longer than an offset can address cannot be had.
pub fn compose<F: FnOnce() -> Result<Vec<u8>, String>>(tag: Vec<u8>, audio_len: u64, audio: F) -> (r: Result<
    Stream<F>,
    Error,
>)
    requires
        call_requires(audio, ()),
    ensures
        match r {
            Ok(stream) => composed(stream, tag, audio_len, audio) && tag@.len() + PADDING + audio_len <= u64::MAX,
            Err(e) => e is MalformedContent && tag@.len() + PADDING + audio_len > u64::MAX,
        },
{
    let lazy = LazyOpen::new(audio_len, audio);
    let mut sources: Vec<Source<F>> = Vec::new();
    sources.push(Source::Buffer(tag));
    sources.push(zeros(PADDING));
    sources.push(Source::Lazy(lazy));
    proof {
        reveal_with_fuel(start_of, 4);
        let p = parts_of(sources@);
        assert(p[0].len() == tag@.len());
        assert(p[1].len() == PADDING);
        assert(p[2].len() == audio_len);
        assert(start_of(p, 3) == tag@.len() + PADDING + audio_len);
    }
    match Concat::new(sources) {
        Some(stream) => Ok(stream),
        None => Err(Error::MalformedContent("stream too long".to_owned())),
    }
}

/// The bytes start as an encoded tag of version 2.4 does: the mark of a
/// tag, then the version.
pub open spec fn starts_as_tag(bytes: Seq<u8>) -> bool {
    &&& bytes.len() >= 10
    &&& bytes[0] == 0x49
    &&& bytes[1] == 0x44
    &&& bytes[2] == 0x33
    &&& bytes[3] == 4
    &&& bytes[4] == 0
}

/// What the tag library makes of a tag that holds the three texts as its
/// title, artist and genre frames, written in version 2.4 of the format:
/// the bytes of the tag, or the text of its failure.
pub uninterp spec fn tag_encoding(title: Seq<char>, artist: Seq<char>, genre: Seq<char>) -> Result<Seq<u8>, Seq<char>>;

/// Encodes a tag with the tag library: an empty `id3::Tag` is given its
/// title, artist and genre with `TagLike::set_title`, `set_artist` and
/// `set_genre`, and written with `id3::Tag::write_to` in version 2.4 of the
/// format. A failure comes back as the text that the library's error
/// displays.
///
/// The outcome depends on the three texts alone and goes by the name
/// [`tag_encoding`]. Of the bytes it is claimed besides that they start with
/// the header that the encoder writes before the frames: the three letters
/// `ID3`, then the version bytes 4 and 0. The encoder refuses lengths that
/// do not fit twenty-eight bits, so the texts must together stay below
/// that.
#[verifier::external_body]
fn encode_tag(title: &str, artist: &str, genre: &str) -> (r: Result<Vec<u8>, String>)
    requires
        text_bytes(title@) + text_bytes(artist@) + text_bytes(genre@) <= MAX_TAG_TEXT,
    ensures
        match r {
            Ok(bytes) => tag_encoding(title@, artist@, genre@) == Ok::<Seq<u8>, Seq<char>>(bytes@) && starts_as_tag(
                bytes@,
            ),
            Err(detail) => tag_encoding(title@, artist@, genre@) == Err::<Seq<u8>, Seq<char>>(detail@),
        },
{
    let mut tag = id3::Tag::new();
    id3::TagLike::set_title(&mut tag, title);
    id3::TagLike::set_artist(&mut tag, artist);
    id3::TagLike::set_genre(&mut tag, genre);
    let mut encoded: Vec<u8> = Vec::new();
    match tag.write_to(&mut encoded, id3::Version::Id3v24) {
        Ok(()) => Ok(encoded),
        Err(e) => Err(format!("{}", e)),
    }
}

} // verus!
