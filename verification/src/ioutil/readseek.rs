//! The capability that every byte source offers, and its mathematical model.
//!
//! A source is modelled as a sequence of [`ByteState`]s, one per byte of its
//! length. The length never changes. A byte is `Known` once it is resident,
//! `Pending` while the content that holds it has not been asked for, and
//! `Lost` when producing that content failed. Bytes only ever move from
//! `Pending` to one of the other two states.
use vstd::prelude::*;
use crate::ioutil::lazyopen::LazyOpen;

verus! {

/// Why a read could not deliver bytes.
#[derive(Debug, PartialEq, Eq)]
pub enum SourceError {
    /// The content producer reported this failure.
    Producer(String),
    /// The producer returned content whose length differs from the announced one.
    LengthMismatch,
    /// The content is being produced and has not arrived.
    InProgress,
}

/// What is known of one byte of a source.
#[derive(Debug)]
pub enum ByteState {
    /// The byte is resident and has this value.
    Known(u8),
    /// The content holding the byte has not been produced yet.
    Pending,
    /// The byte cannot be had, for this reason.
    Lost(SourceError),
}

impl SourceError {
    /// An equal copy of the error.
    pub fn duplicate(&self) -> (copy: SourceError)
        ensures
            copy == *self,
    {
        match self {
            SourceError::Producer(detail) => SourceError::Producer(detail.clone()),
            SourceError::LengthMismatch => SourceError::LengthMismatch,
            SourceError::InProgress => SourceError::InProgress,
        }
    }
}

/// Exclusive end of the bytes that a read of `count` bytes at `offset`
/// covers in a stream of `len` bytes.
pub open spec fn window_end(len: nat, offset: u64, count: usize) -> int {
    if offset + count <= len {
        offset + count
    } else {
        len as int
    }
}

/// Number of bytes that a read of `count` bytes at `offset` covers in a
/// stream of `len` bytes: `count`, cut short only by the end of the stream.
pub open spec fn window_len(len: nat, offset: u64, count: usize) -> nat {
    if offset < len {
        (window_end(len, offset, count) - offset) as nat
    } else {
        0
    }
}

/// `data` is exactly what a read of `count` bytes at `offset` owes from a
/// stream in state `bytes`.
pub open spec fn delivered(bytes: Seq<ByteState>, offset: u64, count: usize, data: Seq<u8>) -> bool {
    &&& data.len() == window_len(bytes.len(), offset, count)
    &&& forall|j: int| 0 <= j < data.len() ==> bytes[offset + j] == ByteState::Known(#[trigger] data[j])
}

/// The first byte that a read of `count` bytes at `offset` covers and that
/// is not known is lost for reason `e`.
pub open spec fn fails_with(bytes: Seq<ByteState>, offset: u64, count: usize, e: SourceError) -> bool {
    exists|i: int|
        offset <= i < window_end(bytes.len(), offset, count) && #[trigger] bytes[i] == ByteState::Lost(e)
            && known_between(bytes, offset as int, i)
}

/// Every byte from `lo` up to `hi` is known.
pub open spec fn known_between(bytes: Seq<ByteState>, lo: int, hi: int) -> bool {
    forall|j: int| lo <= j < hi ==> #[trigger] bytes[j] is Known
}

/// No byte that a read of `count` bytes at `offset` covers is pending.
pub open spec fn none_pending(bytes: Seq<ByteState>, offset: u64, count: usize) -> bool {
    forall|i: int| offset <= i < window_end(bytes.len(), offset, count) ==> !(#[trigger] bytes[i] is Pending)
}

/// `after` is a later state of the stream that was in state `before`: the
/// length is the same and every byte that was known or lost is as it was.
pub open spec fn settled_kept(before: Seq<ByteState>, after: Seq<ByteState>) -> bool {
    &&& after.len() == before.len()
    &&& forall|i: int| 0 <= i < before.len() && !(before[i] is Pending) ==> #[trigger] after[i] == before[i]
}

/// A byte source of known length that can be read at any offset.
pub trait ReadSeek: Sized {
    /// The invariant of the source.
    spec fn wf(&self) -> bool;

    /// The state of every byte of the source, in order.
    spec fn bytes(&self) -> Seq<ByteState>;

    /// The source is what a read of `count` bytes at `offset` leaves of
    /// `before`: which of its parts stay exactly as they were, and how what
    /// changes comes from what its content producers answered.
    spec fn follows(&self, before: Self, offset: u64, count: usize) -> bool;

    /// The length of a well-formed source fits the offsets that reads take.
    proof fn lemma_len_fits(&self)
        requires
            self.wf(),
        ensures
            self.bytes().len() <= u64::MAX,
    ;

    /// The length in bytes. Asking for it produces no content.
    fn len(&self) -> (n: u64)
        requires
            self.wf(),
        ensures
            n == self.bytes().len(),
    ;

    /// Reads up to `count` bytes starting at `offset`.
    ///
    /// Fewer than `count` bytes come back only where the stream ends. Content
    /// is produced only where the read covers a pending byte, and a read that
    /// covers none leaves the source as it was. The read fails exactly when a
    /// byte it covers ends up lost, with the reason of the first such byte.
    fn read_at(&mut self, offset: u64, count: usize) -> (r: Result<Vec<u8>, SourceError>)
        requires
            old(self).wf(),
        ensures
            final(self).wf(),
            final(self).follows(*old(self), offset, count),
            settled_kept(old(self).bytes(), final(self).bytes()),
            none_pending(old(self).bytes(), offset, count) ==> final(self).bytes() == old(self).bytes(),
            match r {
                Ok(data) => delivered(final(self).bytes(), offset, count, data@),
                Err(e) => fails_with(final(self).bytes(), offset, count, e),
            },
    ;
}

/// A read that covers known bytes only changes nothing and cannot fail.
pub proof fn lemma_known_bytes_are_read(
    before: Seq<ByteState>,
    after: Seq<ByteState>,
    offset: u64,
    count: usize,
    e: SourceError,
)
    requires
        known_between(before, offset as int, window_end(before.len(), offset, count)),
        settled_kept(before, after),
    ensures
        none_pending(before, offset, count),
        !fails_with(after, offset, count, e),
{
    assert forall|i: int| offset <= i < window_end(before.len(), offset, count) implies !(#[trigger] before[i]
        is Pending) by {
        assert(before[i] is Known);
    }
    if fails_with(after, offset, count, e) {
        let i = choose|i: int|
            offset <= i < window_end(after.len(), offset, count) && #[trigger] after[i] == ByteState::Lost(e)
                && known_between(after, offset as int, i);
        assert(before[i] is Known);
        assert(after[i] == before[i]);
    }
}

/// The bytes of `data` from `start` up to `end`.
pub fn copy_range(data: &Vec<u8>, start: usize, end: usize) -> (out: Vec<u8>)
    requires
        start <= end <= data.len(),
    ensures
        out@ == data@.subrange(start as int, end as int),
{
    let mut out: Vec<u8> = Vec::new();
    let mut i: usize = start;
    while i < end
        invariant
            start <= i <= end <= data.len(),
            out@ == data@.subrange(start as int, i as int),
        decreases end - i,
    {
        out.push(data[i]);
        i += 1;
    }
    out
}

/// `n` zero bytes.
pub fn zero_bytes(n: usize) -> (out: Vec<u8>)
    ensures
        out@ == Seq::new(n as nat, |i: int| 0u8),
{
    let mut out: Vec<u8> = Vec::new();
    let mut i: usize = 0;
    while i < n
        invariant
            i <= n,
            out@ == Seq::new(i as nat, |k: int| 0u8),
        decreases n - i,
    {
        out.push(0u8);
        i += 1;
    }
    out
}

/// How many bytes a read of `count` bytes at `offset` takes from a stream
/// of `len` bytes.
pub fn clip(len: u64, offset: u64, count: usize) -> (n: usize)
    ensures
        n == window_len(len as nat, offset, count),
        offset + n == window_end(len as nat, offset, count) || n == 0,
{
    if offset >= len {
        0
    } else {
        let rest: u64 = len - offset;
        if (count as u64) < rest {
            count
        } else {
            rest as usize
        }
    }
}

/// One part of a composite stream.
pub enum Source<F> {
    /// Content that is resident from the start.
    Buffer(Vec<u8>),
    /// A run of zero bytes of the given length.
    Zeros(u64),
    /// Content that is produced when a read first touches it.
    Lazy(LazyOpen<F>),
}

/// A run of `n` zero bytes.
pub fn zeros<F>(n: u64) -> (s: Source<F>)
    ensures
        s == Source::<F>::Zeros(n),
{
    Source::Zeros(n)
}

/// The model of resident content `data`.
pub open spec fn known(data: Seq<u8>) -> Seq<ByteState> {
    Seq::new(data.len(), |i: int| ByteState::Known(data[i]))
}

impl<F: FnOnce() -> Result<Vec<u8>, String>> ReadSeek for Source<F> {
    open spec fn wf(&self) -> bool {
        match self {
            Source::Buffer(_) => true,
            Source::Zeros(_) => true,
            Source::Lazy(lazy) => lazy.wf(),
        }
    }

    open spec fn bytes(&self) -> Seq<ByteState> {
        match self {
            Source::Buffer(data) => known(data@),
            Source::Zeros(n) => Seq::new(*n as nat, |i: int| ByteState::Known(0u8)),
            Source::Lazy(lazy) => lazy.bytes(),
        }
    }

    /// Resident content and zero runs stay exactly as they are; deferred
    /// content follows its own rule.
    open spec fn follows(&self, before: Self, offset: u64, count: usize) -> bool {
        match before {
            Source::Lazy(was) => self matches Source::Lazy(lazy) && lazy.follows(was, offset, count),
            _ => *self == before,
        }
    }

    proof fn lemma_len_fits(&self) {
        match self {
            Source::Buffer(data) => {
                assert(data@.len() == data.len());
            },
            Source::Zeros(_) => {},
            Source::Lazy(lazy) => lazy.lemma_len_fits(),
        }
    }

    fn len(&self) -> (n: u64) {
        match self {
            Source::Buffer(data) => data.len() as u64,
            Source::Zeros(n) => *n,
            Source::Lazy(lazy) => lazy.len(),
        }
    }

    fn read_at(&mut self, offset: u64, count: usize) -> (r: Result<Vec<u8>, SourceError>) {
        match self {
            Source::Buffer(data) => {
                let n: usize = clip(data.len() as u64, offset, count);
                if n == 0 {
                    Ok(Vec::new())
                } else {
                    let start: usize = offset as usize;
                    Ok(copy_range(data, start, start + n))
                }
            },
            Source::Zeros(len) => {
                let n: usize = clip(*len, offset, count);
                Ok(zero_bytes(n))
            },
            Source::Lazy(lazy) => lazy.read_at(offset, count),
        }
    }
}

} // verus!
