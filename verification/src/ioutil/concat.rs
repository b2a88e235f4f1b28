//! Several sources stitched into one stream.
//!
//! The stream is modelled by its parts, one sequence of byte states per
//! source. Part `i` starts at the sum of the lengths of the parts before it,
//! and the stream is the parts joined in order.
use vstd::prelude::*;
use crate::ioutil::readseek::{
    ByteState,
    ReadSeek,
    SourceError,
    clip,
    delivered,
    fails_with,
    known_between,
    none_pending,
    settled_kept,
    window_end,
    window_len,
};

verus! {

/// The offset at which part `i` starts: the lengths of the parts before it, summed.
pub open spec fn start_of(parts: Seq<Seq<ByteState>>, i: int) -> int
    decreases i,
{
    if i <= 0 {
        0
    } else {
        start_of(parts, i - 1) + parts[i - 1].len()
    }
}

/// The first `n` parts, one after the other.
pub open spec fn joined(parts: Seq<Seq<ByteState>>, n: int) -> Seq<ByteState>
    decreases n,
{
    if n <= 0 {
        Seq::empty()
    } else {
        joined(parts, n - 1) + parts[n - 1]
    }
}

/// The part of a read of `count` bytes at `offset` that falls to part `k`
/// of `n` parts: the offset inside the part and the number of bytes.
pub open spec fn share_of(parts: Seq<Seq<ByteState>>, n: int, k: int, offset: u64, count: usize) -> (u64, usize) {
    let end = window_end(start_of(parts, n) as nat, offset, count);
    let from = if offset > start_of(parts, k) {
        offset as int
    } else {
        start_of(parts, k)
    };
    let to = if end < start_of(parts, k + 1) {
        end
    } else {
        start_of(parts, k + 1)
    };
    ((from - start_of(parts, k)) as u64, (to - from) as usize)
}

/// The byte states of each source, in order.
pub open spec fn parts_of<S: ReadSeek>(sources: Seq<S>) -> Seq<Seq<ByteState>> {
    Seq::new(sources.len(), |k: int| sources[k].bytes())
}

/// The value of every byte of `bytes`; a byte that is not known counts as zero.
pub open spec fn values_of(bytes: Seq<ByteState>) -> Seq<u8> {
    Seq::new(
        bytes.len(),
        |i: int|
            match bytes[i] {
                ByteState::Known(b) => b,
                _ => 0u8,
            },
    )
}

/// The content of the first `n` parts, one after the other.
pub open spec fn joined_values(parts: Seq<Seq<ByteState>>, n: int) -> Seq<u8>
    decreases n,
{
    if n <= 0 {
        Seq::empty()
    } else {
        joined_values(parts, n - 1) + values_of(parts[n - 1])
    }
}

/// Every byte of `bytes` is known.
pub open spec fn all_known(bytes: Seq<ByteState>) -> bool {
    forall|i: int| 0 <= i < bytes.len() ==> #[trigger] bytes[i] is Known
}

/// Parts start in order: a later part starts no earlier than an earlier one.
pub proof fn lemma_start_monotonic(parts: Seq<Seq<ByteState>>, i: int, k: int)
    requires
        0 <= i <= k,
    ensures
        0 <= start_of(parts, i) <= start_of(parts, k),
    decreases k,
{
    if k > 0 {
        if i < k {
            lemma_start_monotonic(parts, i, k - 1);
        } else {
            lemma_start_monotonic(parts, i - 1, k - 1);
        }
    }
}

/// The joined stream is as long as its parts together.
pub proof fn lemma_joined_len(parts: Seq<Seq<ByteState>>, n: int)
    requires
        0 <= n,
    ensures
        joined(parts, n).len() == start_of(parts, n),
    decreases n,
{
    if n > 0 {
        lemma_joined_len(parts, n - 1);
    }
}

/// Byte `j` of part `i` is byte `start_of(i) + j` of the joined stream.
pub proof fn lemma_joined_index(parts: Seq<Seq<ByteState>>, n: int, i: int, j: int)
    requires
        0 <= i < n,
        0 <= j < parts[i].len(),
    ensures
        0 <= start_of(parts, i) + j < start_of(parts, i + 1) <= start_of(parts, n),
        joined(parts, n).len() == start_of(parts, n),
        joined(parts, n)[start_of(parts, i) + j] == parts[i][j],
    decreases n,
{
    lemma_joined_len(parts, n);
    lemma_joined_len(parts, n - 1);
    lemma_start_monotonic(parts, i, i);
    lemma_start_monotonic(parts, i + 1, n);
    if i < n - 1 {
        lemma_joined_index(parts, n - 1, i, j);
    }
}

/// Every byte of the joined stream belongs to exactly one part.
pub proof fn lemma_owner(parts: Seq<Seq<ByteState>>, n: int, g: int) -> (i: int)
    requires
        0 <= g < start_of(parts, n),
    ensures
        0 <= i < n,
        start_of(parts, i) <= g < start_of(parts, i + 1),
        0 <= g - start_of(parts, i) < parts[i].len(),
        joined(parts, n)[g] == parts[i][g - start_of(parts, i)],
    decreases n,
{
    if n <= 0 {
        0
    } else if g >= start_of(parts, n - 1) {
        lemma_start_monotonic(parts, n - 1, n - 1);
        lemma_joined_index(parts, n, n - 1, g - start_of(parts, n - 1));
        n - 1
    } else {
        let i = lemma_owner(parts, n - 1, g);
        lemma_joined_index(parts, n, i, g - start_of(parts, i));
        i
    }
}

/// Where parts have the same lengths they start at the same offsets.
pub proof fn lemma_same_lengths_same_starts(a: Seq<Seq<ByteState>>, b: Seq<Seq<ByteState>>, i: int)
    requires
        forall|k: int| 0 <= k < i ==> (#[trigger] a[k]).len() == b[k].len(),
    ensures
        start_of(a, i) == start_of(b, i),
    decreases i,
{
    if i > 0 {
        lemma_same_lengths_same_starts(a, b, i - 1);
    }
}

/// Bytes that are settled in every part stay settled in the joined stream.
pub proof fn lemma_joined_settled(a: Seq<Seq<ByteState>>, b: Seq<Seq<ByteState>>, n: int)
    requires
        0 <= n,
        forall|k: int| 0 <= k < n ==> settled_kept(#[trigger] a[k], b[k]),
    ensures
        settled_kept(joined(a, n), joined(b, n)),
    decreases n,
{
    if n > 0 {
        lemma_joined_settled(a, b, n - 1);
        assert(settled_kept(a[n - 1], b[n - 1]));
        let ja = joined(a, n - 1);
        let jb = joined(b, n - 1);
        assert forall|i: int| 0 <= i < joined(a, n).len() && !(joined(a, n)[i] is Pending) implies #[trigger] joined(
            b,
            n,
        )[i] == joined(a, n)[i] by {
            if i < ja.len() {
                assert(jb[i] == ja[i]);
            } else {
                assert(b[n - 1][i - ja.len()] == a[n - 1][i - ja.len()]);
            }
        }
    }
}

/// The content of the joined stream is the content of its parts, one after the other.
pub proof fn lemma_joined_values(parts: Seq<Seq<ByteState>>, n: int)
    requires
        0 <= n,
    ensures
        values_of(joined(parts, n)) == joined_values(parts, n),
    decreases n,
{
    if n > 0 {
        lemma_joined_values(parts, n - 1);
        assert(values_of(joined(parts, n)) =~= values_of(joined(parts, n - 1)) + values_of(parts[n - 1]));
    } else {
        assert(values_of(joined(parts, n)) =~= joined_values(parts, n));
    }
}

/// Parts of the same lengths start at the same offsets, all of them.
pub proof fn lemma_starts_kept(a: Seq<Seq<ByteState>>, b: Seq<Seq<ByteState>>, n: int)
    requires
        forall|k: int| 0 <= k < n ==> (#[trigger] a[k]).len() == b[k].len(),
    ensures
        forall|k: int| 0 <= k <= n ==> #[trigger] start_of(a, k) == start_of(b, k),
{
    assert forall|k: int| 0 <= k <= n implies #[trigger] start_of(a, k) == start_of(b, k) by {
        lemma_same_lengths_same_starts(a, b, k);
    }
}

/// When part `i` moves on to a later state and the other parts stay, every
/// part is still a later state of what it was at first.
proof fn lemma_part_replaced(
    first: Seq<Seq<ByteState>>,
    cur: Seq<Seq<ByteState>>,
    new: Seq<Seq<ByteState>>,
    n: int,
    i: int,
)
    requires
        0 <= i < n,
        forall|k: int| 0 <= k < n ==> settled_kept(#[trigger] first[k], cur[k]),
        forall|k: int| 0 <= k < n && k != i ==> #[trigger] new[k] == cur[k],
        settled_kept(cur[i], new[i]),
    ensures
        forall|k: int| 0 <= k < n ==> settled_kept(#[trigger] first[k], new[k]),
        forall|k: int| 0 <= k <= n ==> #[trigger] start_of(new, k) == start_of(first, k),
        forall|k: int| 0 <= k <= n ==> #[trigger] start_of(cur, k) == start_of(first, k),
{
    assert forall|k: int| 0 <= k < n implies settled_kept(#[trigger] first[k], new[k]) by {
        assert(settled_kept(first[k], cur[k]));
        if k != i {
            assert(new[k] == cur[k]);
        }
    }
    assert forall|k: int| 0 <= k < n implies (#[trigger] new[k]).len() == first[k].len() by {
        assert(settled_kept(first[k], new[k]));
    }
    assert forall|k: int| 0 <= k < n implies (#[trigger] cur[k]).len() == first[k].len() by {
        assert(settled_kept(first[k], cur[k]));
    }
    lemma_starts_kept(new, first, n);
    lemma_starts_kept(cur, first, n);
}

/// What was delivered before part `i` was read stays delivered, and the
/// bytes read from part `i` follow it.
proof fn lemma_delivery_extended(
    cur: Seq<Seq<ByteState>>,
    new: Seq<Seq<ByteState>>,
    n: int,
    i: int,
    offset: int,
    sofar: Seq<u8>,
    data: Seq<u8>,
    local: int,
)
    requires
        0 <= i < n,
        0 <= offset,
        0 <= local,
        forall|k: int| 0 <= k < n && k != i ==> #[trigger] new[k] == cur[k],
        new[i].len() == cur[i].len(),
        forall|j: int| 0 <= j < sofar.len() ==> joined(cur, n)[offset + j] == ByteState::Known(#[trigger] sofar[j]),
        sofar.len() > 0 ==> offset + sofar.len() <= start_of(cur, i),
        offset + sofar.len() == start_of(cur, i) + local,
        local + data.len() <= new[i].len(),
        forall|d: int| 0 <= d < data.len() ==> new[i][local + d] == ByteState::Known(#[trigger] data[d]),
    ensures
        forall|j: int|
            0 <= j < (sofar + data).len() ==> joined(new, n)[offset + j] == ByteState::Known(
                #[trigger] (sofar + data)[j],
            ),
{
    assert forall|k: int| 0 <= k < n implies (#[trigger] new[k]).len() == cur[k].len() by {
        if k != i {
            assert(new[k] == cur[k]);
        }
    }
    lemma_starts_kept(new, cur, n);
    lemma_start_monotonic(cur, i, n);
    assert forall|j: int| 0 <= j < (sofar + data).len() implies joined(new, n)[offset + j] == ByteState::Known(
        #[trigger] (sofar + data)[j],
    ) by {
        if j < sofar.len() {
            let g = offset + j;
            let k = lemma_owner(cur, n, g);
            if k >= i {
                lemma_start_monotonic(cur, i, k);
            }
            assert(new[k] == cur[k]);
            assert(start_of(new, k) == start_of(cur, k));
            lemma_joined_index(new, n, k, g - start_of(cur, k));
            assert(joined(cur, n)[g] == ByteState::Known(sofar[j]));
        } else {
            let d = j - sofar.len();
            assert(start_of(new, i) == start_of(cur, i));
            lemma_joined_index(new, n, i, local + d);
            assert(new[i][local + d] == ByteState::Known(data[d]));
        }
    }
}

/// Where every byte of the joined stream from `from` up to the byte `local`
/// of part `i` is known, and part `i` is known from there up to a byte that
/// is lost, the joined stream is known from `from` up to that lost byte.
proof fn lemma_first_lost(parts: Seq<Seq<ByteState>>, n: int, i: int, from: int, local: int, l: int)
    requires
        0 <= i < n,
        0 <= local <= l < parts[i].len(),
        0 <= from <= start_of(parts, i) + local,
        known_between(joined(parts, n), from, start_of(parts, i) + local),
        known_between(parts[i], local, l),
    ensures
        0 <= start_of(parts, i) + l < joined(parts, n).len(),
        joined(parts, n)[start_of(parts, i) + l] == parts[i][l],
        known_between(joined(parts, n), from, start_of(parts, i) + l),
{
    lemma_joined_index(parts, n, i, l);
    assert forall|g: int| from <= g < start_of(parts, i) + l implies #[trigger] joined(parts, n)[g] is Known by {
        if g >= start_of(parts, i) + local {
            lemma_joined_index(parts, n, i, g - start_of(parts, i));
            assert(parts[i][g - start_of(parts, i)] is Known);
        }
    }
}

/// Where no byte of the joined stream between `lo` and `hi` is pending, no
/// byte of part `i` that lies there is pending.
proof fn lemma_part_not_pending(parts: Seq<Seq<ByteState>>, n: int, i: int, lo: int, hi: int)
    requires
        0 <= i < n,
        forall|g: int| lo <= g < hi ==> !(#[trigger] joined(parts, n)[g] is Pending),
    ensures
        forall|l: int|
            0 <= l < parts[i].len() && lo <= start_of(parts, i) + l < hi ==> !(#[trigger] parts[i][l] is Pending),
{
    assert forall|l: int| 0 <= l < parts[i].len() && lo <= start_of(parts, i) + l < hi implies !(
    #[trigger] parts[i][l] is Pending) by {
        lemma_joined_index(parts, n, i, l);
        assert(!(joined(parts, n)[start_of(parts, i) + l] is Pending));
    }
}

/// An ordered list of sources read as one stream, with a seek position.
///
/// The table of starting offsets is built once, from the lengths alone; no
/// content is produced until a read covers it.
pub struct Concat<S> {
    sources: Vec<S>,
    starts: Vec<u64>,
    position: u64,
}

impl<S: ReadSeek> Concat<S> {
    /// The sources, in order.
    pub closed spec fn sources(&self) -> Seq<S> {
        self.sources@
    }

    /// The seek position.
    pub closed spec fn position(&self) -> u64 {
        self.position
    }

    /// The byte states of each source, in order.
    pub open spec fn parts(&self) -> Seq<Seq<ByteState>> {
        parts_of(self.sources())
    }

    /// The offset at which source `i` starts.
    pub open spec fn start(&self, i: int) -> int {
        start_of(self.parts(), i)
    }

    /// The length of the stream: the lengths of all sources, summed.
    pub open spec fn total(&self) -> int {
        start_of(self.parts(), self.sources().len() as int)
    }

    /// Source `k` holds none of the bytes that a read of `count` bytes at
    /// `offset` covers.
    pub open spec fn untouched(&self, k: int, offset: u64, count: usize) -> bool {
        ||| self.start(k + 1) <= offset
        ||| window_end(self.total() as nat, offset, count) <= self.start(k)
        ||| window_len(self.total() as nat, offset, count) == 0
    }

    /// The part of a read of `count` bytes at `offset` that falls to source
    /// `k`: the offset inside the source and the number of bytes.
    pub open spec fn share(&self, k: int, offset: u64, count: usize) -> (u64, usize) {
        share_of(self.parts(), self.sources().len() as int, k, offset, count)
    }

    /// Stitches `sources` together, positioned at the start. Only the lengths
    /// of the sources are asked for. There is no such stream when the lengths
    /// together exceed what an offset can hold.
    pub fn new(sources: Vec<S>) -> (stream: Option<Concat<S>>)
        requires
            forall|k: int| 0 <= k < sources.len() ==> (#[trigger] sources[k]).wf(),
        ensures
            stream is Some <==> start_of(parts_of(sources@), sources.len() as int) <= u64::MAX,
            stream matches Some(c) ==> c.wf() && c.sources() == sources@ && c.position() == 0,
    {
        let ghost parts = parts_of(sources@);
        let n: usize = sources.len();
        let mut starts: Vec<u64> = Vec::new();
        let mut total: u64 = 0;
        starts.push(total);
        let mut i: usize = 0;
        while i < n
            invariant
                n == sources.len(),
                parts == parts_of(sources@),
                i <= n,
                starts.len() == i + 1,
                total == start_of(parts, i as int),
                forall|k: int| 0 <= k <= i ==> starts[k] == start_of(parts, k),
                forall|k: int| 0 <= k < sources.len() ==> (#[trigger] sources[k]).wf(),
            decreases n - i,
        {
            let length: u64 = sources[i].len();
            assert(parts[i as int].len() == length);
            match total.checked_add(length) {
                Some(sum) => {
                    total = sum;
                    starts.push(sum);
                },
                None => {
                    proof {
                        lemma_start_monotonic(parts, i + 1, n as int);
                    }
                    return None;
                },
            }
            i += 1;
        }
        Some(Concat { sources, starts, position: 0 })
    }

    /// The index of the source that holds the byte at `offset`.
    fn owner(&self, offset: u64) -> (i: usize)
        requires
            self.wf(),
            offset < self.total(),
        ensures
            i < self.sources().len(),
            self.start(i as int) <= offset < self.start(i + 1),
    {
        let mut lo: usize = 0;
        let mut hi: usize = self.sources.len();
        while hi - lo > 1
            invariant
                self.wf(),
                lo < hi <= self.sources.len(),
                self.starts[lo as int] <= offset < self.starts[hi as int],
            decreases hi - lo,
        {
            let mid: usize = lo + (hi - lo) / 2;
            if self.starts[mid] <= offset {
                lo = mid;
            } else {
                hi = mid;
            }
        }
        lo
    }

    /// Finds the source that holds the byte at `offset`, and the offset of
    /// that byte inside the source. Past the last byte there is none.
    pub fn locate(&self, offset: u64) -> (place: Option<(usize, u64)>)
        requires
            self.wf(),
        ensures
            match place {
                Some((i, local)) => i < self.sources().len() && self.start(i as int) <= offset < self.start(
                    i + 1,
                ) && local == offset - self.start(i as int),
                None => offset >= self.total(),
            },
    {
        proof {
            lemma_joined_len(self.parts(), self.sources().len() as int);
        }
        if offset < self.len() {
            let i: usize = self.owner(offset);
            Some((i, offset - self.starts[i]))
        } else {
            None
        }
    }

    /// The seek position.
    pub fn tell(&self) -> (at: u64)
        ensures
            at == self.position(),
    {
        self.position
    }

    /// Source `i`, if there is one.
    pub fn source(&self, i: usize) -> (s: Option<&S>)
        ensures
            match s {
                Some(s) => i < self.sources().len() && *s == self.sources()[i as int],
                None => i >= self.sources().len(),
            },
    {
        if i < self.sources.len() {
            Some(&self.sources[i])
        } else {
            None
        }
    }

    /// Reads up to `count` bytes at the seek position and moves the position
    /// past the bytes read. A failed read leaves the position where it was.
    /// At the end of the stream the read is empty.
    pub fn read(&mut self, count: usize) -> (r: Result<Vec<u8>, SourceError>)
        requires
            old(self).wf(),
        ensures
            final(self).wf(),
            final(self).follows(*old(self), old(self).position(), count),
            final(self).sources().len() == old(self).sources().len(),
            settled_kept(old(self).bytes(), final(self).bytes()),
            none_pending(old(self).bytes(), old(self).position(), count) ==> final(self).bytes() == old(self).bytes(),
            forall|k: int|
                0 <= k < old(self).sources().len() && old(self).untouched(k, old(self).position(), count)
                    ==> #[trigger] final(self).sources()[k] == old(self).sources()[k],
            match r {
                Ok(data) => delivered(final(self).bytes(), old(self).position(), count, data@)
                    && final(self).position() == old(self).position() + data@.len(),
                Err(e) => fails_with(final(self).bytes(), old(self).position(), count, e)
                    && final(self).position() == old(self).position(),
            },
    {
        let at: u64 = self.position;
        let r = self.read_at(at, count);
        match r {
            Ok(data) => {
                proof {
                    self.lemma_len_fits();
                }
                self.position = at + data.len() as u64;
                Ok(data)
            },
            Err(e) => Err(e),
        }
    }

    /// Moves the seek position to `offset`, which may lie past the end.
    /// No source is touched.
    pub fn seek(&mut self, offset: u64)
        ensures
            final(self).position() == offset,
            final(self).sources() == old(self).sources(),
            final(self).wf() == old(self).wf(),
    {
        self.position = offset;
    }
}

impl<S: ReadSeek> ReadSeek for Concat<S> {
    closed spec fn wf(&self) -> bool {
        &&& self.starts.len() == self.sources.len() + 1
        &&& forall|i: int| 0 <= i <= self.sources.len() ==> #[trigger] self.starts[i] == start_of(self.parts(), i)
        &&& forall|k: int| 0 <= k < self.sources.len() ==> (#[trigger] self.sources[k]).wf()
    }

    open spec fn bytes(&self) -> Seq<ByteState> {
        joined(self.parts(), self.sources().len() as int)
    }

    /// The sources are as many as before. A source that holds none of the
    /// bytes read is exactly as it was. Every other source either underwent
    /// its share of the read, or, where the read failed before reaching it,
    /// is exactly as it was.
    open spec fn follows(&self, before: Self, offset: u64, count: usize) -> bool {
        &&& self.sources().len() == before.sources().len()
        &&& forall|k: int|
            0 <= k < before.sources().len() ==> #[trigger] self.sources()[k] == before.sources()[k] || (
            !before.untouched(k, offset, count) && self.sources()[k].follows(
                before.sources()[k],
                before.share(k, offset, count).0,
                before.share(k, offset, count).1,
            ))
    }

    proof fn lemma_len_fits(&self) {
        lemma_joined_len(self.parts(), self.sources().len() as int);
        assert(self.starts[self.sources.len() as int] == self.total());
    }

    fn len(&self) -> (n: u64) {
        proof {
            lemma_joined_len(self.parts(), self.sources().len() as int);
        }
        self.starts[self.sources.len()]
    }

    /// The read goes through the sources that hold the bytes it covers, in
    /// order, and stops at the first that fails. Every other source is left
    /// exactly as it was: no content is produced outside the bytes read.
    #[verifier::rlimit(50)]
    fn read_at(&mut self, offset: u64, count: usize) -> (r: Result<Vec<u8>, SourceError>)
        ensures
            final(self).sources().len() == old(self).sources().len(),
            final(self).position() == old(self).position(),
            forall|k: int|
                0 <= k < old(self).sources().len() && old(self).untouched(k, offset, count)
                    ==> #[trigger] final(self).sources()[k] == old(self).sources()[k],
    {
        let n: usize = self.sources.len();
        let ghost before = self.sources@;
        let ghost parts0 = parts_of(before);
        proof {
            lemma_joined_len(parts0, n as int);
        }
        let take: usize = clip(self.len(), offset, count);
        if take == 0 {
            return Ok(Vec::new());
        }
        let end: u64 = offset + take as u64;
        let mut i: usize = self.owner(offset);
        let mut pos: u64 = offset;
        let mut out: Vec<u8> = Vec::new();
        while pos < end
            invariant
                before == old(self).sources@,
                n == before.len() == self.sources@.len(),
                parts0 == parts_of(before),
                self.starts.len() == n + 1,
                self.position == old(self).position,
                forall|k: int| 0 <= k <= n ==> #[trigger] self.starts[k] == start_of(parts0, k),
                forall|k: int| 0 <= k < n ==> (#[trigger] self.sources[k]).wf(),
                forall|k: int| 0 <= k < n ==> settled_kept(#[trigger] parts0[k], parts_of(self.sources@)[k]),
                forall|k: int|
                    0 <= k < n && (start_of(parts0, k + 1) <= offset || end <= start_of(parts0, k))
                        ==> #[trigger] self.sources@[k] == before[k],
                forall|k: int| i <= k < n ==> #[trigger] self.sources@[k] == before[k],
                forall|k: int|
                    0 <= k < n ==> #[trigger] self.sources@[k] == before[k] || (!(start_of(parts0, k + 1) <= offset
                        || end <= start_of(parts0, k)) && self.sources@[k].follows(
                        before[k],
                        share_of(parts0, n as int, k, offset, count).0,
                        share_of(parts0, n as int, k, offset, count).1,
                    )),
                none_pending(joined(parts0, n as int), offset, count) ==> parts_of(self.sources@) =~= parts0,
                joined(parts0, n as int).len() == start_of(parts0, n as int),
                end == window_end(start_of(parts0, n as int) as nat, offset, count),
                offset <= pos <= end <= start_of(parts0, n as int),
                out@.len() == pos - offset,
                i <= n,
                pos < end ==> i < n && self.starts[i as int] <= pos,
                out@.len() > 0 ==> pos <= self.starts[i as int],
                forall|j: int|
                    0 <= j < out@.len() ==> joined(parts_of(self.sources@), n as int)[offset + j] == ByteState::Known(
                        #[trigger] out@[j],
                    ),
            decreases n - i,
        {
            let next: u64 = self.starts[i + 1];
            if next > pos {
                let stop: u64 = if next < end {
                    next
                } else {
                    end
                };
                let want: usize = (stop - pos) as usize;
                let base: u64 = self.starts[i];
                let local: u64 = pos - base;
                let ghost cur = self.sources@;
                let ghost curp = parts_of(cur);
                proof {
                    assert(settled_kept(parts0[i as int], curp[i as int]));
                    assert(curp[i as int].len() == next - base);
                    assert(window_end(curp[i as int].len(), local, want) == local + want);
                    if none_pending(joined(parts0, n as int), offset, count) {
                        lemma_part_not_pending(parts0, n as int, i as int, offset as int, end as int);
                        assert(curp[i as int] == parts0[i as int]);
                        assert(none_pending(curp[i as int], local, want));
                    }
                }
                assert(cur[i as int] == before[i as int]);
                assert(share_of(parts0, n as int, i as int, offset, count) == (local, want));
                let r = self.sources[i].read_at(local, want);
                let ghost newp = parts_of(self.sources@);
                proof {
                    assert(self.sources@ == cur.update(i as int, self.sources@[i as int]));
                    assert(self.sources@[i as int].follows(before[i as int], local, want));
                    assert forall|k: int| 0 <= k < n implies #[trigger] self.sources@[k] == before[k] || (!(
                    start_of(parts0, k + 1) <= offset || end <= start_of(parts0, k)) && self.sources@[k].follows(
                        before[k],
                        share_of(parts0, n as int, k, offset, count).0,
                        share_of(parts0, n as int, k, offset, count).1,
                    )) by {
                        if k != i {
                            assert(self.sources@[k] == cur[k]);
                        }
                    }
                    assert(settled_kept(curp[i as int], newp[i as int]));
                    lemma_part_replaced(parts0, curp, newp, n as int, i as int);
                    if none_pending(joined(parts0, n as int), offset, count) {
                        assert(newp =~= parts0);
                    }
                }
                match r {
                    Err(e) => {
                        proof {
                            let l = choose|l: int|
                                local <= l < window_end(newp[i as int].len(), local, want) && (
                                #[trigger] newp[i as int][l]) == ByteState::Lost(e) && known_between(
                                    newp[i as int],
                                    local as int,
                                    l,
                                );
                            lemma_delivery_extended(
                                curp,
                                newp,
                                n as int,
                                i as int,
                                offset as int,
                                out@,
                                Seq::empty(),
                                local as int,
                            );
                            assert(out@ + Seq::<u8>::empty() =~= out@);
                            assert forall|g: int| offset <= g < pos implies #[trigger] joined(newp, n as int)[g]
                                is Known by {
                                assert(joined(newp, n as int)[offset + (g - offset)] == ByteState::Known(
                                    out@[g - offset],
                                ));
                            }
                            lemma_first_lost(newp, n as int, i as int, offset as int, local as int, l);
                            lemma_joined_settled(parts0, newp, n as int);
                            lemma_joined_len(newp, n as int);
                            assert(base + l < end);
                            assert(joined(newp, n as int)[base + l] == ByteState::Lost(e));
                            assert(fails_with(joined(newp, n as int), offset, count, e));
                        }
                        return Err(e);
                    },
                    Ok(chunk) => {
                        let mut chunk = chunk;
                        let ghost data = chunk@;
                        let ghost sofar = out@;
                        out.append(&mut chunk);
                        proof {
                            assert(data.len() == want);
                            assert(out@ == sofar + data);
                            lemma_delivery_extended(
                                curp,
                                newp,
                                n as int,
                                i as int,
                                offset as int,
                                sofar,
                                data,
                                local as int,
                            );
                        }
                        pos = stop;
                    },
                }
            }
            i += 1;
        }
        proof {
            let newp = parts_of(self.sources@);
            lemma_joined_settled(parts0, newp, n as int);
            lemma_joined_len(newp, n as int);
            assert forall|k: int| 0 <= k < n implies (#[trigger] newp[k]).len() == parts0[k].len() by {
                assert(settled_kept(parts0[k], newp[k]));
            }
            lemma_starts_kept(newp, parts0, n as int);
        }
        Ok(out)
    }
}


/// The length of a stream is the sum of the lengths of its sources.
pub proof fn lemma_total_is_sum<S: ReadSeek>(stream: Concat<S>)
    requires
        stream.wf(),
    ensures
        stream.bytes().len() == stream.total(),
        stream.total() == start_of(parts_of(stream.sources()), stream.sources().len() as int),
{
    lemma_joined_len(stream.parts(), stream.sources().len() as int);
}

/// What a read of a whole stream delivers is the content of the sources,
/// one after the other.
pub proof fn lemma_full_read_is_concatenation(parts: Seq<Seq<ByteState>>, count: usize, data: Seq<u8>)
    requires
        start_of(parts, parts.len() as int) <= count,
        delivered(joined(parts, parts.len() as int), 0, count, data),
    ensures
        data.len() == start_of(parts, parts.len() as int),
        data == joined_values(parts, parts.len() as int),
{
    let n = parts.len() as int;
    lemma_joined_len(parts, n);
    lemma_joined_values(parts, n);
    assert(data =~= values_of(joined(parts, n)));
}

/// A read that ends where source `k` starts, or before, covers no byte of
/// source `k` nor of any source after it.
pub proof fn lemma_reads_before_leave_untouched<S: ReadSeek>(
    stream: Concat<S>,
    k: int,
    later: int,
    offset: u64,
    count: usize,
)
    requires
        0 <= k <= later,
        offset + count <= stream.start(k),
    ensures
        stream.untouched(later, offset, count),
{
    lemma_start_monotonic(stream.parts(), k, later);
}

} // verus!
