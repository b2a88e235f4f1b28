//! A source that hides a prefix of another source.
use vstd::prelude::*;
use crate::ioutil::readseek::{
    ByteState,
    ReadSeek,
    SourceError,
    clip,
    known_between,
    none_pending,
    window_end,
    window_len,
};

verus! {

/// The bytes of an inner source from a fixed offset on. Nothing is copied and
/// the hidden prefix is never read.
pub struct Skip<S> {
    inner: S,
    skip: u64,
}

impl<S: ReadSeek> Skip<S> {
    /// The wrapped source.
    pub closed spec fn inner(&self) -> S {
        self.inner
    }

    /// The number of hidden bytes.
    pub closed spec fn skipped(&self) -> u64 {
        self.skip
    }

    /// Hides the first `skip` bytes of `inner`. There is no such source when
    /// `inner` is shorter than `skip`.
    pub fn new(inner: S, skip: u64) -> (wrapped: Option<Skip<S>>)
        requires
            inner.wf(),
        ensures
            match wrapped {
                Some(s) => s.wf() && s.inner() == inner && s.skipped() == skip,
                None => skip > inner.bytes().len(),
            },
            wrapped is Some <==> skip <= inner.bytes().len(),
    {
        if skip <= inner.len() {
            Some(Skip { inner, skip })
        } else {
            None
        }
    }

    /// Gives the wrapped source back.
    pub fn into_inner(self) -> (inner: S)
        ensures
            inner == self.inner(),
    {
        self.inner
    }
}

impl<S: ReadSeek> ReadSeek for Skip<S> {
    closed spec fn wf(&self) -> bool {
        self.inner.wf() && self.skip <= self.inner.bytes().len()
    }

    closed spec fn bytes(&self) -> Seq<ByteState> {
        self.inner.bytes().skip(self.skip as int)
    }

    /// The number of hidden bytes stays. A read that covers no byte leaves
    /// the wrapped source exactly as it was; any other read is that read of
    /// the wrapped source, moved past the hidden bytes.
    open spec fn follows(&self, before: Self, offset: u64, count: usize) -> bool {
        &&& self.skipped() == before.skipped()
        &&& if window_len(before.bytes().len(), offset, count) == 0 {
            self.inner() == before.inner()
        } else {
            self.inner().follows(before.inner(), (offset + before.skipped()) as u64, count)
        }
    }

    proof fn lemma_len_fits(&self) {
        self.inner.lemma_len_fits();
    }

    fn len(&self) -> (n: u64) {
        self.inner.len() - self.skip
    }

    /// The read is handed to the wrapped source with the offset moved past
    /// the hidden bytes; a read that covers no byte does not reach it.
    fn read_at(&mut self, offset: u64, count: usize) -> (r: Result<Vec<u8>, SourceError>) {
        let n: usize = clip(self.len(), offset, count);
        if n == 0 {
            return Ok(Vec::new());
        }
        proof {
            self.inner.lemma_len_fits();
        }
        let ghost before = self.inner.bytes();
        let k: u64 = self.skip;
        let r = self.inner.read_at(offset + k, count);
        proof {
            let after = self.inner.bytes();
            assert(self.inner.bytes().skip(k as int).len() == before.len() - k);
            assert forall|i: int| 0 <= i < before.len() - k && !(before.skip(k as int)[i] is Pending) implies (
            #[trigger] after.skip(k as int)[i]) == before.skip(k as int)[i] by {
                assert(after[i + k] == before[i + k]);
            }
            match &r {
                Ok(data) => {
                    assert forall|j: int| 0 <= j < data@.len() implies after.skip(k as int)[offset + j]
                        == ByteState::Known(#[trigger] data@[j]) by {
                        assert(after[(offset + k) + j] == ByteState::Known(data@[j]));
                    }
                },
                Err(e) => {
                    let i = choose|i: int|
                        offset + k <= i < window_end(after.len(), (offset + k) as u64, count)
                            && #[trigger] after[i] == ByteState::Lost(*e) && known_between(
                            after,
                            offset + k,
                            i,
                        );
                    assert(after.skip(k as int)[i - k] == ByteState::Lost(*e));
                    assert forall|j: int| offset <= j < i - k implies #[trigger] after.skip(k as int)[j]
                        is Known by {
                        assert(after[j + k] is Known);
                    }
                },
            }
            if none_pending(before.skip(k as int), offset, count) {
                assert forall|i: int|
                    offset + k <= i < window_end(before.len(), (offset + k) as u64, count)
                    implies !(#[trigger] before[i] is Pending) by {
                    assert(before.skip(k as int)[i - k] == before[i]);
                }
            }
        }
        r
    }
}

/// A source that hides `k` bytes of a source of `L` bytes has `L - k` bytes,
/// and its byte at offset `i` is the wrapped source's byte at offset `k + i`.
pub proof fn lemma_skip_shifts<S: ReadSeek>(s: Skip<S>, i: int)
    requires
        s.wf(),
    ensures
        s.inner().wf(),
        s.skipped() <= s.inner().bytes().len(),
        s.bytes().len() == s.inner().bytes().len() - s.skipped(),
        0 <= i < s.bytes().len() ==> s.bytes()[i] == s.inner().bytes()[s.skipped() + i],
{
}

} // verus!
