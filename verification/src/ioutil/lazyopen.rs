//! A source whose content is produced when a read first needs it.
use vstd::prelude::*;
use crate::ioutil::readseek::{ByteState, ReadSeek, SourceError, clip, copy_range, known, window_end, window_len};

verus! {

/// Where a deferred source stands.
pub enum LazyState<F> {
    /// The producer has not been asked yet.
    Untriggered(F),
    /// The producer was asked and has not answered.
    Triggering,
    /// The producer delivered this content.
    Produced(Vec<u8>),
    /// Producing the content failed for this reason.
    Failed(SourceError),
}

/// A source of announced length whose content comes from a producer that is
/// asked at most once, by the first read that covers one of its bytes.
pub struct LazyOpen<F> {
    length: u64,
    state: LazyState<F>,
}

/// The state that a source of `length` bytes takes when its producer answers `outcome`.
pub open spec fn settled<F>(length: u64, outcome: Result<Vec<u8>, String>) -> LazyState<F> {
    match outcome {
        Ok(content) => if content@.len() == length {
            LazyState::Produced(content)
        } else {
            LazyState::Failed(SourceError::LengthMismatch)
        },
        Err(detail) => LazyState::Failed(SourceError::Producer(detail)),
    }
}

/// What a read of `count` bytes at `offset` returns from a source of
/// `length` bytes that is in `state` once the read is over.
pub open spec fn outcome_of<F>(state: LazyState<F>, length: u64, offset: u64, count: usize) -> Result<
    Seq<u8>,
    SourceError,
> {
    if window_len(length as nat, offset, count) == 0 {
        Ok(Seq::empty())
    } else {
        match state {
            LazyState::Untriggered(_) => Err(SourceError::InProgress),
            LazyState::Triggering => Err(SourceError::InProgress),
            LazyState::Produced(content) => Ok(
                content@.subrange(offset as int, window_end(length as nat, offset, count)),
            ),
            LazyState::Failed(e) => Err(e),
        }
    }
}

impl<F: FnOnce() -> Result<Vec<u8>, String>> LazyOpen<F> {
    /// The announced length.
    pub closed spec fn length(&self) -> u64 {
        self.length
    }

    /// The current state.
    pub closed spec fn state(&self) -> LazyState<F> {
        self.state
    }

    /// A source of `length` bytes whose content `producer` will deliver.
    pub fn new(length: u64, producer: F) -> (lazy: LazyOpen<F>)
        requires
            call_requires(producer, ()),
        ensures
            lazy.wf(),
            lazy.length() == length,
            lazy.state() == LazyState::Untriggered(producer),
    {
        LazyOpen { length, state: LazyState::Untriggered(producer) }
    }

    /// Whether the producer has not been asked yet.
    pub fn is_untriggered(&self) -> (b: bool)
        ensures
            b == (self.state() is Untriggered),
    {
        match &self.state {
            LazyState::Untriggered(_) => true,
            _ => false,
        }
    }

    /// Takes the producer out and marks the source as being produced. A
    /// source that was not waiting for its producer is left alone.
    pub fn begin(&mut self) -> (producer: Option<F>)
        requires
            old(self).wf(),
        ensures
            final(self).wf(),
            final(self).length() == old(self).length(),
            match old(self).state() {
                LazyState::Untriggered(f) => producer == Some(f) && call_requires(f, ())
                    && final(self).state() == LazyState::<F>::Triggering,
                _ => producer is None && final(self).state() == old(self).state(),
            },
    {
        let mut state = LazyState::Triggering;
        std::mem::swap(&mut self.state, &mut state);
        match state {
            LazyState::Untriggered(f) => Some(f),
            other => {
                self.state = other;
                None
            },
        }
    }

    /// Records what the producer answered. Content of the announced length
    /// becomes resident; anything else is a failure that later reads report
    /// again. A source that was not being produced is left alone: an answer
    /// that arrives for it is dropped.
    pub fn settle(&mut self, outcome: Result<Vec<u8>, String>)
        requires
            old(self).wf(),
        ensures
            final(self).wf(),
            final(self).length() == old(self).length(),
            final(self).state() == if old(self).state() is Triggering {
                settled::<F>(old(self).length(), outcome)
            } else {
                old(self).state()
            },
    {
        match &self.state {
            LazyState::Triggering => {},
            _ => {
                return ;
            },
        }
        match outcome {
            Ok(content) => {
                if content.len() as u64 == self.length {
                    self.state = LazyState::Produced(content);
                } else {
                    self.state = LazyState::Failed(SourceError::LengthMismatch);
                }
            },
            Err(detail) => {
                self.state = LazyState::Failed(SourceError::Producer(detail));
            },
        }
    }
}

impl<F: FnOnce() -> Result<Vec<u8>, String>> ReadSeek for LazyOpen<F> {
    open spec fn wf(&self) -> bool {
        match self.state() {
            LazyState::Untriggered(f) => call_requires(f, ()),
            LazyState::Produced(content) => content@.len() == self.length(),
            _ => true,
        }
    }

    /// Before the producer is asked every byte is pending; once it has
    /// delivered every byte is known; after a failure every byte is lost
    /// for the reason of the failure, and while the producer is at work
    /// every byte is lost because it has not arrived.
    open spec fn bytes(&self) -> Seq<ByteState> {
        match self.state() {
            LazyState::Untriggered(_) => Seq::new(self.length() as nat, |i: int| ByteState::Pending),
            LazyState::Triggering => Seq::new(
                self.length() as nat,
                |i: int| ByteState::Lost(SourceError::InProgress),
            ),
            LazyState::Produced(content) => known(content@),
            LazyState::Failed(e) => Seq::new(self.length() as nat, |i: int| ByteState::Lost(e)),
        }
    }

    /// The length stays. A source that was untriggered stays so under a
    /// read that covers none of its bytes; under any other read its producer
    /// is asked, and the source takes the state that the answer settles. A
    /// source that was triggered before stays exactly as it was.
    open spec fn follows(&self, before: Self, offset: u64, count: usize) -> bool {
        &&& self.length() == before.length()
        &&& match before.state() {
            LazyState::Untriggered(f) => if window_len(before.length() as nat, offset, count) == 0 {
                self.state() == before.state()
            } else {
                exists|outcome: Result<Vec<u8>, String>|
                    call_ensures(f, (), outcome) && self.state() == settled::<F>(before.length(), outcome)
            },
            _ => self.state() == before.state(),
        }
    }

    proof fn lemma_len_fits(&self) {
    }

    fn len(&self) -> (n: u64) {
        self.length
    }

    /// The result is read off the state that the read leaves.
    fn read_at(&mut self, offset: u64, count: usize) -> (r: Result<Vec<u8>, SourceError>)
        ensures
            match r {
                Ok(data) => outcome_of(final(self).state(), old(self).length(), offset, count) == Ok::<
                    Seq<u8>,
                    SourceError,
                >(data@),
                Err(e) => outcome_of(final(self).state(), old(self).length(), offset, count) == Err::<
                    Seq<u8>,
                    SourceError,
                >(e),
            },
    {
        let n: usize = clip(self.length, offset, count);
        if n == 0 {
            return Ok(Vec::new());
        }
        assert(offset < self.length && offset + n <= self.length);
        assert(old(self).state() is Untriggered ==> old(self).bytes()[offset as int] is Pending);
        match self.begin() {
            Some(producer) => {
                let outcome = producer();
                self.settle(outcome);
            },
            None => {},
        }
        match &self.state {
            LazyState::Produced(content) => {
                assert(content@.len() == self.length && content.len() == content@.len());
                let start: usize = offset as usize;
                let data = copy_range(content, start, start + n);
                assert(data@ == content@.subrange(
                    offset as int,
                    window_end(self.length as nat, offset, count),
                ));
                Ok(data)
            },
            LazyState::Failed(e) => {
                assert(self.bytes()[offset as int] == ByteState::Lost(*e));
                Err(e.duplicate())
            },
            _ => {
                assert(self.bytes()[offset as int] == ByteState::Lost(SourceError::InProgress));
                Err(SourceError::InProgress)
            },
        }
    }
}

} // verus!
