use soundcloud_fs::ioutil::{zeros, Concat, LazyOpen, ReadSeek, Skip, Source, SourceError};
use std::cell::Cell;
use std::rc::Rc;

type Producer = Box<dyn FnOnce() -> Result<Vec<u8>, String>>;

fn audio_byte(i: usize) -> u8 {
    (i % 251) as u8
}

fn audio(len: usize) -> Vec<u8> {
    (0..len).map(audio_byte).collect()
}

fn counted(calls: &Rc<Cell<u32>>, outcome: Result<Vec<u8>, String>) -> Producer {
    let seen = calls.clone();
    Box::new(move || {
        seen.set(seen.get() + 1);
        outcome
    })
}

fn track_like(calls: &Rc<Cell<u32>>) -> Concat<Source<Producer>> {
    let parts: Vec<Source<Producer>> = vec![
        Source::Buffer(vec![1, 2, 3, 4, 5, 6, 7, 8, 9, 10]),
        zeros(1_000_000),
        Source::Lazy(LazyOpen::new(5_000_000, counted(calls, Ok(audio(5_000_000))))),
    ];
    Concat::new(parts).unwrap()
}

#[test]
fn total_length_is_sum_of_lengths() {
    let calls = Rc::new(Cell::new(0u32));
    let stream = track_like(&calls);
    assert_eq!(stream.len(), 10 + 1_000_000 + 5_000_000);
    assert_eq!(calls.get(), 0);
}

#[test]
fn reading_the_buffer_does_not_trigger_the_audio() {
    let calls = Rc::new(Cell::new(0u32));
    let mut stream = track_like(&calls);
    let head = stream.read_at(0, 10).unwrap();
    assert_eq!(head, vec![1u8, 2, 3, 4, 5, 6, 7, 8, 9, 10]);
    assert_eq!(calls.get(), 0);
    match stream.source(2) {
        Some(Source::Lazy(lazy)) => assert!(lazy.is_untriggered()),
        _ => panic!("third source is the audio"),
    }
}

#[test]
fn reading_inside_the_padding_does_not_trigger_the_audio() {
    let calls = Rc::new(Cell::new(0u32));
    let mut stream = track_like(&calls);
    let pad = stream.read_at(5, 4096).unwrap();
    assert_eq!(pad.len(), 4096);
    assert_eq!(&pad[..5], &[6u8, 7, 8, 9, 10]);
    assert!(pad[5..].iter().all(|b| *b == 0));
    let last = stream.read_at(1_000_000, 10).unwrap();
    assert_eq!(last, vec![0u8; 10]);
    assert_eq!(calls.get(), 0);
}

#[test]
fn reading_across_the_padding_end_triggers_the_audio_once() {
    let calls = Rc::new(Cell::new(0u32));
    let mut stream = track_like(&calls);
    // The audio starts at offset 1_000_010.
    let data = stream.read_at(1_000_005, 10).unwrap();
    assert_eq!(calls.get(), 1);
    let mut expected: Vec<u8> = vec![0u8; 5];
    expected.extend((0..5).map(audio_byte));
    assert_eq!(data, expected);

    let data = stream.read_at(1_000_015, 10).unwrap();
    let expected: Vec<u8> = (5..15).map(audio_byte).collect();
    assert_eq!(data, expected);
    assert_eq!(calls.get(), 1);
    match stream.source(2) {
        Some(Source::Lazy(lazy)) => assert!(!lazy.is_untriggered()),
        _ => panic!("third source is the audio"),
    }
}

#[test]
fn full_read_is_the_concatenation() {
    let calls = Rc::new(Cell::new(0u32));
    let parts: Vec<Source<Producer>> = vec![
        Source::Buffer(vec![7, 8, 9]),
        zeros(4),
        Source::Buffer(vec![]),
        Source::Lazy(LazyOpen::new(5, counted(&calls, Ok(vec![20, 21, 22, 23, 24])))),
        Source::Buffer(vec![99]),
    ];
    let mut stream = Concat::new(parts).unwrap();
    assert_eq!(stream.len(), 13);
    let all = stream.read_at(0, 13).unwrap();
    assert_eq!(all, vec![7u8, 8, 9, 0, 0, 0, 0, 20, 21, 22, 23, 24, 99]);
    let more = stream.read_at(0, 1000).unwrap();
    assert_eq!(more, all);
    assert_eq!(calls.get(), 1);
}

#[test]
fn read_is_short_only_at_the_end() {
    let parts: Vec<Source<Producer>> = vec![Source::Buffer(vec![1, 2, 3]), zeros(2)];
    let mut stream = Concat::new(parts).unwrap();
    assert_eq!(stream.read_at(1, 3).unwrap(), vec![2u8, 3, 0]);
    assert_eq!(stream.read_at(4, 3).unwrap(), vec![0u8]);
    assert_eq!(stream.read_at(5, 3).unwrap(), Vec::<u8>::new());
    assert_eq!(stream.read_at(600, 3).unwrap(), Vec::<u8>::new());
    assert_eq!(stream.read_at(0, 0).unwrap(), Vec::<u8>::new());
}

#[test]
fn empty_stream_reads_empty() {
    let parts: Vec<Source<Producer>> = Vec::new();
    let mut stream = Concat::new(parts).unwrap();
    assert_eq!(stream.len(), 0);
    assert_eq!(stream.read_at(0, 10).unwrap(), Vec::<u8>::new());
    assert_eq!(stream.locate(0), None);
}

#[test]
fn locate_finds_the_owning_source() {
    let parts: Vec<Source<Producer>> =
        vec![Source::Buffer(vec![1, 2, 3]), Source::Buffer(vec![]), zeros(4), Source::Buffer(vec![5])];
    let stream = Concat::new(parts).unwrap();
    assert_eq!(stream.locate(0), Some((0, 0)));
    assert_eq!(stream.locate(2), Some((0, 2)));
    assert_eq!(stream.locate(3), Some((2, 0)));
    assert_eq!(stream.locate(6), Some((2, 3)));
    assert_eq!(stream.locate(7), Some((3, 0)));
    assert_eq!(stream.locate(8), None);
}

#[test]
fn lengths_that_overflow_give_no_stream() {
    let parts: Vec<Source<Producer>> = vec![zeros(u64::MAX), zeros(1)];
    assert!(Concat::new(parts).is_none());
    let parts: Vec<Source<Producer>> = vec![zeros(u64::MAX - 1), zeros(1)];
    assert!(Concat::new(parts).is_some());
}

#[test]
fn seek_and_read_move_the_position() {
    let parts: Vec<Source<Producer>> = vec![Source::Buffer(vec![1, 2, 3]), Source::Buffer(vec![4, 5])];
    let mut stream = Concat::new(parts).unwrap();
    assert_eq!(stream.tell(), 0);
    assert_eq!(stream.read(2).unwrap(), vec![1u8, 2]);
    assert_eq!(stream.tell(), 2);
    assert_eq!(stream.read(2).unwrap(), vec![3u8, 4]);
    assert_eq!(stream.read(2).unwrap(), vec![5u8]);
    assert_eq!(stream.tell(), 5);
    assert_eq!(stream.read(2).unwrap(), Vec::<u8>::new());
    stream.seek(1);
    assert_eq!(stream.read(1).unwrap(), vec![2u8]);
    stream.seek(77);
    assert_eq!(stream.read(1).unwrap(), Vec::<u8>::new());
    assert_eq!(stream.tell(), 77);
}

#[test]
fn producer_failure_is_reported_and_not_retried() {
    let calls = Rc::new(Cell::new(0u32));
    let parts: Vec<Source<Producer>> = vec![
        Source::Buffer(vec![1, 2]),
        Source::Lazy(LazyOpen::new(4, counted(&calls, Err("gone".to_string())))),
    ];
    let mut stream = Concat::new(parts).unwrap();
    assert_eq!(stream.read_at(0, 2).unwrap(), vec![1u8, 2]);
    assert_eq!(calls.get(), 0);
    assert_eq!(stream.read_at(1, 2), Err(SourceError::Producer("gone".to_string())));
    assert_eq!(calls.get(), 1);
    assert_eq!(stream.read_at(3, 1), Err(SourceError::Producer("gone".to_string())));
    assert_eq!(calls.get(), 1);
    assert_eq!(stream.read_at(0, 2).unwrap(), vec![1u8, 2]);
    stream.seek(1);
    assert!(stream.read(5).is_err());
    assert_eq!(stream.tell(), 1);
}

#[test]
fn content_of_the_wrong_length_is_a_failure() {
    let calls = Rc::new(Cell::new(0u32));
    let mut lazy = LazyOpen::new(4, counted(&calls, Ok(vec![1, 2, 3])));
    assert_eq!(lazy.len(), 4);
    assert_eq!(lazy.read_at(4, 1).unwrap(), Vec::<u8>::new());
    assert_eq!(calls.get(), 0);
    assert_eq!(lazy.read_at(0, 1), Err(SourceError::LengthMismatch));
    assert_eq!(lazy.read_at(0, 1), Err(SourceError::LengthMismatch));
    assert_eq!(calls.get(), 1);
}

#[test]
fn deferred_source_state_machine() {
    let calls = Rc::new(Cell::new(0u32));
    let mut lazy = LazyOpen::new(3, counted(&calls, Ok(vec![9, 9, 9])));
    assert!(lazy.is_untriggered());
    let producer = lazy.begin();
    assert!(producer.is_some());
    assert!(!lazy.is_untriggered());
    assert!(lazy.begin().is_none());
    assert_eq!(lazy.read_at(0, 3), Err(SourceError::InProgress));
    lazy.settle(Ok(vec![4, 5, 6]));
    assert_eq!(lazy.read_at(0, 3).unwrap(), vec![4u8, 5, 6]);
    lazy.settle(Ok(vec![7, 8, 9]));
    assert_eq!(lazy.read_at(1, 3).unwrap(), vec![5u8, 6]);
    assert_eq!(calls.get(), 0);
}

#[test]
fn skip_reports_shorter_length_and_shifted_bytes() {
    let inner: Source<Producer> = Source::Buffer(vec![10, 11, 12, 13, 14]);
    let mut s = Skip::new(inner, 2).unwrap();
    assert_eq!(s.len(), 3);
    assert_eq!(s.read_at(0, 1).unwrap(), vec![12u8]);
    assert_eq!(s.read_at(1, 10).unwrap(), vec![13u8, 14]);
    assert_eq!(s.read_at(3, 1).unwrap(), Vec::<u8>::new());
    let inner = s.into_inner();
    assert_eq!(inner.len(), 5);
}

#[test]
fn skip_of_everything_is_empty_and_more_is_refused() {
    let inner: Source<Producer> = zeros(5);
    let mut s = Skip::new(inner, 5).unwrap();
    assert_eq!(s.len(), 0);
    assert_eq!(s.read_at(0, 4).unwrap(), Vec::<u8>::new());
    let inner: Source<Producer> = zeros(5);
    assert!(Skip::new(inner, 6).is_none());
}

#[test]
fn skip_over_deferred_source_is_lazy() {
    let calls = Rc::new(Cell::new(0u32));
    let inner: Source<Producer> = Source::Lazy(LazyOpen::new(6, counted(&calls, Ok(vec![0, 1, 2, 3, 4, 5]))));
    let mut s = Skip::new(inner, 4).unwrap();
    assert_eq!(s.len(), 2);
    assert_eq!(s.read_at(2, 1).unwrap(), Vec::<u8>::new());
    assert_eq!(calls.get(), 0);
    assert_eq!(s.read_at(0, 2).unwrap(), vec![4u8, 5]);
    assert_eq!(calls.get(), 1);
}

#[test]
fn streams_nest() {
    let inner: Vec<Source<Producer>> = vec![Source::Buffer(vec![1, 2]), zeros(2)];
    let a = Concat::new(inner).unwrap();
    let inner: Vec<Source<Producer>> = vec![Source::Buffer(vec![3])];
    let b = Concat::new(inner).unwrap();
    let mut outer = Concat::new(vec![a, b]).unwrap();
    assert_eq!(outer.len(), 5);
    assert_eq!(outer.read_at(1, 10).unwrap(), vec![2u8, 0, 0, 3]);
}
