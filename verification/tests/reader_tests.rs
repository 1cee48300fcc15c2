use std::cell::RefCell;
use std::collections::VecDeque;
use std::rc::Rc;

use vortex_core::buffered::{
    BatchRead, BufferedLayoutReader, LayoutReader, MetadataError, MetadataReader, NextBatch,
    WalkError,
};

type Log = Rc<RefCell<Vec<(&'static str, usize, usize)>>>;
type Answer<B> = Result<Option<BatchRead<B, &'static str>>, String>;

/// A chunk reader that logs each selection and answers from a script, then with a batch of
/// the selection.
struct Chunk {
    name: &'static str,
    script: VecDeque<Answer<(&'static str, usize, usize)>>,
    log: Log,
}

impl LayoutReader for Chunk {
    type Batch = (&'static str, usize, usize);
    type Messages = &'static str;
    type Error = String;

    fn read_selection(&mut self, begin: usize, end: usize) -> Answer<(&'static str, usize, usize)> {
        self.log.borrow_mut().push((self.name, begin, end));
        match self.script.pop_front() {
            Some(answer) => answer,
            None => Ok(Some(BatchRead::Batch((self.name, begin, end)))),
        }
    }
}

/// A metadata reader that logs each selection and answers from a script.
struct Meta {
    script: VecDeque<Answer<Vec<Option<bool>>>>,
    log: Log,
}

impl LayoutReader for Meta {
    type Batch = Vec<Option<bool>>;
    type Messages = &'static str;
    type Error = String;

    fn read_selection(&mut self, begin: usize, end: usize) -> Answer<Vec<Option<bool>>> {
        self.log.borrow_mut().push(("meta", begin, end));
        self.script.pop_front().unwrap()
    }
}

fn chunks(log: &Log, ranges: &[(&'static str, usize, usize)]) -> VecDeque<((usize, usize), Chunk)> {
    ranges
        .iter()
        .map(|&(name, b, e)| {
            ((b, e), Chunk { name, script: VecDeque::new(), log: log.clone() })
        })
        .collect()
}

fn three(log: &Log) -> VecDeque<((usize, usize), Chunk)> {
    chunks(log, &[("a", 0, 10), ("b", 10, 20), ("c", 20, 30)])
}

#[test]
fn reads_every_chunk_of_the_range() {
    let log: Log = Rc::new(RefCell::new(Vec::new()));
    let mut reader: BufferedLayoutReader<Chunk, Meta> =
        BufferedLayoutReader::new(MetadataReader::NoMetadata, three(&log), false);
    let next = reader.read_next(5, 15).unwrap();
    assert_eq!(next, Some(NextBatch::Batches(vec![("a", 5, 10), ("b", 0, 5)])));
    // chunk b reaches past the range: it is kept, and read again for the next range
    let next = reader.read_next(15, 30).unwrap();
    assert_eq!(next, Some(NextBatch::Batches(vec![("b", 5, 10), ("c", 0, 10)])));
    assert_eq!(reader.read_next(30, 40).unwrap(), None);
    assert_eq!(
        *log.borrow(),
        vec![("a", 5, 10), ("b", 0, 5), ("b", 5, 10), ("c", 0, 10)]
    );
}

#[test]
fn a_chunk_holding_the_whole_range_is_read() {
    let log: Log = Rc::new(RefCell::new(Vec::new()));
    let mut reader: BufferedLayoutReader<Chunk, Meta> =
        BufferedLayoutReader::new(MetadataReader::NoMetadata, chunks(&log, &[("whole", 0, 100)]), false);
    let next = reader.read_next(10, 20).unwrap();
    assert_eq!(next, Some(NextBatch::Batches(vec![("whole", 10, 20)])));
    assert_eq!(*log.borrow(), vec![("whole", 10, 20)]);
}

#[test]
fn metadata_is_read_for_all_chunks_and_a_request_keeps_it_unread() {
    let log: Log = Rc::new(RefCell::new(Vec::new()));
    let meta = Meta {
        script: VecDeque::from(vec![
            Ok(Some(BatchRead::ReadMore("meta more"))),
            Ok(Some(BatchRead::Batch(vec![Some(false), Some(true), None]))),
        ]),
        log: log.clone(),
    };
    let mut reader = BufferedLayoutReader::new(MetadataReader::NotYetRead(meta), three(&log), true);
    // the metadata reader asks for more: that request is handed out, and no chunk is read
    assert_eq!(reader.buffer_read(0, 30), Ok(Some("meta more")));
    assert_eq!(*log.borrow(), vec![("meta", 0, 3)]);
    // the metadata prunes chunk b: chunk a is read, b is dropped unread and the walk stops
    assert_eq!(reader.buffer_read(0, 30), Ok(None));
    assert_eq!(*log.borrow(), vec![("meta", 0, 3), ("meta", 0, 3), ("a", 0, 10)]);
    // the batch of chunk a was kept; chunk c has a null entry and is read
    assert_eq!(
        reader.read_next(0, 30).unwrap(),
        Some(NextBatch::Batches(vec![("a", 0, 10), ("c", 0, 10)]))
    );
    assert_eq!(
        *log.borrow(),
        vec![("meta", 0, 3), ("meta", 0, 3), ("a", 0, 10), ("c", 0, 10)]
    );
}

#[test]
fn metadata_errors() {
    let log: Log = Rc::new(RefCell::new(Vec::new()));
    let meta = Meta { script: VecDeque::from(vec![Ok(None)]), log: log.clone() };
    let mut reader = BufferedLayoutReader::new(MetadataReader::NotYetRead(meta), three(&log), true);
    assert_eq!(
        reader.buffer_read(0, 30),
        Err(WalkError::Metadata(MetadataError::UnexpectedEndOfStream))
    );
    assert_eq!(
        reader.buffer_read(0, 30),
        Err(WalkError::Metadata(MetadataError::ReadInProgress))
    );
    let meta = Meta { script: VecDeque::from(vec![Err(String::from("boom"))]), log: log.clone() };
    let mut reader = BufferedLayoutReader::new(MetadataReader::NotYetRead(meta), three(&log), true);
    assert_eq!(reader.buffer_read(0, 30), Err(WalkError::Read(String::from("boom"))));
    // a mask with no entry for a chunk
    let meta = Meta { script: VecDeque::from(vec![Ok(Some(BatchRead::Batch(vec![Some(false)])))]), log: log.clone() };
    let mut reader = BufferedLayoutReader::new(MetadataReader::NotYetRead(meta), three(&log), true);
    assert_eq!(reader.buffer_read(0, 30), Err(WalkError::NoMaskEntry(1)));
}

#[test]
fn a_chunk_read_asking_for_more_is_kept() {
    let log: Log = Rc::new(RefCell::new(Vec::new()));
    let mut layouts = three(&log);
    layouts[0].1.script.push_back(Ok(Some(BatchRead::ReadMore("a more"))));
    layouts[1].1.script.push_back(Ok(None));
    let mut reader: BufferedLayoutReader<Chunk, Meta> =
        BufferedLayoutReader::new(MetadataReader::NoMetadata, layouts, false);
    assert_eq!(reader.read_next(0, 30).unwrap(), Some(NextBatch::ReadMore("a more")));
    // chunk b has nothing and lies within the range: it is dropped and the walk goes on
    assert_eq!(
        reader.read_next(0, 30).unwrap(),
        Some(NextBatch::Batches(vec![("a", 0, 10), ("c", 0, 10)]))
    );
    assert_eq!(
        *log.borrow(),
        vec![("a", 0, 10), ("a", 0, 10), ("b", 0, 10), ("c", 0, 10)]
    );
}
