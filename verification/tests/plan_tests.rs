use vortex_core::buffered::{chunk_is_pruned, null_filled_field_names};
use vortex_core::owned::{child_plan, ChildError, ChildPlan};
use vortex_core::parts::{part_ranges, PART_SIZE};

#[test]
fn pruning_by_the_chunk_mask() {
    assert!(!chunk_is_pruned(None));
    assert!(!chunk_is_pruned(Some(None)));
    assert!(!chunk_is_pruned(Some(Some(false))));
    assert!(chunk_is_pruned(Some(Some(true))));
}

#[test]
fn child_plans() {
    assert_eq!(child_plan(0, None, true, true, true), Err(ChildError::NotFound(0)));
    assert_eq!(child_plan(0, Some(0), true, true, true), Err(ChildError::NotFound(0)));
    assert_eq!(child_plan(3, Some(3), false, false, false), Err(ChildError::NotFound(3)));
    assert_eq!(child_plan(2, Some(3), true, true, true), Ok(ChildPlan::Whole));
    assert_eq!(child_plan(0, Some(1), true, true, false), Ok(ChildPlan::Select));
}

#[test]
fn parts_of_a_buffer() {
    assert_eq!(part_ranges(10, 4), vec![(0, 4), (4, 8), (8, 10)]);
    assert_eq!(part_ranges(8, 4), vec![(0, 4), (4, 8)]);
    assert_eq!(part_ranges(0, 4), Vec::<(usize, usize)>::new());
    assert_eq!(part_ranges(3, 4), vec![(0, 3)]);
    assert_eq!(PART_SIZE, 26_214_400);
    let big = 2 * PART_SIZE + 1;
    assert_eq!(
        part_ranges(big, PART_SIZE),
        vec![(0, PART_SIZE), (PART_SIZE, 2 * PART_SIZE), (2 * PART_SIZE, big)]
    );
}

use vortex_core::streaming::{
    dict_flush_plan, stream_action, DictFlush, EncodingCompressor, StreamAction, StreamItem,
    StreamingCompressor,
};

struct Holding(Option<u32>);

impl EncodingCompressor for Holding {
    type Array = u32;
    type Error = String;

    fn flush(&mut self) -> Result<Option<u32>, String> {
        Ok(self.0.take())
    }
}

#[test]
fn stream_actions() {
    assert_eq!(stream_action(StreamItem::Chunk), StreamAction::Compress);
    assert_eq!(stream_action(StreamItem::Failed), StreamAction::Stop);
    assert_eq!(stream_action(StreamItem::End), StreamAction::Flush);
}

#[test]
fn flushing_ends_the_run() {
    let mut c = StreamingCompressor::new(Some(Holding(Some(7))));
    assert_eq!(c.flush(), Ok(Some(7)));
    assert_eq!(c.flush(), Ok(None));
    let mut none: StreamingCompressor<Holding> = StreamingCompressor::new(None);
    assert_eq!(none.flush(), Ok(None));
}

#[test]
fn dictionary_flush_plans() {
    assert_eq!(dict_flush_plan(0, false), DictFlush::Nothing);
    assert_eq!(dict_flush_plan(0, true), DictFlush::Nothing);
    assert_eq!(dict_flush_plan(2, true), DictFlush::Build);
}

#[test]
fn null_filled_names() {
    let known = vec!["min".to_string(), "max".to_string()];
    let required = vec!["max".to_string(), "null_count".to_string(), "null_count".to_string(), "sum".to_string()];
    assert_eq!(
        null_filled_field_names(&known, &required),
        vec!["min", "max", "null_count", "sum"]
    );
    assert_eq!(null_filled_field_names(&known, &vec![]), known);
}
