use std::collections::VecDeque;

use vortex_core::bit_buffer::BitBuffer;
use vortex_core::buffered::{after_read, AfterRead, ChunkRead, LayoutQueue};
use vortex_core::filter::{filter_plan, FilterError, FilterPlan};
use vortex_core::once_cell::{read_outcome, CellRead};

fn queue() -> LayoutQueue<&'static str> {
    let mut layouts = VecDeque::new();
    layouts.push_back(((0, 10), "a"));
    layouts.push_back(((10, 20), "b"));
    layouts.push_back(((20, 30), "c"));
    layouts.push_back(((30, 40), "d"));
    LayoutQueue::new(layouts)
}

#[test]
fn queue_numbers_chunks_in_order() {
    let mut q = queue();
    assert_eq!(q.n_chunks(), 4);
    assert_eq!(q.next_in_range(0, 40), Some((0, (0, 10), "a")));
    assert_eq!(q.next_in_range(0, 40), Some((1, (10, 20), "b")));
    q.put_back((1, (10, 20), "b"));
    assert_eq!(q.next_in_range(0, 40), Some((1, (10, 20), "b")));
}

#[test]
fn skip_drops_leading_chunks_before_the_range() {
    let mut q = queue();
    q.skip_before(22);
    // chunks a and b end at or before row 22; chunk c holds rows of [22, 35)
    assert_eq!(q.next_in_range(22, 35), Some((2, (20, 30), "c")));
    let mut q = queue();
    q.skip_before(100);
    assert!(q.is_empty());
    assert_eq!(q.next_in_range(100, 200), None);
}

#[test]
fn skip_keeps_a_chunk_that_holds_the_whole_range() {
    let mut layouts = VecDeque::new();
    layouts.push_back(((0, 100), "whole"));
    let mut q = LayoutQueue::new(layouts);
    q.skip_before(10);
    assert!(!q.is_empty());
    assert_eq!(q.next_in_range(10, 20), Some((0, (0, 100), "whole")));
}

#[test]
fn skip_keeps_chunks_after_the_range() {
    let mut q = queue();
    q.skip_before(0);
    assert_eq!(q.next_in_range(0, 40), Some((0, (0, 10), "a")));
    let mut q = queue();
    q.skip_before(10);
    // chunk b lies after the range [5, 8) asked for next, yet stays queued
    assert_eq!(q.next_in_range(5, 8), None);
    assert_eq!(q.next_in_range(10, 20), Some((1, (10, 20), "b")));
}

#[test]
fn next_in_range_keeps_a_chunk_past_the_range() {
    let mut q = queue();
    q.skip_before(0);
    assert_eq!(q.next_in_range(0, 5), Some((0, (0, 10), "a")));
    // chunk b begins at 10, past the end 5 of the range: it stays queued
    assert_eq!(q.next_in_range(0, 5), None);
    assert!(!q.is_empty());
    assert_eq!(q.next_in_range(10, 20), Some((1, (10, 20), "b")));
}

#[test]
fn decisions_after_a_read() {
    assert_eq!(after_read(ChunkRead::ReadMore, 0, 10, 5), AfterRead::PutBackAndRequestMore);
    assert_eq!(after_read(ChunkRead::Batch, 0, 10, 5), AfterRead::KeepBatchPutBackAndStop);
    assert_eq!(after_read(ChunkRead::Batch, 0, 10, 10), AfterRead::KeepBatchAndContinue);
    assert_eq!(after_read(ChunkRead::Nothing, 0, 10, 5), AfterRead::PutBackAndStop);
    assert_eq!(after_read(ChunkRead::Nothing, 0, 10, 10), AfterRead::DropAndContinue);
    assert_eq!(after_read(ChunkRead::Nothing, 6, 10, 5), AfterRead::DropAndContinue);
}

#[test]
fn filter_plans() {
    let mask = BitBuffer::new(vec![0b0000_0100], 5);
    assert_eq!(filter_plan(4, &mask, false, true), Err(FilterError::LengthMismatch { mask_len: 5, array_len: 4 }));
    assert_eq!(filter_plan(5, &mask, false, true), Ok(FilterPlan::Single(2)));
    assert_eq!(filter_plan(5, &mask, true, true), Ok(FilterPlan::Kernel));
    assert_eq!(filter_plan(5, &mask, false, false), Ok(FilterPlan::Arrow));
    let none = BitBuffer::new_unset(7);
    assert_eq!(filter_plan(7, &none, true, true), Ok(FilterPlan::Empty));
    let all = BitBuffer::new_set(7);
    assert_eq!(filter_plan(7, &all, true, true), Ok(FilterPlan::All));
    let two = BitBuffer::new(vec![0b1000_0001, 0], 12);
    assert_eq!(filter_plan(12, &two, false, true), Ok(FilterPlan::Arrow));
    let sliced = two.slice(3, 9);
    assert_eq!(filter_plan(9, &sliced, false, true), Ok(FilterPlan::Single(4)));
}

#[test]
fn once_cell_reads() {
    assert_eq!(read_outcome(true, true), CellRead::ReleaseInitRefAndReturn);
    assert_eq!(read_outcome(true, false), CellRead::Return);
    assert_eq!(read_outcome(false, true), CellRead::ValueGone);
    assert_eq!(read_outcome(false, false), CellRead::ValueGone);
}
