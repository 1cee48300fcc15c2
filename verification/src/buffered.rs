//! A layout reader over the chunks of a chunked layout, which keeps reading chunks until every
//! row of the requested range has been handled.
//!
//! Each chunk holds the rows `[begin, end)` and has a reader of its own. Before the first walk,
//! the chunks' metadata is read, if the layout has any; when the scan prunes, it gives the chunk
//! mask, in which a chunk whose entry is `true` is pruned. For a requested range
//! `[mask_begin, mask_end)`, the walk first drops the leading chunks whose rows all lie before
//! the range, then takes the chunks in order: it stops at a chunk outside the range, drops a
//! pruned chunk unread and stops, and reads every other chunk for its rows of the range, keeping
//! the batch read, until a read asks for more data or a chunk reaches past the range; such a
//! chunk is put back. A chunk that holds any row of the range, or any later row, is never
//! dropped unread unless the chunk mask prunes it.

use vstd::prelude::*;
use std::collections::VecDeque;

use crate::project::name_texts;

verus! {

/// A queued chunk: its position among the chunks, its rows `[begin, end)`, and its reader.
pub type QueuedChunk<L> = (usize, (usize, usize), L);

/// A chunk with rows `[begin, end)` ends before the requested range begins: it holds no row of
/// the range and no later row.
pub open spec fn ends_before_range(end: int, mask_begin: int) -> bool {
    end <= mask_begin
}

/// A chunk with rows `[begin, end)` lies entirely outside the requested range (as the walk
/// tests it).
pub open spec fn outside_range(begin: int, end: int, mask_begin: int, mask_end: int) -> bool {
    mask_end <= begin || mask_begin > end
}

/// The number of leading chunks that end before the requested range begins.
pub open spec fn leading_before<L>(q: Seq<QueuedChunk<L>>, mask_begin: int) -> nat
    decreases q.len(),
{
    if q.len() == 0 {
        0
    } else if !ends_before_range(q[0].1.1 as int, mask_begin) {
        0
    } else {
        1 + leading_before(q.drop_first(), mask_begin)
    }
}

/// Skipping the leading chunks that end before the range drops only such chunks, and keeps
/// the first chunk that holds a row of the range or a later row: the chunks dropped all end at
/// or before `mask_begin`, and the first one kept, if any, ends after it.
pub proof fn law_skip_drops_only_passed_chunks<L>(q: Seq<QueuedChunk<L>>, mask_begin: int)
    ensures
        leading_before(q, mask_begin) <= q.len(),
        forall|i: int|
            0 <= i < leading_before(q, mask_begin) ==> ends_before_range(
                #[trigger] q[i].1.1 as int,
                mask_begin,
            ),
        leading_before(q, mask_begin) < q.len() ==> !ends_before_range(
            q[leading_before(q, mask_begin) as int].1.1 as int,
            mask_begin,
        ),
    decreases q.len(),
{
    if q.len() > 0 && ends_before_range(q[0].1.1 as int, mask_begin) {
        let rest = q.drop_first();
        law_skip_drops_only_passed_chunks(rest, mask_begin);
        assert forall|i: int| 0 <= i < leading_before(q, mask_begin) implies ends_before_range(
            #[trigger] q[i].1.1 as int,
            mask_begin,
        ) by {
            if i > 0 {
                assert(q[i] == rest[i - 1]);
            }
        }
        if leading_before(q, mask_begin) < q.len() {
            assert(q[leading_before(q, mask_begin) as int] == rest[leading_before(
                rest,
                mask_begin,
            ) as int]);
        }
    }
}

/// What a chunk's reader returned for its part of the requested range.
#[derive(Clone, Copy, Debug, PartialEq, Eq)]
pub enum ChunkRead {
    /// The reader needs more data before it can answer.
    ReadMore,
    /// The reader produced a batch of rows.
    Batch,
    /// The reader has nothing for this range.
    Nothing,
}

/// What the walk does after a chunk's read.
#[derive(Clone, Copy, Debug, PartialEq, Eq)]
pub enum AfterRead {
    /// Put the chunk back and hand out the reader's request for more data.
    PutBackAndRequestMore,
    /// Keep the batch, put the chunk back (it reaches past the range) and stop.
    KeepBatchPutBackAndStop,
    /// Keep the batch, drop the chunk and go on with the next.
    KeepBatchAndContinue,
    /// Put the chunk back (it reaches past the range) and stop.
    PutBackAndStop,
    /// Drop the chunk and go on with the next.
    DropAndContinue,
}

/// Decide what to do after reading the chunk with rows `[begin, end)` for a range ending at
/// `mask_end`.
pub fn after_read(outcome: ChunkRead, begin: usize, end: usize, mask_end: usize) -> (r: AfterRead)
    ensures
        r == spec_after_read(outcome, begin as int, end as int, mask_end as int),
{
    match outcome {
        ChunkRead::ReadMore => AfterRead::PutBackAndRequestMore,
        ChunkRead::Batch => {
            if end > mask_end {
                AfterRead::KeepBatchPutBackAndStop
            } else {
                AfterRead::KeepBatchAndContinue
            }
        },
        ChunkRead::Nothing => {
            if end > mask_end && begin < mask_end {
                AfterRead::PutBackAndStop
            } else {
                AfterRead::DropAndContinue
            }
        },
    }
}

/// Whether the chunk at some position is pruned, given its entry in the chunk mask: `None`
/// when there is no chunk mask, `Some(None)` when the entry is null, `Some(Some(b))` otherwise.
/// Only an entry that is `true` prunes the chunk; a pruned chunk is dropped unread and the walk
/// stops.
pub fn chunk_is_pruned(mask_entry: Option<Option<bool>>) -> (r: bool)
    ensures
        r == (mask_entry == Some(Some(true))),
{
    match mask_entry {
        Some(Some(pruned)) => pruned,
        _ => false,
    }
}

/// Why the metadata could not be had.
#[derive(Clone, Copy, Debug, PartialEq, Eq)]
pub enum MetadataError {
    /// The stream ended while the metadata was being read.
    UnexpectedEndOfStream,
    /// A walk was started while another one held the metadata reader.
    ReadInProgress,
}

/// The chunks not yet consumed, in order, each with its position and reader.
pub struct LayoutQueue<L> {
    layouts: VecDeque<QueuedChunk<L>>,
    n_chunks: usize,
}

impl<L> View for LayoutQueue<L> {
    type V = Seq<QueuedChunk<L>>;

    closed spec fn view(&self) -> Seq<QueuedChunk<L>> {
        self.layouts@
    }
}

impl<L> LayoutQueue<L> {
    /// The number of chunks the queue started with.
    pub closed spec fn spec_n_chunks(&self) -> nat {
        self.n_chunks as nat
    }

    /// The queue of the chunks `layouts`, numbered by their position.
    pub fn new(layouts: VecDeque<((usize, usize), L)>) -> (r: Self)
        ensures
            r.spec_n_chunks() == layouts@.len(),
            r@.len() == layouts@.len(),
            forall|i: int|
                0 <= i < layouts@.len() ==> #[trigger] r@[i] == (
                    i as usize,
                    layouts@[i].0,
                    layouts@[i].1,
                ),
    {
        let n_chunks = layouts.len();
        let ghost given = layouts@;
        let mut rest = layouts;
        let mut queued: VecDeque<QueuedChunk<L>> = VecDeque::new();
        let mut i: usize = 0;
        while i < n_chunks
            invariant
                n_chunks == given.len(),
                0 <= i <= n_chunks,
                rest@ == given.skip(i as int),
                queued@.len() == i,
                forall|j: int|
                    0 <= j < i ==> #[trigger] queued@[j] == (j as usize, given[j].0, given[j].1),
            decreases n_chunks - i,
        {
            let (range, layout) = rest.pop_front().unwrap();
            proof {
                assert(rest@ =~= given.skip(i + 1));
            }
            queued.push_back((i, range, layout));
            i = i + 1;
        }
        LayoutQueue { layouts: queued, n_chunks }
    }

    /// The number of chunks the queue started with.
    pub fn n_chunks(&self) -> (r: usize)
        ensures
            r == self.spec_n_chunks(),
    {
        self.n_chunks
    }

    /// Whether every chunk has been consumed.
    pub fn is_empty(&self) -> (r: bool)
        ensures
            r == (self@.len() == 0),
    {
        self.layouts.len() == 0
    }

    /// Drop the leading chunks whose rows all lie before the row `mask_begin`, where the
    /// requested range begins.
    pub fn skip_before(&mut self, mask_begin: usize)
        ensures
            final(self).spec_n_chunks() == old(self).spec_n_chunks(),
            final(self)@ == old(self)@.skip(leading_before(old(self)@, mask_begin as int) as int),
    {
        let ghost start = self.layouts@;
        let ghost mut dropped: int = 0;
        loop
            invariant
                self.n_chunks == old(self).n_chunks,
                start == old(self)@,
                0 <= dropped <= start.len(),
                self.layouts@ == start.skip(dropped),
                dropped + leading_before(self.layouts@, mask_begin as int) == leading_before(
                    start,
                    mask_begin as int,
                ),
            ensures
                self.n_chunks == old(self).n_chunks,
                self.layouts@ == start.skip(leading_before(start, mask_begin as int) as int),
            decreases self.layouts@.len(),
        {
            match self.layouts.pop_front() {
                None => {
                    proof {
                        assert(start.skip(dropped).len() == 0);
                    }
                    break;
                },
                Some(entry) => {
                    let end = entry.1.1;
                    if end > mask_begin {
                        self.layouts.push_front(entry);
                        proof {
                            assert(self.layouts@ =~= start.skip(dropped));
                        }
                        break;
                    }
                    proof {
                        assert(self.layouts@ =~= start.skip(dropped + 1));
                        dropped = dropped + 1;
                    }
                },
            }
        }
    }

    /// Take the first chunk if it does not lie outside the rows `[mask_begin, mask_end)`;
    /// otherwise, or when no chunk is left, take nothing.
    pub fn next_in_range(&mut self, mask_begin: usize, mask_end: usize) -> (r: Option<
        QueuedChunk<L>,
    >)
        ensures
            final(self).spec_n_chunks() == old(self).spec_n_chunks(),
            old(self)@.len() == 0 ==> r is None && final(self)@ == old(self)@,
            old(self)@.len() > 0 && outside_range(
                old(self)@[0].1.0 as int,
                old(self)@[0].1.1 as int,
                mask_begin as int,
                mask_end as int,
            ) ==> r is None && final(self)@ == old(self)@,
            old(self)@.len() > 0 && !outside_range(
                old(self)@[0].1.0 as int,
                old(self)@[0].1.1 as int,
                mask_begin as int,
                mask_end as int,
            ) ==> r == Some(old(self)@[0]) && final(self)@ == old(self)@.drop_first(),
    {
        match self.layouts.pop_front() {
            None => None,
            Some(entry) => {
                let begin = entry.1.0;
                let end = entry.1.1;
                if mask_end <= begin || mask_begin > end {
                    self.layouts.push_front(entry);
                    proof {
                        assert(self.layouts@ =~= old(self)@);
                    }
                    None
                } else {
                    Some(entry)
                }
            },
        }
    }

    /// Put a chunk back at the front of the queue.
    pub fn put_back(&mut self, chunk: QueuedChunk<L>)
        ensures
            final(self).spec_n_chunks() == old(self).spec_n_chunks(),
            final(self)@ == seq![chunk] + old(self)@,
    {
        self.layouts.push_front(chunk);
        assert(self.layouts@ =~= seq![chunk] + old(self)@);
    }
}


/// A chunk entry in the chunk mask: `Some(entry)` for a chunk the mask covers, where `entry` is
/// `None` for a null; `None` when the mask holds no entry for the chunk.
pub open spec fn mask_entry(mask: Seq<Option<bool>>, index: int) -> Option<Option<bool>> {
    if 0 <= index < mask.len() {
        Some(mask[index])
    } else {
        None
    }
}

/// What one step of the walk over the queued chunks yields.
pub enum WalkStep<L> {
    /// The next chunk, taken off the queue, to be read.
    Read(QueuedChunk<L>),
    /// The next chunk, taken off the queue and dropped unread because the chunk mask prunes it.
    Pruned(QueuedChunk<L>),
    /// The next chunk, taken off the queue, has no entry in the chunk mask.
    NoMaskEntry(QueuedChunk<L>),
    /// No chunk is left, or the next one lies outside the requested rows; the queue is kept.
    Stop,
}

impl<L> LayoutQueue<L> {
    /// One step of the walk over the rows `[mask_begin, mask_end)`, pruning by `chunk_mask`:
    /// stop when no chunk is left or the next one lies outside the rows; otherwise take the
    /// next chunk off the queue, and hand it out to be read unless the chunk mask prunes it.
    pub fn walk_step(
        &mut self,
        mask_begin: usize,
        mask_end: usize,
        chunk_mask: Option<&Vec<Option<bool>>>,
    ) -> (r: WalkStep<L>)
        ensures
            final(self).spec_n_chunks() == old(self).spec_n_chunks(),
            old(self)@.len() == 0 || outside_range(
                old(self)@[0].1.0 as int,
                old(self)@[0].1.1 as int,
                mask_begin as int,
                mask_end as int,
            ) ==> r is Stop && final(self)@ == old(self)@,
            old(self)@.len() > 0 && !outside_range(
                old(self)@[0].1.0 as int,
                old(self)@[0].1.1 as int,
                mask_begin as int,
                mask_end as int,
            ) ==> final(self)@ == old(self)@.drop_first() && match chunk_mask {
                None => r == WalkStep::Read(old(self)@[0]),
                Some(m) => match mask_entry(m@, old(self)@[0].0 as int) {
                    None => r == WalkStep::NoMaskEntry(old(self)@[0]),
                    Some(e) => if e == Some(true) {
                        r == WalkStep::Pruned(old(self)@[0])
                    } else {
                        r == WalkStep::Read(old(self)@[0])
                    },
                },
            },
    {
        match self.next_in_range(mask_begin, mask_end) {
            None => WalkStep::Stop,
            Some(chunk) => {
                let entry = match chunk_mask {
                    None => None,
                    Some(m) => {
                        if chunk.0 < m.len() {
                            Some(m[chunk.0])
                        } else {
                            return WalkStep::NoMaskEntry(chunk);
                        }
                    },
                };
                if chunk_is_pruned(entry) {
                    WalkStep::Pruned(chunk)
                } else {
                    WalkStep::Read(chunk)
                }
            },
        }
    }

    /// Act on the outcome `outcome` of reading the chunk `chunk` for rows ending at `mask_end`:
    /// the chunk goes back to the front of the queue exactly when the decision says so, and is
    /// dropped otherwise.
    pub fn after_chunk_read(&mut self, chunk: QueuedChunk<L>, outcome: ChunkRead, mask_end: usize) -> (r:
        AfterRead)
        ensures
            r == spec_after_read(outcome, chunk.1.0 as int, chunk.1.1 as int, mask_end as int),
            final(self).spec_n_chunks() == old(self).spec_n_chunks(),
            puts_back(r) ==> final(self)@ == seq![chunk] + old(self)@,
            !puts_back(r) ==> final(self)@ == old(self)@,
    {
        let r = after_read(outcome, chunk.1.0, chunk.1.1, mask_end);
        match r {
            AfterRead::PutBackAndRequestMore | AfterRead::KeepBatchPutBackAndStop
            | AfterRead::PutBackAndStop => {
                self.put_back(chunk);
            },
            _ => {},
        }
        r
    }
}

/// The decision `after_read` makes.
pub open spec fn spec_after_read(outcome: ChunkRead, begin: int, end: int, mask_end: int) -> AfterRead {
    match outcome {
        ChunkRead::ReadMore => AfterRead::PutBackAndRequestMore,
        ChunkRead::Batch => if end > mask_end {
            AfterRead::KeepBatchPutBackAndStop
        } else {
            AfterRead::KeepBatchAndContinue
        },
        ChunkRead::Nothing => if end > mask_end && begin < mask_end {
            AfterRead::PutBackAndStop
        } else {
            AfterRead::DropAndContinue
        },
    }
}

/// Whether a decision puts the chunk back at the front of the queue.
pub open spec fn puts_back(r: AfterRead) -> bool {
    r is PutBackAndRequestMore || r is KeepBatchPutBackAndStop || r is PutBackAndStop
}


/// The position and rows of each queued chunk, without its reader.
pub open spec fn chunk_ids<L>(q: Seq<QueuedChunk<L>>) -> Seq<(usize, (usize, usize))> {
    q.map_values(|c: QueuedChunk<L>| (c.0, c.1))
}

/// The chunk mask prunes the chunk at position `index`: its entry is `true`.
pub open spec fn prunes(mask: Option<Seq<Option<bool>>>, index: int) -> bool {
    mask matches Some(m) && mask_entry(m, index) == Some(Some(true))
}

/// A chunk that the walk takes and reads, and then goes past: it does not lie outside the rows
/// `[mask_begin, mask_end)`, and the chunk mask, if any, has an entry for it that does not
/// prune it.
pub open spec fn read_through<L>(
    mask: Option<Seq<Option<bool>>>,
    c: QueuedChunk<L>,
    mask_begin: int,
    mask_end: int,
) -> bool {
    &&& !outside_range(c.1.0 as int, c.1.1 as int, mask_begin, mask_end)
    &&& mask_lets_read(mask, c.0 as int)
}

/// The chunk mask, if any, has an entry for the chunk at position `index` that does not prune
/// it: the walk reads the chunk when it takes it.
pub open spec fn mask_lets_read(mask: Option<Seq<Option<bool>>>, index: int) -> bool {
    mask matches Some(m) ==> (mask_entry(m, index) matches Some(e) && e != Some(true))
}

/// A read that a buffered layout reader asks of a reader.
#[derive(Debug, PartialEq, Eq)]
pub enum ReadRequest {
    /// The metadata reader, for the chunks `[begin, end)`.
    Metadata(usize, usize),
    /// The reader of the chunk at a position, for its rows `[begin, end)`.
    Chunk(usize, usize, usize),
}

/// The read the walk asks of the chunk `c` for the rows `[mask_begin, mask_end)`.
pub open spec fn chunk_read<L>(c: QueuedChunk<L>, mask_begin: int, mask_end: int) -> ReadRequest {
    let sel = chunk_selection(c.1.0 as int, c.1.1 as int, mask_begin, mask_end);
    ReadRequest::Chunk(c.0, sel.0 as usize, sel.1 as usize)
}

/// The reads a walk over `q` that took its first `k` chunks asked, in order: one for each chunk
/// taken, but for a last one that the chunk mask prunes or has no entry for.
pub open spec fn walk_reads<L>(
    q: Seq<QueuedChunk<L>>,
    k: int,
    mask: Option<Seq<Option<bool>>>,
    mask_begin: int,
    mask_end: int,
) -> Seq<ReadRequest> {
    let m = if k > 0 && !mask_lets_read(mask, q[k - 1].0 as int) {
        k - 1
    } else {
        k
    };
    Seq::new(m as nat, |j: int| chunk_read(q[j], mask_begin, mask_end))
}

/// The walk over `q` for the rows `[mask_begin, mask_end)` took its first `k` chunks and left
/// the queue `after`, answering `r`: every chunk taken but the last was read and gone past;
/// the last one taken, if any, lies (at least in part) in the rows and is either back at the
/// front of `after` or gone; a pruned last chunk is gone unread and the answer is nothing; an
/// answer with messages comes from a read that put its chunk back; when nothing was taken, the
/// queue is as it was and the answer is nothing.
#[verifier::opaque]
pub open spec fn walk_outcome<L, M, E>(
    q: Seq<QueuedChunk<L>>,
    after: Seq<QueuedChunk<L>>,
    mask: Option<Seq<Option<bool>>>,
    mask_begin: int,
    mask_end: int,
    r: Result<Option<M>, WalkError<E>>,
    k: int,
) -> bool {
    let kept = chunk_ids(q.skip(k));
    &&& 0 <= k <= q.len()
    &&& forall|j: int| 0 <= j < k - 1 ==> read_through(mask, #[trigger] q[j], mask_begin, mask_end)
    &&& k > 0 ==> !outside_range(q[k - 1].1.0 as int, q[k - 1].1.1 as int, mask_begin, mask_end)
    &&& chunk_ids(after) == kept || (k > 0 && chunk_ids(after) == seq![(q[k - 1].0, q[k - 1].1)]
        + kept)
    &&& k == 0 ==> r == Ok::<Option<M>, WalkError<E>>(None) && chunk_ids(after) == chunk_ids(q)
    &&& k > 0 && prunes(mask, q[k - 1].0 as int) ==> r == Ok::<Option<M>, WalkError<E>>(None)
        && chunk_ids(after) == kept
    &&& r matches Ok(Some(_)) ==> k > 0 && chunk_ids(after) == seq![(q[k - 1].0, q[k - 1].1)]
        + kept
}

/// A walk drops no chunk unread but one the chunk mask prunes (or has no entry for): every
/// chunk it takes is read, for its rows of the range, in order, except a last one that the mask
/// does not let it read; a pruned last chunk ends the walk with nothing.
pub proof fn law_walk_reads_what_it_takes<L, M, E>(
    q: Seq<QueuedChunk<L>>,
    after: Seq<QueuedChunk<L>>,
    mask: Option<Seq<Option<bool>>>,
    mask_begin: int,
    mask_end: int,
    r: Result<Option<M>, WalkError<E>>,
    k: int,
)
    requires
        walk_outcome(q, after, mask, mask_begin, mask_end, r, k),
    ensures
        forall|j: int|
            0 <= j < k ==> (j < walk_reads(q, k, mask, mask_begin, mask_end).len() && walk_reads(
                q,
                k,
                mask,
                mask_begin,
                mask_end,
            )[j] == chunk_read(#[trigger] q[j], mask_begin, mask_end)) || (j == k - 1
                && !mask_lets_read(mask, q[j].0 as int) && (prunes(mask, q[j].0 as int) ==> r
                == Ok::<Option<M>, WalkError<E>>(None))),
{
    reveal(walk_outcome);
}

/// What a layout reader answers for a selection of its rows.
#[derive(Debug, PartialEq, Eq)]
pub enum BatchRead<B, M> {
    /// It needs more data first; the messages say what to fetch.
    ReadMore(M),
    /// A batch of rows.
    Batch(B),
}

/// A reader of the rows of one layout, implemented by the users of this library.
pub trait LayoutReader {
    /// A batch of rows.
    type Batch;
    /// A request for more data.
    type Messages;
    /// A failed read.
    type Error;

    /// Read the rows `[begin, end)` of this layout: a batch, a request for more data, or
    /// `None` when the layout has nothing for them.
    fn read_selection(&mut self, begin: usize, end: usize) -> Result<
        Option<BatchRead<Self::Batch, Self::Messages>>,
        Self::Error,
    >;
}

/// What the reader hands out next.
#[derive(Debug, PartialEq, Eq)]
pub enum NextBatch<B, M> {
    /// A request for more data.
    ReadMore(M),
    /// The batches read, in order: at least one.
    Batches(Vec<B>),
}

/// Why a walk failed.
#[derive(Debug, PartialEq, Eq)]
pub enum WalkError<E> {
    /// A reader failed.
    Read(E),
    /// The metadata could not be had.
    Metadata(MetadataError),
    /// The chunk mask holds no entry for the chunk at this position.
    NoMaskEntry(usize),
}

/// The reader of the per-chunk metadata. It answers with the chunk mask: one entry per chunk,
/// `true` where the scan's predicate prunes the chunk, null where the statistics cannot tell.
pub enum MetadataReader<R> {
    /// The layout has no metadata.
    NoMetadata,
    /// The metadata has not been read yet.
    NotYetRead(R),
    /// The metadata has been read.
    Read,
}

/// The rows `[mask_begin, mask_end)` that fall in the chunk with rows `[begin, end)`, as rows
/// of the chunk.
pub open spec fn chunk_selection(begin: int, end: int, mask_begin: int, mask_end: int) -> (int, int) {
    let lo = if mask_begin > begin { mask_begin } else { begin };
    let hi = if mask_end < end { mask_end } else { end };
    (lo - begin, if hi > lo { hi - begin } else { lo - begin })
}

/// Reading the chunks `[0, n_chunks)` of the metadata reader `reader` gave the chunk mask
/// `mask`: a call of `read_selection(0, n_chunks)` on it answered with a batch holding `mask`.
pub open spec fn metadata_answered<R: LayoutReader<Batch = Vec<Option<bool>>>>(
    reader: R,
    n_chunks: nat,
    mask: Seq<Option<bool>>,
) -> bool {
    exists|rd: &mut R, v: Vec<Option<bool>>|
        #![trigger call_ensures(R::read_selection, (rd, 0usize, n_chunks as usize), Ok::<Option<BatchRead<Vec<Option<bool>>, R::Messages>>, R::Error>(Some(BatchRead::Batch(v))))]
        *rd == reader && v@ == mask && call_ensures(
            R::read_selection,
            (rd, 0usize, n_chunks as usize),
            Ok::<Option<BatchRead<Vec<Option<bool>>, R::Messages>>, R::Error>(
                Some(BatchRead::Batch(v)),
            ),
        )
}

/// The reads asked before a walk: those asked so far, then the metadata reader's for every
/// chunk when no chunk mask is held and the metadata is not read yet.
pub open spec fn reads_before_walk<R>(
    reads: Seq<ReadRequest>,
    mask_before: Option<Seq<Option<bool>>>,
    metadata_before: Option<MetadataReader<R>>,
    n_chunks: nat,
) -> Seq<ReadRequest> {
    if mask_before is None && metadata_before matches Some(MetadataReader::NotYetRead(_)) {
        reads.push(ReadRequest::Metadata(0, n_chunks as usize))
    } else {
        reads
    }
}

/// Whether a read walks the chunks: a chunk mask was held already, or the metadata is settled
/// afterwards (there is none, or it has been read).
pub open spec fn walk_ran<R>(mask_before: Option<Seq<Option<bool>>>, metadata_after: Option<MetadataReader<R>>) -> bool {
    mask_before is Some || metadata_after == Some(MetadataReader::<R>::NoMetadata) || metadata_after
        == Some(MetadataReader::<R>::Read)
}

/// A layout reader over chunks, which keeps reading chunks until every row of the requested
/// range has been handled.
pub struct BufferedLayoutReader<L: LayoutReader, R> {
    metadata_reader: Option<MetadataReader<R>>,
    layouts: LayoutQueue<L>,
    arrays: Vec<L::Batch>,
    prune: bool,
    chunk_mask: Option<Vec<Option<bool>>>,
    last_walk: Ghost<int>,
    reads: Ghost<Seq<ReadRequest>>,
}

impl<L: LayoutReader, R: LayoutReader<Batch = Vec<Option<bool>>, Messages = L::Messages, Error = L::Error>> BufferedLayoutReader<L, R> {
    /// The chunks not yet consumed.
    pub closed spec fn spec_layouts(&self) -> Seq<QueuedChunk<L>> {
        self.layouts@
    }

    /// The number of chunks the reader started with.
    pub closed spec fn spec_n_chunks(&self) -> nat {
        self.layouts.spec_n_chunks()
    }

    /// The batches read and not yet handed out.
    pub closed spec fn spec_arrays(&self) -> Seq<L::Batch> {
        self.arrays@
    }

    /// The chunk mask, once the metadata has been read and the scan prunes.
    pub closed spec fn spec_chunk_mask(&self) -> Option<Seq<Option<bool>>> {
        match self.chunk_mask {
            Some(m) => Some(m@),
            None => None,
        }
    }

    /// How many chunks the last walk took off the queue, after skipping those that end before
    /// its rows.
    pub closed spec fn spec_last_walk(&self) -> int {
        self.last_walk@
    }

    /// The reads asked of the readers so far, in order.
    pub closed spec fn spec_reads(&self) -> Seq<ReadRequest> {
        self.reads@
    }

    /// Whether the scan has a predicate to prune chunks by.
    pub closed spec fn spec_prune(&self) -> bool {
        self.prune
    }

    /// The metadata reader: `None` while a walk holds it.
    pub closed spec fn spec_metadata(&self) -> Option<MetadataReader<R>> {
        self.metadata_reader
    }

    /// A reader over the chunks `layouts`, each with its rows, pruning by the metadata when
    /// `prune`.
    pub fn new(
        metadata_reader: MetadataReader<R>,
        layouts: VecDeque<((usize, usize), L)>,
        prune: bool,
    ) -> (r: Self)
        ensures
            r.spec_metadata() == Some(metadata_reader),
            r.spec_n_chunks() == layouts@.len(),
            r.spec_layouts().len() == layouts@.len(),
            forall|i: int|
                0 <= i < layouts@.len() ==> #[trigger] r.spec_layouts()[i] == (
                    i as usize,
                    layouts@[i].0,
                    layouts@[i].1,
                ),
            r.spec_arrays().len() == 0,
            r.spec_prune() == prune,
            r.spec_chunk_mask() is None,
            r.spec_reads().len() == 0,
    {
        BufferedLayoutReader {
            metadata_reader: Some(metadata_reader),
            layouts: LayoutQueue::new(layouts),
            arrays: Vec::new(),
            prune,
            chunk_mask: None,
            last_walk: Ghost(0),
            reads: Ghost(Seq::empty()),
        }
    }

    /// Read on for the rows `[mask_begin, mask_end)`: first settle the metadata, when no chunk
    /// mask is held yet (a reader not yet read is asked for the rows `[0, n_chunks)`: a request
    /// for more data is handed out with the reader kept unread; the metadata read becomes the
    /// chunk mask when the scan prunes; the end of the stream is an error), then walk the chunks.
    /// Returns the messages of a request for more data, or nothing once the walk has stopped.
    pub fn buffer_read(&mut self, mask_begin: usize, mask_end: usize) -> (r: Result<
        Option<L::Messages>,
        WalkError<L::Error>,
    >)
        ensures
            final(self).spec_n_chunks() == old(self).spec_n_chunks(),
            final(self).spec_prune() == old(self).spec_prune(),
            final(self).spec_arrays().len() >= old(self).spec_arrays().len(),
            final(self).spec_arrays().subrange(0, old(self).spec_arrays().len() as int)
                == old(self).spec_arrays(),
            old(self).spec_chunk_mask() is Some ==> final(self).spec_metadata() == old(self).spec_metadata() && final(self).spec_chunk_mask() == old(self).spec_chunk_mask(),
            old(self).spec_chunk_mask() is None ==> match old(self).spec_metadata() {
                None => r == Err::<Option<L::Messages>, WalkError<L::Error>>(
                    WalkError::Metadata(MetadataError::ReadInProgress),
                ) && final(self).spec_metadata() is None,
                Some(MetadataReader::NotYetRead(reader)) => (final(self).spec_metadata() matches Some(
                    MetadataReader::NotYetRead(_),
                ) && r matches Ok(Some(_)) && final(self).spec_chunk_mask() is None) || (final(self).spec_metadata() is None && r is Err && final(self).spec_chunk_mask() is None)
                    || (final(self).spec_metadata() == Some(MetadataReader::<R>::Read) && (final(self).spec_chunk_mask() is Some <==> old(self).spec_prune())
                    && (final(self).spec_chunk_mask() matches Some(m) ==> metadata_answered(
                        reader,
                        old(self).spec_n_chunks(),
                        m,
                    ))),
                Some(m) => final(self).spec_metadata() == Some(m) && final(self).spec_chunk_mask() is None,
            },
            walk_ran(old(self).spec_chunk_mask(), final(self).spec_metadata()) ==> walk_outcome(
                old(self).spec_layouts().skip(
                    leading_before(old(self).spec_layouts(), mask_begin as int) as int,
                ),
                final(self).spec_layouts(),
                final(self).spec_chunk_mask(),
                mask_begin as int,
                mask_end as int,
                r,
                final(self).spec_last_walk(),
            ),
            walk_ran(old(self).spec_chunk_mask(), final(self).spec_metadata()) ==> final(self).spec_reads()
                == reads_before_walk(
                old(self).spec_reads(),
                old(self).spec_chunk_mask(),
                old(self).spec_metadata(),
                old(self).spec_n_chunks(),
            ) + walk_reads(
                old(self).spec_layouts().skip(
                    leading_before(old(self).spec_layouts(), mask_begin as int) as int,
                ),
                final(self).spec_last_walk(),
                final(self).spec_chunk_mask(),
                mask_begin as int,
                mask_end as int,
            ),
            !walk_ran(old(self).spec_chunk_mask(), final(self).spec_metadata()) ==> final(self).spec_reads()
                == reads_before_walk(
                old(self).spec_reads(),
                old(self).spec_chunk_mask(),
                old(self).spec_metadata(),
                old(self).spec_n_chunks(),
            ),
            !walk_ran(old(self).spec_chunk_mask(), final(self).spec_metadata()) ==> final(self).spec_layouts()
                == old(self).spec_layouts() && final(self).spec_arrays() == old(self).spec_arrays(),
    {
        if self.chunk_mask.is_none() {
            let mut state: Option<MetadataReader<R>> = None;
            std::mem::swap(&mut state, &mut self.metadata_reader);
            match state {
                None => {
                    return Err(WalkError::Metadata(MetadataError::ReadInProgress));
                },
                Some(MetadataReader::NoMetadata) => {
                    self.metadata_reader = Some(MetadataReader::NoMetadata);
                },
                Some(MetadataReader::Read) => {
                    self.metadata_reader = Some(MetadataReader::Read);
                },
                Some(MetadataReader::NotYetRead(mut reader)) => {
                    let n_chunks = self.layouts.n_chunks();
                    self.reads = Ghost(self.reads@.push(ReadRequest::Metadata(0, n_chunks)));
                    match reader.read_selection(0, n_chunks) {
                        Err(e) => {
                            return Err(WalkError::Read(e));
                        },
                        Ok(None) => {
                            return Err(WalkError::Metadata(MetadataError::UnexpectedEndOfStream));
                        },
                        Ok(Some(BatchRead::ReadMore(messages))) => {
                            self.metadata_reader = Some(MetadataReader::NotYetRead(reader));
                            return Ok(Some(messages));
                        },
                        Ok(Some(BatchRead::Batch(mask))) => {
                            self.metadata_reader = Some(MetadataReader::Read);
                            if self.prune {
                                self.chunk_mask = Some(mask);
                            }
                        },
                    }
                },
            }
        }
        self.walk(mask_begin, mask_end)
    }

    /// The next answer for the rows `[mask_begin, mask_end)`: a request for more data while
    /// the walk needs one; otherwise every batch read so far, handed out and no longer kept, or
    /// nothing when no batch was read. More than one batch make up one chunked batch.
    pub fn read_next(&mut self, mask_begin: usize, mask_end: usize) -> (r: Result<
        Option<NextBatch<L::Batch, L::Messages>>,
        WalkError<L::Error>,
    >)
        ensures
            final(self).spec_n_chunks() == old(self).spec_n_chunks(),
            final(self).spec_prune() == old(self).spec_prune(),
            (r is Err || r matches Ok(Some(NextBatch::ReadMore(_)))) ==> final(self).spec_arrays().len()
                >= old(self).spec_arrays().len() && final(self).spec_arrays().subrange(
                0,
                old(self).spec_arrays().len() as int,
            ) == old(self).spec_arrays(),
            r matches Ok(None) ==> old(self).spec_arrays().len() == 0 && final(self).spec_arrays().len()
                == 0,
            r matches Ok(Some(NextBatch::Batches(v))) ==> v@.len() > 0 && v@.len() >= old(
                self,
            ).spec_arrays().len() && v@.subrange(0, old(self).spec_arrays().len() as int) == old(
                self,
            ).spec_arrays() && final(self).spec_arrays().len() == 0,
    {
        match self.buffer_read(mask_begin, mask_end) {
            Err(e) => Err(e),
            Ok(Some(messages)) => Ok(Some(NextBatch::ReadMore(messages))),
            Ok(None) => {
                let mut result: Vec<L::Batch> = Vec::new();
                std::mem::swap(&mut result, &mut self.arrays);
                if result.len() == 0 {
                    Ok(None)
                } else {
                    Ok(Some(NextBatch::Batches(result)))
                }
            },
        }
    }

    /// Walk the chunks for the rows `[mask_begin, mask_end)`, once the metadata is settled:
    /// skip the chunks that end before the rows, then take the chunks in order, reading each
    /// that the chunk mask does not prune, until one lies outside the rows, is pruned, asks for
    /// more data, or reaches past the rows. Batches read are kept.
    fn walk(&mut self, mask_begin: usize, mask_end: usize) -> (r: Result<
        Option<L::Messages>,
        WalkError<L::Error>,
    >)
        ensures
            final(self).spec_n_chunks() == old(self).spec_n_chunks(),
            final(self).spec_chunk_mask() == old(self).spec_chunk_mask(),
            final(self).spec_metadata() == old(self).spec_metadata(),
            final(self).spec_prune() == old(self).spec_prune(),
            final(self).spec_arrays().len() >= old(self).spec_arrays().len(),
            final(self).spec_arrays().subrange(0, old(self).spec_arrays().len() as int)
                == old(self).spec_arrays(),
            walk_outcome(
                old(self).spec_layouts().skip(
                    leading_before(old(self).spec_layouts(), mask_begin as int) as int,
                ),
                final(self).spec_layouts(),
                old(self).spec_chunk_mask(),
                mask_begin as int,
                mask_end as int,
                r,
                final(self).spec_last_walk(),
            ),
            final(self).spec_reads() == old(self).spec_reads() + walk_reads(
                old(self).spec_layouts().skip(
                    leading_before(old(self).spec_layouts(), mask_begin as int) as int,
                ),
                final(self).spec_last_walk(),
                old(self).spec_chunk_mask(),
                mask_begin as int,
                mask_end as int,
            ),
    {
        self.layouts.skip_before(mask_begin);
        let ghost q = self.layouts@;
        let ghost arrays0 = self.arrays@;
        let ghost mask = old(self).spec_chunk_mask();
        let ghost mut k: int = 0;
        assert(q.skip(0) =~= q);
        loop
            invariant
                self.layouts.spec_n_chunks() == old(self).spec_n_chunks(),
                self.spec_chunk_mask() == mask,
                mask == old(self).spec_chunk_mask(),
                self.metadata_reader == old(self).metadata_reader,
                self.prune == old(self).prune,
                q == old(self).spec_layouts().skip(
                    leading_before(old(self).spec_layouts(), mask_begin as int) as int,
                ),
                arrays0 == old(self).spec_arrays(),
                self.reads@ == old(self).reads@ + Seq::new(
                    k as nat,
                    |j: int| chunk_read(q[j], mask_begin as int, mask_end as int),
                ),
                self.arrays@.len() >= arrays0.len(),
                self.arrays@.subrange(0, arrays0.len() as int) == arrays0,
                0 <= k <= q.len(),
                self.layouts@ == q.skip(k),
                forall|j: int| 0 <= j < k ==> read_through(mask, #[trigger] q[j], mask_begin as int, mask_end as int),
            decreases self.layouts@.len(),
        {
            let ghost before = self.layouts@;
            let step = match &self.chunk_mask {
                Some(m) => self.layouts.walk_step(mask_begin, mask_end, Some(m)),
                None => self.layouts.walk_step(mask_begin, mask_end, None),
            };
            proof {
                if k < q.len() {
                    assert(before[0] == q[k]);
                    assert(q.skip(k).drop_first() =~= q.skip(k + 1));
                } else {
                    assert(before.len() == 0);
                }
                if k == 0 {
                    assert(q.skip(0) =~= q);
                }
            }
            match step {
                WalkStep::Stop => {
                    proof {
                        reveal(walk_outcome);
                        assert(walk_outcome(
                        q,
                        self.layouts@,
                        mask,
                        mask_begin as int,
                        mask_end as int,
                        Ok::<Option<L::Messages>, WalkError<L::Error>>(None),
                        k,
                    ));
                    }
                    self.last_walk = Ghost(k);
                    assert(self.reads@ =~= old(self).reads@ + walk_reads(q, k, mask, mask_begin as int, mask_end as int));
                    return Ok(None);
                },
                WalkStep::Pruned(_) => {
                    proof {
                        k = k + 1;
                    }
                    proof {
                        reveal(walk_outcome);
                        assert(walk_outcome(
                        q,
                        self.layouts@,
                        mask,
                        mask_begin as int,
                        mask_end as int,
                        Ok::<Option<L::Messages>, WalkError<L::Error>>(None),
                        k,
                    ));
                    }
                    self.last_walk = Ghost(k);
                    assert(self.reads@ =~= old(self).reads@ + walk_reads(q, k, mask, mask_begin as int, mask_end as int));
                    return Ok(None);
                },
                WalkStep::NoMaskEntry(chunk) => {
                    let r = Err(WalkError::NoMaskEntry(chunk.0));
                    proof {
                        k = k + 1;
                    }
                    proof {
                        reveal(walk_outcome);
                        assert(walk_outcome(q, self.layouts@, mask, mask_begin as int, mask_end as int, r, k));
                    }
                    self.last_walk = Ghost(k);
                    assert(self.reads@ =~= old(self).reads@ + walk_reads(q, k, mask, mask_begin as int, mask_end as int));
                    return r;
                },
                WalkStep::Read(chunk) => {
                    let (index, range, mut layout) = chunk;
                    let (begin, end) = range;
                    let (sel_begin, sel_end) = selection_in_chunk(begin, end, mask_begin, mask_end);
                    self.reads = Ghost(self.reads@.push(ReadRequest::Chunk(index, sel_begin, sel_end)));
                    let read = layout.read_selection(sel_begin, sel_end);
                    let ghost taken = self.layouts@;
                    proof {
                        assert(self.reads@ =~= old(self).reads@ + Seq::new(
                            (k + 1) as nat,
                            |j: int| chunk_read(q[j], mask_begin as int, mask_end as int),
                        ));
                        k = k + 1;
                        assert(chunk_ids(seq![(index, range, layout)] + taken) =~= seq![(q[k - 1].0, q[k - 1].1)]
                            + chunk_ids(taken));
                    }
                    match read {
                        Err(e) => {
                            let r = Err(WalkError::Read(e));
                            proof {
                        reveal(walk_outcome);
                        assert(walk_outcome(q, self.layouts@, mask, mask_begin as int, mask_end as int, r, k));
                    }
                            self.last_walk = Ghost(k);
                            assert(self.reads@ =~= old(self).reads@ + walk_reads(q, k, mask, mask_begin as int, mask_end as int));
                            return r;
                        },
                        Ok(None) => {
                            let d = self.layouts.after_chunk_read((index, range, layout), ChunkRead::Nothing, mask_end);
                            if puts_back_now(d) {
                                let r = Ok(None);
                                proof {
                        reveal(walk_outcome);
                        assert(walk_outcome(q, self.layouts@, mask, mask_begin as int, mask_end as int, r, k));
                    }
                                self.last_walk = Ghost(k);
                                assert(self.reads@ =~= old(self).reads@ + walk_reads(q, k, mask, mask_begin as int, mask_end as int));
                                return r;
                            }
                        },
                        Ok(Some(BatchRead::ReadMore(m))) => {
                            self.layouts.after_chunk_read((index, range, layout), ChunkRead::ReadMore, mask_end);
                            let r = Ok(Some(m));
                            proof {
                        reveal(walk_outcome);
                        assert(walk_outcome(q, self.layouts@, mask, mask_begin as int, mask_end as int, r, k));
                    }
                            self.last_walk = Ghost(k);
                            assert(self.reads@ =~= old(self).reads@ + walk_reads(q, k, mask, mask_begin as int, mask_end as int));
                            return r;
                        },
                        Ok(Some(BatchRead::Batch(a))) => {
                            self.arrays.push(a);
                            assert(self.arrays@.subrange(0, arrays0.len() as int) =~= arrays0);
                            let d = self.layouts.after_chunk_read((index, range, layout), ChunkRead::Batch, mask_end);
                            if puts_back_now(d) {
                                let r = Ok(None);
                                proof {
                        reveal(walk_outcome);
                        assert(walk_outcome(q, self.layouts@, mask, mask_begin as int, mask_end as int, r, k));
                    }
                                self.last_walk = Ghost(k);
                                assert(self.reads@ =~= old(self).reads@ + walk_reads(q, k, mask, mask_begin as int, mask_end as int));
                                return r;
                            }
                        },
                    }
                },
            }
        }
    }
}

/// Pruning follows the metadata: when a read settles the metadata with pruning on, the chunk
/// mask it walks by is the batch that the metadata reader answered for the chunks
/// `[0, n_chunks)`, so the walk prunes the chunk at position `i` exactly when entry `i` of that
/// batch is `true`.
pub proof fn law_metadata_entry_decides_pruning<
    L: LayoutReader,
    R: LayoutReader<Batch = Vec<Option<bool>>, Messages = L::Messages, Error = L::Error>,
>(
    s: &mut BufferedLayoutReader<L, R>,
    mask_begin: usize,
    mask_end: usize,
    r: Result<Option<L::Messages>, WalkError<L::Error>>,
)
    requires
        call_ensures(BufferedLayoutReader::<L, R>::buffer_read, (s, mask_begin, mask_end), r),
    ensures
        old(s).spec_chunk_mask() is None && old(s).spec_prune() && final(s).spec_metadata()
            == Some(MetadataReader::<R>::Read) ==> match old(s).spec_metadata() {
            Some(MetadataReader::NotYetRead(reader)) => final(s).spec_chunk_mask() matches Some(m)
                && metadata_answered(reader, old(s).spec_n_chunks(), m) && (forall|i: int|
                #[trigger] prunes(Some(m), i) <==> 0 <= i < m.len() && m[i] == Some(true))
                && walk_outcome(
                old(s).spec_layouts().skip(
                    leading_before(old(s).spec_layouts(), mask_begin as int) as int,
                ),
                final(s).spec_layouts(),
                Some(m),
                mask_begin as int,
                mask_end as int,
                r,
                final(s).spec_last_walk(),
            ),
            _ => true,
        },
{
}

/// Whether a decision puts the chunk back, ending the walk.
fn puts_back_now(d: AfterRead) -> (r: bool)
    ensures
        r == puts_back(d),
{
    match d {
        AfterRead::PutBackAndRequestMore | AfterRead::KeepBatchPutBackAndStop
        | AfterRead::PutBackAndStop => true,
        _ => false,
    }
}

/// The rows `[mask_begin, mask_end)` that fall in the chunk with rows `[begin, end)`, as rows
/// of the chunk.
fn selection_in_chunk(begin: usize, end: usize, mask_begin: usize, mask_end: usize) -> (r: (
    usize,
    usize,
))
    ensures
        (r.0 as int, r.1 as int) == chunk_selection(
            begin as int,
            end as int,
            mask_begin as int,
            mask_end as int,
        ),
{
    let lo = if mask_begin > begin {
        mask_begin
    } else {
        begin
    };
    let hi = if mask_end < end {
        mask_end
    } else {
        end
    };
    if hi > lo {
        (lo - begin, hi - begin)
    } else {
        (lo - begin, lo - begin)
    }
}


/// The names of `required` that are neither in `known` nor earlier in `required`, in order.
pub open spec fn missing_names(known: Seq<Seq<char>>, required: Seq<Seq<char>>) -> Seq<Seq<char>>
    decreases required.len(),
{
    if required.len() == 0 {
        Seq::empty()
    } else {
        let front = missing_names(known, required.drop_last());
        let name = required.last();
        if known.contains(name) || front.contains(name) {
            front
        } else {
            front.push(name)
        }
    }
}

/// Whether `name` is one of `names`.
fn contains_name(names: &Vec<String>, name: &String) -> (r: bool)
    ensures
        r == name_texts(names@).contains(name@),
{
    let mut i: usize = 0;
    while i < names.len()
        invariant
            0 <= i <= names@.len(),
            forall|j: int| 0 <= j < i ==> #[trigger] name_texts(names@)[j] != name@,
        decreases names@.len() - i,
    {
        if names[i] == *name {
            assert(name_texts(names@)[i as int] == name@);
            return true;
        }
        i = i + 1;
    }
    false
}

/// The field names of the chunk statistics once the statistics that pruning needs but that
/// are missing are added, to be filled with nulls: the `known` names, then each name of
/// `required` that is not among them, once, in order.
pub fn null_filled_field_names(known: &Vec<String>, required: &Vec<String>) -> (r: Vec<String>)
    ensures
        name_texts(r@) == name_texts(known@) + missing_names(name_texts(known@), name_texts(required@)),
        ({
            let k = name_texts(known@);
            let q = name_texts(required@);
            let t = name_texts(r@);
            &&& t.len() >= k.len()
            &&& t.subrange(0, k.len() as int) == k
            &&& forall|i: int| 0 <= i < q.len() ==> t.contains(#[trigger] q[i])
            &&& forall|i: int| k.len() <= i < t.len() ==> q.contains(#[trigger] t[i]) && !k.contains(t[i])
            &&& forall|i: int, j: int| k.len() <= i < j < t.len() ==> #[trigger] t[i] != #[trigger] t[j]
        }),
{
    let ghost k = name_texts(known@);
    let ghost req = name_texts(required@);
    let mut r: Vec<String> = Vec::new();
    let mut i: usize = 0;
    while i < known.len()
        invariant
            0 <= i <= known@.len(),
            r@.len() == i,
            name_texts(r@) == k.subrange(0, i as int),
            k == name_texts(known@),
        decreases known@.len() - i,
    {
        let name = known[i].clone();
        assert(name@ == k[i as int]);
        let ghost before = r@;
        r.push(name);
        assert(r@ == before.push(name));
        assert forall|t: int| 0 <= t < i + 1 implies #[trigger] name_texts(r@)[t] == k.subrange(0, i + 1)[t] by {
            if t < i {
                assert(r@[t] == before[t]);
                assert(name_texts(before)[t] == k.subrange(0, i as int)[t]);
            }
        }
        assert(name_texts(r@) =~= k.subrange(0, i + 1));
        i = i + 1;
    }
    assert(k.subrange(0, k.len() as int) =~= k);
    let mut j: usize = 0;
    while j < required.len()
        invariant
            0 <= j <= required@.len(),
            k == name_texts(known@),
            req == name_texts(required@),
            name_texts(r@) == k + missing_names(k, req.subrange(0, j as int)),
        decreases required@.len() - j,
    {
        let ghost front = missing_names(k, req.subrange(0, j as int));
        assert(req.subrange(0, j + 1).drop_last() =~= req.subrange(0, j as int));
        assert(req.subrange(0, j + 1).last() == required@[j as int]@);
        proof {
            assert forall|x: Seq<char>| (k + front).contains(x) <==> (k.contains(x) || front.contains(x)) by {
                if (k + front).contains(x) {
                    let p = choose|p: int| 0 <= p < (k + front).len() && (k + front)[p] == x;
                    if p >= k.len() {
                        assert(front[p - k.len()] == x);
                    } else {
                        assert(k[p] == x);
                    }
                }
                if k.contains(x) {
                    let p = choose|p: int| 0 <= p < k.len() && k[p] == x;
                    assert((k + front)[p] == x);
                }
                if front.contains(x) {
                    let p = choose|p: int| 0 <= p < front.len() && front[p] == x;
                    assert((k + front)[k.len() + p] == x);
                }
            }
        }
        if !contains_name(&r, &required[j]) {
            let name = required[j].clone();
            assert(name@ == req[j as int]);
            let ghost before = r@;
            r.push(name);
            assert(r@ == before.push(name));
            assert forall|t: int| 0 <= t < before.len() implies #[trigger] name_texts(r@)[t] == name_texts(before)[t] by {
                assert(r@[t] == before[t]);
            }
            assert(name_texts(r@) =~= name_texts(before).push(name@));
            assert(name_texts(r@) =~= k + front.push(required@[j as int]@));
        }
        j = j + 1;
    }
    assert(req.subrange(0, req.len() as int) =~= req);
    proof {
        law_missing_names(k, req);
        let m = missing_names(k, req);
        let t = name_texts(r@);
        assert(t.subrange(0, k.len() as int) =~= k);
        assert forall|i: int| 0 <= i < req.len() implies t.contains(#[trigger] req[i]) by {
            if k.contains(req[i]) {
                let p = choose|p: int| 0 <= p < k.len() && k[p] == req[i];
                assert(t[p] == req[i]);
            } else {
                let p = choose|p: int| 0 <= p < m.len() && m[p] == req[i];
                assert(t[k.len() + p] == req[i]);
            }
        }
        assert forall|i: int| k.len() <= i < t.len() implies req.contains(#[trigger] t[i]) && !k.contains(t[i]) by {
            assert(t[i] == m[i - k.len()]);
        }
        assert forall|i: int, j: int| k.len() <= i < j < t.len() implies #[trigger] t[i] != #[trigger] t[j] by {
            assert(t[i] == m[i - k.len()]);
            assert(t[j] == m[j - k.len()]);
        }
    }
    r
}

/// The names to add to the known statistics are exactly those that pruning needs and that are
/// missing: every required name is known or added; each name added is required and not known;
/// and no name is added twice.
pub proof fn law_missing_names(known: Seq<Seq<char>>, required: Seq<Seq<char>>)
    ensures
        ({
            let m = missing_names(known, required);
            &&& forall|i: int| 0 <= i < required.len() ==> known.contains(#[trigger] required[i])
                || m.contains(required[i])
            &&& forall|i: int| 0 <= i < m.len() ==> required.contains(#[trigger] m[i]) && !known.contains(m[i])
            &&& forall|i: int, j: int| 0 <= i < j < m.len() ==> #[trigger] m[i] != #[trigger] m[j]
        }),
    decreases required.len(),
{
    if required.len() > 0 {
        let front_req = required.drop_last();
        let name = required.last();
        law_missing_names(known, front_req);
        let front = missing_names(known, front_req);
        let m = missing_names(known, required);
        assert forall|i: int| 0 <= i < required.len() implies known.contains(#[trigger] required[i])
            || m.contains(required[i]) by {
            if i < required.len() - 1 {
                assert(front_req[i] == required[i]);
                if front.contains(required[i]) {
                    let p = choose|p: int| 0 <= p < front.len() && front[p] == required[i];
                    assert(m[p] == required[i]);
                }
            } else if !known.contains(name) && !front.contains(name) {
                assert(m[front.len() as int] == name);
            } else if front.contains(name) {
                let p = choose|p: int| 0 <= p < front.len() && front[p] == name;
                assert(m[p] == name);
            }
        }
        assert forall|i: int| 0 <= i < m.len() implies required.contains(#[trigger] m[i]) && !known.contains(m[i]) by {
            if i < front.len() {
                assert(m[i] == front[i]);
                let p = choose|p: int| 0 <= p < front_req.len() && front_req[p] == front[i];
                assert(required[p] == front[i]);
            } else {
                assert(m[i] == name);
                assert(required[required.len() - 1] == name);
            }
        }
        assert forall|i: int, j: int| 0 <= i < j < m.len() implies #[trigger] m[i] != #[trigger] m[j] by {
            if j >= front.len() {
                assert(m[j] == name);
                assert(m[i] == front[i]);
                assert(front.contains(front[i]));
            }
        }
    }
}
} // verus!
