//! The stream and flush logic of a streaming compressor: compressing a stream of arrays chunk
//! by chunk with the compressor chosen for the current run, and flushing what that compressor
//! still holds when the stream ends.

use vstd::prelude::*;

verus! {

/// What the stream of arrays to compress handed out next.
#[derive(Clone, Copy, Debug, PartialEq, Eq)]
pub enum StreamItem {
    /// The next chunk.
    Chunk,
    /// A failed chunk.
    Failed,
    /// The end of the stream.
    End,
}

/// What compressing the stream does with an item.
#[derive(Clone, Copy, Debug, PartialEq, Eq)]
pub enum StreamAction {
    /// Compress the chunk; hand out the result if there is one, else take the next item.
    Compress,
    /// End the compressed stream.
    Stop,
    /// Flush the current compressor and hand out what it held.
    Flush,
}

/// Decide what compressing the stream does with the item `item`: a chunk is compressed, a
/// failed chunk ends the stream, and the end of the stream flushes the current compressor.
pub fn stream_action(item: StreamItem) -> (r: StreamAction)
    ensures
        r == match item {
            StreamItem::Chunk => StreamAction::Compress,
            StreamItem::Failed => StreamAction::Stop,
            StreamItem::End => StreamAction::Flush,
        },
{
    match item {
        StreamItem::Chunk => StreamAction::Compress,
        StreamItem::Failed => StreamAction::Stop,
        StreamItem::End => StreamAction::Flush,
    }
}

/// A compressor for one encoding, implemented by the users of this library.
pub trait EncodingCompressor {
    /// A compressed array.
    type Array;
    /// A failure.
    type Error;

    /// Hand out whatever this compressor still holds, compressed.
    fn flush(&mut self) -> Result<Option<Self::Array>, Self::Error>;
}

/// `r` is a result that flushing the compressor `held` gives: some call of `flush` on it
/// returned `r`.
pub open spec fn flush_result_of<C: EncodingCompressor>(
    held: C,
    r: Result<Option<C::Array>, C::Error>,
) -> bool {
    exists|c: &mut C| #![trigger call_ensures(C::flush, (c,), r)] *c == held && call_ensures(C::flush, (c,), r)
}

/// A compressor of a stream of arrays, holding the compressor chosen for the current run.
pub struct StreamingCompressor<C> {
    current_compressor: Option<C>,
}

impl<C: EncodingCompressor> StreamingCompressor<C> {
    /// Whether a compressor is chosen for the current run.
    pub closed spec fn has_current(&self) -> bool {
        self.current_compressor is Some
    }

    /// The compressor chosen for the current run, if any.
    pub closed spec fn spec_current(&self) -> Option<C> {
        self.current_compressor
    }

    /// A streaming compressor whose current run uses `current`, if any.
    pub fn new(current: Option<C>) -> (r: Self)
        ensures
            r.has_current() == current is Some,
            r.spec_current() == current,
    {
        StreamingCompressor { current_compressor: current }
    }

    /// Flush the current compressor, if any, and end its run: its output, or nothing when no
    /// compressor is chosen.
    pub fn flush(&mut self) -> (r: Result<Option<C::Array>, C::Error>)
        ensures
            !final(self).has_current(),
            !old(self).has_current() ==> r matches Ok(None),
            old(self).spec_current() matches Some(held) ==> flush_result_of(held, r),
    {
        let mut current: Option<C> = None;
        std::mem::swap(&mut current, &mut self.current_compressor);
        match current {
            None => Ok(None),
            Some(mut compressor) => compressor.flush(),
        }
    }
}

/// What a dictionary compressor's flush does.
#[derive(Clone, Copy, Debug, PartialEq, Eq)]
pub enum DictFlush {
    /// No indices are held: nothing to hand out.
    Nothing,
    /// Build a dictionary array of the held indices over the dictionary, and hand it out.
    Build,
}

/// Decide a dictionary compressor's flush, holding `n_indices` index arrays; indices are only
/// ever held together with a dictionary.
pub fn dict_flush_plan(n_indices: usize, has_dictionary: bool) -> (r: DictFlush)
    requires
        n_indices > 0 ==> has_dictionary,
    ensures
        r == if n_indices == 0 {
            DictFlush::Nothing
        } else {
            DictFlush::Build
        },
{
    if n_indices == 0 {
        DictFlush::Nothing
    } else {
        DictFlush::Build
    }
}

/// Flushing a streaming compressor hands out what flushing the compressor it holds gives, as
/// it is (its output, nothing, or its failure), and ends the run; without a compressor it hands
/// out nothing.
pub proof fn law_flush_passes_on_the_result<C: EncodingCompressor>(
    s: &mut StreamingCompressor<C>,
    r: Result<Option<C::Array>, C::Error>,
)
    requires
        call_ensures(StreamingCompressor::<C>::flush, (s,), r),
    ensures
        match old(s).spec_current() {
            Some(held) => flush_result_of(held, r),
            None => r matches Ok(None),
        },
{
}

} // verus!
