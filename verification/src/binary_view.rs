//! Sixteen-byte views into variable-length binary data, and the re-basing of their buffer
//! indices when their data buffers are appended after others.
//!
//! A view is little-endian: its low 32 bits hold the length of the value. A value of at
//! most 12 bytes is held inline in the remaining 12 bytes; a longer one is referenced by
//! its first four bytes (the prefix, bits 32..64), the index of the buffer holding it
//! (bits 64..96), and its offset in that buffer (bits 96..128).

use vstd::prelude::*;

verus! {

/// The longest value held inline in a view.
pub const MAX_INLINED_SIZE: u32 = 12;

/// All bits of a view but its buffer index.
pub const BLOCK_CLEAR_MASK: u128 = 0xFFFF_FFFF_0000_0000_FFFF_FFFF_FFFF_FFFF;

/// Length of the value a view describes.
pub open spec fn view_size(v: u128) -> u32 {
    (v & 0xFFFF_FFFFu128) as u32
}

/// The four prefix bytes of a referencing view, read as a little-endian word.
pub open spec fn view_prefix(v: u128) -> u32 {
    ((v >> 32u128) & 0xFFFF_FFFFu128) as u32
}

/// The buffer index of a referencing view.
pub open spec fn view_block(v: u128) -> u32 {
    ((v >> 64u128) & 0xFFFF_FFFFu128) as u32
}

/// The offset within its buffer of a referencing view.
pub open spec fn view_offset(v: u128) -> u32 {
    ((v >> 96u128) & 0xFFFF_FFFFu128) as u32
}

/// Whether a view holds its value inline.
pub open spec fn view_is_inlined(v: u128) -> bool {
    view_size(v) <= MAX_INLINED_SIZE
}

/// A four-byte prefix read as a little-endian word.
pub open spec fn prefix_word(p: Seq<u8>) -> u32 {
    (p[0] as u32) | ((p[1] as u32) << 8u32) | ((p[2] as u32) << 16u32) | ((p[3] as u32) << 24u32)
}

/// The bits of a referencing view with the given fields.
pub open spec fn compose_view(size: u32, prefix: u32, block: u32, offset: u32) -> u128 {
    (size as u128) | ((prefix as u128) << 32u128) | ((block as u128) << 64u128) | ((offset as u128)
        << 96u128)
}

/// The inline data bytes `data[0..n]` placed at bytes 4.. of a view.
pub open spec fn inline_data(data: Seq<u8>, n: nat) -> u128
    decreases n,
{
    if n == 0 {
        0
    } else {
        inline_data(data, (n - 1) as nat) | ((data[n - 1] as u128) << ((32 + 8 * (n - 1))
            as u128))
    }
}

/// A view whose buffer index is moved up by `offset`, field by field: inline views are
/// unchanged.
pub open spec fn rebased_view(v: u128, offset: u32) -> u128 {
    if view_is_inlined(v) {
        v
    } else {
        compose_view(view_size(v), view_prefix(v), (view_block(v) + offset) as u32, view_offset(v))
    }
}

/// A view whose buffer-index bits are overwritten in place with the index moved up by
/// `offset` (or with the same bits, for an inline view).
pub open spec fn relabeled_view(v: u128, offset: u32) -> u128 {
    let block: u32 = if view_is_inlined(v) {
        view_block(v)
    } else {
        (view_block(v) + offset) as u32
    };
    (v & BLOCK_CLEAR_MASK) | ((block as u128) << 64u128)
}

/// Moving the buffer index up by `offset` cannot overflow for any referencing view.
pub open spec fn rebase_fits(views: Seq<BinaryView>, offset: u32) -> bool {
    forall|i: int|
        0 <= i < views.len() && !view_is_inlined(#[trigger] views[i]@) ==> view_block(views[i]@)
            + offset <= u32::MAX
}

/// A sixteen-byte view of a binary value: inline, or a reference into a data buffer.
#[derive(Clone, Copy, Debug, PartialEq, Eq)]
pub struct BinaryView {
    value: u128,
}

/// The fields of a referencing view.
#[derive(Clone, Copy, Debug, PartialEq, Eq)]
pub struct Ref {
    size: u32,
    prefix: [u8; 4],
    buffer_index: u32,
    offset: u32,
}

impl View for BinaryView {
    type V = u128;

    closed spec fn view(&self) -> u128 {
        self.value
    }
}

impl Ref {
    /// Length of the referenced value.
    pub fn size(&self) -> (r: u32)
        ensures
            r == self.fields().0,
    {
        self.size
    }

    /// The first four bytes of the referenced value.
    pub fn prefix(&self) -> (r: &[u8; 4])
        ensures
            r@ == self.fields().1,
    {
        &self.prefix
    }

    /// The index of the buffer holding the value.
    pub fn buffer_index(&self) -> (r: u32)
        ensures
            r == self.fields().2,
    {
        self.buffer_index
    }

    /// The offset of the value within its buffer.
    pub fn offset(&self) -> (r: u32)
        ensures
            r == self.fields().3,
    {
        self.offset
    }

    /// The fields of this reference.
    pub closed spec fn fields(&self) -> (u32, Seq<u8>, u32, u32) {
        (self.size, self.prefix@, self.buffer_index, self.offset)
    }
}

/// Reading a composed view back gives its fields.
proof fn lemma_compose_fields(size: u32, prefix: u32, block: u32, offset: u32)
    by (bit_vector)
    ensures
        view_size(compose_view(size, prefix, block, offset)) == size,
        view_prefix(compose_view(size, prefix, block, offset)) == prefix,
        view_block(compose_view(size, prefix, block, offset)) == block,
        view_offset(compose_view(size, prefix, block, offset)) == offset,
{
}

/// The little-endian bytes of a word.
pub open spec fn word_bytes(w: u32) -> Seq<u8> {
    seq![
        (w & 0xFFu32) as u8,
        ((w >> 8u32) & 0xFFu32) as u8,
        ((w >> 16u32) & 0xFFu32) as u8,
        ((w >> 24u32) & 0xFFu32) as u8,
    ]
}

/// Reading four bytes as a little-endian word and splitting it again gives the bytes.
proof fn lemma_bytes_roundtrip(a: u8, b: u8, c: u8, d: u8)
    by (bit_vector)
    ensures
        ({
            let w = (a as u32) | ((b as u32) << 8u32) | ((c as u32) << 16u32) | ((d as u32)
                << 24u32);
            &&& (w & 0xFFu32) as u8 == a
            &&& ((w >> 8u32) & 0xFFu32) as u8 == b
            &&& ((w >> 16u32) & 0xFFu32) as u8 == c
            &&& ((w >> 24u32) & 0xFFu32) as u8 == d
        }),
{
}

/// A view made by `new_view` reads back, through `len` and `as_view`, the length, prefix,
/// buffer index and offset it was made with.
pub proof fn law_new_view_reads_back(len: u32, prefix: Seq<u8>, block: u32, offset: u32)
    requires
        prefix.len() == 4,
    ensures
        ({
            let v = compose_view(len, prefix_word(prefix), block, offset);
            &&& view_size(v) == len
            &&& word_bytes(view_prefix(v)) == prefix
            &&& view_block(v) == block
            &&& view_offset(v) == offset
        }),
{
    lemma_compose_fields(len, prefix_word(prefix), block, offset);
    lemma_bytes_roundtrip(prefix[0], prefix[1], prefix[2], prefix[3]);
    assert(word_bytes(prefix_word(prefix)) =~= prefix);
}

/// A view is the composition of its own fields.
proof fn lemma_view_recompose(v: u128)
    by (bit_vector)
    ensures
        compose_view(view_size(v), view_prefix(v), view_block(v), view_offset(v)) == v,
{
}

/// Splitting a word into little-endian bytes and reading them back gives the word.
proof fn lemma_prefix_roundtrip(w: u32)
    by (bit_vector)
    ensures
        (((w & 0xFFu32) as u8) as u32) | ((((w >> 8u32) & 0xFFu32) as u8 as u32) << 8u32) | ((((w
            >> 16u32) & 0xFFu32) as u8 as u32) << 16u32) | ((((w >> 24u32) & 0xFFu32) as u8
            as u32) << 24u32) == w,
{
}

/// Overwriting the buffer-index bits of a view equals recomposing it with a new index.
proof fn lemma_relabel_is_compose(v: u128, block: u32)
    by (bit_vector)
    ensures
        (v & 0xFFFF_FFFF_0000_0000_FFFF_FFFF_FFFF_FFFFu128) | ((block as u128) << 64u128)
            == compose_view(view_size(v), view_prefix(v), block, view_offset(v)),
{
}

impl BinaryView {
    /// A view holding `value` inline.
    ///
    /// The value must be at most 12 bytes long.
    pub fn new_inlined(value: &[u8]) -> (r: Self)
        requires
            value@.len() <= MAX_INLINED_SIZE,
        ensures
            r@ == (value@.len() as u128) | inline_data(value@, value@.len()),
            view_size(r@) == value@.len(),
            view_is_inlined(r@),
    {
        let n = value.len();
        let mut data: u128 = 0;
        let mut i: usize = 0;
        assert(0u128 & 0xFFFF_FFFFu128 == 0) by (bit_vector);
        assert(0u128 < (1u128 << 32u128)) by (bit_vector);
        while i < n
            invariant
                n == value@.len(),
                n <= 12,
                0 <= i <= n,
                data == inline_data(value@, i as nat),
                i < 12 ==> data < (1u128 << ((32 + 8 * i) as u128)),
                data & 0xFFFF_FFFFu128 == 0,
            decreases n - i,
        {
            let byte = value[i];
            let shift = (32 + 8 * i) as u128;
            proof {
                lemma_inline_step(data, byte, shift);
            }
            data = data | ((byte as u128) << shift);
            i = i + 1;
        }
        let r = BinaryView { value: (n as u128) | data };
        proof {
            lemma_size_of_inline(n as u128, data);
        }
        r
    }

    /// A view referencing a value of `len` bytes with the given prefix, at `offset` in buffer
    /// `block`.
    pub fn new_view(len: u32, prefix: [u8; 4], block: u32, offset: u32) -> (r: Self)
        ensures
            r@ == compose_view(len, prefix_word(prefix@), block, offset),
    {
        let p = (prefix[0] as u32) | ((prefix[1] as u32) << 8u32) | ((prefix[2] as u32) << 16u32)
            | ((prefix[3] as u32) << 24u32);
        let value = (len as u128) | ((p as u128) << 32u128) | ((block as u128) << 64u128) | ((
        offset as u128) << 96u128);
        BinaryView { value }
    }

    /// Length of the value this view describes.
    pub fn len(&self) -> (r: u32)
        ensures
            r == view_size(self@),
    {
        (self.value & 0xFFFF_FFFFu128) as u32
    }

    /// Whether the value is held inline.
    pub fn is_inlined(&self) -> (r: bool)
        ensures
            r == view_is_inlined(self@),
    {
        self.len() <= MAX_INLINED_SIZE
    }

    /// The fields of this view read as a reference into a data buffer.
    pub fn as_view(&self) -> (r: Ref)
        ensures
            r.fields().0 == view_size(self@),
            r.fields().1 == word_bytes(view_prefix(self@)),
            prefix_word(r.fields().1) == view_prefix(self@),
            r.fields().2 == view_block(self@),
            r.fields().3 == view_offset(self@),
    {
        let w = ((self.value >> 32u128) & 0xFFFF_FFFFu128) as u32;
        let prefix: [u8; 4] = [
            (w & 0xFFu32) as u8,
            ((w >> 8u32) & 0xFFu32) as u8,
            ((w >> 16u32) & 0xFFu32) as u8,
            ((w >> 24u32) & 0xFFu32) as u8,
        ];
        proof {
            lemma_prefix_roundtrip(w);
        }
        assert(prefix@ =~= word_bytes(w));
        Ref {
            size: (self.value & 0xFFFF_FFFFu128) as u32,
            prefix,
            buffer_index: ((self.value >> 64u128) & 0xFFFF_FFFFu128) as u32,
            offset: ((self.value >> 96u128) & 0xFFFF_FFFFu128) as u32,
        }
    }

    /// The sixteen bytes of this view as a little-endian integer.
    pub fn as_u128(&self) -> (r: u128)
        ensures
            r == self@,
    {
        self.value
    }

    /// The view whose sixteen bytes are the little-endian integer `value`.
    pub fn from_u128(value: u128) -> (r: Self)
        ensures
            r@ == value,
    {
        BinaryView { value }
    }
}

/// One more inline byte keeps the low word clear and stays below the next byte position.
proof fn lemma_inline_step(data: u128, byte: u8, shift: u128)
    by (bit_vector)
    requires
        32 <= shift <= 120,
        shift % 8 == 0,
        data < (1u128 << shift),
        data & 0xFFFF_FFFFu128 == 0,
    ensures
        (data | ((byte as u128) << shift)) & 0xFFFF_FFFFu128 == 0,
        shift < 120 ==> (data | ((byte as u128) << shift)) < (1u128 << ((shift + 8) as u128)),
{
}

/// Placing a length in the clear low word of inline data reads back as that length.
proof fn lemma_size_of_inline(n: u128, data: u128)
    by (bit_vector)
    requires
        n <= 12,
        data & 0xFFFF_FFFFu128 == 0,
    ensures
        ((n | data) & 0xFFFF_FFFFu128) as u32 == n as u32,
{
}

/// Re-base the buffer index of every referencing view by `offset`, rebuilding each such view
/// from its fields; inline views are kept as they are.
pub fn map_views(iter: Vec<BinaryView>, offset: u32) -> (r: Vec<BinaryView>)
    requires
        rebase_fits(iter@, offset),
    ensures
        r@.len() == iter@.len(),
        forall|i: int| 0 <= i < iter@.len() ==> #[trigger] r@[i]@ == rebased_view(iter@[i]@, offset),
{
    let n = iter.len();
    let mut out: Vec<BinaryView> = Vec::with_capacity(n);
    let mut i: usize = 0;
    while i < n
        invariant
            n == iter@.len(),
            0 <= i <= n,
            rebase_fits(iter@, offset),
            out@.len() == i,
            forall|j: int| 0 <= j < i ==> #[trigger] out@[j]@ == rebased_view(iter@[j]@, offset),
        decreases n - i,
    {
        let view = iter[i];
        let mapped = if view.is_inlined() {
            view
        } else {
            let view_ref = view.as_view();
            BinaryView::new_view(
                view_ref.size(),
                *view_ref.prefix(),
                offset + view_ref.buffer_index(),
                view_ref.offset(),
            )
        };
        out.push(mapped);
        i = i + 1;
    }
    out
}

/// Re-base the buffer index of every referencing view by `offset`, overwriting the index bits
/// of each view in place; inline views keep their bits.
pub fn map_views_crazy(iter: Vec<BinaryView>, offset: u32) -> (r: Vec<BinaryView>)
    requires
        rebase_fits(iter@, offset),
    ensures
        r@.len() == iter@.len(),
        forall|i: int|
            0 <= i < iter@.len() ==> #[trigger] r@[i]@ == relabeled_view(iter@[i]@, offset),
{
    let n = iter.len();
    let mut out: Vec<BinaryView> = Vec::with_capacity(n);
    let mut i: usize = 0;
    while i < n
        invariant
            n == iter@.len(),
            0 <= i <= n,
            rebase_fits(iter@, offset),
            out@.len() == i,
            forall|j: int|
                0 <= j < i ==> #[trigger] out@[j]@ == relabeled_view(iter@[j]@, offset),
        decreases n - i,
    {
        let view = iter[i];
        let value = view.as_u128();
        let block = ((value >> 64u128) & 0xFFFF_FFFFu128) as u32;
        let block = if view.is_inlined() {
            block
        } else {
            block + offset
        };
        let v = (value & BLOCK_CLEAR_MASK) | ((block as u128) << 64u128);
        out.push(BinaryView::from_u128(v));
        i = i + 1;
    }
    out
}

/// Re-basing a view by `a` and then by `b` equals re-basing it once by `a + b`, and re-basing
/// by 0 leaves it as it is, whenever the indices fit.
pub proof fn law_rebase_composes(v: u128, a: u32, b: u32)
    requires
        a + b <= u32::MAX,
        !view_is_inlined(v) ==> view_block(v) + a + b <= u32::MAX,
    ensures
        rebased_view(rebased_view(v, a), b) == rebased_view(v, (a + b) as u32),
        rebased_view(v, 0) == v,
{
    lemma_view_recompose(v);
    if !view_is_inlined(v) {
        lemma_compose_fields(view_size(v), view_prefix(v), (view_block(v) + a) as u32, view_offset(v));
    }
}

/// Mapping views by `a` and then by `b` gives the views that mapping once by `a + b` gives,
/// and mapping by 0 gives the views back, whenever every new buffer index fits.
pub proof fn law_map_views_compose(views: Seq<BinaryView>, a: u32, b: u32)
    requires
        a + b <= u32::MAX,
        forall|i: int|
            0 <= i < views.len() && !view_is_inlined(#[trigger] views[i]@) ==> view_block(views[i]@)
                + a + b <= u32::MAX,
    ensures
        forall|i: int|
            0 <= i < views.len() ==> rebased_view(rebased_view(#[trigger] views[i]@, a), b)
                == rebased_view(views[i]@, (a + b) as u32),
        forall|i: int| 0 <= i < views.len() ==> rebased_view(#[trigger] views[i]@, 0) == views[i]@,
{
    assert forall|i: int| 0 <= i < views.len() implies rebased_view(
        rebased_view(#[trigger] views[i]@, a),
        b,
    ) == rebased_view(views[i]@, (a + b) as u32) && rebased_view(views[i]@, 0) == views[i]@ by {
        law_rebase_composes(views[i]@, a, b);
    }
}

/// Re-basing a view field by field and overwriting its index bits in place give the same
/// sixteen bytes, whenever the new index fits.
pub proof fn law_rebase_methods_agree(v: u128, offset: u32)
    requires
        !view_is_inlined(v) ==> view_block(v) + offset <= u32::MAX,
    ensures
        rebased_view(v, offset) == relabeled_view(v, offset),
{
    if view_is_inlined(v) {
        lemma_relabel_is_compose(v, view_block(v));
        lemma_view_recompose(v);
    } else {
        lemma_relabel_is_compose(v, (view_block(v) + offset) as u32);
    }
}

/// `map_views` and `map_views_crazy` compute the same views: for every list of views whose
/// re-based indices fit, the two results agree element by element.
pub proof fn law_map_views_agree(views: Seq<BinaryView>, offset: u32)
    requires
        rebase_fits(views, offset),
    ensures
        forall|i: int|
            0 <= i < views.len() ==> rebased_view(#[trigger] views[i]@, offset) == relabeled_view(
                views[i]@,
                offset,
            ),
{
    assert forall|i: int| 0 <= i < views.len() implies rebased_view(
        #[trigger] views[i]@,
        offset,
    ) == relabeled_view(views[i]@, offset) by {
        law_rebase_methods_agree(views[i]@, offset);
    }
}

/// Every index picks one of the views.
pub open spec fn indices_in_range(views: Seq<BinaryView>, indices: Seq<usize>) -> bool {
    forall|i: int| 0 <= i < indices.len() ==> #[trigger] indices[i] < views.len()
}

/// The views at `indices`, in order.
pub open spec fn taken_views(views: Seq<BinaryView>, indices: Seq<usize>) -> Seq<u128> {
    Seq::new(indices.len(), |i: int| views[indices[i] as int]@)
}

/// The views at `indices`, in order.
///
/// Every index must pick one of the views.
pub fn take_views(views: &[BinaryView], indices: &[usize]) -> (r: Vec<BinaryView>)
    requires
        indices_in_range(views@, indices@),
    ensures
        r@.len() == indices@.len(),
        forall|i: int| 0 <= i < indices@.len() ==> #[trigger] r@[i]@ == taken_views(views@, indices@)[i],
{
    let n = indices.len();
    let mut out: Vec<BinaryView> = Vec::with_capacity(n);
    let mut i: usize = 0;
    while i < n
        invariant
            n == indices@.len(),
            0 <= i <= n,
            indices_in_range(views@, indices@),
            out@.len() == i,
            forall|j: int| 0 <= j < i ==> #[trigger] out@[j]@ == taken_views(views@, indices@)[j],
        decreases n - i,
    {
        let idx = indices[i];
        out.push(views[idx]);
        i = i + 1;
    }
    out
}

/// The views at `indices`, in order, for indices that are known to pick views (the caller's
/// guarantee replaces the bounds check).
pub fn take_views_unchecked(views: &[BinaryView], indices: &[usize]) -> (r: Vec<BinaryView>)
    requires
        indices_in_range(views@, indices@),
    ensures
        r@.len() == indices@.len(),
        forall|i: int| 0 <= i < indices@.len() ==> #[trigger] r@[i]@ == taken_views(views@, indices@)[i],
{
    let n = indices.len();
    let mut out: Vec<BinaryView> = Vec::with_capacity(n);
    let mut i: usize = 0;
    while i < n
        invariant
            n == indices@.len(),
            0 <= i <= n,
            indices_in_range(views@, indices@),
            out@.len() == i,
            forall|j: int| 0 <= j < i ==> #[trigger] out@[j]@ == taken_views(views@, indices@)[j],
        decreases n - i,
    {
        out.push(views[indices[i]]);
        i = i + 1;
    }
    out
}

/// Why views could not be taken into a builder.
#[derive(Clone, Copy, Debug, PartialEq, Eq)]
pub enum TakeError {
    /// The builder already holds more data buffers than a view can index.
    TooManyBuffers(usize),
}

/// Re-basing the buffer index of every taken referencing view by `offset` cannot overflow.
pub open spec fn taken_rebase_fits(views: Seq<BinaryView>, indices: Seq<usize>, offset: int) -> bool {
    forall|i: int|
        0 <= i < indices.len() && !view_is_inlined(#[trigger] views[indices[i] as int]@)
            ==> view_block(views[indices[i] as int]@) + offset <= u32::MAX
}

/// The views at `indices`, re-based for appending after a builder's `completed_buffers` data
/// buffers: referencing views get their buffer index moved up by `completed_buffers`.
///
/// Fails when `completed_buffers` does not fit a buffer index.
fn adjusted_views(views: &[BinaryView], indices: &[usize], completed_buffers: usize) -> (r:
    Result<Vec<BinaryView>, TakeError>)
    requires
        indices_in_range(views@, indices@),
        completed_buffers <= u32::MAX ==> taken_rebase_fits(
            views@,
            indices@,
            completed_buffers as int,
        ),
    ensures
        completed_buffers > u32::MAX ==> r == Err::<Vec<BinaryView>, TakeError>(
            TakeError::TooManyBuffers(completed_buffers),
        ),
        completed_buffers <= u32::MAX ==> (r matches Ok(out) && out@.len() == indices@.len()
            && forall|i: int|
            0 <= i < indices@.len() ==> #[trigger] out@[i]@ == rebased_view(
                views@[indices@[i] as int]@,
                completed_buffers as u32,
            )),
{
    let buffers_offset: u32 = match u32::try_from(completed_buffers) {
        Ok(o) => o,
        Err(_) => return Err(TakeError::TooManyBuffers(completed_buffers)),
    };
    let n = indices.len();
    let mut out: Vec<BinaryView> = Vec::with_capacity(n);
    let mut i: usize = 0;
    while i < n
        invariant
            n == indices@.len(),
            0 <= i <= n,
            indices_in_range(views@, indices@),
            buffers_offset == completed_buffers,
            taken_rebase_fits(views@, indices@, buffers_offset as int),
            out@.len() == i,
            forall|j: int|
                0 <= j < i ==> #[trigger] out@[j]@ == rebased_view(
                    views@[indices@[j] as int]@,
                    buffers_offset,
                ),
        decreases n - i,
    {
        let view = views[indices[i]];
        let mapped = if view.is_inlined() {
            view
        } else {
            let view_ref = view.as_view();
            BinaryView::new_view(
                view.len(),
                *view_ref.prefix(),
                buffers_offset + view_ref.buffer_index(),
                view_ref.offset(),
            )
        };
        out.push(mapped);
        i = i + 1;
    }
    Ok(out)
}


/// A builder of an array of views: its completed data buffers, its views and the validity of
/// each view.
pub struct VarBinViewBuilder<B> {
    completed: Vec<B>,
    views: Vec<BinaryView>,
    validity: Vec<bool>,
}

impl<B> VarBinViewBuilder<B> {
    /// The completed data buffers.
    pub closed spec fn spec_completed(&self) -> Seq<B> {
        self.completed@
    }

    /// The views pushed so far.
    pub closed spec fn spec_views(&self) -> Seq<BinaryView> {
        self.views@
    }

    /// The validity of each view pushed so far.
    pub closed spec fn spec_validity(&self) -> Seq<bool> {
        self.validity@
    }

    /// An empty builder.
    pub fn new() -> (r: Self)
        ensures
            r.spec_completed().len() == 0,
            r.spec_views().len() == 0,
            r.spec_validity().len() == 0,
    {
        VarBinViewBuilder { completed: Vec::new(), views: Vec::new(), validity: Vec::new() }
    }

    /// The number of completed data buffers.
    pub fn completed_block_count(&self) -> (r: usize)
        ensures
            r == self.spec_completed().len(),
    {
        self.completed.len()
    }

    /// The completed data buffers.
    pub fn completed(&self) -> (r: &[B])
        ensures
            r@ == self.spec_completed(),
    {
        self.completed.as_slice()
    }

    /// The views pushed so far.
    pub fn views(&self) -> (r: &[BinaryView])
        ensures
            r@ == self.spec_views(),
    {
        self.views.as_slice()
    }

    /// The validity of each view pushed so far.
    pub fn validity(&self) -> (r: &[bool])
        ensures
            r@ == self.spec_validity(),
    {
        self.validity.as_slice()
    }

    /// Append the data buffers `buffers`, then the views `views` with their validity `mask`.
    pub fn push_buffer_and_adjusted_views(
        &mut self,
        buffers: Vec<B>,
        views: Vec<BinaryView>,
        mask: Vec<bool>,
    )
        ensures
            final(self).spec_completed() == old(self).spec_completed() + buffers@,
            final(self).spec_views() == old(self).spec_views() + views@,
            final(self).spec_validity() == old(self).spec_validity() + mask@,
    {
        let mut buffers = buffers;
        let mut views = views;
        let mut mask = mask;
        self.completed.append(&mut buffers);
        self.views.append(&mut views);
        self.validity.append(&mut mask);
    }
}

/// Take the views at `indices` into `builder`, after the data buffers `buffers` they refer to:
/// each referencing view gets its buffer index moved up by the number of buffers the builder
/// had completed before, and each view the validity `mask` gives it.
///
/// Fails, leaving the builder as it was, when that number does not fit a buffer index.
pub fn take_views_into<B>(
    views: &[BinaryView],
    buffers: Vec<B>,
    indices: &[usize],
    mask: Vec<bool>,
    builder: &mut VarBinViewBuilder<B>,
) -> (r: Result<(), TakeError>)
    requires
        indices_in_range(views@, indices@),
        mask@.len() == indices@.len(),
        old(builder).spec_completed().len() <= u32::MAX ==> taken_rebase_fits(
            views@,
            indices@,
            old(builder).spec_completed().len() as int,
        ),
    ensures
        ({
            let offset = old(builder).spec_completed().len();
            &&& offset > u32::MAX ==> r == Err::<(), TakeError>(TakeError::TooManyBuffers(offset as usize))
                && *final(builder) == *old(builder)
            &&& offset <= u32::MAX ==> r is Ok && final(builder).spec_completed() == old(
                builder,
            ).spec_completed() + buffers@ && final(builder).spec_validity() == old(
                builder,
            ).spec_validity() + mask@ && final(builder).spec_views().len() == old(
                builder,
            ).spec_views().len() + indices@.len() && final(builder).spec_views().subrange(
                0,
                old(builder).spec_views().len() as int,
            ) == old(builder).spec_views() && forall|i: int|
                0 <= i < indices@.len() ==> #[trigger] final(builder).spec_views()[old(
                    builder,
                ).spec_views().len() + i]@ == rebased_view(
                    views@[indices@[i] as int]@,
                    offset as u32,
                )
        }),
{
    let completed = builder.completed_block_count();
    match adjusted_views(views, indices, completed) {
        Err(e) => Err(e),
        Ok(adjusted) => {
            let ghost before = builder.spec_views();
            builder.push_buffer_and_adjusted_views(buffers, adjusted, mask);
            assert(builder.spec_views().subrange(0, before.len() as int) =~= before);
            Ok(())
        },
    }
}
} // verus!
