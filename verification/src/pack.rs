//! Packing every buffer view's bytes into one contiguous 4-byte-aligned
//! buffer, rewriting the views' offsets as it goes.

use vstd::prelude::*;
use crate::blob::BlobMap;
use crate::error::{Error, ErrorView};
use crate::gltf::{
    buffer_data_spec, datas_view, view_slice_spec, GltfBuffer, GltfBufferView, U8VecOrSlice,
};
use crate::index::GltfIndex;
use crate::outside::json_null;

verus! {

/// The zero padding needed to bring a length to the next multiple of 4.
pub open spec fn pad4(n: int) -> int {
    if n % 4 == 0 {
        0
    } else {
        4 - n % 4
    }
}

/// `n` rounded up to the next multiple of 4.
pub open spec fn align4(n: int) -> int {
    n + pad4(n)
}

/// `n` zero bytes.
pub open spec fn zero_bytes(n: int) -> Seq<u8> {
    Seq::new(n as nat, |i: int| 0u8)
}

/// The length of the buffer that packs the given byte slices: each slice
/// appended in order, the total padded to 4 bytes after each.
pub open spec fn packed_len(datas: Seq<Seq<u8>>) -> int
    decreases datas.len(),
{
    if datas.len() == 0 {
        0
    } else {
        align4(packed_len(datas.drop_last()) + datas.last().len())
    }
}

/// The packed buffer itself: the slices in order, each followed by its zero
/// padding.
pub open spec fn packed_bytes(datas: Seq<Seq<u8>>) -> Seq<u8>
    decreases datas.len(),
{
    if datas.len() == 0 {
        Seq::empty()
    } else {
        let front = packed_bytes(datas.drop_last());
        front + datas.last() + zero_bytes(pad4(front.len() + datas.last().len() as int))
    }
}

/// The sum of the slices' lengths, without padding.
pub open spec fn total_data_len(datas: Seq<Seq<u8>>) -> int
    decreases datas.len(),
{
    if datas.len() == 0 {
        0
    } else {
        total_data_len(datas.drop_last()) + datas.last().len()
    }
}

/// The total padding the packer inserts for the given slices.
pub open spec fn total_padding(datas: Seq<Seq<u8>>) -> int
    decreases datas.len(),
{
    if datas.len() == 0 {
        0
    } else {
        total_padding(datas.drop_last()) + pad4(
            packed_len(datas.drop_last()) + datas.last().len(),
        )
    }
}

/// Alignment padding is at most 3 bytes and lands exactly on a multiple of
/// 4.
pub proof fn lemma_align4(n: int)
    requires
        n >= 0,
    ensures
        n <= align4(n) < n + 4,
        align4(n) % 4 == 0,
{
}

/// A packed buffer's length is `packed_len`, and is always a multiple of 4.
pub proof fn lemma_packed_bytes_len(datas: Seq<Seq<u8>>)
    ensures
        packed_bytes(datas).len() == packed_len(datas),
        packed_len(datas) % 4 == 0,
        packed_len(datas) >= 0,
    decreases datas.len(),
{
    if datas.len() > 0 {
        lemma_packed_bytes_len(datas.drop_last());
        lemma_align4(packed_len(datas.drop_last()) + datas.last().len() as int);
    }
}

/// The packed length only grows as slices are appended.
pub proof fn lemma_packed_len_monotone(datas: Seq<Seq<u8>>, i: int, j: int)
    requires
        0 <= i <= j <= datas.len(),
    ensures
        packed_len(datas.take(i)) <= packed_len(datas.take(j)),
    decreases j - i,
{
    if i < j {
        lemma_packed_len_monotone(datas, i, j - 1);
        lemma_packed_bytes_len(datas.take(j - 1));
        assert(datas.take(j).drop_last() =~= datas.take(j - 1));
        lemma_align4(packed_len(datas.take(j - 1)) + datas.take(j).last().len() as int);
    }
}

/// Packing a prefix of the slices yields a prefix of the packed buffer.
pub proof fn lemma_packed_bytes_prefix(datas: Seq<Seq<u8>>, i: int)
    requires
        0 <= i <= datas.len(),
    ensures
        packed_bytes(datas.take(i)) == packed_bytes(datas).subrange(
            0,
            packed_len(datas.take(i)),
        ),
    decreases datas.len() - i,
{
    lemma_packed_bytes_len(datas);
    lemma_packed_bytes_len(datas.take(i));
    lemma_packed_len_monotone(datas, i, datas.len() as int);
    assert(datas.take(datas.len() as int) =~= datas);
    if i == datas.len() {
        assert(packed_bytes(datas).subrange(0, packed_len(datas)) =~= packed_bytes(datas));
    } else {
        lemma_packed_bytes_prefix(datas, i + 1);
        lemma_packed_bytes_len(datas.take(i + 1));
        assert(datas.take(i + 1).drop_last() =~= datas.take(i));
        lemma_packed_len_monotone(datas, i, i + 1);
        lemma_packed_len_monotone(datas, i + 1, datas.len() as int);
        // packed_bytes(take(i + 1)) extends packed_bytes(take(i)), so a
        // prefix of the former is a prefix of the latter.
        assert(packed_bytes(datas.take(i + 1)).subrange(0, packed_len(datas.take(i)))
            =~= packed_bytes(datas.take(i)));
        assert(packed_bytes(datas).subrange(0, packed_len(datas.take(i + 1))).subrange(
            0,
            packed_len(datas.take(i)),
        ) =~= packed_bytes(datas).subrange(0, packed_len(datas.take(i))));
    }
}

/// Round trip: slicing the packed buffer at slice `i`'s rewritten offset
/// and original length reproduces slice `i` byte for byte.
pub proof fn lemma_pack_round_trip(datas: Seq<Seq<u8>>, i: int)
    requires
        0 <= i < datas.len(),
    ensures
        packed_len(datas.take(i)) + datas[i].len() <= packed_len(datas),
        packed_bytes(datas).subrange(
            packed_len(datas.take(i)),
            packed_len(datas.take(i)) + datas[i].len(),
        ) == datas[i],
{
    lemma_packed_bytes_len(datas);
    lemma_packed_bytes_len(datas.take(i));
    lemma_packed_bytes_len(datas.take(i + 1));
    lemma_packed_bytes_prefix(datas, i);
    lemma_packed_bytes_prefix(datas, i + 1);
    lemma_packed_len_monotone(datas, i + 1, datas.len() as int);
    assert(datas.take(datas.len() as int) =~= datas);
    assert(datas.take(i + 1).drop_last() =~= datas.take(i));
    assert(datas.take(i + 1).last() == datas[i]);
    lemma_align4(packed_len(datas.take(i)) + datas[i].len() as int);
    assert(packed_bytes(datas.take(i + 1)).subrange(
        packed_len(datas.take(i)),
        packed_len(datas.take(i)) + datas[i].len(),
    ) =~= datas[i]);
    assert(packed_bytes(datas).subrange(0, packed_len(datas.take(i + 1))).subrange(
        packed_len(datas.take(i)),
        packed_len(datas.take(i)) + datas[i].len(),
    ) =~= packed_bytes(datas).subrange(
        packed_len(datas.take(i)),
        packed_len(datas.take(i)) + datas[i].len(),
    ));
}

/// The packed length is exactly the payload bytes plus the padding
/// inserted.
pub proof fn lemma_packed_len_is_data_plus_padding(datas: Seq<Seq<u8>>)
    ensures
        packed_len(datas) == total_data_len(datas) + total_padding(datas),
    decreases datas.len(),
{
    if datas.len() > 0 {
        lemma_packed_len_is_data_plus_padding(datas.drop_last());
    }
}

/// Packing is idempotent on layout: when the views already describe a
/// contiguous 4-byte-aligned packing of a single buffer of length
/// `buffer_len` — each view's slice has the view's length, the first view
/// starts at offset 0, each later view starts where the previous view's
/// padded range ends, and the buffer ends at the last padded range — then
/// repacking assigns every view its old offset, and the packed buffer has
/// the old buffer's length.
pub proof fn lemma_packing_idempotent(
    views: Seq<GltfBufferView>,
    datas: Seq<Seq<u8>>,
    buffer_len: int,
)
    requires
        views.len() == datas.len(),
        forall|i: int| 0 <= i < views.len() ==> (#[trigger] datas[i]).len() == views[i].byte_length,
        views.len() > 0 ==> views[0].byte_offset == 0,
        forall|i: int|
            0 <= i < views.len() - 1 ==> (#[trigger] views[i + 1]).byte_offset == align4(
                views[i].byte_offset + views[i].byte_length,
            ),
        buffer_len == if views.len() == 0 {
            0int
        } else {
            align4(
                views[views.len() - 1].byte_offset + views[views.len() - 1].byte_length,
            )
        },
    ensures
        forall|i: int|
            0 <= i < views.len() ==> packed_len(datas.take(i)) == (
            #[trigger] views[i]).byte_offset,
        packed_len(datas) == buffer_len,
{
    assert forall|i: int| 0 <= i < views.len() implies packed_len(datas.take(i)) == (
    #[trigger] views[i]).byte_offset by {
        lemma_packing_idempotent_at(views, datas, i);
    }
    if views.len() == 0 {
        assert(datas.take(0) =~= datas);
    } else {
        let n = views.len() as int;
        lemma_packing_idempotent_at(views, datas, n - 1);
        assert(datas.drop_last() =~= datas.take(n - 1));
        assert(packed_len(datas) == align4(packed_len(datas.take(n - 1)) + datas[n - 1].len()));
    }
}

/// Helper for `lemma_packing_idempotent`: view `i`'s old offset is the
/// packed length of the slices before it.
proof fn lemma_packing_idempotent_at(views: Seq<GltfBufferView>, datas: Seq<Seq<u8>>, i: int)
    requires
        views.len() == datas.len(),
        forall|k: int| 0 <= k < views.len() ==> (#[trigger] datas[k]).len() == views[k].byte_length,
        views.len() > 0 ==> views[0].byte_offset == 0,
        forall|k: int|
            0 <= k < views.len() - 1 ==> (#[trigger] views[k + 1]).byte_offset == align4(
                views[k].byte_offset + views[k].byte_length,
            ),
        0 <= i < views.len(),
    ensures
        packed_len(datas.take(i)) == views[i].byte_offset,
    decreases i,
{
    if i == 0 {
        assert(datas.take(0) =~= Seq::<Seq<u8>>::empty());
    } else {
        lemma_packing_idempotent_at(views, datas, i - 1);
        assert(datas.take(i).drop_last() =~= datas.take(i - 1));
        assert(datas.take(i).last() == datas[i - 1]);
        assert(views[(i - 1) + 1].byte_offset == align4(
            views[i - 1].byte_offset + views[i - 1].byte_length,
        ));
    }
}

/// A view rewritten by the packer: the same view, now reading the single
/// packed buffer (index 0) at the packed offset; everything else passes
/// through unchanged.
pub open spec fn rewritten_view(nv: GltfBufferView, ov: GltfBufferView, off: int) -> bool {
    &&& nv.buffer@ == Some(0int)
    &&& nv.byte_offset == off
    &&& nv.byte_length == ov.byte_length
    &&& nv.byte_stride == ov.byte_stride
    &&& nv.target == ov.target
    &&& nv.name == ov.name
    &&& nv.extensions == ov.extensions
    &&& nv.extras == ov.extras
}

/// The byte sequences a list of slices denotes.
pub open spec fn slices_view(datas: Seq<&[u8]>) -> Seq<Seq<u8>> {
    Seq::new(datas.len(), |i: int| datas[i]@)
}

/// Append `src` to `dst`.
fn append_bytes(dst: &mut Vec<u8>, src: &[u8])
    ensures
        final(dst)@ == old(dst)@ + src@,
{
    let mut i: usize = 0;
    while i < src.len()
        invariant
            i <= src@.len(),
            dst@ == old(dst)@ + src@.take(i as int),
        decreases src@.len() - i,
    {
        dst.push(src[i]);
        proof {
            assert(old(dst)@ + src@.take(i + 1) =~= (old(dst)@ + src@.take(i as int)).push(
                src@[i as int],
            ));
        }
        i = i + 1;
    }
    proof {
        assert(src@.take(src@.len() as int) =~= src@);
    }
}

/// Append zero bytes until the length is a multiple of 4.
fn pad_to_4(dst: &mut Vec<u8>)
    ensures
        final(dst)@ == old(dst)@ + zero_bytes(pad4(old(dst)@.len() as int)),
        final(dst)@.len() == align4(old(dst)@.len() as int),
{
    proof {
        lemma_align4(dst@.len() as int);
    }
    while dst.len() % 4 != 0
        invariant
            old(dst)@.len() <= dst@.len() <= align4(old(dst)@.len() as int),
            dst@ == old(dst)@ + zero_bytes(dst@.len() - old(dst)@.len()),
        decreases align4(old(dst)@.len() as int) - dst@.len(),
    {
        proof {
            lemma_align4(old(dst)@.len() as int);
        }
        dst.push(0u8);
        proof {
            assert(old(dst)@ + zero_bytes(dst@.len() - old(dst)@.len()) =~= (old(dst)@
                + zero_bytes(dst@.len() - 1 - old(dst)@.len())).push(0u8));
        }
    }
    proof {
        lemma_align4(old(dst)@.len() as int);
        assert(dst@.len() == align4(old(dst)@.len() as int));
    }
}

/// Pack the given views' byte slices, in order, into one fresh buffer,
/// padding to 4-byte alignment after every slice, and rewrite each view to
/// point into that buffer at its packed offset.
pub fn pack_buffer_views(views: Vec<GltfBufferView>, datas: Vec<&[u8]>) -> (r: (
    Vec<GltfBufferView>,
    Vec<u8>,
))
    requires
        views@.len() == datas@.len(),
    ensures
        r.0@.len() == views@.len(),
        forall|i: int|
            0 <= i < views@.len() ==> rewritten_view(
                #[trigger] r.0@[i],
                views@[i],
                packed_len(slices_view(datas@).take(i)),
            ),
        r.1@ == packed_bytes(slices_view(datas@)),
        r.1@.len() == packed_len(slices_view(datas@)),
        r.1@.len() % 4 == 0,
        forall|i: int|
            0 <= i < views@.len() ==> r.1@.subrange(
                (#[trigger] r.0@[i]).byte_offset as int,
                r.0@[i].byte_offset + datas@[i]@.len(),
            ) == datas@[i]@,
{
    let ghost all_slices = slices_view(datas@);
    let ghost ovs = views@;
    let mut vs = views;
    let mut new_views: Vec<GltfBufferView> = Vec::new();
    let mut new_buffer: Vec<u8> = Vec::new();
    proof {
        assert(all_slices.take(0) =~= Seq::<Seq<u8>>::empty());
    }
    while vs.len() > 0
        invariant
            new_views@.len() + vs@.len() == ovs.len(),
            ovs.len() == datas@.len(),
            all_slices == slices_view(datas@),
            vs@ =~= ovs.subrange(new_views@.len() as int, ovs.len() as int),
            forall|j: int|
                0 <= j < new_views@.len() ==> rewritten_view(
                    #[trigger] new_views@[j],
                    ovs[j],
                    packed_len(all_slices.take(j)),
                ),
            new_buffer@ == packed_bytes(all_slices.take(new_views@.len() as int)),
            new_buffer@.len() == packed_len(all_slices.take(new_views@.len() as int)),
        decreases vs@.len(),
    {
        let i: usize = new_views.len();
        let v = vs.remove(0);
        let d: &[u8] = datas[i];
        let off = new_buffer.len();
        new_views.push(
            GltfBufferView {
                buffer: GltfIndex::of(0),
                byte_offset: off,
                byte_length: v.byte_length,
                byte_stride: v.byte_stride,
                target: v.target,
                name: v.name,
                extensions: v.extensions,
                extras: v.extras,
            },
        );
        append_bytes(&mut new_buffer, d);
        pad_to_4(&mut new_buffer);
        proof {
            assert(all_slices.take(i + 1).drop_last() =~= all_slices.take(i as int));
            assert(all_slices.take(i + 1).last() == d@);
            lemma_packed_bytes_len(all_slices.take(i + 1));
            assert(vs@ =~= ovs.subrange(i + 1, ovs.len() as int));
        }
    }
    proof {
        assert(all_slices.take(new_views@.len() as int) =~= all_slices);
        lemma_packed_bytes_len(all_slices);
        assert forall|k: int|
            0 <= k < ovs.len() implies new_buffer@.subrange(
            (#[trigger] new_views@[k]).byte_offset as int,
            new_views@[k].byte_offset + datas@[k]@.len(),
        ) == datas@[k]@ by {
            lemma_pack_round_trip(all_slices, k);
        }
    }
    (new_views, new_buffer)
}

/// Resolve every declared buffer to its bytes, in document order, stopping
/// at the first error.
pub open spec fn resolve_all_buffers_spec(
    buffers: Seq<GltfBuffer>,
    m: Map<Option<Seq<char>>, Seq<u8>>,
) -> Result<Seq<Seq<u8>>, ErrorView>
    decreases buffers.len(),
{
    if buffers.len() == 0 {
        Ok(Seq::empty())
    } else {
        match resolve_all_buffers_spec(buffers.drop_last(), m) {
            Err(e) => Err(e),
            Ok(ds) => match buffer_data_spec(buffers.last(), buffers.len() - 1, m) {
                Ok(d) => Ok(ds.push(d)),
                Err(e) => Err(e),
            },
        }
    }
}

/// Slice every declared buffer view out of the resolved buffers, in
/// document order, stopping at the first error.
pub open spec fn slice_all_views_spec(
    views: Seq<GltfBufferView>,
    datas: Seq<Seq<u8>>,
) -> Result<Seq<Seq<u8>>, ErrorView>
    decreases views.len(),
{
    if views.len() == 0 {
        Ok(Seq::empty())
    } else {
        match slice_all_views_spec(views.drop_last(), datas) {
            Err(e) => Err(e),
            Ok(ss) => match view_slice_spec(views.last(), datas) {
                Ok(s) => Ok(ss.push(s)),
                Err(e) => Err(e),
            },
        }
    }
}

/// The slices the whole document resolves to: every buffer's bytes, then
/// every view's range.
pub open spec fn pack_doc_spec(
    buffers: Seq<GltfBuffer>,
    views: Seq<GltfBufferView>,
    m: Map<Option<Seq<char>>, Seq<u8>>,
) -> Result<Seq<Seq<u8>>, ErrorView> {
    match resolve_all_buffers_spec(buffers, m) {
        Err(e) => Err(e),
        Ok(datas) => slice_all_views_spec(views, datas),
    }
}

/// An error hit on a prefix of the buffers is the error of every longer
/// prefix.
proof fn lemma_resolve_error_persists(
    buffers: Seq<GltfBuffer>,
    m: Map<Option<Seq<char>>, Seq<u8>>,
    i: int,
    j: int,
    e: ErrorView,
)
    requires
        0 <= i <= j <= buffers.len(),
        resolve_all_buffers_spec(buffers.take(i), m) == Err::<Seq<Seq<u8>>, ErrorView>(e),
    ensures
        resolve_all_buffers_spec(buffers.take(j), m) == Err::<Seq<Seq<u8>>, ErrorView>(e),
    decreases j - i,
{
    if i < j {
        lemma_resolve_error_persists(buffers, m, i, j - 1, e);
        assert(buffers.take(j).drop_last() =~= buffers.take(j - 1));
    }
}

/// An error hit on a prefix of the views is the error of every longer
/// prefix.
proof fn lemma_slice_error_persists(
    views: Seq<GltfBufferView>,
    datas: Seq<Seq<u8>>,
    i: int,
    j: int,
    e: ErrorView,
)
    requires
        0 <= i <= j <= views.len(),
        slice_all_views_spec(views.take(i), datas) == Err::<Seq<Seq<u8>>, ErrorView>(e),
    ensures
        slice_all_views_spec(views.take(j), datas) == Err::<Seq<Seq<u8>>, ErrorView>(e),
    decreases j - i,
{
    if i < j {
        lemma_slice_error_persists(views, datas, i, j - 1, e);
        assert(views.take(j).drop_last() =~= views.take(j - 1));
    }
}

/// Resolve every declared buffer to its bytes, in document order; the
/// first failure aborts the whole resolution.
pub fn resolve_all_buffers(buffers: &Vec<GltfBuffer>, binaries: &BlobMap) -> (r: Result<
    Vec<U8VecOrSlice>,
    Error,
>)
    ensures
        match r {
            Ok(ds) => resolve_all_buffers_spec(buffers@, binaries@) == Ok::<
                Seq<Seq<u8>>,
                ErrorView,
            >(datas_view(ds@)),
            Err(e) => resolve_all_buffers_spec(buffers@, binaries@) == Err::<
                Seq<Seq<u8>>,
                ErrorView,
            >(e@),
        },
{
    let ghost m = binaries@;
    let mut buffer_datas: Vec<U8VecOrSlice> = Vec::new();
    let mut idx: usize = 0;
    proof {
        assert(buffers@.take(0) =~= Seq::<GltfBuffer>::empty());
        assert(datas_view(buffer_datas@) =~= Seq::<Seq<u8>>::empty());
    }
    while idx < buffers.len()
        invariant
            idx <= buffers@.len(),
            m == binaries@,
            resolve_all_buffers_spec(buffers@.take(idx as int), m) == Ok::<
                Seq<Seq<u8>>,
                ErrorView,
            >(datas_view(buffer_datas@)),
            buffer_datas@.len() == idx,
        decreases buffers@.len() - idx,
    {
        match buffers[idx].dump_data(idx, binaries) {
            Ok(d) => {
                let ghost prev = buffer_datas@;
                buffer_datas.push(d);
                proof {
                    assert(buffers@.take(idx + 1).drop_last() =~= buffers@.take(idx as int));
                    assert(buffers@.take(idx + 1).last() == buffers@[idx as int]);
                    assert(buffer_datas@.drop_last() =~= prev);
                    assert(datas_view(buffer_datas@) =~= datas_view(prev).push(
                        buffer_datas@.last()@,
                    ));
                }
                idx = idx + 1;
            },
            Err(e) => {
                proof {
                    assert(buffers@.take(idx + 1).drop_last() =~= buffers@.take(idx as int));
                    lemma_resolve_error_persists(buffers@, m, idx + 1, buffers@.len() as int, e@);
                    assert(buffers@.take(buffers@.len() as int) =~= buffers@);
                }
                return Err(e);
            },
        }
    }
    proof {
        assert(buffers@.take(buffers@.len() as int) =~= buffers@);
    }
    Ok(buffer_datas)
}

/// The packer's output: the replacement buffer list (one synthetic buffer
/// describing the packed result), the rewritten view list, and the packed
/// bytes themselves.
#[derive(Debug, PartialEq)]
pub struct Output {
    pub buffers: Vec<GltfBuffer>,
    pub buffer_views: Vec<GltfBufferView>,
    pub binary: Vec<u8>,
}

/// Resolve every buffer, slice every view, and pack the slices into one
/// buffer.  On success the output holds the packed bytes, the rewritten
/// views, and a single replacement buffer with no URI and the packed
/// length; any resolution failure aborts the whole operation with that
/// failure, and nothing partial is returned.
pub fn pack_buffers_together(
    buffers: &Vec<GltfBuffer>,
    views: Vec<GltfBufferView>,
    binaries: &BlobMap,
) -> (r: Result<Output, Error>)
    ensures
        match r {
            Ok(out) => {
                &&& pack_doc_spec(buffers@, views@, binaries@) matches Ok(slices)
                &&& out.binary@ == packed_bytes(slices)
                &&& out.binary@.len() == packed_len(slices)
                &&& out.binary@.len() % 4 == 0
                &&& out.buffer_views@.len() == views@.len()
                &&& forall|i: int|
                    0 <= i < views@.len() ==> rewritten_view(
                        #[trigger] out.buffer_views@[i],
                        views@[i],
                        packed_len(slices.take(i)),
                    )
                &&& forall|i: int|
                    0 <= i < views@.len() ==> out.binary@.subrange(
                        (#[trigger] out.buffer_views@[i]).byte_offset as int,
                        out.buffer_views@[i].byte_offset + slices[i].len(),
                    ) == slices[i]
                &&& out.buffers@.len() == 1
                &&& out.buffers@[0].uri is None
                &&& out.buffers@[0].byte_length == out.binary@.len()
            },
            Err(e) => pack_doc_spec(buffers@, views@, binaries@) == Err::<Seq<Seq<u8>>, ErrorView>(
                e@,
            ),
        },
{
    let ghost m = binaries@;
    let buffer_datas = match resolve_all_buffers(buffers, binaries) {
        Ok(ds) => ds,
        Err(e) => return Err(e),
    };
    let ghost datas = datas_view(buffer_datas@);
    let mut slices: Vec<&[u8]> = Vec::new();
    let mut vi: usize = 0;
    proof {
        assert(views@.take(0) =~= Seq::<GltfBufferView>::empty());
        assert(slices_view(slices@) =~= Seq::<Seq<u8>>::empty());
    }
    while vi < views.len()
        invariant
            vi <= views@.len(),
            m == binaries@,
            datas == datas_view(buffer_datas@),
            resolve_all_buffers_spec(buffers@, m) == Ok::<Seq<Seq<u8>>, ErrorView>(datas),
            slice_all_views_spec(views@.take(vi as int), datas) == Ok::<Seq<Seq<u8>>, ErrorView>(
                slices_view(slices@),
            ),
            slices@.len() == vi,
        decreases views@.len() - vi,
    {
        match views[vi].slice_from(&buffer_datas) {
            Ok(s) => {
                let ghost prev = slices@;
                slices.push(s);
                proof {
                    assert(views@.take(vi + 1).drop_last() =~= views@.take(vi as int));
                    assert(views@.take(vi + 1).last() == views@[vi as int]);
                    assert(slices@.drop_last() =~= prev);
                    assert(slices_view(slices@) =~= slices_view(prev).push(slices@.last()@));
                }
                vi = vi + 1;
            },
            Err(e) => {
                proof {
                    assert(views@.take(vi + 1).drop_last() =~= views@.take(vi as int));
                    lemma_slice_error_persists(views@, datas, vi + 1, views@.len() as int, e@);
                    assert(views@.take(views@.len() as int) =~= views@);
                }
                return Err(e);
            },
        }
    }
    proof {
        assert(views@.take(views@.len() as int) =~= views@);
    }
    let (new_views, new_buffer) = pack_buffer_views(views, slices);
    let total = new_buffer.len();
    let mut new_buffers: Vec<GltfBuffer> = Vec::new();
    new_buffers.push(
        GltfBuffer {
            uri: None,
            byte_length: total,
            name: json_null(),
            extensions: json_null(),
            extras: json_null(),
        },
    );
    Ok(Output { buffers: new_buffers, buffer_views: new_views, binary: new_buffer })
}

} // verus!
