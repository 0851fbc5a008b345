use base64::Engine;
use gltf_ktxer::blob::BlobMap;
use gltf_ktxer::gltf::{GltfBuffer, GltfBufferView, U8VecOrSlice};
use gltf_ktxer::index::GltfIndex;
use gltf_ktxer::uri::GltfUri;

fn view(buffer: GltfIndex<GltfBuffer>, byte_offset: usize, byte_length: usize) -> GltfBufferView {
    GltfBufferView {
        buffer,
        byte_offset,
        byte_length,
        byte_stride: None,
        target: None,
        name: serde_json::Value::Null,
        extensions: serde_json::Value::Null,
        extras: serde_json::Value::Null,
    }
}

#[test]
fn packed_output_is_padded_to_four_bytes() {
    let views = vec![view(GltfIndex::of(0), 0, 3), view(GltfIndex::of(0), 3, 5)];
    let a: Vec<u8> = vec![1, 2, 3];
    let b: Vec<u8> = vec![4, 5, 6, 7, 8];
    let (new_views, packed) = gltf_ktxer::pack::pack_buffer_views(views, vec![&a, &b]);
    // sum of view lengths (3 + 5) plus padding inserted (1 + 4 = 12)
    assert_eq!(packed.len(), 12);
    assert_eq!(packed.len() % 4, 0);
    assert_eq!(packed, vec![1, 2, 3, 0, 4, 5, 6, 7, 8, 0, 0, 0]);
    assert_eq!(new_views[0].byte_offset, 0);
    assert_eq!(new_views[1].byte_offset, 4);
    assert_eq!(new_views[0].buffer.raw_idx(), 0);
    assert_eq!(new_views[1].buffer.raw_idx(), 0);
    assert_eq!(new_views[0].byte_length, 3);
    assert_eq!(new_views[1].byte_length, 5);
}

#[test]
fn empty_input_packs_to_an_empty_buffer() {
    let (new_views, packed) = gltf_ktxer::pack::pack_buffer_views(vec![], vec![]);
    assert!(new_views.is_empty());
    assert!(packed.is_empty());
}

#[test]
fn packing_round_trips_every_slice() {
    let views = vec![
        view(GltfIndex::of(0), 0, 1),
        view(GltfIndex::of(0), 1, 6),
        view(GltfIndex::of(0), 7, 4),
    ];
    let a: Vec<u8> = vec![9];
    let b: Vec<u8> = vec![1, 2, 3, 4, 5, 6];
    let c: Vec<u8> = vec![7, 7, 7, 7];
    let slices: Vec<&[u8]> = vec![&a, &b, &c];
    let (new_views, packed) = gltf_ktxer::pack::pack_buffer_views(views, slices.clone());
    for (nv, s) in new_views.iter().zip(slices.iter()) {
        let got = &packed[nv.byte_offset..nv.byte_offset + nv.byte_length];
        assert_eq!(got, *s);
    }
}

#[test]
fn packing_an_already_packed_buffer_keeps_the_layout() {
    // one buffer of 12 bytes whose views are contiguous and 4-byte aligned
    let packed_buffer: Vec<u8> = vec![1, 2, 3, 0, 4, 5, 6, 7, 8, 0, 0, 0];
    let views = vec![view(GltfIndex::of(0), 0, 3), view(GltfIndex::of(0), 4, 5)];
    let datas = vec![U8VecOrSlice::V(packed_buffer.clone())];
    let slices: Vec<&[u8]> = views.iter().map(|v| v.slice_from(&datas).unwrap()).collect();
    let old_offsets: Vec<usize> = views.iter().map(|v| v.byte_offset).collect();
    let (new_views, repacked) = gltf_ktxer::pack::pack_buffer_views(views, slices);
    assert_eq!(repacked.len(), packed_buffer.len());
    let new_offsets: Vec<usize> = new_views.iter().map(|v| v.byte_offset).collect();
    assert_eq!(new_offsets, old_offsets);
}

#[test]
fn pack_buffers_together_replaces_the_buffer_list() {
    let payload: Vec<u8> = vec![1, 2, 3, 4, 5, 6, 7, 8, 9, 0, 0, 0];
    let uri = format!(
        "data:application/octet-stream;base64,{}",
        base64::engine::general_purpose::STANDARD.encode(&payload)
    );
    let buffers = vec![GltfBuffer {
        uri: Some(GltfUri(uri)),
        byte_length: 12,
        name: serde_json::Value::Null,
        extensions: serde_json::Value::Null,
        extras: serde_json::Value::Null,
    }];
    let views = vec![view(GltfIndex::of(0), 0, 3), view(GltfIndex::of(0), 4, 5)];
    let out = gltf_ktxer::pack::pack_buffers_together(&buffers, views, &BlobMap::new()).unwrap();
    assert_eq!(out.buffers.len(), 1);
    assert_eq!(out.buffers[0].uri, None);
    assert_eq!(out.buffers[0].byte_length, out.binary.len());
    assert_eq!(out.binary, vec![1, 2, 3, 0, 5, 6, 7, 8, 9, 0, 0, 0]);
    assert_eq!(out.buffer_views.len(), 2);
    assert_eq!(out.buffer_views[0].byte_offset, 0);
    assert_eq!(out.buffer_views[1].byte_offset, 4);
    assert_eq!(out.buffer_views[1].buffer.raw_idx(), 0);
}

#[test]
fn pack_buffers_together_surfaces_the_first_error() {
    let buffers = vec![GltfBuffer {
        uri: None,
        byte_length: 4,
        name: serde_json::Value::Null,
        extensions: serde_json::Value::Null,
        extras: serde_json::Value::Null,
    }];
    let views = vec![];
    let r = gltf_ktxer::pack::pack_buffers_together(&buffers, views, &BlobMap::new());
    assert_eq!(r, Err(gltf_ktxer::error::Error::BufferUriMissingData(None)));
}

#[test]
fn pack_buffers_together_checks_view_bounds() {
    let mut map = BlobMap::new();
    map.insert(None, vec![0; 12]);
    let buffers = vec![GltfBuffer {
        uri: None,
        byte_length: 12,
        name: serde_json::Value::Null,
        extensions: serde_json::Value::Null,
        extras: serde_json::Value::Null,
    }];
    let views = vec![view(GltfIndex::of(0), 5, 10)];
    let r = gltf_ktxer::pack::pack_buffers_together(&buffers, views, &map);
    assert_eq!(
        r,
        Err(gltf_ktxer::error::Error::BufferViewSizeOOB {
            buffer_len: 12,
            buffer_view_off: 5,
            buffer_view_len: 10,
        })
    );
}
