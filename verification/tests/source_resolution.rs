use gltf_ktxer::blob::BlobMap;
use gltf_ktxer::error::Error;
use gltf_ktxer::gltf::{GltfBuffer, GltfBufferView, GltfImage, U8VecOrSlice};
use gltf_ktxer::index::GltfIndex;
use gltf_ktxer::uri::GltfUri;

fn buffer(uri: Option<&str>, byte_length: usize) -> GltfBuffer {
    GltfBuffer {
        uri: uri.map(|u| GltfUri(u.to_string())),
        byte_length,
        name: serde_json::Value::Null,
        extensions: serde_json::Value::Null,
        extras: serde_json::Value::Null,
    }
}

fn view(buffer: GltfIndex<GltfBuffer>, byte_offset: usize, byte_length: usize) -> GltfBufferView {
    GltfBufferView {
        buffer,
        byte_offset,
        byte_length,
        byte_stride: None,
        target: None,
        name: serde_json::Value::Null,
        extensions: serde_json::Value::Null,
        extras: serde_json::Value::Null,
    }
}

fn image(uri: Option<&str>, mime: Option<&str>, bv: GltfIndex<GltfBufferView>) -> GltfImage {
    GltfImage {
        uri: uri.map(|u| GltfUri(u.to_string())),
        mime_type: mime.map(|m| m.to_string()),
        buffer_view: bv,
        name: serde_json::Value::Null,
        extensions: serde_json::Value::Null,
        extras: serde_json::Value::Null,
    }
}

#[test]
fn base64_data_uri_resolves_to_decoded_bytes() {
    let b = buffer(Some("data:application/octet-stream;base64,QUJD"), 3);
    let data = b.dump_data(0, &BlobMap::new()).unwrap();
    assert_eq!(data.as_slice(), &[0x41u8, 0x42, 0x43][..]);
}

#[test]
fn base64_data_uri_truncates_to_declared_length() {
    let b = buffer(Some("data:application/octet-stream;base64,QUJD"), 2);
    let data = b.dump_data(0, &BlobMap::new()).unwrap();
    assert_eq!(data.as_slice(), &[0x41u8, 0x42][..]);
}

#[test]
fn plain_data_uri_payload_is_taken_literally() {
    let b = buffer(Some("data:application/gltf-buffer,ABC"), 3);
    let data = b.dump_data(0, &BlobMap::new()).unwrap();
    assert_eq!(data.as_slice(), b"ABC");
}

#[test]
fn unknown_media_type_is_not_a_data_uri() {
    // not the data-URI grammar, so the whole string is an external name
    let b = buffer(Some("data:text/plain;base64,QUJD"), 3);
    assert_eq!(
        b.dump_data(0, &BlobMap::new()),
        Err(Error::BufferUriMissingData(Some("data:text/plain;base64,QUJD".to_string())))
    );
}

#[test]
fn malformed_base64_payload_is_rejected() {
    let b = buffer(Some("data:application/octet-stream;base64,!!!"), 1);
    assert_eq!(b.dump_data(0, &BlobMap::new()), Err(Error::BufferUriBadBase64));
}

#[test]
fn short_payload_fails_with_expected_and_got() {
    let b = buffer(Some("data:application/octet-stream;base64,QUJD"), 10);
    assert_eq!(
        b.dump_data(0, &BlobMap::new()),
        Err(Error::BufferNotLongEnough { expected_bytes: 10, got_bytes: 3 })
    );
}

#[test]
fn external_name_is_looked_up_in_the_blob_map() {
    let mut map = BlobMap::new();
    map.insert(Some("mesh.bin".to_string()), vec![9, 8, 7, 6]);
    let b = buffer(Some("mesh.bin"), 4);
    let data = b.dump_data(0, &map).unwrap();
    assert_eq!(data.as_slice(), &[9u8, 8, 7, 6][..]);
}

#[test]
fn missing_external_name_fails() {
    let b = buffer(Some("absent.bin"), 4);
    assert_eq!(
        b.dump_data(0, &BlobMap::new()),
        Err(Error::BufferUriMissingData(Some("absent.bin".to_string())))
    );
}

#[test]
fn first_buffer_without_uri_uses_the_default_payload() {
    let mut map = BlobMap::new();
    map.insert(None, vec![1, 2, 3, 4, 5]);
    let b = buffer(None, 4);
    let data = b.dump_data(0, &map).unwrap();
    assert_eq!(data.as_slice(), &[1u8, 2, 3, 4][..]);
}

#[test]
fn later_buffer_without_uri_fails() {
    let mut map = BlobMap::new();
    map.insert(None, vec![1, 2, 3, 4, 5]);
    let b = buffer(None, 4);
    assert_eq!(b.dump_data(1, &map), Err(Error::BufferHadNoUri(1)));
}

#[test]
fn missing_default_payload_fails() {
    let b = buffer(None, 4);
    assert_eq!(b.dump_data(0, &BlobMap::new()), Err(Error::BufferUriMissingData(None)));
}

#[test]
fn blob_map_lookups_distinguish_names() {
    let mut map = BlobMap::new();
    map.insert(None, vec![1]);
    map.insert(Some("a".to_string()), vec![2]);
    map.insert(Some("b".to_string()), vec![3]);
    assert_eq!(map.get(&None), Some(&vec![1u8]));
    assert_eq!(map.get(&Some("a".to_string())), Some(&vec![2u8]));
    assert_eq!(map.get(&Some("b".to_string())), Some(&vec![3u8]));
    assert_eq!(map.get(&Some("c".to_string())), None);
}

#[test]
fn blob_map_later_insertion_shadows_earlier() {
    let mut map = BlobMap::new();
    map.insert(Some("a".to_string()), vec![2]);
    map.insert(Some("a".to_string()), vec![4, 5]);
    assert_eq!(map.get(&Some("a".to_string())), Some(&vec![4u8, 5]));
}

#[test]
fn view_slicing_returns_the_exact_range() {
    let datas = vec![U8VecOrSlice::V(vec![0, 1, 2, 3, 4, 5, 6, 7, 8, 9, 10, 11])];
    let v = view(GltfIndex::of(0), 4, 3);
    assert_eq!(v.slice_from(&datas).unwrap(), &[4u8, 5, 6][..]);
}

#[test]
fn view_past_the_buffer_end_fails_with_sizes() {
    let datas = vec![U8VecOrSlice::V(vec![0; 12])];
    let v = view(GltfIndex::of(0), 5, 10);
    assert_eq!(
        v.slice_from(&datas),
        Err(Error::BufferViewSizeOOB { buffer_len: 12, buffer_view_off: 5, buffer_view_len: 10 })
    );
}

#[test]
fn view_with_unset_buffer_fails() {
    let datas = vec![U8VecOrSlice::V(vec![0; 12])];
    let v = view(GltfIndex::undefined(), 0, 4);
    assert_eq!(v.slice_from(&datas), Err(Error::IdxNotSet { list_name: "buffers" }));
}

#[test]
fn image_with_both_sources_fails_mutual_exclusion() {
    let views = vec![view(GltfIndex::of(0), 0, 4)];
    let datas = vec![U8VecOrSlice::V(vec![0; 4])];
    let img = image(Some("data:application/octet-stream;base64,QUJD"), None, GltfIndex::of(0));
    let r = img.dump_data(&views, &datas, &BlobMap::new());
    assert!(matches!(r, Err(Error::ImageNeedsDataUriXorBufferView { uri: Some(_), .. })));
}

#[test]
fn image_with_neither_source_fails_mutual_exclusion() {
    let img = image(None, None, GltfIndex::undefined());
    let r = img.dump_data(&vec![], &vec![], &BlobMap::new());
    assert!(matches!(r, Err(Error::ImageNeedsDataUriXorBufferView { uri: None, .. })));
}

#[test]
fn image_from_buffer_view_copies_the_range() {
    let views = vec![view(GltfIndex::of(0), 2, 3)];
    let datas = vec![U8VecOrSlice::V(vec![10, 11, 12, 13, 14, 15])];
    let img = image(None, Some("image/png"), GltfIndex::of(0));
    let data = img.dump_data(&views, &datas, &BlobMap::new()).unwrap();
    assert_eq!(data.as_slice(), &[12u8, 13, 14][..]);
}

#[test]
fn image_from_uri_is_not_truncated() {
    let mut map = BlobMap::new();
    map.insert(Some("tex.png".to_string()), vec![7; 10]);
    let img = image(Some("tex.png"), None, GltfIndex::undefined());
    let data = img.dump_data(&vec![], &vec![], &map).unwrap();
    assert_eq!(data.len(), 10);
}
