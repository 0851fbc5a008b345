use gltf_ktxer::error::Error;
use gltf_ktxer::gltf::{GltfBuffer, GltfTexture};
use gltf_ktxer::index::GltfIndex;
use gltf_ktxer::list::GltfList;

#[test]
fn defined_index_in_range_resolves_to_its_position() {
    for p in 0..5usize {
        let idx: GltfIndex<GltfBuffer> = GltfIndex::of(p);
        assert_eq!(idx.idx_within("buffers", 5), Ok(Some(p)));
    }
}

#[test]
fn defined_index_out_of_range_fails_with_oob() {
    let idx: GltfIndex<GltfBuffer> = GltfIndex::of(7);
    assert_eq!(
        idx.idx_within("buffers", 5),
        Err(Error::IdxOOB { list_name: "buffers", idx: 7, num: 5 })
    );
    let at_len: GltfIndex<GltfBuffer> = GltfIndex::of(5);
    assert_eq!(
        at_len.idx_within("buffers", 5),
        Err(Error::IdxOOB { list_name: "buffers", idx: 5, num: 5 })
    );
}

#[test]
fn undefined_index_resolves_to_none_for_any_length() {
    let idx: GltfIndex<GltfTexture> = GltfIndex::undefined();
    assert_eq!(idx.idx_within("textures", 0), Ok(None));
    assert_eq!(idx.idx_within("textures", 3), Ok(None));
    assert_eq!(idx.idx_within("textures", usize::MAX), Ok(None));
}

#[test]
fn default_index_is_undefined() {
    let idx: GltfIndex<GltfBuffer> = Default::default();
    assert!(idx.is_undefined());
    assert!(!idx.is_defined());
    assert!(GltfIndex::<GltfBuffer>::of(0).is_defined());
}

#[test]
fn list_resolution_returns_the_element() {
    let list: Vec<u32> = vec![10, 20, 30];
    assert_eq!(list.gltf_index(GltfIndex::of(1), "numbers"), Ok(Some(&20)));
    assert_eq!(list.gltf_index(GltfIndex::undefined(), "numbers"), Ok(None));
    assert_eq!(
        list.gltf_index(GltfIndex::of(3), "numbers"),
        Err(Error::IdxOOB { list_name: "numbers", idx: 3, num: 3 })
    );
}

#[test]
fn required_list_resolution_rejects_the_undefined_index() {
    let list: Vec<u32> = vec![10, 20, 30];
    assert_eq!(list.gltf_index_required(GltfIndex::of(2), "numbers"), Ok(&30));
    assert_eq!(
        list.gltf_index_required(GltfIndex::undefined(), "numbers"),
        Err(Error::IdxNotSet { list_name: "numbers" })
    );
}
