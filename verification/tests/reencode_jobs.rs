use base64::Engine;
use gltf_ktxer::blob::BlobMap;
use gltf_ktxer::gltf::{GltfBuffer, GltfBufferView, GltfImage, GltfTexture};
use gltf_ktxer::index::GltfIndex;
use gltf_ktxer::jobs::{
    get_reencode_jobs, get_srgb_texture_indices, material_diffuse_tex, material_emissive_tex,
    set_texture_ktx_source, texture_ktx_source, GltfMaterial, Params, UncompressedImageFormat,
};
use gltf_ktxer::uri::GltfUri;

const KTX2_SIG: [u8; 12] = [
    0xAB, 0x4B, 0x54, 0x58, 0x20, 0x32, 0x30, 0xBB, 0x0D, 0x0A, 0x1A, 0x0A,
];

fn data_uri(payload: &[u8]) -> String {
    format!(
        "data:application/octet-stream;base64,{}",
        base64::engine::general_purpose::STANDARD.encode(payload)
    )
}

fn image_with_uri(uri: &str, mime: Option<&str>) -> GltfImage {
    GltfImage {
        uri: Some(GltfUri(uri.to_string())),
        mime_type: mime.map(|m| m.to_string()),
        buffer_view: GltfIndex::undefined(),
        name: serde_json::Value::Null,
        extensions: serde_json::Value::Null,
        extras: serde_json::Value::Null,
    }
}

fn texture(source: GltfIndex<GltfImage>, ktx: GltfIndex<GltfImage>) -> GltfTexture {
    GltfTexture {
        sampler: GltfIndex::undefined(),
        source,
        ktx_source: ktx,
        name: serde_json::Value::Null,
        extensions: serde_json::Value::Null,
        extras: serde_json::Value::Null,
    }
}

fn material(
    base: GltfIndex<GltfTexture>,
    emissive: GltfIndex<GltfTexture>,
) -> GltfMaterial {
    GltfMaterial { base_color_texture: base, emissive_texture: emissive }
}

fn no_buffers() -> Vec<GltfBuffer> {
    vec![]
}

fn no_views() -> Vec<GltfBufferView> {
    vec![]
}

#[test]
fn two_textures_sharing_an_image_share_one_job() {
    let images = vec![
        image_with_uri(&data_uri(b"plainimage"), Some("image/png")),
        image_with_uri(&data_uri(&KTX2_SIG), Some("image/ktx2")),
    ];
    let textures = vec![
        texture(GltfIndex::of(0), GltfIndex::of(1)),
        texture(GltfIndex::of(0), GltfIndex::of(1)),
    ];
    let jobs = get_reencode_jobs(
        textures,
        &images,
        &no_views(),
        &no_buffers(),
        &vec![],
        &BlobMap::new(),
        Params::default(),
    )
    .unwrap();
    // one job per distinct image, both textures pointing at the same ones
    assert_eq!(jobs.new_images.len(), 2);
    assert_eq!(jobs.new_textures.len(), 2);
    assert_eq!(
        jobs.new_textures[0].source.raw_idx(),
        jobs.new_textures[1].source.raw_idx()
    );
    assert_eq!(
        jobs.new_textures[0].ktx_source.raw_idx(),
        jobs.new_textures[1].ktx_source.raw_idx()
    );
}

#[test]
fn a_texture_reusing_its_own_image_in_both_slots_makes_one_job() {
    let images = vec![image_with_uri(&data_uri(b"BM1234"), Some("image/bmp"))];
    let textures = vec![texture(GltfIndex::of(0), GltfIndex::of(0))];
    let jobs = get_reencode_jobs(
        textures,
        &images,
        &no_views(),
        &no_buffers(),
        &vec![],
        &BlobMap::new(),
        Params::default(),
    )
    .unwrap();
    assert_eq!(jobs.new_images.len(), 1);
    assert_eq!(jobs.new_textures[0].source.raw_idx(), 0);
    assert_eq!(jobs.new_textures[0].ktx_source.raw_idx(), 0);
}

#[test]
fn missing_mime_type_is_sniffed_from_the_bytes() {
    // "BM" is the BMP signature
    let images = vec![image_with_uri(&data_uri(b"BM1234"), None)];
    let textures = vec![texture(GltfIndex::of(0), GltfIndex::of(0))];
    let jobs = get_reencode_jobs(
        textures,
        &images,
        &no_views(),
        &no_buffers(),
        &vec![],
        &BlobMap::new(),
        Params::default(),
    )
    .unwrap();
    assert_eq!(jobs.new_images[0].data_mime_type, "image/bmp");
    assert_eq!(jobs.new_images[0].data, b"BM1234".to_vec());
}

#[test]
fn unrecognizable_bytes_without_mime_type_fail() {
    let images = vec![image_with_uri(&data_uri(b"zzzzzzzz"), None)];
    let textures = vec![texture(GltfIndex::of(0), GltfIndex::of(0))];
    let r = get_reencode_jobs(
        textures,
        &images,
        &no_views(),
        &no_buffers(),
        &vec![],
        &BlobMap::new(),
        Params::default(),
    );
    assert_eq!(r, Err(gltf_ktxer::error::Error::ImageCouldntFindFormat));
}

#[test]
fn compressed_only_texture_must_carry_the_ktx2_signature() {
    let images = vec![image_with_uri(&data_uri(b"notaktx2file"), None)];
    let textures = vec![texture(GltfIndex::undefined(), GltfIndex::of(0))];
    let r = get_reencode_jobs(
        textures,
        &images,
        &no_views(),
        &no_buffers(),
        &vec![],
        &BlobMap::new(),
        Params::default(),
    );
    assert_eq!(r, Err(gltf_ktxer::error::Error::ImageClaimedKtx2ButWasNot));
}

#[test]
fn compressed_only_texture_passes_the_signature_check_but_needs_a_plain_slot() {
    let mut payload = KTX2_SIG.to_vec();
    payload.extend_from_slice(b"rest of the container");
    let images = vec![
        image_with_uri(&data_uri(&payload), None),
        image_with_uri(&data_uri(b"other"), Some("image/png")),
    ];
    // the plain slot still references an image so both lookups resolve
    let textures = vec![texture(GltfIndex::undefined(), GltfIndex::of(0))];
    let r = get_reencode_jobs(
        textures,
        &images,
        &no_views(),
        &no_buffers(),
        &vec![],
        &BlobMap::new(),
        Params::default(),
    );
    // the plain reference is unset, which the job table requires to be set
    assert_eq!(r, Err(gltf_ktxer::error::Error::IdxNotSet { list_name: "images" }));
}

#[test]
fn texture_without_any_image_fails() {
    let textures = vec![texture(GltfIndex::undefined(), GltfIndex::undefined())];
    let r = get_reencode_jobs(
        textures,
        &vec![],
        &no_views(),
        &no_buffers(),
        &vec![],
        &BlobMap::new(),
        Params::default(),
    );
    assert_eq!(r, Err(gltf_ktxer::error::Error::ImageHasNoSources));
}

#[test]
fn srgb_flag_follows_the_materials() {
    let images = vec![
        image_with_uri(&data_uri(b"first"), Some("image/png")),
        image_with_uri(&data_uri(b"second"), Some("image/png")),
    ];
    let textures = vec![
        texture(GltfIndex::of(0), GltfIndex::of(0)),
        texture(GltfIndex::of(1), GltfIndex::of(1)),
    ];
    // only texture 0 sits in a base-color slot
    let materials = vec![material(GltfIndex::of(0), GltfIndex::undefined())];
    let jobs = get_reencode_jobs(
        textures,
        &images,
        &no_views(),
        &no_buffers(),
        &materials,
        &BlobMap::new(),
        Params::default(),
    )
    .unwrap();
    let job0 = jobs.new_textures[0].source.raw_idx();
    let job1 = jobs.new_textures[1].source.raw_idx();
    assert!(jobs.new_images[job0].data_used_as_srgb);
    assert!(!jobs.new_images[job1].data_used_as_srgb);
}

#[test]
fn srgb_texture_indices_come_from_both_slots() {
    let materials = vec![
        material(GltfIndex::of(2), GltfIndex::undefined()),
        material(GltfIndex::undefined(), GltfIndex::of(5)),
        material(GltfIndex::undefined(), GltfIndex::undefined()),
    ];
    let set = get_srgb_texture_indices(&materials);
    let raws: Vec<usize> = set.iter().map(|i| i.raw_idx()).collect();
    assert!(raws.contains(&2));
    assert!(raws.contains(&5));
    assert_eq!(raws.len(), 2);
}

#[test]
fn material_accessors_expose_the_slots() {
    let m = material(GltfIndex::of(3), GltfIndex::undefined());
    assert_eq!(material_diffuse_tex(&m).map(|i| i.raw_idx()), Some(3));
    assert!(material_emissive_tex(&m).is_none());
}

#[test]
fn ktx_source_accessors_read_and_write_the_extension_slot() {
    let mut t = texture(GltfIndex::of(0), GltfIndex::undefined());
    assert!(texture_ktx_source(&t).is_none());
    set_texture_ktx_source(&mut t, GltfIndex::of(4));
    assert_eq!(texture_ktx_source(&t).map(|i| i.raw_idx()), Some(4));
}

#[test]
fn default_params_target_jpeg() {
    let p = Params::default();
    assert_eq!(p.uncompressed_format, UncompressedImageFormat::Jpeg);
    assert!(p.ktx_basis_compression_quality.is_none());
    assert!(p.ktx_transcode_to_bc1_or_bc3);
}
