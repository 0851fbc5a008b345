//! Collecting the per-image re-encode jobs: each texture's plain and
//! compressed image references are resolved to bytes, deduplicated by the
//! underlying image index, and recorded as jobs a downstream transcoder
//! consumes; the textures are rewritten to point at the job indices.

use vstd::prelude::*;
use vstd::slice::slice_to_vec;
use crate::blob::BlobMap;
use crate::error::{Error, ErrorView};
use crate::gltf::{
    datas_view, image_data_spec, GltfBuffer, GltfBufferView, GltfImage, GltfTexture, U8VecOrSlice,
};
use crate::index::GltfIndex;
use crate::list::GltfList;
use crate::outside::{guess_mime_type, mime_guess_of};
use crate::pack::{resolve_all_buffers, resolve_all_buffers_spec};

verus! {

/// A material, reduced to what this subsystem reads of it: which textures
/// its base-color and emissive slots reference.  A texture referenced by
/// either slot is consumed in the sRGB color space.
#[derive(Debug)]
pub struct GltfMaterial {
    /// The texture in the material's base-color slot, if any.
    pub base_color_texture: GltfIndex<GltfTexture>,
    /// The texture in the material's emissive slot, if any.
    pub emissive_texture: GltfIndex<GltfTexture>,
}

/// The material's base-color texture reference, when set.
pub fn material_diffuse_tex(mat: &GltfMaterial) -> (r: Option<GltfIndex<GltfTexture>>)
    ensures
        match r {
            Some(ix) => mat.base_color_texture@ is Some && ix == mat.base_color_texture,
            None => mat.base_color_texture@ is None,
        },
{
    if mat.base_color_texture.is_defined() {
        Some(mat.base_color_texture)
    } else {
        None
    }
}

/// The material's emissive texture reference, when set.
pub fn material_emissive_tex(mat: &GltfMaterial) -> (r: Option<GltfIndex<GltfTexture>>)
    ensures
        match r {
            Some(ix) => mat.emissive_texture@ is Some && ix == mat.emissive_texture,
            None => mat.emissive_texture@ is None,
        },
{
    if mat.emissive_texture.is_defined() {
        Some(mat.emissive_texture)
    } else {
        None
    }
}

/// Texture `t` is consumed in the sRGB color space: some material's
/// base-color or emissive slot references it.
pub open spec fn is_srgb_texture(mats: Seq<GltfMaterial>, t: int) -> bool {
    exists|j: int|
        0 <= j < mats.len() && ((#[trigger] mats[j]).base_color_texture@ == Some(t)
            || mats[j].emissive_texture@ == Some(t))
}

/// As `is_srgb_texture`, over the first `n` materials only.
pub open spec fn is_srgb_texture_upto(mats: Seq<GltfMaterial>, n: int, t: int) -> bool {
    exists|j: int|
        0 <= j < n && j < mats.len() && ((#[trigger] mats[j]).base_color_texture@ == Some(t)
            || mats[j].emissive_texture@ == Some(t))
}

/// The set of texture positions a list of indices denotes.
pub open spec fn index_set_contains(s: Seq<GltfIndex<GltfTexture>>, t: int) -> bool {
    exists|k: int| 0 <= k < s.len() && (#[trigger] s[k])@ == Some(t)
}

/// Appending an index to the list adds exactly its position to the denoted
/// set.
proof fn lemma_index_set_push(s: Seq<GltfIndex<GltfTexture>>, x: GltfIndex<GltfTexture>, t: int)
    ensures
        index_set_contains(s.push(x), t) <==> (index_set_contains(s, t) || x@ == Some(t)),
{
    if index_set_contains(s.push(x), t) {
        let k = choose|k: int| 0 <= k < s.push(x).len() && (#[trigger] s.push(x)[k])@ == Some(t);
        if k < s.len() {
            assert(s[k]@ == Some(t));
        }
    }
    if index_set_contains(s, t) {
        let k = choose|k: int| 0 <= k < s.len() && (#[trigger] s[k])@ == Some(t);
        assert(s.push(x)[k]@ == Some(t));
    }
    if x@ == Some(t) {
        assert(s.push(x)[s.len() as int]@ == Some(t));
    }
}

/// One more material extends the sRGB set by exactly that material's two
/// slots.
proof fn lemma_srgb_upto_step(mats: Seq<GltfMaterial>, j: int, t: int)
    requires
        0 <= j < mats.len(),
    ensures
        is_srgb_texture_upto(mats, j + 1, t) <==> (is_srgb_texture_upto(mats, j, t)
            || mats[j].base_color_texture@ == Some(t) || mats[j].emissive_texture@ == Some(t)),
{
    if is_srgb_texture_upto(mats, j, t) {
        let w = choose|w: int|
            0 <= w < j && w < mats.len() && ((#[trigger] mats[w]).base_color_texture@ == Some(t)
                || mats[w].emissive_texture@ == Some(t));
        assert(0 <= w < j + 1);
    }
    if mats[j].base_color_texture@ == Some(t) || mats[j].emissive_texture@ == Some(t) {
        assert(0 <= j < j + 1);
    }
}

/// Collect the indices of every texture that some material consumes in the
/// sRGB color space.
pub fn get_srgb_texture_indices(materials: &Vec<GltfMaterial>) -> (r: Vec<GltfIndex<GltfTexture>>)
    ensures
        forall|t: int|
            #![trigger is_srgb_texture(materials@, t)]
            #![trigger index_set_contains(r@, t)]
            index_set_contains(r@, t) <==> is_srgb_texture(materials@, t),
{
    let mut set: Vec<GltfIndex<GltfTexture>> = Vec::new();
    let mut j: usize = 0;
    while j < materials.len()
        invariant
            j <= materials@.len(),
            forall|t: int|
                #![trigger index_set_contains(set@, t)]
                index_set_contains(set@, t) <==> is_srgb_texture_upto(materials@, j as int, t),
        decreases materials@.len() - j,
    {
        let ghost before = set@;
        if let Some(diffuse) = material_diffuse_tex(&materials[j]) {
            set.push(diffuse);
            proof {
                assert forall|t: int| #![trigger index_set_contains(set@, t)]
                    index_set_contains(set@, t) <==> (is_srgb_texture_upto(
                    materials@,
                    j as int,
                    t,
                ) || materials@[j as int].base_color_texture@ == Some(t)) by {
                    lemma_index_set_push(before, diffuse, t);
                }
            }
        }
        let ghost mid = set@;
        if let Some(emissive) = material_emissive_tex(&materials[j]) {
            set.push(emissive);
            proof {
                assert forall|t: int| #![trigger index_set_contains(set@, t)]
                    index_set_contains(set@, t) <==> (index_set_contains(mid, t)
                    || materials@[j as int].emissive_texture@ == Some(t)) by {
                    lemma_index_set_push(mid, emissive, t);
                }
            }
        }
        proof {
            assert forall|t: int| #![trigger index_set_contains(set@, t)]
                index_set_contains(set@, t) <==> is_srgb_texture_upto(
                materials@,
                j + 1,
                t,
            ) by {
                lemma_srgb_upto_step(materials@, j as int, t);
            }
        }
        j = j + 1;
    }
    proof {
        assert forall|t: int| #![trigger is_srgb_texture(materials@, t)]
            index_set_contains(set@, t) <==> is_srgb_texture(materials@, t) by {
            assert(is_srgb_texture_upto(materials@, materials@.len() as int, t)
                == is_srgb_texture(materials@, t));
        }
    }
    set
}

/// Whether the set of sRGB texture indices holds the given (defined)
/// texture reference.
pub fn srgb_contains(set: &Vec<GltfIndex<GltfTexture>>, idx: GltfIndex<GltfTexture>) -> (r: bool)
    ensures
        idx@ matches Some(t) ==> r == index_set_contains(set@, t),
{
    let mut k: usize = 0;
    while k < set.len()
        invariant
            k <= set@.len(),
            forall|w: int| 0 <= w < k ==> (#[trigger] set@[w])@ != idx@,
        decreases set@.len() - k,
    {
        if set[k].raw_idx() == idx.raw_idx() {
            assert(set@[k as int]@ == idx@);
            return true;
        }
        k = k + 1;
    }
    proof {
        if idx@ is Some && index_set_contains(set@, idx@.unwrap()) {
            let w = choose|w: int|
                0 <= w < set@.len() && (#[trigger] set@[w])@ == Some(idx@.unwrap());
            assert(set@[w]@ == idx@);
        }
    }
    false
}

/// The compressed-image reference the texture's recognized extension
/// carries, when present.
pub fn texture_ktx_source(texture: &GltfTexture) -> (r: Option<GltfIndex<GltfImage>>)
    ensures
        match r {
            Some(ix) => texture.ktx_source@ is Some && ix == texture.ktx_source,
            None => texture.ktx_source@ is None,
        },
{
    if texture.ktx_source.is_defined() {
        Some(texture.ktx_source)
    } else {
        None
    }
}

/// Point the texture's recognized extension at a (defined) compressed
/// image.
pub fn set_texture_ktx_source(texture: &mut GltfTexture, new_idx: GltfIndex<GltfImage>)
    requires
        new_idx@ is Some,
    ensures
        final(texture).ktx_source == new_idx,
        final(texture).sampler == old(texture).sampler,
        final(texture).source == old(texture).source,
        final(texture).name == old(texture).name,
        final(texture).extensions == old(texture).extensions,
        final(texture).extras == old(texture).extras,
{
    texture.ktx_source = new_idx;
}

/// The byte the KTX2 signature holds at each of its 12 positions.
pub open spec fn ktx2_signature_byte(i: int) -> u8 {
    if i == 0 {
        0xab
    } else if i == 1 {
        0x4b
    } else if i == 2 {
        0x54
    } else if i == 3 {
        0x58
    } else if i == 4 {
        0x20
    } else if i == 5 {
        0x32
    } else if i == 6 {
        0x30
    } else if i == 7 {
        0xbb
    } else if i == 8 {
        0x0d
    } else if i == 9 {
        0x0a
    } else if i == 10 {
        0x1a
    } else {
        0x0a
    }
}

/// The fixed 12-byte signature every KTX2 payload starts with.
pub open spec fn ktx2_signature() -> Seq<u8> {
    Seq::new(12, |i: int| ktx2_signature_byte(i))
}

fn ktx2_byte_at(i: usize) -> (r: u8)
    requires
        i < 12,
    ensures
        r == ktx2_signature_byte(i as int),
{
    if i == 0 {
        0xab
    } else if i == 1 {
        0x4b
    } else if i == 2 {
        0x54
    } else if i == 3 {
        0x58
    } else if i == 4 {
        0x20
    } else if i == 5 {
        0x32
    } else if i == 6 {
        0x30
    } else if i == 7 {
        0xbb
    } else if i == 8 {
        0x0d
    } else if i == 9 {
        0x0a
    } else if i == 10 {
        0x1a
    } else {
        0x0a
    }
}

/// Whether the payload starts with the fixed KTX2 signature.
pub fn has_ktx2_signature(d: &[u8]) -> (r: bool)
    ensures
        r == (d@.len() >= 12 && d@.take(12) == ktx2_signature()),
{
    if d.len() < 12 {
        return false;
    }
    let mut i: usize = 0;
    while i < 12
        invariant
            i <= 12,
            d@.len() >= 12,
            forall|j: int| 0 <= j < i ==> d@[j] == ktx2_signature_byte(j),
        decreases 12 - i,
    {
        if d[i] != ktx2_byte_at(i) {
            assert(d@.take(12)[i as int] != ktx2_signature()[i as int]);
            return false;
        }
        i = i + 1;
    }
    assert(d@.take(12) =~= ktx2_signature());
    true
}

/// The target format of an uncompressed (plain) image re-encode.
#[derive(Clone, Copy, Debug, PartialEq, Eq)]
pub enum UncompressedImageFormat {
    Jpeg,
    Png,
}

/// How a job's image is to be re-encoded: a plain raster format, or a KTX2
/// texture using basis compression.
#[derive(Clone, Copy, Debug, PartialEq)]
pub enum ImageReencodeFormat {
    Basic(UncompressedImageFormat),
    Ktx {
        /// Basis compression quality; `None` leaves the encoder's default.
        /// Zero is not a meaningful quality.
        basis_compression_quality: Option<u8>,
        transcoded_to_bc1_or_bc3: bool,
    },
}

/// Settings for the re-encode jobs.
#[derive(Clone, Copy, Debug)]
pub struct Params {
    pub uncompressed_format: UncompressedImageFormat,
    pub ktx_basis_compression_quality: Option<u8>,
    pub ktx_transcode_to_bc1_or_bc3: bool,
}

impl Default for Params {
    fn default() -> (r: Self)
        ensures
            r.uncompressed_format == UncompressedImageFormat::Jpeg,
            r.ktx_basis_compression_quality is None,
            r.ktx_transcode_to_bc1_or_bc3 == true,
    {
        Params {
            uncompressed_format: UncompressedImageFormat::Jpeg,
            ktx_basis_compression_quality: None,
            ktx_transcode_to_bc1_or_bc3: true,
        }
    }
}

/// One re-encode job: the resolved bytes of one distinct image, what they
/// are, and how they are to be re-encoded.
#[derive(Debug, PartialEq)]
pub struct ImageReencodeJob {
    /// The image's resolved bytes.
    pub data: Vec<u8>,
    /// The MIME type of `data`: the image's declared type, a sniffed one,
    /// or the KTX2 type for a compressed alternative.
    pub data_mime_type: String,
    /// Whether the image is consumed in the sRGB color space.
    pub data_used_as_srgb: bool,
    pub reencode_as: ImageReencodeFormat,
    /// The buffer view the image read its bytes from, when it had one.
    pub preexisting_buffer_view_idx: GltfIndex<GltfBufferView>,
}

/// The spec-level image of a re-encode job.
pub struct ImageReencodeJobView {
    pub data: Seq<u8>,
    pub data_mime_type: Seq<char>,
    pub data_used_as_srgb: bool,
    pub reencode_as: ImageReencodeFormat,
    pub preexisting_buffer_view_idx: Option<int>,
}

impl View for ImageReencodeJob {
    type V = ImageReencodeJobView;

    open spec fn view(&self) -> ImageReencodeJobView {
        ImageReencodeJobView {
            data: self.data@,
            data_mime_type: self.data_mime_type@,
            data_used_as_srgb: self.data_used_as_srgb,
            reencode_as: self.reencode_as,
            preexisting_buffer_view_idx: self.preexisting_buffer_view_idx@,
        }
    }
}

/// The spec-level image of a texture: its references as resolved positions,
/// pass-through fields carried as they are.
pub struct GltfTextureView {
    pub sampler: Option<int>,
    pub source: Option<int>,
    pub ktx_source: Option<int>,
    pub name: serde_json::Value,
    pub extensions: serde_json::Value,
    pub extras: serde_json::Value,
}

impl View for GltfTexture {
    type V = GltfTextureView;

    open spec fn view(&self) -> GltfTextureView {
        GltfTextureView {
            sampler: self.sampler@,
            source: self.source@,
            ktx_source: self.ktx_source@,
            name: self.name,
            extensions: self.extensions,
            extras: self.extras,
        }
    }
}

/// The textures' spec-level images, in order.
pub open spec fn textures_view(ts: Seq<GltfTexture>) -> Seq<GltfTextureView> {
    Seq::new(ts.len(), |i: int| ts[i]@)
}

/// The jobs' spec-level images, in order.
pub open spec fn jobs_view(js: Seq<ImageReencodeJob>) -> Seq<ImageReencodeJobView> {
    Seq::new(js.len(), |i: int| js[i]@)
}

/// The result of collecting re-encode jobs: the textures rewritten to point
/// at job indices, and the jobs themselves.
#[derive(Debug, PartialEq)]
pub struct ReencodeJobs {
    pub new_textures: Vec<GltfTexture>,
    pub new_images: Vec<ImageReencodeJob>,
}

/// The MIME type of an image's resolved bytes: its declared type when it
/// has one, otherwise whatever the magic-byte sniffing yields.
pub open spec fn mime_of_image_spec(img: GltfImage, d: Seq<u8>) -> Option<Seq<char>> {
    match img.mime_type {
        Some(s) => Some(s@),
        None => mime_guess_of(d),
    }
}

/// What a texture's image reference resolves to: the plain image's bytes
/// and MIME type when `source` is set, else the compressed alternative's
/// bytes (which must carry the KTX2 signature), else nothing.
pub open spec fn texture_image_source_spec(
    t: GltfTexture,
    images: Seq<GltfImage>,
    views: Seq<GltfBufferView>,
    datas: Seq<Seq<u8>>,
    m: Map<Option<Seq<char>>, Seq<u8>>,
) -> Result<Option<(Seq<u8>, Seq<char>)>, ErrorView> {
    match t.source@ {
        Some(si) => if si >= images.len() {
            Err(ErrorView::IdxOOB { list_name: "images"@, idx: si, num: images.len() as int })
        } else {
            match image_data_spec(images[si], views, datas, m) {
                Err(e) => Err(e),
                Ok(d) => match mime_of_image_spec(images[si], d) {
                    Some(mt) => Ok(Some((d, mt))),
                    None => Err(ErrorView::ImageCouldntFindFormat),
                },
            }
        },
        None => match t.ktx_source@ {
            Some(oi) => if oi >= images.len() {
                Err(ErrorView::IdxOOB { list_name: "images"@, idx: oi, num: images.len() as int })
            } else {
                match image_data_spec(images[oi], views, datas, m) {
                    Err(e) => Err(e),
                    Ok(d) => if d.len() >= 12 && d.take(12) == ktx2_signature() {
                        Ok(Some((d, "image/ktx2"@)))
                    } else {
                        Err(ErrorView::ImageClaimedKtx2ButWasNot)
                    },
                }
            },
            None => Ok(None),
        },
    }
}

/// Resolve the bytes and MIME type that a texture's image references
/// denote: the plain image when `source` is set, otherwise the compressed
/// alternative, otherwise nothing.
fn texture_image_source(
    t: &GltfTexture,
    images: &Vec<GltfImage>,
    buffer_views: &Vec<GltfBufferView>,
    buffer_datas: &Vec<U8VecOrSlice>,
    binaries: &BlobMap,
) -> (r: Result<Option<(Vec<u8>, String)>, Error>)
    ensures
        match r {
            Ok(None) => texture_image_source_spec(
                *t,
                images@,
                buffer_views@,
                datas_view(buffer_datas@),
                binaries@,
            ) == Ok::<Option<(Seq<u8>, Seq<char>)>, ErrorView>(None),
            Ok(Some((d, mt))) => texture_image_source_spec(
                *t,
                images@,
                buffer_views@,
                datas_view(buffer_datas@),
                binaries@,
            ) == Ok::<Option<(Seq<u8>, Seq<char>)>, ErrorView>(Some((d@, mt@))),
            Err(e) => texture_image_source_spec(
                *t,
                images@,
                buffer_views@,
                datas_view(buffer_datas@),
                binaries@,
            ) == Err::<Option<(Seq<u8>, Seq<char>)>, ErrorView>(e@),
        },
{
    match images.gltf_index(t.source, "images") {
        Err(e) => Err(e),
        Ok(Some(img)) => {
            match img.dump_data(buffer_views, buffer_datas, binaries) {
                Err(e) => Err(e),
                Ok(data) => {
                    let mime: String = match &img.mime_type {
                        Some(mt) => mt.clone(),
                        None => match guess_mime_type(data.as_slice()) {
                            Some(g) => g,
                            None => {
                                return Err(Error::ImageCouldntFindFormat);
                            },
                        },
                    };
                    Ok(Some((data.into_vec(), mime)))
                },
            }
        },
        Ok(None) => {
            match images.gltf_index(t.ktx_source, "images") {
                Err(e) => Err(e),
                Ok(Some(img)) => {
                    match img.dump_data(buffer_views, buffer_datas, binaries) {
                        Err(e) => Err(e),
                        Ok(data) => {
                            if has_ktx2_signature(data.as_slice()) {
                                Ok(Some((data.into_vec(), "image/ktx2".to_owned())))
                            } else {
                                Err(Error::ImageClaimedKtx2ButWasNot)
                            }
                        },
                    }
                },
                Ok(None) => Ok(None),
            }
        },
    }
}

/// The mapping a list of (image index, job index) entries denotes.
pub open spec fn table_map(s: Seq<(usize, usize)>) -> Map<int, int>
    decreases s.len(),
{
    if s.len() == 0 {
        Map::empty()
    } else {
        table_map(s.drop_last()).insert(s.last().0 as int, s.last().1 as int)
    }
}

proof fn lemma_table_found(s: Seq<(usize, usize)>, k: int, i: int)
    requires
        0 <= i < s.len(),
        s[i].0 as int == k,
        forall|j: int| i < j < s.len() ==> (#[trigger] s[j]).0 as int != k,
    ensures
        table_map(s).contains_key(k),
        table_map(s)[k] == s[i].1 as int,
    decreases s.len(),
{
    if i == s.len() - 1 {
    } else {
        lemma_table_found(s.drop_last(), k, i);
    }
}

proof fn lemma_table_absent(s: Seq<(usize, usize)>, k: int)
    requires
        forall|j: int| 0 <= j < s.len() ==> (#[trigger] s[j]).0 as int != k,
    ensures
        !table_map(s).contains_key(k),
    decreases s.len(),
{
    if s.len() > 0 {
        lemma_table_absent(s.drop_last(), k);
    }
}

/// Look an image index up in the job table.
fn table_get(table: &Vec<(usize, usize)>, key: usize) -> (r: Option<usize>)
    ensures
        match r {
            Some(v) => table_map(table@).contains_key(key as int) && v as int == table_map(table@)[
                key as int
            ],
            None => !table_map(table@).contains_key(key as int),
        },
{
    let mut i: usize = table.len();
    while i > 0
        invariant
            i <= table@.len(),
            forall|j: int| i <= j < table@.len() ==> (#[trigger] table@[j]).0 as int != key as int,
        decreases i,
    {
        i = i - 1;
        if table[i].0 == key {
            proof {
                lemma_table_found(table@, key as int, i as int);
            }
            return Some(table[i].1);
        }
    }
    proof {
        lemma_table_absent(table@, key as int);
    }
    None
}

/// The dedup state the job collector threads through the textures: the
/// jobs emitted so far and the table mapping each original image index to
/// its job index.
pub struct JobState {
    pub jobs: Seq<ImageReencodeJobView>,
    pub table: Map<int, int>,
}

/// The job recorded for image `oi`.
pub open spec fn job_for(
    images: Seq<GltfImage>,
    oi: int,
    srgb: bool,
    data: Seq<u8>,
    mime: Seq<char>,
    fmt: ImageReencodeFormat,
) -> ImageReencodeJobView {
    ImageReencodeJobView {
        data,
        data_mime_type: mime,
        data_used_as_srgb: srgb,
        reencode_as: fmt,
        preexisting_buffer_view_idx: images[oi].buffer_view@,
    }
}

/// Look an image reference up in the dedup state, or record a fresh job
/// for it: an image seen before yields its existing job index and leaves
/// the state unchanged; a fresh valid image appends one job and maps the
/// image to it; an unset or out-of-range reference is an error.
pub open spec fn lookup_job_spec(
    st: JobState,
    old_idx: Option<int>,
    srgb: bool,
    data: Seq<u8>,
    mime: Seq<char>,
    fmt: ImageReencodeFormat,
    images: Seq<GltfImage>,
) -> Result<(int, JobState), ErrorView> {
    match old_idx {
        None => Err(ErrorView::IdxNotSet { list_name: "images"@ }),
        Some(oi) => if st.table.contains_key(oi) {
            Ok((st.table[oi], st))
        } else if oi >= images.len() {
            Err(ErrorView::IdxOOB { list_name: "images"@, idx: oi, num: images.len() as int })
        } else {
            Ok(
                (
                    st.jobs.len() as int,
                    JobState {
                        jobs: st.jobs.push(job_for(images, oi, srgb, data, mime, fmt)),
                        table: st.table.insert(oi, st.jobs.len() as int),
                    },
                ),
            )
        },
    }
}

/// The spec-level state the exec job collector's vectors denote.
pub open spec fn state_of(jobs: Seq<ImageReencodeJob>, table: Seq<(usize, usize)>) -> JobState {
    JobState { jobs: jobs_view(jobs), table: table_map(table) }
}

/// Look `old_idx` up in the job table, recording a fresh job for it when
/// it is new.
fn lookup_or_insert(
    new_images: &mut Vec<ImageReencodeJob>,
    table: &mut Vec<(usize, usize)>,
    old_idx: GltfIndex<GltfImage>,
    srgb: bool,
    data: Vec<u8>,
    mime: String,
    fmt: ImageReencodeFormat,
    images: &Vec<GltfImage>,
) -> (r: Result<usize, Error>)
    requires
        forall|k: int|
            #[trigger] table_map(old(table)@).contains_key(k) ==> 0 <= table_map(old(table)@)[k]
                < old(new_images)@.len(),
    ensures
        match r {
            Ok(n) => {
                &&& n < usize::MAX
                &&& lookup_job_spec(
                    state_of(old(new_images)@, old(table)@),
                    old_idx@,
                    srgb,
                    data@,
                    mime@,
                    fmt,
                    images@,
                ) == Ok::<(int, JobState), ErrorView>(
                    (n as int, state_of(final(new_images)@, final(table)@)),
                )
            },
            Err(e) => {
                &&& lookup_job_spec(
                    state_of(old(new_images)@, old(table)@),
                    old_idx@,
                    srgb,
                    data@,
                    mime@,
                    fmt,
                    images@,
                ) == Err::<(int, JobState), ErrorView>(e@)
                &&& final(new_images)@ == old(new_images)@
                &&& final(table)@ == old(table)@
            },
        },
{
    if old_idx.is_undefined() {
        return Err(Error::IdxNotSet { list_name: "images" });
    }
    let oi = old_idx.raw_idx();
    match table_get(table, oi) {
        Some(n) => {
            let jobs_len: usize = new_images.len();
            proof {
                assert((n as int) < (jobs_len as int));
            }
            Ok(n)
        },
        None => {
            let img = match images.gltf_index_required(old_idx, "images") {
                Ok(i) => i,
                Err(e) => return Err(e),
            };
            let n = new_images.len();
            new_images.push(
                ImageReencodeJob {
                    data,
                    data_mime_type: mime,
                    data_used_as_srgb: srgb,
                    reencode_as: fmt,
                    preexisting_buffer_view_idx: img.buffer_view,
                },
            );
            table.push((oi, n));
            let post_len: usize = new_images.len();
            proof {
                assert(post_len as int == n as int + 1);
                assert(new_images@.drop_last() =~= old(new_images)@);
                assert(jobs_view(new_images@) =~= jobs_view(old(new_images)@).push(
                    new_images@.last()@,
                ));
                assert(table@.drop_last() =~= old(table)@);
                assert(new_images@.last()@ == job_for(
                    images@,
                    oi as int,
                    srgb,
                    data@,
                    mime@,
                    fmt,
                ));
            }
            Ok(n)
        },
    }
}

/// The image reference texture `t` carries: its plain `source`, or the
/// compressed one from the recognized extension.
pub open spec fn old_image_ref(ts: Seq<GltfTexture>, t: int, compressed: bool) -> Option<int> {
    if compressed {
        ts[t].ktx_source@
    } else {
        ts[t].source@
    }
}

/// The job reference a rewritten texture carries in the same slot.
pub open spec fn new_image_ref(tvs: Seq<GltfTextureView>, t: int, compressed: bool) -> Option<
    int,
> {
    if compressed {
        tvs[t].ktx_source
    } else {
        tvs[t].source
    }
}

/// Process one texture: resolve its image bytes, then record (or reuse) a
/// job for the plain image and one for the compressed alternative, and
/// rewrite both of the texture's references to the job indices.
pub open spec fn process_texture_spec(
    t: GltfTexture,
    st: JobState,
    images: Seq<GltfImage>,
    views: Seq<GltfBufferView>,
    datas: Seq<Seq<u8>>,
    m: Map<Option<Seq<char>>, Seq<u8>>,
    srgb: bool,
    params: Params,
) -> Result<(GltfTextureView, JobState), ErrorView> {
    match texture_image_source_spec(t, images, views, datas, m) {
        Err(e) => Err(e),
        Ok(None) => Err(ErrorView::ImageHasNoSources),
        Ok(Some(dm)) => match lookup_job_spec(
            st,
            t.source@,
            srgb,
            dm.0,
            dm.1,
            ImageReencodeFormat::Basic(params.uncompressed_format),
            images,
        ) {
            Err(e) => Err(e),
            Ok(r1) => match lookup_job_spec(
                r1.1,
                t.ktx_source@,
                srgb,
                dm.0,
                dm.1,
                ImageReencodeFormat::Ktx {
                    basis_compression_quality: params.ktx_basis_compression_quality,
                    transcoded_to_bc1_or_bc3: params.ktx_transcode_to_bc1_or_bc3,
                },
                images,
            ) {
                Err(e) => Err(e),
                Ok(r2) => Ok(
                    (
                        GltfTextureView {
                            sampler: t.sampler@,
                            source: Some(r1.0),
                            ktx_source: Some(r2.0),
                            name: t.name,
                            extensions: t.extensions,
                            extras: t.extras,
                        },
                        r2.1,
                    ),
                ),
            },
        },
    }
}

/// Process the first `n` textures in document order, threading the dedup
/// state through and stopping at the first error.
pub open spec fn process_textures_spec(
    ts: Seq<GltfTexture>,
    n: int,
    images: Seq<GltfImage>,
    views: Seq<GltfBufferView>,
    datas: Seq<Seq<u8>>,
    m: Map<Option<Seq<char>>, Seq<u8>>,
    mats: Seq<GltfMaterial>,
    params: Params,
) -> Result<(Seq<GltfTextureView>, JobState), ErrorView>
    decreases n,
{
    if n <= 0 {
        Ok((Seq::empty(), JobState { jobs: Seq::empty(), table: Map::empty() }))
    } else {
        match process_textures_spec(ts, n - 1, images, views, datas, m, mats, params) {
            Err(e) => Err(e),
            Ok(acc) => match process_texture_spec(
                ts[n - 1],
                acc.1,
                images,
                views,
                datas,
                m,
                is_srgb_texture(mats, n - 1),
                params,
            ) {
                Err(e) => Err(e),
                Ok(step) => Ok((acc.0.push(step.0), step.1)),
            },
        }
    }
}

/// An error hit on a prefix of the textures is the error of every longer
/// prefix.
proof fn lemma_process_error_persists(
    ts: Seq<GltfTexture>,
    n1: int,
    n2: int,
    images: Seq<GltfImage>,
    views: Seq<GltfBufferView>,
    datas: Seq<Seq<u8>>,
    m: Map<Option<Seq<char>>, Seq<u8>>,
    mats: Seq<GltfMaterial>,
    params: Params,
    e: ErrorView,
)
    requires
        0 <= n1 <= n2,
        process_textures_spec(ts, n1, images, views, datas, m, mats, params) == Err::<
            (Seq<GltfTextureView>, JobState),
            ErrorView,
        >(e),
    ensures
        process_textures_spec(ts, n2, images, views, datas, m, mats, params) == Err::<
            (Seq<GltfTextureView>, JobState),
            ErrorView,
        >(e),
    decreases n2 - n1,
{
    if n1 < n2 {
        lemma_process_error_persists(ts, n1, n2 - 1, images, views, datas, m, mats, params, e);
    }
}

/// What collecting the re-encode jobs yields for a whole document: every
/// buffer resolved, every texture processed in order, the rewritten
/// textures and the deduplicated job list.
pub open spec fn reencode_jobs_spec(
    ts: Seq<GltfTexture>,
    images: Seq<GltfImage>,
    views: Seq<GltfBufferView>,
    buffers: Seq<GltfBuffer>,
    mats: Seq<GltfMaterial>,
    m: Map<Option<Seq<char>>, Seq<u8>>,
    params: Params,
) -> Result<(Seq<GltfTextureView>, Seq<ImageReencodeJobView>), ErrorView> {
    match resolve_all_buffers_spec(buffers, m) {
        Err(e) => Err(e),
        Ok(datas) => match process_textures_spec(
            ts,
            ts.len() as int,
            images,
            views,
            datas,
            m,
            mats,
            params,
        ) {
            Err(e) => Err(e),
            Ok(acc) => Ok((acc.0, acc.1.jobs)),
        },
    }
}

/// Job `j` is referenced by at least one of the first `n` rewritten
/// textures, through either its plain or its compressed slot.
pub open spec fn job_is_referenced(tvs: Seq<GltfTextureView>, n: int, j: int) -> bool {
    exists|t: int, c: bool| 0 <= t < n && new_image_ref(tvs, t, c) == Some(j)
}

/// The dedup state is well formed with respect to `owners`, the list of
/// original image indices in job order: table and owners are inverse to
/// each other, and each job records its owner image's buffer view.
pub open spec fn dedup_ok(st: JobState, owners: Seq<int>, images: Seq<GltfImage>) -> bool {
    &&& owners.len() == st.jobs.len()
    &&& forall|j: int|
        0 <= j < owners.len() ==> st.table.contains_key(#[trigger] owners[j]) && st.table[owners[j]]
            == j && 0 <= owners[j] < images.len()
    &&& forall|k: int|
        #[trigger] st.table.contains_key(k) ==> 0 <= k < images.len() && 0 <= st.table[k]
            < owners.len() && owners[st.table[k]] == k
    &&& forall|j: int|
        0 <= j < owners.len() ==> st.jobs[j].preexisting_buffer_view_idx == images[
            #[trigger] owners[j]
        ].buffer_view@
}

/// A successful lookup extends a well-formed dedup state: existing table
/// entries and jobs persist, the looked-up image is mapped to the returned
/// job index, and well-formedness carries over to the new owners list.
proof fn lemma_lookup_advances(
    st0: JobState,
    old_idx: Option<int>,
    srgb: bool,
    data: Seq<u8>,
    mime: Seq<char>,
    fmt: ImageReencodeFormat,
    images: Seq<GltfImage>,
    n: int,
    st1: JobState,
    owners0: Seq<int>,
    owners1: Seq<int>,
)
    requires
        lookup_job_spec(st0, old_idx, srgb, data, mime, fmt, images) == Ok::<
            (int, JobState),
            ErrorView,
        >((n, st1)),
        old_idx matches Some(v) ==> v >= 0,
        dedup_ok(st0, owners0, images),
        owners1 == if old_idx is Some && st0.table.contains_key(old_idx.unwrap()) {
            owners0
        } else {
            owners0.push(old_idx.unwrap())
        },
    ensures
        old_idx is Some,
        dedup_ok(st1, owners1, images),
        forall|k: int|
            #[trigger] st0.table.contains_key(k) ==> st1.table.contains_key(k) && st1.table[k]
                == st0.table[k],
        st1.table.contains_key(old_idx.unwrap()),
        st1.table[old_idx.unwrap()] == n,
        st1.jobs.len() >= st0.jobs.len(),
        forall|j: int| 0 <= j < st0.jobs.len() ==> st1.jobs[j] == #[trigger] st0.jobs[j],
        forall|j: int| 0 <= j < owners0.len() ==> owners1[j] == #[trigger] owners0[j],
{
    let oi = old_idx.unwrap();
    if st0.table.contains_key(oi) {
        assert(st1 == st0);
    } else {
        assert(st1.jobs == st0.jobs.push(job_for(images, oi, srgb, data, mime, fmt)));
        assert(st1.table == st0.table.insert(oi, st0.jobs.len() as int));
        assert(n == st0.jobs.len() as int);
        assert(0 <= oi < images.len());
        assert forall|j: int|
            0 <= j < owners1.len() implies st1.table.contains_key(#[trigger] owners1[j])
            && st1.table[owners1[j]] == j && 0 <= owners1[j] < images.len() by {
            if j < owners0.len() {
                assert(owners1[j] == owners0[j]);
                assert(st0.table.contains_key(owners0[j]));
                assert(owners0[j] != oi);
            } else {
                assert(owners1[j] == oi);
            }
        }
        assert forall|k: int|
            #[trigger] st1.table.contains_key(k) implies 0 <= k < images.len() && 0 <= st1.table[k]
            < owners1.len() && owners1[st1.table[k]] == k by {
            if k != oi {
                assert(st0.table.contains_key(k));
                assert(owners1[st0.table[k]] == owners0[st0.table[k]]);
            }
        }
        assert forall|j: int|
            0 <= j < owners1.len() implies st1.jobs[j].preexisting_buffer_view_idx == images[
            #[trigger] owners1[j]
        ].buffer_view@ by {
            if j < owners0.len() {
                assert(st1.jobs[j] == st0.jobs[j]);
                assert(owners1[j] == owners0[j]);
            } else {
                assert(st1.jobs[j] == job_for(images, oi, srgb, data, mime, fmt));
            }
        }
    }
}

/// Collect the re-encode jobs for the whole document: resolve every
/// texture's image bytes, record one job per distinct underlying image,
/// and rewrite every texture's plain and compressed references to the job
/// indices.  Two textures sharing an image share its job; every job is
/// referenced by some rewritten texture; any failure aborts the whole
/// collection.
#[verifier::loop_isolation(false)]
#[verifier::rlimit(60)]
pub fn get_reencode_jobs(
    textures: Vec<GltfTexture>,
    images: &Vec<GltfImage>,
    buffer_views: &Vec<GltfBufferView>,
    buffers: &Vec<GltfBuffer>,
    materials: &Vec<GltfMaterial>,
    binaries: &BlobMap,
    params: Params,
) -> (r: Result<ReencodeJobs, Error>)
    ensures
        match r {
            Ok(jobs) => {
                &&& reencode_jobs_spec(
                    textures@,
                    images@,
                    buffer_views@,
                    buffers@,
                    materials@,
                    binaries@,
                    params,
                ) == Ok::<(Seq<GltfTextureView>, Seq<ImageReencodeJobView>), ErrorView>(
                    (textures_view(jobs.new_textures@), jobs_view(jobs.new_images@)),
                )
                &&& jobs.new_textures@.len() == textures@.len()
                &&& forall|t: int, c: bool|
                    0 <= t < textures@.len() ==> {
                        let nr = #[trigger] new_image_ref(
                            textures_view(jobs.new_textures@),
                            t,
                            c,
                        );
                        let or = old_image_ref(textures@, t, c);
                        &&& or is Some
                        &&& nr is Some
                        &&& 0 <= nr.unwrap() < jobs.new_images@.len()
                        &&& jobs.new_images@[nr.unwrap()]@.preexisting_buffer_view_idx
                            == images@[or.unwrap()].buffer_view@
                    }
                &&& forall|t1: int, c1: bool, t2: int, c2: bool|
                    #![trigger new_image_ref(textures_view(jobs.new_textures@), t1, c1), new_image_ref(textures_view(jobs.new_textures@), t2, c2)]
                    0 <= t1 < textures@.len() && 0 <= t2 < textures@.len() ==> (new_image_ref(
                        textures_view(jobs.new_textures@),
                        t1,
                        c1,
                    ) == new_image_ref(textures_view(jobs.new_textures@), t2, c2)
                        <==> old_image_ref(textures@, t1, c1) == old_image_ref(
                        textures@,
                        t2,
                        c2,
                    ))
                &&& forall|j: int|
                    0 <= j < jobs.new_images@.len() ==> #[trigger] job_is_referenced(
                        textures_view(jobs.new_textures@),
                        textures@.len() as int,
                        j,
                    )
            },
            Err(e) => reencode_jobs_spec(
                textures@,
                images@,
                buffer_views@,
                buffers@,
                materials@,
                binaries@,
                params,
            ) == Err::<(Seq<GltfTextureView>, Seq<ImageReencodeJobView>), ErrorView>(e@),
        },
{
    let ghost m = binaries@;
    let ghost ots = textures@;
    let buffer_datas = match resolve_all_buffers(buffers, binaries) {
        Ok(ds) => ds,
        Err(e) => return Err(e),
    };
    let ghost datas = datas_view(buffer_datas@);
    let srgb_set = get_srgb_texture_indices(materials);
    let total: usize = textures.len();
    let mut ts = textures;
    let mut new_textures: Vec<GltfTexture> = Vec::new();
    let mut new_images: Vec<ImageReencodeJob> = Vec::new();
    let mut table: Vec<(usize, usize)> = Vec::new();
    let ghost mut owners: Seq<int> = Seq::empty();
    proof {
        assert(textures_view(new_textures@) =~= Seq::<GltfTextureView>::empty());
        assert(jobs_view(new_images@) =~= Seq::<ImageReencodeJobView>::empty());
        assert(state_of(new_images@, table@).table =~= Map::<int, int>::empty());
        assert(ts@ =~= ots.subrange(0, ots.len() as int));
    }
    while ts.len() > 0
        invariant
            total == ots.len(),
            new_textures@.len() + ts@.len() == ots.len(),
            ts@ =~= ots.subrange(new_textures@.len() as int, ots.len() as int),
            m == binaries@,
            datas == datas_view(buffer_datas@),
            resolve_all_buffers_spec(buffers@, m) == Ok::<Seq<Seq<u8>>, ErrorView>(datas),
            forall|t: int|
                #![trigger is_srgb_texture(materials@, t)]
                #![trigger index_set_contains(srgb_set@, t)]
                index_set_contains(srgb_set@, t) <==> is_srgb_texture(materials@, t),
            process_textures_spec(
                ots,
                new_textures@.len() as int,
                images@,
                buffer_views@,
                datas,
                m,
                materials@,
                params,
            ) == Ok::<(Seq<GltfTextureView>, JobState), ErrorView>(
                (textures_view(new_textures@), state_of(new_images@, table@)),
            ),
            dedup_ok(state_of(new_images@, table@), owners, images@),
            forall|t: int, c: bool|
                0 <= t < new_textures@.len() ==> {
                    let or = old_image_ref(ots, t, c);
                    &&& or is Some
                    &&& table_map(table@).contains_key(or.unwrap())
                    &&& #[trigger] new_image_ref(textures_view(new_textures@), t, c) == Some(
                        table_map(table@)[or.unwrap()],
                    )
                },
            forall|j: int|
                0 <= j < owners.len() ==> exists|t: int, c: bool|
                    0 <= t < new_textures@.len() && old_image_ref(ots, t, c) == Some(
                        #[trigger] owners[j],
                    ),
        decreases ts@.len(),
    {
        let tex_idx: usize = new_textures.len();
        let t = ts.remove(0);
        proof {
            assert(t == ots[tex_idx as int]);
            assert(ts@ =~= ots.subrange(tex_idx + 1, ots.len() as int));
        }
        let srgb_flag = srgb_contains(&srgb_set, GltfIndex::of(tex_idx));
        proof {
            assert(srgb_flag == is_srgb_texture(materials@, tex_idx as int));
        }
        let ghost st0 = state_of(new_images@, table@);
        match texture_image_source(&t, images, buffer_views, &buffer_datas, binaries) {
            Err(e) => {
                proof {
                    assert(process_texture_spec(
                        ots[tex_idx as int],
                        st0,
                        images@,
                        buffer_views@,
                        datas,
                        m,
                        is_srgb_texture(materials@, tex_idx as int),
                        params,
                    ) == Err::<(GltfTextureView, JobState), ErrorView>(e@));
                    assert(process_textures_spec(
                        ots,
                        tex_idx + 1,
                        images@,
                        buffer_views@,
                        datas,
                        m,
                        materials@,
                        params,
                    ) == Err::<(Seq<GltfTextureView>, JobState), ErrorView>(e@));
                    lemma_process_error_persists(
                        ots,
                        tex_idx + 1,
                        ots.len() as int,
                        images@,
                        buffer_views@,
                        datas,
                        m,
                        materials@,
                        params,
                        e@,
                    );
                    assert(reencode_jobs_spec(
                        ots,
                        images@,
                        buffer_views@,
                        buffers@,
                        materials@,
                        binaries@,
                        params,
                    ) == Err::<(Seq<GltfTextureView>, Seq<ImageReencodeJobView>), ErrorView>(e@));
                }
                return Err(e);
            },
            Ok(None) => {
                proof {
                    assert(process_texture_spec(
                        ots[tex_idx as int],
                        st0,
                        images@,
                        buffer_views@,
                        datas,
                        m,
                        is_srgb_texture(materials@, tex_idx as int),
                        params,
                    ) == Err::<(GltfTextureView, JobState), ErrorView>(
                        ErrorView::ImageHasNoSources,
                    ));
                    assert(process_textures_spec(
                        ots,
                        tex_idx + 1,
                        images@,
                        buffer_views@,
                        datas,
                        m,
                        materials@,
                        params,
                    ) == Err::<(Seq<GltfTextureView>, JobState), ErrorView>(
                        ErrorView::ImageHasNoSources,
                    ));
                    lemma_process_error_persists(
                        ots,
                        tex_idx + 1,
                        ots.len() as int,
                        images@,
                        buffer_views@,
                        datas,
                        m,
                        materials@,
                        params,
                        ErrorView::ImageHasNoSources,
                    );
                }
                return Err(Error::ImageHasNoSources);
            },
            Ok(Some((data, mime))) => {
                let data2 = slice_to_vec(data.as_slice());
                let mime2 = mime.clone();
                let ghost dview = data@;
                let ghost mview = mime@;
                let ghost owners_at_entry = owners;
                let ghost prev_tv = textures_view(new_textures@);
                let n1 = match lookup_or_insert(
                    &mut new_images,
                    &mut table,
                    t.source,
                    srgb_flag,
                    data,
                    mime,
                    ImageReencodeFormat::Basic(params.uncompressed_format),
                    images,
                ) {
                    Ok(n) => n,
                    Err(e) => {
                        proof {
                            assert(process_texture_spec(
                                ots[tex_idx as int],
                                st0,
                                images@,
                                buffer_views@,
                                datas,
                                m,
                                is_srgb_texture(materials@, tex_idx as int),
                                params,
                            ) == Err::<(GltfTextureView, JobState), ErrorView>(e@));
                            lemma_process_error_persists(
                                ots,
                                tex_idx + 1,
                                ots.len() as int,
                                images@,
                                buffer_views@,
                                datas,
                                m,
                                materials@,
                                params,
                                e@,
                            );
                        }
                        return Err(e);
                    },
                };
                proof {
                    let oi1 = t.source@.unwrap();
                    if !st0.table.contains_key(oi1) {
                        owners = owners.push(oi1);
                    }
                    lemma_lookup_advances(
                        st0,
                        t.source@,
                        srgb_flag,
                        dview,
                        mview,
                        ImageReencodeFormat::Basic(params.uncompressed_format),
                        images@,
                        n1 as int,
                        state_of(new_images@, table@),
                        owners_at_entry,
                        owners,
                    );
                }
                let ghost st1 = state_of(new_images@, table@);
                let ghost owners_mid = owners;
                let n2 = match lookup_or_insert(
                    &mut new_images,
                    &mut table,
                    t.ktx_source,
                    srgb_flag,
                    data2,
                    mime2,
                    ImageReencodeFormat::Ktx {
                        basis_compression_quality: params.ktx_basis_compression_quality,
                        transcoded_to_bc1_or_bc3: params.ktx_transcode_to_bc1_or_bc3,
                    },
                    images,
                ) {
                    Ok(n) => n,
                    Err(e) => {
                        proof {
                            assert(process_texture_spec(
                                ots[tex_idx as int],
                                st0,
                                images@,
                                buffer_views@,
                                datas,
                                m,
                                is_srgb_texture(materials@, tex_idx as int),
                                params,
                            ) == Err::<(GltfTextureView, JobState), ErrorView>(e@));
                            lemma_process_error_persists(
                                ots,
                                tex_idx + 1,
                                ots.len() as int,
                                images@,
                                buffer_views@,
                                datas,
                                m,
                                materials@,
                                params,
                                e@,
                            );
                        }
                        return Err(e);
                    },
                };
                proof {
                    let oi2 = t.ktx_source@.unwrap();
                    if !st1.table.contains_key(oi2) {
                        owners = owners.push(oi2);
                    }
                    lemma_lookup_advances(
                        st1,
                        t.ktx_source@,
                        srgb_flag,
                        dview,
                        mview,
                        ImageReencodeFormat::Ktx {
                            basis_compression_quality: params.ktx_basis_compression_quality,
                            transcoded_to_bc1_or_bc3: params.ktx_transcode_to_bc1_or_bc3,
                        },
                        images@,
                        n2 as int,
                        state_of(new_images@, table@),
                        owners_mid,
                        owners,
                    );
                }
                let ghost st2 = state_of(new_images@, table@);
                let mut nt = GltfTexture {
                    sampler: t.sampler,
                    source: GltfIndex::of(n1),
                    ktx_source: t.ktx_source,
                    name: t.name,
                    extensions: t.extensions,
                    extras: t.extras,
                };
                set_texture_ktx_source(&mut nt, GltfIndex::of(n2));
                new_textures.push(nt);
                proof {
                    let oi1 = t.source@.unwrap();
                    let oi2 = t.ktx_source@.unwrap();
                    assert(textures_view(new_textures@) =~= prev_tv.push(nt@));
                    assert(process_texture_spec(
                        ots[tex_idx as int],
                        st0,
                        images@,
                        buffer_views@,
                        datas,
                        m,
                        is_srgb_texture(materials@, tex_idx as int),
                        params,
                    ) == Ok::<(GltfTextureView, JobState), ErrorView>((nt@, st2)));
                    // the new texture's rewritten references come from the
                    // final table
                    assert(st2.table.contains_key(oi1) && st2.table[oi1] == n1 as int);
                    assert(st2.table.contains_key(oi2) && st2.table[oi2] == n2 as int);
                    assert forall|t2: int, c: bool| 0 <= t2 < new_textures@.len() implies {
                        let or = old_image_ref(ots, t2, c);
                        &&& or is Some
                        &&& table_map(table@).contains_key(or.unwrap())
                        &&& #[trigger] new_image_ref(textures_view(new_textures@), t2, c) == Some(
                            table_map(table@)[or.unwrap()],
                        )
                    } by {
                        if t2 < tex_idx {
                            assert(new_image_ref(prev_tv, t2, c) == Some(
                                st0.table[old_image_ref(ots, t2, c).unwrap()],
                            ));
                            assert(st0.table.contains_key(old_image_ref(ots, t2, c).unwrap()));
                            assert(textures_view(new_textures@)[t2] == prev_tv[t2]);
                        } else {
                            assert(t2 == tex_idx as int);
                            assert(textures_view(new_textures@)[t2] == nt@);
                        }
                    }
                    // every job owner was put there by some processed texture
                    assert forall|j: int| 0 <= j < owners.len() implies exists|t2: int, c: bool|
                        0 <= t2 < new_textures@.len() && old_image_ref(ots, t2, c) == Some(
                        #[trigger] owners[j],
                    ) by {
                        if j < owners_at_entry.len() {
                            assert(owners[j] == owners_at_entry[j]);
                            let (wt, wc): (int, bool) = choose|wt: int, wc: bool|
                                0 <= wt < prev_tv.len() && old_image_ref(ots, wt, wc) == Some(
                                    owners_at_entry[j],
                                );
                            assert(0 <= wt < new_textures@.len() && old_image_ref(ots, wt, wc)
                                == Some(owners[j]));
                        } else if j < owners_mid.len() {
                            assert(owners[j] == owners_mid[j]);
                            assert(owners_mid[j] == oi1);
                            assert(old_image_ref(ots, tex_idx as int, false) == Some(owners[j]));
                        } else {
                            assert(owners[j] == oi2);
                            assert(old_image_ref(ots, tex_idx as int, true) == Some(owners[j]));
                        }
                    }
                }
            },
        }
    }
    proof {
        assert(new_textures@.len() == ots.len());
        assert(state_of(new_images@, table@).table == table_map(table@));
        assert(state_of(new_images@, table@).jobs == jobs_view(new_images@));
        assert(dedup_ok(state_of(new_images@, table@), owners, images@));
        assert forall|t: int, c: bool| 0 <= t < ots.len() implies {
            let nr = #[trigger] new_image_ref(textures_view(new_textures@), t, c);
            let or = old_image_ref(ots, t, c);
            &&& or is Some
            &&& nr is Some
            &&& 0 <= nr.unwrap() < new_images@.len()
            &&& new_images@[nr.unwrap()]@.preexisting_buffer_view_idx == images@[
                or.unwrap()
            ].buffer_view@
        } by {
            let or = old_image_ref(ots, t, c);
            assert(new_image_ref(textures_view(new_textures@), t, c) == Some(
                table_map(table@)[or.unwrap()],
            ));
            assert(table_map(table@).contains_key(or.unwrap()));
            assert(owners[table_map(table@)[or.unwrap()]] == or.unwrap());
            assert(jobs_view(new_images@)[table_map(table@)[or.unwrap()]] == new_images@[
                table_map(table@)[or.unwrap()]
            ]@);
        }
        assert(reencode_jobs_spec(
            ots,
            images@,
            buffer_views@,
            buffers@,
            materials@,
            binaries@,
            params,
        ) == Ok::<(Seq<GltfTextureView>, Seq<ImageReencodeJobView>), ErrorView>(
            (textures_view(new_textures@), jobs_view(new_images@)),
        ));
        assert forall|t1: int, c1: bool, t2: int, c2: bool|
            0 <= t1 < ots.len() && 0 <= t2 < ots.len() implies (new_image_ref(
            textures_view(new_textures@),
            t1,
            c1,
        ) == new_image_ref(textures_view(new_textures@), t2, c2) <==> old_image_ref(
            ots,
            t1,
            c1,
        ) == old_image_ref(ots, t2, c2)) by {
            let or1 = old_image_ref(ots, t1, c1);
            let or2 = old_image_ref(ots, t2, c2);
            assert(new_image_ref(textures_view(new_textures@), t1, c1) == Some(
                table_map(table@)[or1.unwrap()],
            ));
            assert(new_image_ref(textures_view(new_textures@), t2, c2) == Some(
                table_map(table@)[or2.unwrap()],
            ));
            if table_map(table@)[or1.unwrap()] == table_map(table@)[or2.unwrap()] {
                assert(owners[table_map(table@)[or1.unwrap()]] == or1.unwrap());
                assert(owners[table_map(table@)[or2.unwrap()]] == or2.unwrap());
            }
        }
        assert forall|j: int| 0 <= j < new_images@.len() implies #[trigger] job_is_referenced(
            textures_view(new_textures@),
            ots.len() as int,
            j,
        ) by {
            let k = owners[j];
            let (t, c): (int, bool) = choose|t: int, c: bool|
                0 <= t < new_textures@.len() && old_image_ref(ots, t, c) == Some(owners[j]);
            assert(new_image_ref(textures_view(new_textures@), t, c) == Some(
                table_map(table@)[k],
            ));
            assert(table_map(table@)[owners[j]] == j);
            assert(new_image_ref(textures_view(new_textures@), t, c) == Some(j));
        }
    }
    Ok(ReencodeJobs { new_textures, new_images })
}

} // verus!
