use vstd::prelude::*;

use crate::platform::{Compression, RuntimePlatform};

verus! {

/// The kind an asset is classified as, by its file extension.
#[derive(Debug, Clone, Copy, PartialEq, Eq, Structural)]
pub enum AssetType {
    Texture,
    Transmission,
    Bytes,
    Audio,
}

/// The kind of one produced runtime resource.
#[derive(Debug, Clone, Copy, PartialEq, Eq, Structural)]
pub enum ResourceType {
    Texture,
    Prefab,
    Mesh,
    Bytes,
    AudioClip,
}

/// Texture coordinate wrapping mode of an imported texture.
#[derive(Debug, Clone, Copy, PartialEq, Eq, Structural)]
pub enum TextureWrap {
    Clamp,
    Repeat,
    Mirror,
}

/// Filtering mode of an imported texture.
#[derive(Debug, Clone, Copy, PartialEq, Eq, Structural)]
pub enum TextureFilter {
    Nearest,
    Linear,
}

/// The concrete pixel format a texture is compressed to.
#[derive(Debug, Clone, Copy, PartialEq, Eq, Structural)]
pub enum TextureFormat {
    R8,
    Rgb8,
    Rgba8,
    S3tcDxt1Rgb,
    S3tcDxt5Rgba,
    Etc2Rgb,
    Etc2Rgba,
    PvrtcRgb4,
    PvrtcRgb2,
    PvrtcRgba4,
    PvrtcRgba2,
}

/// Settings of importing texture assets.
#[derive(Debug, Clone, Copy, PartialEq, Eq, Structural)]
pub struct TextureImportParams {
    /// Whether mip maps are generated for the texture.
    pub mipmap: bool,
    /// Premultiplies the colour channels with alpha to avoid filtering
    /// artifacts.
    pub alpha_premultiply: bool,
    pub wrap: TextureWrap,
    pub filter: TextureFilter,
    /// Compression level, resolved to a format per platform.
    pub compression: Compression,
}

/// Settings of importing mesh resources.
#[derive(Debug, Clone, Copy, PartialEq, Eq, Structural)]
pub struct MeshImportParams {
    /// Reorders vertices and indices for better GPU locality.
    pub optimize: bool,
    pub calculate_normals: bool,
    pub calculate_tangents: bool,
    pub calculate_texcoord: bool,
}

/// Settings of scene transmission importing.
#[derive(Debug, Clone, Copy, PartialEq, Eq, Structural)]
pub struct TransmissionImportParams {
    pub mesh: MeshImportParams,
}

/// Common sample rates for imported sound effects.
#[derive(Debug, Clone, Copy, PartialEq, Eq, Structural)]
pub enum SampleRate {
    Hz8000,
    Hz11025,
    Hz22050,
    Hz44100,
    Hz48000,
    Hz96000,
}

/// Settings of importing sound effect assets.
#[derive(Debug, Clone, Copy, PartialEq, Eq, Structural)]
pub struct AudioImportParams {
    /// An optional override of the imported sample rate.
    pub sample_rate: Option<SampleRate>,
    pub compression: Compression,
}

/// Import parameters, tagged by the asset kind they belong to.
#[derive(Debug, Clone, Copy, PartialEq, Eq, Structural)]
pub enum AssetParams {
    Bytes,
    Texture(TextureImportParams),
    Transmission(TransmissionImportParams),
    Audio(AudioImportParams),
}

/// The default texture import parameters.
pub open spec fn default_texture_params() -> TextureImportParams {
    TextureImportParams {
        mipmap: true,
        alpha_premultiply: false,
        wrap: TextureWrap::Clamp,
        filter: TextureFilter::Linear,
        compression: Compression::HighQuality,
    }
}

/// The default mesh import parameters.
pub open spec fn default_mesh_params() -> MeshImportParams {
    MeshImportParams {
        optimize: true,
        calculate_normals: false,
        calculate_tangents: false,
        calculate_texcoord: false,
    }
}

/// The default transmission import parameters.
pub open spec fn default_transmission_params() -> TransmissionImportParams {
    TransmissionImportParams { mesh: default_mesh_params() }
}

/// The default audio import parameters.
pub open spec fn default_audio_params() -> AudioImportParams {
    AudioImportParams { sample_rate: None, compression: Compression::HighQuality }
}

impl Default for TextureImportParams {
    fn default() -> (r: Self)
        ensures
            r == default_texture_params(),
    {
        TextureImportParams {
            mipmap: true,
            alpha_premultiply: false,
            wrap: TextureWrap::Clamp,
            filter: TextureFilter::Linear,
            compression: Compression::HighQuality,
        }
    }
}

impl Default for MeshImportParams {
    fn default() -> (r: Self)
        ensures
            r == default_mesh_params(),
    {
        MeshImportParams {
            optimize: true,
            calculate_normals: false,
            calculate_tangents: false,
            calculate_texcoord: false,
        }
    }
}

impl Default for TransmissionImportParams {
    fn default() -> (r: Self)
        ensures
            r == default_transmission_params(),
    {
        TransmissionImportParams { mesh: MeshImportParams::default() }
    }
}

impl Default for AudioImportParams {
    fn default() -> (r: Self)
        ensures
            r == default_audio_params(),
    {
        AudioImportParams { sample_rate: None, compression: Compression::HighQuality }
    }
}

impl TextureImportParams {
    /// The parameters carried by a texture variant; any other variant falls
    /// back to the defaults.
    pub fn from_params(params: &AssetParams) -> (r: Self)
        ensures
            match params {
                AssetParams::Texture(p) => r == p,
                _ => r == default_texture_params(),
            },
    {
        match params {
            AssetParams::Texture(p) => *p,
            _ => TextureImportParams::default(),
        }
    }

    /// Resolves the requested compression level to the concrete format the
    /// target platform supports.
    pub fn format(&self, platform: RuntimePlatform) -> (r: TextureFormat)
        ensures
            r == spec_texture_format(self.compression, platform),
    {
        match platform {
            RuntimePlatform::Macos | RuntimePlatform::Windows => match self.compression {
                Compression::Uncompressed => TextureFormat::Rgba8,
                Compression::LowQuality => TextureFormat::S3tcDxt5Rgba,
                Compression::HighQuality => TextureFormat::S3tcDxt5Rgba,
            },
            RuntimePlatform::Ios => match self.compression {
                Compression::Uncompressed => TextureFormat::Rgba8,
                Compression::LowQuality => TextureFormat::PvrtcRgba2,
                Compression::HighQuality => TextureFormat::PvrtcRgba4,
            },
            RuntimePlatform::Android => match self.compression {
                Compression::Uncompressed => TextureFormat::Rgba8,
                Compression::LowQuality => TextureFormat::Etc2Rgba,
                Compression::HighQuality => TextureFormat::Etc2Rgba,
            },
        }
    }
}

/// The format table: desktop platforms compress to S3TC, handheld ones to
/// their native scheme, and no compression always means plain four-channel
/// bytes.
pub open spec fn spec_texture_format(c: Compression, platform: RuntimePlatform) -> TextureFormat {
    match platform {
        RuntimePlatform::Macos | RuntimePlatform::Windows => match c {
            Compression::Uncompressed => TextureFormat::Rgba8,
            _ => TextureFormat::S3tcDxt5Rgba,
        },
        RuntimePlatform::Ios => match c {
            Compression::Uncompressed => TextureFormat::Rgba8,
            Compression::LowQuality => TextureFormat::PvrtcRgba2,
            Compression::HighQuality => TextureFormat::PvrtcRgba4,
        },
        RuntimePlatform::Android => match c {
            Compression::Uncompressed => TextureFormat::Rgba8,
            _ => TextureFormat::Etc2Rgba,
        },
    }
}

impl TransmissionImportParams {
    /// The parameters carried by a transmission variant; any other variant
    /// falls back to the defaults.
    pub fn from_params(params: &AssetParams) -> (r: Self)
        ensures
            match params {
                AssetParams::Transmission(p) => r == p,
                _ => r == default_transmission_params(),
            },
    {
        match params {
            AssetParams::Transmission(p) => *p,
            _ => TransmissionImportParams::default(),
        }
    }
}

impl AudioImportParams {
    /// The parameters carried by an audio variant; any other variant falls
    /// back to the defaults.
    pub fn from_params(params: &AssetParams) -> (r: Self)
        ensures
            match params {
                AssetParams::Audio(p) => r == p,
                _ => r == default_audio_params(),
            },
    {
        match params {
            AssetParams::Audio(p) => *p,
            _ => AudioImportParams::default(),
        }
    }
}

/// Whether the compile phase of a one-intermediate importer must run: the
/// source, its sidecar, or any of the importer's own intermediates changed.
pub fn needs_compile(file_dirty: bool, metafile_dirty: bool, intermediates_dirty: &Vec<
    bool,
>) -> (r: bool)
    ensures
        r == (file_dirty || metafile_dirty || (exists|i: int|
            0 <= i < intermediates_dirty@.len() && intermediates_dirty@[i])),
{
    if file_dirty || metafile_dirty {
        return true;
    }
    let n = intermediates_dirty.len();
    let mut i: usize = 0;
    while i < n
        invariant
            i <= n,
            n == intermediates_dirty@.len(),
            forall|j: int| 0 <= j < i ==> !intermediates_dirty@[j],
        decreases n - i,
    {
        if intermediates_dirty[i] {
            return true;
        }
        i = i + 1;
    }
    false
}

/// Whether the import phase must run: some input the importer cares about,
/// an intermediate or a prior resource output, changed.
pub fn needs_import(intermediate_dirty: bool, resources_dirty: &Vec<bool>) -> (r: bool)
    ensures
        r == (intermediate_dirty || (exists|i: int|
            0 <= i < resources_dirty@.len() && resources_dirty@[i])),
{
    if intermediate_dirty {
        return true;
    }
    let n = resources_dirty.len();
    let mut i: usize = 0;
    while i < n
        invariant
            i <= n,
            n == resources_dirty@.len(),
            forall|j: int| 0 <= j < i ==> !resources_dirty@[j],
        decreases n - i,
    {
        if resources_dirty[i] {
            return true;
        }
        i = i + 1;
    }
    false
}

/// Which external compressor handles a texture format: the generic cruncher
/// for plain and S3TC formats, the PVR tool for ETC2 and PVRTC.
#[derive(Debug, Clone, Copy, PartialEq, Eq, Structural)]
pub enum CompressorKind {
    Crunch,
    PvrTexTool,
}

/// Selects the external compressor for a texture format.
pub fn compressor_for(format: TextureFormat) -> (r: CompressorKind)
    ensures
        match format {
            TextureFormat::R8
            | TextureFormat::Rgb8
            | TextureFormat::Rgba8
            | TextureFormat::S3tcDxt1Rgb
            | TextureFormat::S3tcDxt5Rgba => r is Crunch,
            _ => r is PvrTexTool,
        },
{
    match format {
        TextureFormat::R8
        | TextureFormat::Rgb8
        | TextureFormat::Rgba8
        | TextureFormat::S3tcDxt1Rgb
        | TextureFormat::S3tcDxt5Rgba => CompressorKind::Crunch,
        _ => CompressorKind::PvrTexTool,
    }
}

/// The command-line flag that selects a texture format on its compressor.
pub fn format_flag(format: TextureFormat) -> (r: &'static str)
    ensures
        format is R8 ==> r@ == "-L8"@,
        format is Rgb8 ==> r@ == "-R8G8B8"@,
        format is Rgba8 ==> r@ == "-A8R8G8B8"@,
        format is S3tcDxt1Rgb ==> r@ == "-DXT1"@,
        format is S3tcDxt5Rgba ==> r@ == "-DXT5"@,
        format is Etc2Rgb ==> r@ == "-f ETC2_RGB"@,
        format is Etc2Rgba ==> r@ == "-f ETC2_RGBA"@,
        format is PvrtcRgb4 ==> r@ == "-f PVRTC1_4_RGB"@,
        format is PvrtcRgb2 ==> r@ == "-f PVRTC1_2_RGB"@,
        format is PvrtcRgba4 ==> r@ == "-f PVRTC1_4"@,
        format is PvrtcRgba2 ==> r@ == "-f PVRTC1_2"@,
{
    match format {
        TextureFormat::R8 => "-L8",
        TextureFormat::Rgb8 => "-R8G8B8",
        TextureFormat::Rgba8 => "-A8R8G8B8",
        TextureFormat::S3tcDxt1Rgb => "-DXT1",
        TextureFormat::S3tcDxt5Rgba => "-DXT5",
        TextureFormat::Etc2Rgb => "-f ETC2_RGB",
        TextureFormat::Etc2Rgba => "-f ETC2_RGBA",
        TextureFormat::PvrtcRgb4 => "-f PVRTC1_4_RGB",
        TextureFormat::PvrtcRgb2 => "-f PVRTC1_2_RGB",
        TextureFormat::PvrtcRgba4 => "-f PVRTC1_4",
        TextureFormat::PvrtcRgba2 => "-f PVRTC1_2",
    }
}

/// What a decoded audio sample becomes at sixteen bits, as the flac import
/// computes it: narrow samples are shifted up, wide ones shifted down.
pub open spec fn spec_sample_to_i16(v: i32, bits: u32) -> i16 {
    if bits == 16 {
        v as i16
    } else if bits < 16 {
        (v << (16 - bits) as i32) as i16
    } else {
        (v >> (bits - 16) as i32) as i16
    }
}

/// Normalizes one decoded audio sample to sixteen bits.
pub fn sample_to_i16(v: i32, bits: u32) -> (r: i16)
    requires
        1 <= bits <= 32,
    ensures
        r == spec_sample_to_i16(v, bits),
{
    if bits == 16 {
        v as i16
    } else if bits < 16 {
        (v << (16 - bits) as i32) as i16
    } else {
        (v >> (bits - 16) as i32) as i16
    }
}

/// The quality level handed to the audio encoder, resolved from the
/// requested compression: no compression keeps the highest quality, high
/// quality compression a medium one, low quality the fastest.
#[derive(Debug, Clone, Copy, PartialEq, Eq, Structural)]
pub enum EncoderQuality {
    High,
    Medium,
    Fast,
}

/// Maps the requested compression level to the audio encoder's quality.
pub fn vorbis_quality_for(c: Compression) -> (r: EncoderQuality)
    ensures
        c is Uncompressed ==> r is High,
        c is HighQuality ==> r is Medium,
        c is LowQuality ==> r is Fast,
{
    match c {
        Compression::Uncompressed => EncoderQuality::High,
        Compression::HighQuality => EncoderQuality::Medium,
        Compression::LowQuality => EncoderQuality::Fast,
    }
}

} // verus!
