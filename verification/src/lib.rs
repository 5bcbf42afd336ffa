//! An incremental asset-build pipeline: a staleness-tracking cache that
//! gives every asset, intermediate and resource a stable identity and a
//! modification fingerprint, the binary container decoders the import phase
//! relies on, and the classification and naming rules that tie them
//! together. The drive around it — filesystem walking, configuration, and
//! the external conversion tools — lives outside the library and hands in
//! plain values.

use vstd::prelude::*;

mod assbin;
mod assets;
mod bytes_util;
mod cache;
mod database;
mod digest;
mod encode;
mod errors;
mod ktx;
mod metadata;
mod paths;
mod platform;
mod settings;
mod stream;

pub use assbin::{
    find_first, find_mesh_name, interleave, link_children, load_node, Assbin, AssbinMetadata,
    Mesh, MeshPrimitive, PrefabNode,
};
pub use assets::{
    compressor_for, format_flag, needs_compile, needs_import, sample_to_i16, vorbis_quality_for,
    AssetParams, AssetType, AudioImportParams, CompressorKind, EncoderQuality, MeshImportParams,
    ResourceType, SampleRate, TextureFilter, TextureFormat, TextureImportParams, TextureWrap,
    TransmissionImportParams,
};
pub use encode::{
    encode_audio_blob, encode_bytes_blob, encode_mesh_blob, encode_prefab_blob,
    encode_texture_blob, push_u16_le, push_u32_le, push_u64_le,
};
pub use bytes_util::{bytes_eq, decimal, ends_with};
pub use cache::{
    blob_name, has_key, lemma_blob_names_injective, lemma_check_idempotent,
    lemma_strict_mode_touch, md_check, md_set, md_touch, AssetCache, AssetCacheItem, Metadata,
    Observation, Slot,
};
pub use database::{
    classify, is_metafile, manifest_location, metafile_name, orphan_metafiles,
    register_extension, strip_meta_suffix,
};
pub use digest::{crc32, fresh_uuid, uuid_hex};
pub use errors::DecodeError;
pub use ktx::Ktx;
pub use metadata::{AssetMetadata, ResourceMetadata};
pub use paths::{canonicalize, extension, normalize_name};
pub use platform::{Compression, RuntimePlatform};
pub use settings::{path_under, trees_overlap, AssetExtensions, AssetSettings, Settings};
pub use stream::Stream;
