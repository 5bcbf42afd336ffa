use vstd::prelude::*;

verus! {

/// Failure of a binary container decode: bad magic bytes, an unsupported
/// format variant, or a truncated stream.
#[derive(Debug, Clone, Copy, PartialEq, Eq, Structural)]
pub enum DecodeError {
    /// The stream ended before a field could be read in full.
    UnexpectedEnd,
    /// The fixed magic prefix of the container did not match.
    BadMagic,
    /// The endianness token was neither of the two accepted values.
    BadEndianness,
    /// The container declares texture array elements, which are unsupported.
    ArrayTextureUnsupported,
    /// The container declares more than one face, which is unsupported.
    CubeTextureUnsupported,
    /// The container declares a pixel depth, which is unsupported.
    VolumeTextureUnsupported,
    /// A chunk carried an unexpected chunk tag.
    BadChunk,
    /// The scene binary is written in shortened form, which is unsupported.
    ShortenedUnsupported,
    /// The scene binary is compressed, which is unsupported.
    CompressedUnsupported,
    /// A mesh declares a primitive type other than points, lines or triangles.
    BadPrimitive,
}

impl DecodeError {
    /// Diagnostic text for this error.
    pub fn describe(&self) -> (r: &'static str)
        ensures
            r@.len() > 0,
    {
        proof {
            reveal_strlit("stream ended before a field could be read");
            reveal_strlit("container magic bytes do not match");
            reveal_strlit("endianness token is not recognised");
            reveal_strlit("array textures are not supported");
            reveal_strlit("cube textures are not supported");
            reveal_strlit("multi-dimension textures are not supported");
            reveal_strlit("unexpected chunk tag");
            reveal_strlit("shortened scene binaries are not supported");
            reveal_strlit("compressed scene binaries are not supported");
            reveal_strlit("unsupported mesh primitive type");
        }
        match self {
            DecodeError::UnexpectedEnd => "stream ended before a field could be read",
            DecodeError::BadMagic => "container magic bytes do not match",
            DecodeError::BadEndianness => "endianness token is not recognised",
            DecodeError::ArrayTextureUnsupported => "array textures are not supported",
            DecodeError::CubeTextureUnsupported => "cube textures are not supported",
            DecodeError::VolumeTextureUnsupported => "multi-dimension textures are not supported",
            DecodeError::BadChunk => "unexpected chunk tag",
            DecodeError::ShortenedUnsupported => "shortened scene binaries are not supported",
            DecodeError::CompressedUnsupported => "compressed scene binaries are not supported",
            DecodeError::BadPrimitive => "unsupported mesh primitive type",
        }
    }
}

} // verus!
