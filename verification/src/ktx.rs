use vstd::prelude::*;

use crate::bytes_util::bytes_eq;
use crate::errors::DecodeError;
use crate::stream::{spec_u32, Stream};

verus! {

/// The twelve magic bytes that open a texture container.
pub open spec fn ktx_identifier() -> Seq<u8> {
    seq![0xABu8, 0x4Bu8, 0x54u8, 0x58u8, 0x20u8, 0x31u8, 0x31u8, 0xBBu8, 0x0Du8, 0x0Au8, 0x1Au8, 0x0Au8]
}

/// Padding after a mip level of `n` bytes, so that the next level header
/// begins on a four-byte boundary.
pub open spec fn spec_pad4(n: int) -> int {
    (4 - (n % 4)) % 4
}

/// Padding keeps every level header four-byte aligned and never wastes a
/// full word: a level whose length is already a multiple of four gets none.
pub proof fn lemma_pad4(n: int)
    requires
        n >= 0,
    ensures
        0 <= spec_pad4(n) < 4,
        (n + spec_pad4(n)) % 4 == 0,
        n % 4 == 0 ==> spec_pad4(n) == 0,
        spec_pad4(n) == 3 - ((n + 3) % 4),
        spec_pad4(n) == 3 - ((n % 4 + 3) % 4),
{
    let m = n % 4;
    assert(0 <= m < 4);
    assert((n + spec_pad4(n)) % 4 == 0) by {
        assert(n % 4 + (4 - n % 4) % 4 == 0 || n % 4 + (4 - n % 4) % 4 == 4);
    };
    assert((n + 3) % 4 == (m + 3) % 4);
}

/// Decoded level count: a declared count of zero is coerced to one.
pub open spec fn spec_coerced_levels(declared: u32) -> u32 {
    if declared == 0 {
        1u32
    } else {
        declared
    }
}

/// Mathematical model of a decoded texture container.
#[verifier::ext_equal]
pub struct KtxModel {
    pub gl_type: u32,
    pub gl_type_size: u32,
    pub gl_format: u32,
    pub gl_internal_format: u32,
    pub gl_base_internal_format: u32,
    pub pixel_width: u32,
    pub pixel_height: u32,
    pub pixel_depth: u32,
    pub number_of_array_elements: u32,
    pub number_of_faces: u32,
    pub number_of_mipmap_levels: u32,
    pub bytes_of_key_value_data: u32,
    pub textures: Seq<Seq<u8>>,
}

/// The mip levels stored at `pos`: `count` records, each a 32-bit length
/// followed by that many raw bytes and then alignment padding. A skip past
/// the end of the buffer stops at the end, as a seek on a stream would.
pub open spec fn spec_levels(b: Seq<u8>, pos: int, count: nat, little: bool) -> Option<
    Seq<Seq<u8>>,
>
    decreases count,
{
    if count == 0 {
        Some(Seq::empty())
    } else if pos + 4 > b.len() {
        None
    } else {
        let size = spec_u32(b, pos, little) as int;
        if pos + 4 + size > b.len() {
            None
        } else {
            let data = b.subrange(pos + 4, pos + 4 + size);
            let unclamped = pos + 4 + size + spec_pad4(size);
            let next = if unclamped <= b.len() {
                unclamped
            } else {
                b.len() as int
            };
            match spec_levels(b, next, (count - 1) as nat, little) {
                Some(rest) => Some(seq![data] + rest),
                None => None,
            }
        }
    }
}

/// Levels that decode in full always yield exactly `count` buffers.
pub proof fn lemma_levels_len(b: Seq<u8>, pos: int, count: nat, little: bool)
    requires
        spec_levels(b, pos, count, little) is Some,
    ensures
        spec_levels(b, pos, count, little)->Some_0.len() == count,
    decreases count,
{
    if count > 0 {
        let size = spec_u32(b, pos, little) as int;
        let unclamped = pos + 4 + size + spec_pad4(size);
        let next = if unclamped <= b.len() {
            unclamped
        } else {
            b.len() as int
        };
        lemma_levels_len(b, next, (count - 1) as nat, little);
    }
}

/// The complete decode of a texture container, from the raw bytes to the
/// model or the error that the decoder reports.
pub open spec fn spec_parse_ktx(b: Seq<u8>) -> Result<KtxModel, DecodeError> {
    if b.len() < 12 {
        Err(DecodeError::UnexpectedEnd)
    } else if b.subrange(0, 12) != ktx_identifier() {
        Err(DecodeError::BadMagic)
    } else if b.len() < 16 {
        Err(DecodeError::UnexpectedEnd)
    } else if b[12] != 0x01 && b[12] != 0x04 {
        Err(DecodeError::BadEndianness)
    } else {
        let little = b[12] == 0x01;
        if b.len() < 64 {
            Err(DecodeError::UnexpectedEnd)
        } else if spec_u32(b, 48, little) != 0 {
            Err(DecodeError::ArrayTextureUnsupported)
        } else if spec_u32(b, 52, little) != 1 {
            Err(DecodeError::CubeTextureUnsupported)
        } else if spec_u32(b, 44, little) != 0 {
            Err(DecodeError::VolumeTextureUnsupported)
        } else {
            let levels = spec_coerced_levels(spec_u32(b, 56, little));
            let kv = spec_u32(b, 60, little) as int;
            let start = if 64 + kv <= b.len() {
                64 + kv
            } else {
                b.len() as int
            };
            match spec_levels(b, start, levels as nat, little) {
                Some(texs) => Ok(
                    KtxModel {
                        gl_type: spec_u32(b, 16, little),
                        gl_type_size: spec_u32(b, 20, little),
                        gl_format: spec_u32(b, 24, little),
                        gl_internal_format: spec_u32(b, 28, little),
                        gl_base_internal_format: spec_u32(b, 32, little),
                        pixel_width: spec_u32(b, 36, little),
                        pixel_height: spec_u32(b, 40, little),
                        pixel_depth: spec_u32(b, 44, little),
                        number_of_array_elements: spec_u32(b, 48, little),
                        number_of_faces: spec_u32(b, 52, little),
                        number_of_mipmap_levels: levels,
                        bytes_of_key_value_data: spec_u32(b, 60, little),
                        textures: texs,
                    },
                ),
                None => Err(DecodeError::UnexpectedEnd),
            }
        }
    }
}

/// A decoded mip-mapped texture container: the validated header fields and
/// one raw byte buffer per mip level.
#[derive(Debug)]
pub struct Ktx {
    pub gl_type: u32,
    pub gl_type_size: u32,
    pub gl_format: u32,
    pub gl_internal_format: u32,
    pub gl_base_internal_format: u32,
    pub pixel_width: u32,
    pub pixel_height: u32,
    pub pixel_depth: u32,
    pub number_of_array_elements: u32,
    pub number_of_faces: u32,
    pub number_of_mipmap_levels: u32,
    pub bytes_of_key_value_data: u32,
    pub textures: Vec<Vec<u8>>,
}

impl View for Ktx {
    type V = KtxModel;

    open spec fn view(&self) -> KtxModel {
        KtxModel {
            gl_type: self.gl_type,
            gl_type_size: self.gl_type_size,
            gl_format: self.gl_format,
            gl_internal_format: self.gl_internal_format,
            gl_base_internal_format: self.gl_base_internal_format,
            pixel_width: self.pixel_width,
            pixel_height: self.pixel_height,
            pixel_depth: self.pixel_depth,
            number_of_array_elements: self.number_of_array_elements,
            number_of_faces: self.number_of_faces,
            number_of_mipmap_levels: self.number_of_mipmap_levels,
            bytes_of_key_value_data: self.bytes_of_key_value_data,
            textures: self.textures.deep_view(),
        }
    }
}

/// The magic bytes as a buffer, for run-time comparison.
fn ktx_identifier_bytes() -> (r: Vec<u8>)
    ensures
        r@ =~= ktx_identifier(),
{
    let mut v: Vec<u8> = Vec::new();
    v.push(0xAB);
    v.push(0x4B);
    v.push(0x54);
    v.push(0x58);
    v.push(0x20);
    v.push(0x31);
    v.push(0x31);
    v.push(0xBB);
    v.push(0x0D);
    v.push(0x0A);
    v.push(0x1A);
    v.push(0x0A);
    v
}

/// Reads `count` mip levels from the stream position, exactly as
/// `spec_levels` describes them.
#[verifier::loop_isolation(false)]
fn read_levels(s: &mut Stream, count: u32, little: bool) -> (r: Result<Vec<Vec<u8>>, DecodeError>)
    requires
        old(s).wf(),
    ensures
        final(s).wf(),
        final(s).d() == old(s).d(),
        match r {
            Ok(ts) => spec_levels(old(s).d(), old(s).p(), count as nat, little) == Some(
                ts.deep_view(),
            ),
            Err(e) => e == DecodeError::UnexpectedEnd && spec_levels(
                old(s).d(),
                old(s).p(),
                count as nat,
                little,
            ) is None,
        },
{
    let ghost b = old(s).d();
    let ghost start = old(s).p();
    let mut textures: Vec<Vec<u8>> = Vec::new();
    let mut i: u32 = 0;
    while i < count
        invariant
            i <= count,
            s.wf(),
            s.d() == b,
            textures@.len() == i,
            spec_levels(b, start, count as nat, little) == match spec_levels(
                b,
                s.p(),
                (count - i) as nat,
                little,
            ) {
                Some(rest) => Some(textures.deep_view() + rest),
                None => None,
            },
        decreases count - i,
    {
        let ghost p0 = s.p();
        let ghost t0 = textures.deep_view();
        let ghost rem = (count - i) as nat;
        let size = match s.read_u32(little) {
            Ok(v) => v,
            Err(e) => {
                proof {
                    assert(spec_levels(b, p0, rem, little) is None);
                }
                return Err(DecodeError::UnexpectedEnd);
            },
        };
        let level = match s.read_bytes(size as usize) {
            Ok(v) => v,
            Err(e) => {
                proof {
                    assert(spec_levels(b, p0, rem, little) is None);
                }
                return Err(DecodeError::UnexpectedEnd);
            },
        };
        let pad: usize = 3 - ((size as usize % 4) + 3) % 4;
        s.skip(pad);
        proof {
            lemma_pad4(size as int);
            assert(size as int % 4 == (size as usize % 4) as int);
            let szi = spec_u32(b, p0, little) as int;
            let unclamped = p0 + 4 + szi + spec_pad4(szi);
            let next = if unclamped <= b.len() {
                unclamped
            } else {
                b.len() as int
            };
            assert(s.p() == next);
            assert(level@ == b.subrange(p0 + 4, p0 + 4 + szi));
            assert(spec_levels(b, p0, rem, little) == match spec_levels(
                b,
                next,
                (rem - 1) as nat,
                little,
            ) {
                Some(rest) => Some(seq![b.subrange(p0 + 4, p0 + 4 + szi)] + rest),
                None => None,
            });
        }
        textures.push(level);
        i = i + 1;
        proof {
            assert(textures.deep_view() =~~= t0.push(level@));
            if spec_levels(b, s.p(), (count - i) as nat, little) is Some {
                let rest1 = spec_levels(b, s.p(), (count - i) as nat, little)->Some_0;
                assert(t0 + (seq![level@] + rest1) =~= t0.push(level@) + rest1);
            }
        }
    }
    proof {
        assert(spec_levels(b, s.p(), 0nat, little) == Some(Seq::<Seq<u8>>::empty()));
        assert(textures.deep_view() + Seq::<Seq<u8>>::empty() =~= textures.deep_view());
    }
    Ok(textures)
}


/// The twelve 32-bit header fields of a texture container, in stream order.
struct KtxHeaderFields {
    gl_type: u32,
    gl_type_size: u32,
    gl_format: u32,
    gl_internal_format: u32,
    gl_base_internal_format: u32,
    pixel_width: u32,
    pixel_height: u32,
    pixel_depth: u32,
    number_of_array_elements: u32,
    number_of_faces: u32,
    number_of_mipmap_levels: u32,
    bytes_of_key_value_data: u32,
}

/// Reads the twelve header words that follow the endianness token.
fn read_header_fields(s: &mut Stream, little: bool) -> (r: Result<KtxHeaderFields, DecodeError>)
    requires
        old(s).wf(),
    ensures
        final(s).wf(),
        final(s).d() == old(s).d(),
        match r {
            Ok(h) => {
                let b = old(s).d();
                let p = old(s).p();
                &&& p + 48 <= b.len()
                &&& final(s).p() == p + 48
                &&& h.gl_type == spec_u32(b, p, little)
                &&& h.gl_type_size == spec_u32(b, p + 4, little)
                &&& h.gl_format == spec_u32(b, p + 8, little)
                &&& h.gl_internal_format == spec_u32(b, p + 12, little)
                &&& h.gl_base_internal_format == spec_u32(b, p + 16, little)
                &&& h.pixel_width == spec_u32(b, p + 20, little)
                &&& h.pixel_height == spec_u32(b, p + 24, little)
                &&& h.pixel_depth == spec_u32(b, p + 28, little)
                &&& h.number_of_array_elements == spec_u32(b, p + 32, little)
                &&& h.number_of_faces == spec_u32(b, p + 36, little)
                &&& h.number_of_mipmap_levels == spec_u32(b, p + 40, little)
                &&& h.bytes_of_key_value_data == spec_u32(b, p + 44, little)
            },
            Err(e) => e == DecodeError::UnexpectedEnd && old(s).p() + 48 > old(s).d().len(),
        },
{
    let ghost p = old(s).p();
    if s.remaining() < 48 {
        return Err(DecodeError::UnexpectedEnd);
    }
    let gl_type = match s.read_u32(little) {
        Ok(v) => v,
        Err(e) => { return Err(DecodeError::UnexpectedEnd); },
    };
    let gl_type_size = match s.read_u32(little) {
        Ok(v) => v,
        Err(e) => { return Err(DecodeError::UnexpectedEnd); },
    };
    let gl_format = match s.read_u32(little) {
        Ok(v) => v,
        Err(e) => { return Err(DecodeError::UnexpectedEnd); },
    };
    let gl_internal_format = match s.read_u32(little) {
        Ok(v) => v,
        Err(e) => { return Err(DecodeError::UnexpectedEnd); },
    };
    let gl_base_internal_format = match s.read_u32(little) {
        Ok(v) => v,
        Err(e) => { return Err(DecodeError::UnexpectedEnd); },
    };
    let pixel_width = match s.read_u32(little) {
        Ok(v) => v,
        Err(e) => { return Err(DecodeError::UnexpectedEnd); },
    };
    let pixel_height = match s.read_u32(little) {
        Ok(v) => v,
        Err(e) => { return Err(DecodeError::UnexpectedEnd); },
    };
    let pixel_depth = match s.read_u32(little) {
        Ok(v) => v,
        Err(e) => { return Err(DecodeError::UnexpectedEnd); },
    };
    let number_of_array_elements = match s.read_u32(little) {
        Ok(v) => v,
        Err(e) => { return Err(DecodeError::UnexpectedEnd); },
    };
    let number_of_faces = match s.read_u32(little) {
        Ok(v) => v,
        Err(e) => { return Err(DecodeError::UnexpectedEnd); },
    };
    let number_of_mipmap_levels = match s.read_u32(little) {
        Ok(v) => v,
        Err(e) => { return Err(DecodeError::UnexpectedEnd); },
    };
    let bytes_of_key_value_data = match s.read_u32(little) {
        Ok(v) => v,
        Err(e) => { return Err(DecodeError::UnexpectedEnd); },
    };
    Ok(KtxHeaderFields {
        gl_type,
        gl_type_size,
        gl_format,
        gl_internal_format,
        gl_base_internal_format,
        pixel_width,
        pixel_height,
        pixel_depth,
        number_of_array_elements,
        number_of_faces,
        number_of_mipmap_levels,
        bytes_of_key_value_data,
    })
}

impl Ktx {
    /// Decodes a texture container, exactly as `spec_parse_ktx` describes.
    #[verifier::rlimit(100)]
    pub fn parse(data: &Vec<u8>) -> (r: Result<Ktx, DecodeError>)
        ensures
            match (r, spec_parse_ktx(data@)) {
                (Ok(k), Ok(m)) => k@ =~= m,
                (Err(e), Err(em)) => e == em,
                _ => false,
            },
    {
        let ghost b = data@;
        let mut s = Stream::new(data);
        let magic = match s.read_bytes(12) {
            Ok(v) => v,
            Err(e) => {
                return Err(DecodeError::UnexpectedEnd);
            },
        };
        let expected = ktx_identifier_bytes();
        if !bytes_eq(&magic, &expected) {
            return Err(DecodeError::BadMagic);
        }
        let endian = match s.read_bytes(4) {
            Ok(v) => v,
            Err(e) => {
                return Err(DecodeError::UnexpectedEnd);
            },
        };
        let little: bool = if endian[0] == 0x01 {
            true
        } else if endian[0] == 0x04 {
            false
        } else {
            proof {
                assert(b[12] == endian@[0]);
            }
            return Err(DecodeError::BadEndianness);
        };
        proof {
            assert(b[12] == endian@[0]);
        }
        let h = match read_header_fields(&mut s, little) {
            Ok(v) => v,
            Err(e) => {
                return Err(DecodeError::UnexpectedEnd);
            },
        };
        let gl_type = h.gl_type;
        let gl_type_size = h.gl_type_size;
        let gl_format = h.gl_format;
        let gl_internal_format = h.gl_internal_format;
        let gl_base_internal_format = h.gl_base_internal_format;
        let pixel_width = h.pixel_width;
        let pixel_height = h.pixel_height;
        let pixel_depth = h.pixel_depth;
        let number_of_array_elements = h.number_of_array_elements;
        let number_of_faces = h.number_of_faces;
        let declared_levels = h.number_of_mipmap_levels;
        let bytes_of_key_value_data = h.bytes_of_key_value_data;
        if number_of_array_elements != 0 {
            return Err(DecodeError::ArrayTextureUnsupported);
        }
        if number_of_faces != 1 {
            return Err(DecodeError::CubeTextureUnsupported);
        }
        if pixel_depth != 0 {
            return Err(DecodeError::VolumeTextureUnsupported);
        }
        let count: u32 = if declared_levels == 0 {
            1
        } else {
            declared_levels
        };
        s.skip(bytes_of_key_value_data as usize);
        let textures = match read_levels(&mut s, count, little) {
            Ok(v) => v,
            Err(e) => {
                return Err(DecodeError::UnexpectedEnd);
            },
        };
        Ok(
            Ktx {
                gl_type,
                gl_type_size,
                gl_format,
                gl_internal_format,
                gl_base_internal_format,
                pixel_width,
                pixel_height,
                pixel_depth,
                number_of_array_elements,
                number_of_faces,
                number_of_mipmap_levels: count,
                bytes_of_key_value_data,
                textures,
            },
        )
    }
}

/// A fully decoded container always holds exactly one buffer per coerced mip
/// level; in particular a declared level count of zero decodes to one level.
pub proof fn lemma_ktx_level_count(b: Seq<u8>)
    requires
        spec_parse_ktx(b) is Ok,
    ensures
        spec_parse_ktx(b)->Ok_0.textures.len() == spec_parse_ktx(b)->Ok_0.number_of_mipmap_levels,
        spec_parse_ktx(b)->Ok_0.number_of_mipmap_levels == spec_coerced_levels(
            spec_u32(b, 56, b[12] == 0x01),
        ),
        spec_u32(b, 56, b[12] == 0x01) == 0 ==> spec_parse_ktx(b)->Ok_0.number_of_mipmap_levels
            == 1,
{
    let little = b[12] == 0x01;
    let levels = spec_coerced_levels(spec_u32(b, 56, little));
    let kv = spec_u32(b, 60, little) as int;
    let start = if 64 + kv <= b.len() {
        64 + kv
    } else {
        b.len() as int
    };
    lemma_levels_len(b, start, levels as nat, little);
}

/// A container that declares texture arrays, cube faces or a third pixel
/// dimension never decodes: it fails with the matching unsupported-layout
/// error.
pub proof fn lemma_ktx_unsupported_layouts(b: Seq<u8>)
    requires
        b.len() >= 64,
        b.subrange(0, 12) == ktx_identifier(),
        b[12] == 0x01 || b[12] == 0x04,
    ensures
        spec_u32(b, 48, b[12] == 0x01) != 0 ==> spec_parse_ktx(b) == Err::<
            KtxModel,
            DecodeError,
        >(DecodeError::ArrayTextureUnsupported),
        spec_u32(b, 48, b[12] == 0x01) == 0 && spec_u32(b, 52, b[12] == 0x01) != 1
            ==> spec_parse_ktx(b) == Err::<KtxModel, DecodeError>(
            DecodeError::CubeTextureUnsupported,
        ),
        spec_u32(b, 48, b[12] == 0x01) == 0 && spec_u32(b, 52, b[12] == 0x01) == 1 && spec_u32(
            b,
            44,
            b[12] == 0x01,
        ) != 0 ==> spec_parse_ktx(b) == Err::<KtxModel, DecodeError>(
            DecodeError::VolumeTextureUnsupported,
        ),
{
}

} // verus!
