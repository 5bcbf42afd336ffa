use asset_pipeline::{DecodeError, Ktx};

fn push_u32(v: &mut Vec<u8>, x: u32, little: bool) {
    let b = if little { x.to_le_bytes() } else { x.to_be_bytes() };
    v.extend_from_slice(&b);
}

fn identifier() -> Vec<u8> {
    vec![0xAB, 0x4B, 0x54, 0x58, 0x20, 0x31, 0x31, 0xBB, 0x0D, 0x0A, 0x1A, 0x0A]
}

/// Builds a container with the given counts and raw mip levels.
fn container(
    little: bool,
    depth: u32,
    array_elems: u32,
    faces: u32,
    declared_levels: u32,
    key_value: &[u8],
    levels: &[&[u8]],
) -> Vec<u8> {
    let mut v = identifier();
    v.push(if little { 0x01 } else { 0x04 });
    v.extend_from_slice(&[0, 0, 0]);
    for field in [
        0u32,
        4,
        0x1908,
        0x1908,
        0x1908,
        16,
        16,
        depth,
        array_elems,
        faces,
        declared_levels,
        key_value.len() as u32,
    ] {
        push_u32(&mut v, field, little);
    }
    v.extend_from_slice(key_value);
    for lvl in levels {
        push_u32(&mut v, lvl.len() as u32, little);
        v.extend_from_slice(lvl);
        let pad = (4 - lvl.len() % 4) % 4;
        for _ in 0..pad {
            v.push(0);
        }
    }
    v
}

#[test]
fn zero_declared_levels_decode_to_one() {
    let data = container(true, 0, 0, 1, 0, b"", &[b"abcd"]);
    let ktx = Ktx::parse(&data).unwrap();
    assert_eq!(ktx.number_of_mipmap_levels, 1);
    assert_eq!(ktx.textures.len(), 1);
    assert_eq!(ktx.textures[0], b"abcd".to_vec());
}

#[test]
fn array_textures_are_refused() {
    let data = container(true, 0, 2, 1, 1, b"", &[b"abcd"]);
    assert_eq!(Ktx::parse(&data).unwrap_err(), DecodeError::ArrayTextureUnsupported);
}

#[test]
fn cube_textures_are_refused() {
    let data = container(true, 0, 0, 6, 1, b"", &[b"abcd"]);
    assert_eq!(Ktx::parse(&data).unwrap_err(), DecodeError::CubeTextureUnsupported);
}

#[test]
fn volume_textures_are_refused() {
    let data = container(true, 4, 0, 1, 1, b"", &[b"abcd"]);
    assert_eq!(Ktx::parse(&data).unwrap_err(), DecodeError::VolumeTextureUnsupported);
}

#[test]
fn padding_of_five_byte_level_is_three() {
    // Two levels: the five-byte level is followed by exactly three padding
    // bytes, so the second level header begins on a four-byte boundary.
    let data = container(true, 0, 0, 1, 2, b"", &[b"12345", b"wxyz"]);
    let ktx = Ktx::parse(&data).unwrap();
    assert_eq!(ktx.textures[0], b"12345".to_vec());
    assert_eq!(ktx.textures[1], b"wxyz".to_vec());
    // Removing one padding byte after the first level breaks the second
    // level header.
    let mut broken = container(true, 0, 0, 1, 1, b"", &[b"12345"]);
    broken.truncate(broken.len() - 3);
    push_u32(&mut broken, 4, true);
    broken.extend_from_slice(b"wxyz");
    let mut header_fixed = broken.clone();
    header_fixed[56] = 2; // declared levels
    assert!(Ktx::parse(&header_fixed).is_err());
}

#[test]
fn padding_of_four_byte_level_is_zero() {
    let data = container(true, 0, 0, 1, 2, b"", &[b"abcd", b"efgh"]);
    let ktx = Ktx::parse(&data).unwrap();
    assert_eq!(ktx.textures[0], b"abcd".to_vec());
    assert_eq!(ktx.textures[1], b"efgh".to_vec());
}

#[test]
fn big_endian_containers_decode() {
    let data = container(false, 0, 0, 1, 1, b"xx\0\0", &[b"zz"]);
    let ktx = Ktx::parse(&data).unwrap();
    assert_eq!(ktx.pixel_width, 16);
    assert_eq!(ktx.pixel_height, 16);
    assert_eq!(ktx.bytes_of_key_value_data, 4);
    assert_eq!(ktx.textures[0], b"zz".to_vec());
}

#[test]
fn bad_magic_is_refused() {
    let mut data = container(true, 0, 0, 1, 1, b"", &[b"abcd"]);
    data[0] = 0x00;
    assert_eq!(Ktx::parse(&data).unwrap_err(), DecodeError::BadMagic);
}

#[test]
fn bad_endianness_token_is_refused() {
    let mut data = container(true, 0, 0, 1, 1, b"", &[b"abcd"]);
    data[12] = 0x02;
    assert_eq!(Ktx::parse(&data).unwrap_err(), DecodeError::BadEndianness);
}

#[test]
fn truncated_stream_is_refused() {
    let data = container(true, 0, 0, 1, 1, b"", &[b"abcd"]);
    let cut = data[..40].to_vec();
    assert_eq!(Ktx::parse(&cut).unwrap_err(), DecodeError::UnexpectedEnd);
    let tiny = data[..8].to_vec();
    assert_eq!(Ktx::parse(&tiny).unwrap_err(), DecodeError::UnexpectedEnd);
}

#[test]
fn header_fields_survive_decoding() {
    let data = container(true, 0, 0, 1, 1, b"k=v\0", &[b"abcd"]);
    let ktx = Ktx::parse(&data).unwrap();
    assert_eq!(ktx.gl_type, 0);
    assert_eq!(ktx.gl_type_size, 4);
    assert_eq!(ktx.gl_format, 0x1908);
    assert_eq!(ktx.number_of_array_elements, 0);
    assert_eq!(ktx.number_of_faces, 1);
    assert_eq!(ktx.bytes_of_key_value_data, 4);
}
