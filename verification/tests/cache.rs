use gifvault::cache::{encode_cache, read_cache, read_u32, read_u64, ByteReader, RawAnimation, CACHE_MAGIC};

fn sample_animation() -> RawAnimation {
    RawAnimation {
        width: 2,
        height: 1,
        frames: vec![(40, vec![1, 2, 3, 4, 5, 6, 7, 8]), (120, vec![9, 10, 11, 12, 13, 14, 15, 16])],
    }
}

#[test]
fn read_u32_is_little_endian_and_advances() {
    let bytes = [0x01u8, 0x43, 0x56, 0x47, 0xff];
    let mut reader = ByteReader { bytes: &bytes, pos: 0 };
    assert_eq!(read_u32(&mut reader), Some(CACHE_MAGIC));
    assert_eq!(reader.pos, 4);
    assert_eq!(read_u32(&mut reader), None);
}

#[test]
fn read_u64_is_little_endian_and_advances() {
    let bytes = [0x2cu8, 0x01, 0, 0, 0, 0, 0, 0];
    let mut reader = ByteReader { bytes: &bytes, pos: 0 };
    assert_eq!(read_u64(&mut reader), Some(300));
    assert_eq!(reader.pos, 8);
    assert_eq!(read_u64(&mut reader), None);
}

#[test]
fn encode_cache_writes_header_then_frames() {
    let bytes = encode_cache(&sample_animation());
    assert_eq!(&bytes[0..4], &[0x01, 0x43, 0x56, 0x47]);
    assert_eq!(&bytes[4..8], &[2, 0, 0, 0]);
    assert_eq!(&bytes[8..12], &[1, 0, 0, 0]);
    assert_eq!(&bytes[12..16], &[2, 0, 0, 0]);
    assert_eq!(&bytes[16..24], &[40, 0, 0, 0, 0, 0, 0, 0]);
    assert_eq!(&bytes[24..32], &[1, 2, 3, 4, 5, 6, 7, 8]);
    assert_eq!(&bytes[32..40], &[120, 0, 0, 0, 0, 0, 0, 0]);
    assert_eq!(bytes.len(), 16 + 2 * (8 + 8));
}

#[test]
fn cache_roundtrip_gives_the_animation_back() {
    let written = sample_animation();
    let bytes = encode_cache(&written);
    let read = read_cache(&bytes).expect("a written cache reads back");
    assert_eq!(read.width, written.width);
    assert_eq!(read.height, written.height);
    assert_eq!(read.frames, written.frames);
}

#[test]
fn cache_ignores_trailing_bytes() {
    let mut bytes = encode_cache(&sample_animation());
    bytes.extend_from_slice(&[7, 7, 7]);
    let read = read_cache(&bytes).expect("trailing bytes are ignored");
    assert_eq!(read.frames.len(), 2);
}

#[test]
fn cache_rejects_short_input() {
    assert!(read_cache(&[]).is_none());
    assert!(read_cache(&[0x01, 0x43, 0x56, 0x47, 2, 0, 0]).is_none());
}

#[test]
fn cache_rejects_other_magic() {
    let mut bytes = encode_cache(&sample_animation());
    bytes[0] = 0x02;
    assert!(read_cache(&bytes).is_none());
}

#[test]
fn cache_rejects_empty_dimensions_or_no_frames() {
    let mut zero_width = encode_cache(&sample_animation());
    zero_width[4] = 0;
    assert!(read_cache(&zero_width).is_none());
    let mut zero_height = encode_cache(&sample_animation());
    zero_height[8] = 0;
    assert!(read_cache(&zero_height).is_none());
    let no_frames = RawAnimation { width: 2, height: 1, frames: vec![] };
    assert!(read_cache(&encode_cache(&no_frames)).is_none());
}

#[test]
fn cache_rejects_truncated_frames() {
    let bytes = encode_cache(&sample_animation());
    assert!(read_cache(&bytes[..bytes.len() - 1]).is_none());
    assert!(read_cache(&bytes[..20]).is_none());
}
