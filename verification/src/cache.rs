//! The on-disk cache of decoded and downscaled gif frames.
//!
//! Layout, all integers little endian: a `u32` magic number, the frame
//! width and height (`u32` each), the frame count (`u32`), then for every
//! frame its delay in milliseconds (`u64`) followed by `width * height * 4`
//! bytes of RGBA pixels.

use vstd::bytes::*;
use vstd::prelude::*;
use vstd::slice::*;

verus! {

/// Bumped whenever the on-disk cache format changes, so old cache files are
/// transparently ignored (and rewritten) instead of misread.
pub const CACHE_MAGIC: u32 = 0x4756_4301;

/// Decoded frames as raw RGBA bytes: the form written to and read back from
/// the cache.
pub struct RawAnimation {
    pub width: u32,
    pub height: u32,
    /// Each frame: its delay in milliseconds and its RGBA pixels.
    pub frames: Vec<(u64, Vec<u8>)>,
}

/// The mathematical value of a [`RawAnimation`].
pub struct AnimationView {
    pub width: u32,
    pub height: u32,
    pub frames: Seq<(u64, Seq<u8>)>,
}

pub open spec fn frames_view(frames: Seq<(u64, Vec<u8>)>) -> Seq<(u64, Seq<u8>)> {
    frames.map_values(|f: (u64, Vec<u8>)| (f.0, f.1@))
}

impl View for RawAnimation {
    type V = AnimationView;

    open spec fn view(&self) -> AnimationView {
        AnimationView { width: self.width, height: self.height, frames: frames_view(self.frames@) }
    }
}

/// Number of pixel bytes in one RGBA frame.
pub open spec fn frame_size(width: u32, height: u32) -> int {
    width * height * 4
}

/// Every frame holds exactly `width * height * 4` bytes: the shape the cache
/// can store and read back.
pub open spec fn frames_fit(a: AnimationView) -> bool {
    forall|i: int| 0 <= i < a.frames.len() ==> (#[trigger] a.frames[i]).1.len() == frame_size(a.width, a.height)
}

pub open spec fn le_u32_at(b: Seq<u8>, pos: int) -> u32 {
    spec_u32_from_le_bytes(b.subrange(pos, pos + 4))
}

pub open spec fn le_u64_at(b: Seq<u8>, pos: int) -> u64 {
    spec_u64_from_le_bytes(b.subrange(pos, pos + 8))
}

/// `n` frames of `size` pixel bytes each, read from `b` starting at `pos`;
/// `None` when the bytes run out first. Bytes after the last frame are
/// ignored.
pub open spec fn parse_frames(b: Seq<u8>, pos: int, n: nat, size: int) -> Option<
    Seq<(u64, Seq<u8>)>,
>
    decreases n,
{
    if n == 0 {
        Some(seq![])
    } else if pos < 0 || pos + 8 + size > b.len() {
        None
    } else {
        match parse_frames(b, pos + 8 + size, (n - 1) as nat, size) {
            Some(rest) => Some(
                seq![(le_u64_at(b, pos), b.subrange(pos + 8, pos + 8 + size))] + rest,
            ),
            None => None,
        }
    }
}

/// What a cache file holds, or `None` when it is not a usable cache file:
/// too short, of another format version, with an empty dimension or no
/// frames, with frames too large to address, or cut off before its last
/// frame.
pub open spec fn parse_cache(b: Seq<u8>) -> Option<AnimationView> {
    if b.len() < 16 {
        None
    } else {
        let magic = le_u32_at(b, 0);
        let width = le_u32_at(b, 4);
        let height = le_u32_at(b, 8);
        let count = le_u32_at(b, 12);
        if magic != CACHE_MAGIC || width == 0 || height == 0 || count == 0 || frame_size(
            width,
            height,
        ) > usize::MAX {
            None
        } else {
            match parse_frames(b, 16, count as nat, frame_size(width, height)) {
                Some(frames) => Some(AnimationView { width, height, frames }),
                None => None,
            }
        }
    }
}

/// The bytes of one frame: delay, then pixels.
pub open spec fn frame_bytes(f: (u64, Seq<u8>)) -> Seq<u8> {
    spec_u64_to_le_bytes(f.0) + f.1
}

pub open spec fn frames_bytes(frames: Seq<(u64, Seq<u8>)>) -> Seq<u8>
    decreases frames.len(),
{
    if frames.len() == 0 {
        seq![]
    } else {
        frames_bytes(frames.drop_last()) + frame_bytes(frames.last())
    }
}

/// The bytes a cache file is written with.
pub open spec fn serialize_cache(a: AnimationView) -> Seq<u8> {
    spec_u32_to_le_bytes(CACHE_MAGIC) + spec_u32_to_le_bytes(a.width) + spec_u32_to_le_bytes(
        a.height,
    ) + spec_u32_to_le_bytes(a.frames.len() as u32) + frames_bytes(a.frames)
}

/// A read position in a byte buffer, read front to back.
pub struct ByteReader<'a> {
    pub bytes: &'a [u8],
    pub pos: usize,
}

/// Reads a little-endian `u32` at the reader's position and moves past it;
/// `None`, with the reader unchanged, when fewer than 4 bytes are left.
pub fn read_u32(reader: &mut ByteReader) -> (res: Option<u32>)
    ensures
        final(reader).bytes == old(reader).bytes,
        old(reader).pos + 4 <= old(reader).bytes@.len() ==> {
            &&& res == Some(le_u32_at(old(reader).bytes@, old(reader).pos as int))
            &&& final(reader).pos == old(reader).pos + 4
        },
        old(reader).pos + 4 > old(reader).bytes@.len() ==> {
            &&& res is None
            &&& final(reader).pos == old(reader).pos
        },
{
    let len = reader.bytes.len();
    if reader.pos > len || len - reader.pos < 4 {
        return None;
    }
    let chunk = slice_subrange(reader.bytes, reader.pos, reader.pos + 4);
    let value = u32_from_le_bytes(chunk);
    reader.pos = reader.pos + 4;
    Some(value)
}

/// Reads a little-endian `u64` at the reader's position and moves past it;
/// `None`, with the reader unchanged, when fewer than 8 bytes are left.
pub fn read_u64(reader: &mut ByteReader) -> (res: Option<u64>)
    ensures
        final(reader).bytes == old(reader).bytes,
        old(reader).pos + 8 <= old(reader).bytes@.len() ==> {
            &&& res == Some(le_u64_at(old(reader).bytes@, old(reader).pos as int))
            &&& final(reader).pos == old(reader).pos + 8
        },
        old(reader).pos + 8 > old(reader).bytes@.len() ==> {
            &&& res is None
            &&& final(reader).pos == old(reader).pos
        },
{
    let len = reader.bytes.len();
    if reader.pos > len || len - reader.pos < 8 {
        return None;
    }
    let chunk = slice_subrange(reader.bytes, reader.pos, reader.pos + 8);
    let value = u64_from_le_bytes(chunk);
    reader.pos = reader.pos + 8;
    Some(value)
}


/// Parses a cache file's bytes back into frames; `None` when the bytes are
/// not a usable cache file (see [`parse_cache`]), so such a file is ignored
/// and rewritten rather than misread.
pub fn read_cache(bytes: &[u8]) -> (res: Option<RawAnimation>)
    ensures
        match parse_cache(bytes@) {
            Some(a) => res matches Some(r) && r@ == a,
            None => res is None,
        },
{
    let mut reader = ByteReader { bytes, pos: 0 };
    let magic = match read_u32(&mut reader) {
        Some(v) => v,
        None => return None,
    };
    if magic != CACHE_MAGIC {
        return None;
    }
    let width = match read_u32(&mut reader) {
        Some(v) => v,
        None => return None,
    };
    let height = match read_u32(&mut reader) {
        Some(v) => v,
        None => return None,
    };
    let frame_count = match read_u32(&mut reader) {
        Some(v) => v,
        None => return None,
    };
    if width == 0 || height == 0 || frame_count == 0 {
        return None;
    }
    assert(reader.pos == 16);
    assert((width as int) * (height as int) <= u64::MAX) by (nonlinear_arith)
        requires
            width <= u32::MAX,
            height <= u32::MAX,
    ;
    let area: u64 = width as u64 * height as u64;
    assert(area == width * height) by (nonlinear_arith)
        requires
            area == (width as u64) * (height as u64),
    ;
    if area > (usize::MAX / 4) as u64 {
        return None;
    }
    let frame_len: usize = area as usize * 4;
    assert(frame_len == frame_size(width, height));
    let ghost total = parse_frames(bytes@, 16, frame_count as nat, frame_len as int);
    let mut frames: Vec<(u64, Vec<u8>)> = Vec::new();
    let mut i: u32 = 0;
    while i < frame_count
        invariant
            reader.bytes == bytes,
            reader.pos <= bytes@.len(),
            i <= frame_count,
            frame_len == frame_size(width, height),
            total == parse_frames(bytes@, 16, frame_count as nat, frame_len as int),
            parse_cache(bytes@) == match total {
                Some(f) => Some(AnimationView { width, height, frames: f }),
                None => None::<AnimationView>,
            },
            total == match parse_frames(
                bytes@,
                reader.pos as int,
                (frame_count - i) as nat,
                frame_len as int,
            ) {
                Some(rest) => Some(frames_view(frames@) + rest),
                None => None::<Seq<(u64, Seq<u8>)>>,
            },
        decreases frame_count - i,
    {
        let pos = reader.pos;
        let delay_ms = match read_u64(&mut reader) {
            Some(v) => v,
            None => return None,
        };
        if bytes.len() - reader.pos < frame_len {
            return None;
        }
        let pixels = slice_to_vec(slice_subrange(bytes, reader.pos, reader.pos + frame_len));
        reader.pos = reader.pos + frame_len;
        let ghost old_frames = frames_view(frames@);
        frames.push((delay_ms, pixels));
        assert(frames_view(frames@) =~= old_frames.push((delay_ms, pixels@)));
        i = i + 1;
        proof {
            let n = (frame_count - i) as nat;
            match parse_frames(bytes@, reader.pos as int, n, frame_len as int) {
                Some(rest) => {
                    assert(old_frames + (seq![(delay_ms, pixels@)] + rest) =~= frames_view(
                        frames@,
                    ) + rest);
                },
                None => {},
            }
        }
    }
    assert(frames_view(frames@) + seq![] =~= frames_view(frames@));
    Some(RawAnimation { width, height, frames })
}


/// The bytes a cache file is written with: see [`serialize_cache`].
pub fn encode_cache(animation: &RawAnimation) -> (out: Vec<u8>)
    ensures
        out@ == serialize_cache(animation@),
{
    let mut out = u32_to_le_bytes(CACHE_MAGIC);
    let mut width_bytes = u32_to_le_bytes(animation.width);
    out.append(&mut width_bytes);
    let mut height_bytes = u32_to_le_bytes(animation.height);
    out.append(&mut height_bytes);
    let mut count_bytes = u32_to_le_bytes(animation.frames.len() as u32);
    out.append(&mut count_bytes);
    let ghost header = out@;
    let mut i: usize = 0;
    while i < animation.frames.len()
        invariant
            i <= animation.frames@.len(),
            out@ == header + frames_bytes(frames_view(animation.frames@).take(i as int)),
        decreases animation.frames@.len() - i,
    {
        let ghost before = out@;
        let mut delay_bytes = u64_to_le_bytes(animation.frames[i].0);
        out.append(&mut delay_bytes);
        out.extend_from_slice(animation.frames[i].1.as_slice());
        proof {
            let fv = frames_view(animation.frames@);
            assert(fv.take(i + 1).drop_last() =~= fv.take(i as int));
            assert(fv.take(i + 1).last() == fv[i as int]);
            assert(out@ =~= header + frames_bytes(fv.take(i + 1)));
        }
        i = i + 1;
    }
    proof {
        assert(frames_view(animation.frames@).take(animation.frames@.len() as int)
            =~= frames_view(animation.frames@));
    }
    out
}

/// The frame bytes split at the first frame instead of the last.
proof fn lemma_frames_bytes_first(frames: Seq<(u64, Seq<u8>)>)
    requires
        frames.len() > 0,
    ensures
        frames_bytes(frames) == frame_bytes(frames[0]) + frames_bytes(frames.drop_first()),
    decreases frames.len(),
{
    if frames.len() == 1 {
        assert(frames.drop_first() =~= seq![]);
        assert(frames.drop_last() =~= seq![]);
        assert(frame_bytes(frames[0]) + frames_bytes(frames.drop_first()) =~= frame_bytes(
            frames[0],
        ));
        assert(frames_bytes(frames) =~= frames_bytes(frames.drop_last()) + frame_bytes(
            frames.last(),
        ));
    } else {
        lemma_frames_bytes_first(frames.drop_last());
        assert(frames.drop_last().drop_first() =~= frames.drop_first().drop_last());
        assert(frames.drop_first().last() == frames.last());
        assert(frames.drop_last()[0] == frames[0]);
    }
}

/// Parsing the bytes of whole frames, wherever they stand in a buffer,
/// gives those frames back.
proof fn lemma_parse_frames_bytes(
    prefix: Seq<u8>,
    frames: Seq<(u64, Seq<u8>)>,
    suffix: Seq<u8>,
    size: int,
)
    requires
        size >= 0,
        forall|i: int| 0 <= i < frames.len() ==> (#[trigger] frames[i]).1.len() == size,
    ensures
        parse_frames(prefix + frames_bytes(frames) + suffix, prefix.len() as int, frames.len(), size)
            == Some(frames),
    decreases frames.len(),
{
    let b = prefix + frames_bytes(frames) + suffix;
    if frames.len() == 0 {
        assert(frames =~= seq![]);
    } else {
        lemma_frames_bytes_first(frames);
        lemma_auto_spec_u64_to_from_le_bytes();
        let f0 = frames[0];
        let rest = frames.drop_first();
        let p2 = prefix + frame_bytes(f0);
        assert(b =~= p2 + frames_bytes(rest) + suffix);
        assert forall|i: int| 0 <= i < rest.len() implies (#[trigger] rest[i]).1.len() == size by {
            assert(rest[i] == frames[i + 1]);
        }
        lemma_parse_frames_bytes(p2, rest, suffix, size);
        let pos = prefix.len() as int;
        assert(spec_u64_to_le_bytes(f0.0).len() == 8);
        assert(b.subrange(pos, pos + 8) =~= spec_u64_to_le_bytes(f0.0));
        assert(b.subrange(pos + 8, pos + 8 + size) =~= f0.1);
        assert(p2.len() == pos + 8 + size);
        assert(seq![(le_u64_at(b, pos), b.subrange(pos + 8, pos + 8 + size))] + rest =~= frames);
    }
}

/// Reading back what was written gives the animation back: for every
/// animation with non-empty dimensions, between one and `u32::MAX` frames,
/// addressable frame sizes and frames of exactly `width * height * 4`
/// bytes, parsing its cache bytes yields it unchanged.
pub proof fn lemma_cache_roundtrip(a: AnimationView)
    requires
        a.width > 0,
        a.height > 0,
        0 < a.frames.len() <= u32::MAX,
        frame_size(a.width, a.height) <= usize::MAX,
        frames_fit(a),
    ensures
        parse_cache(serialize_cache(a)) == Some(a),
{
    lemma_auto_spec_u32_to_from_le_bytes();
    let count = a.frames.len() as u32;
    assert(count == a.frames.len());
    let header = spec_u32_to_le_bytes(CACHE_MAGIC) + spec_u32_to_le_bytes(a.width)
        + spec_u32_to_le_bytes(a.height) + spec_u32_to_le_bytes(count);
    let b = serialize_cache(a);
    assert(header.len() == 16);
    assert(b =~= header + frames_bytes(a.frames) + seq![]);
    assert(b.subrange(0, 4) =~= spec_u32_to_le_bytes(CACHE_MAGIC));
    assert(b.subrange(4, 8) =~= spec_u32_to_le_bytes(a.width));
    assert(b.subrange(8, 12) =~= spec_u32_to_le_bytes(a.height));
    assert(b.subrange(12, 16) =~= spec_u32_to_le_bytes(count));
    let size = frame_size(a.width, a.height);
    assert(size >= 0) by (nonlinear_arith)
        requires
            size == a.width * a.height * 4,
    ;
    lemma_parse_frames_bytes(header, a.frames, seq![], size);
}

} // verus!
