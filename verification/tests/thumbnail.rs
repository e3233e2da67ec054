use gifvault::cache::{encode_cache, read_cache};
use gifvault::thumbnail::{
    animation_from_gif_frames, animation_from_still, decode_gif_raw, decode_raw, decode_static_raw,
    downscale_if_needed, downscaled_dimensions, frame_delay_ms, peek_dimensions, DecodedFrame,
    MAX_FRAME_DIMENSION,
};
use image::codecs::gif::GifEncoder;
use image::{Delay, Frame, ImageFormat, Rgba, RgbaImage};
use std::io::Cursor;

fn gif_bytes(width: u32, height: u32, frames: &[([u8; 4], u32)]) -> Vec<u8> {
    let mut bytes = Vec::new();
    {
        let mut encoder = GifEncoder::new(&mut bytes);
        let frames: Vec<Frame> = frames
            .iter()
            .map(|(color, delay)| {
                Frame::from_parts(
                    RgbaImage::from_pixel(width, height, Rgba(*color)),
                    0,
                    0,
                    Delay::from_numer_denom_ms(*delay, 1),
                )
            })
            .collect();
        encoder.encode_frames(frames).unwrap();
    }
    bytes
}

fn png_bytes(width: u32, height: u32, color: [u8; 4]) -> Vec<u8> {
    let mut bytes = Vec::new();
    RgbaImage::from_pixel(width, height, Rgba(color))
        .write_to(&mut Cursor::new(&mut bytes), ImageFormat::Png)
        .unwrap();
    bytes
}

#[test]
fn small_frames_keep_their_size() {
    assert_eq!(downscaled_dimensions((480, 300)), (480, 300));
    assert_eq!(downscaled_dimensions((0, 0)), (0, 0));
    assert_eq!(downscaled_dimensions((12, 480)), (12, 480));
}

#[test]
fn large_frames_fit_the_limit() {
    assert_eq!(downscaled_dimensions((1000, 500)), (480, 240));
    assert_eq!(downscaled_dimensions((500, 1000)), (240, 480));
    assert_eq!(downscaled_dimensions((960, 10)), (480, 5));
    assert_eq!(downscaled_dimensions((4000, 3)), (480, 1));
    assert_eq!(downscaled_dimensions((481, 1)), (480, 1));
    assert_eq!(downscaled_dimensions((498, 445)), (480, 429));
    assert_eq!(MAX_FRAME_DIMENSION, 480);
}

#[test]
fn frame_delays() {
    assert_eq!(frame_delay_ms(50, 1), 50);
    assert_eq!(frame_delay_ms(0, 1), 100);
    assert_eq!(frame_delay_ms(10, 1), 20);
    assert_eq!(frame_delay_ms(7, 0), 100);
    assert_eq!(frame_delay_ms(100, 3), 33);
    assert_eq!(frame_delay_ms(19, 1), 20);
}

#[test]
fn downscaling_pixels() {
    let small = vec![1u8; 2 * 2 * 4];
    assert_eq!(downscale_if_needed(small.clone(), 2, 2), Some(small));
    let big = vec![9u8; 960 * 2 * 4];
    let scaled = downscale_if_needed(big, 960, 2).unwrap();
    assert_eq!(scaled.len(), 480 * 1 * 4);
}

#[test]
fn gif_frames_are_decoded_in_order() {
    let bytes = gif_bytes(4, 3, &[([255, 0, 0, 255], 50), ([0, 0, 255, 255], 0)]);
    let raw = decode_gif_raw(&bytes).expect("a gif decodes");
    assert_eq!((raw.width, raw.height), (4, 3));
    assert_eq!(raw.frames.len(), 2);
    assert_eq!(raw.frames[0].0, 50);
    assert_eq!(raw.frames[1].0, 100);
    assert_eq!(raw.frames[0].1.len(), 4 * 3 * 4);
    assert_eq!(&raw.frames[0].1[0..4], &[255, 0, 0, 255]);
    assert_eq!(&raw.frames[1].1[0..4], &[0, 0, 255, 255]);
}

#[test]
fn large_gifs_are_downscaled() {
    let bytes = gif_bytes(960, 4, &[([10, 20, 30, 255], 100)]);
    let raw = decode_gif_raw(&bytes).expect("a gif decodes");
    assert_eq!((raw.width, raw.height), (480, 2));
    assert_eq!(raw.frames[0].1.len(), 480 * 2 * 4);
}

#[test]
fn non_gif_bytes_are_not_a_gif() {
    assert!(decode_gif_raw(&png_bytes(2, 2, [1, 2, 3, 255])).is_none());
    assert!(decode_gif_raw(&[]).is_none());
}

#[test]
fn still_images_become_one_frame() {
    let bytes = png_bytes(3, 2, [1, 2, 3, 255]);
    let raw = decode_static_raw("/tmp/pic.png", &bytes).expect("a png decodes");
    assert_eq!((raw.width, raw.height), (3, 2));
    assert_eq!(raw.frames.len(), 1);
    assert_eq!(raw.frames[0].0, 100);
    assert_eq!(raw.frames[0].1, [1u8, 2, 3, 255].repeat(6));
}

#[test]
fn still_images_need_a_known_extension() {
    let bytes = png_bytes(3, 2, [1, 2, 3, 255]);
    assert!(decode_static_raw("/tmp/pic", &bytes).is_none());
    assert!(decode_static_raw("/tmp/pic.", &bytes).is_none());
    assert!(decode_static_raw("/tmp/pic.xyz", &bytes).is_none());
    assert!(decode_static_raw("/tmp/pic.jpg", &bytes).is_none());
}

#[test]
fn decode_raw_tries_gif_then_still() {
    let gif = gif_bytes(2, 2, &[([5, 5, 5, 255], 30), ([6, 6, 6, 255], 30)]);
    assert_eq!(decode_raw("/tmp/whatever.png", &gif).unwrap().frames.len(), 2);
    let png = png_bytes(2, 2, [7, 7, 7, 255]);
    assert_eq!(decode_raw("/tmp/x.PNG", &png).unwrap().frames.len(), 1);
    assert!(decode_raw("/tmp/x.gif", &[1, 2, 3]).is_none());
}

#[test]
fn decoded_animations_survive_the_cache() {
    let gif = gif_bytes(5, 4, &[([1, 2, 3, 255], 40), ([4, 5, 6, 255], 80)]);
    let raw = decode_raw("/tmp/a.gif", &gif).unwrap();
    let back = read_cache(&encode_cache(&raw)).expect("decoded frames are cacheable");
    assert_eq!((back.width, back.height), (raw.width, raw.height));
    assert_eq!(back.frames, raw.frames);
}

#[test]
fn header_dimensions_are_peeked() {
    assert_eq!(peek_dimensions("/a/b.gif", &gif_bytes(7, 9, &[([0, 0, 0, 255], 10)])), Some((7, 9)));
    assert_eq!(peek_dimensions("/a/b.bin", &png_bytes(11, 5, [0, 0, 0, 255])), Some((11, 5)));
    assert_eq!(peek_dimensions("/a/b.png", &[0, 1, 2, 3]), None);
}

#[test]
fn frames_from_the_decoder() {
    let frames = vec![
        DecodedFrame { delay_numer: 70, delay_denom: 1, width: 1, height: 1, pixels: vec![1, 2, 3, 4] },
        DecodedFrame { delay_numer: 0, delay_denom: 0, width: 1, height: 1, pixels: vec![5, 6, 7, 8] },
    ];
    let raw = animation_from_gif_frames(frames).unwrap();
    assert_eq!((raw.width, raw.height), (1, 1));
    assert_eq!(raw.frames, vec![(70, vec![1, 2, 3, 4]), (100, vec![5, 6, 7, 8])]);
    assert!(animation_from_gif_frames(Vec::new()).is_none());
}

#[test]
fn still_from_pixels() {
    let raw = animation_from_still(1, 2, vec![0; 8]).unwrap();
    assert_eq!((raw.width, raw.height), (1, 2));
    assert_eq!(raw.frames, vec![(100, vec![0; 8])]);
}

#[test]
fn animation_splits_into_frames_and_delays() {
    let raw = animation_from_still(1, 1, vec![9, 9, 9, 9]).unwrap();
    let animation = raw.into_gif_animation();
    assert_eq!(animation.delays_ms, vec![100]);
    assert_eq!(animation.frames, vec![vec![9, 9, 9, 9]]);
}
