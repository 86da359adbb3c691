use emoji_kitchen::utils::{
    can_resize, decode_animation, is_success, mime_type_from_extension, resize_animation,
    resize_frame, resize_frames, AnimationFrame, TransformError, FRAME_DELAY_MS,
};
use image::codecs::gif::{GifDecoder, GifEncoder, Repeat};
use image::{AnimationDecoder, Delay, Frame, Rgba, RgbaImage};

const ONE_PIXEL: [u8; 43] = [
    0x47, 0x49, 0x46, 0x38, 0x39, 0x61, 0x01, 0x00, 0x01, 0x00, 0x80, 0x00, 0x00, 0x00, 0x00, 0x00,
    0xff, 0xff, 0xff, 0x21, 0xf9, 0x04, 0x01, 0x00, 0x00, 0x00, 0x00, 0x2c, 0x00, 0x00, 0x00, 0x00,
    0x01, 0x00, 0x01, 0x00, 0x00, 0x02, 0x02, 0x44, 0x01, 0x00, 0x3b,
];

fn quadrants(width: u32, height: u32, colors: [[u8; 4]; 4]) -> RgbaImage {
    RgbaImage::from_fn(width, height, |x, y| {
        let index = (if x < width / 2 { 0 } else { 1 }) + (if y < height / 2 { 0 } else { 2 });
        Rgba(colors[index])
    })
}

fn two_frame_gif() -> Vec<u8> {
    let red = [255, 0, 0, 255];
    let green = [0, 255, 0, 255];
    let blue = [0, 0, 255, 255];
    let white = [255, 255, 255, 255];
    let frames = vec![
        Frame::from_parts(
            quadrants(8, 8, [red, green, blue, white]),
            0,
            0,
            Delay::from_numer_denom_ms(100, 1),
        ),
        Frame::from_parts(
            quadrants(8, 8, [white, blue, green, red]),
            0,
            0,
            Delay::from_numer_denom_ms(500, 1),
        ),
    ];
    let mut out = Vec::new();
    {
        let mut encoder = GifEncoder::new(&mut out);
        encoder.set_repeat(Repeat::Finite(2)).unwrap();
        encoder.encode_frames(frames).unwrap();
    }
    out
}

#[test]
fn known_extensions_have_a_media_type() {
    assert_eq!(mime_type_from_extension("gif"), Some("image/gif".to_string()));
    assert_eq!(mime_type_from_extension("png"), Some("image/png".to_string()));
    assert_eq!(mime_type_from_extension("GIF"), Some("image/gif".to_string()));
    assert_eq!(mime_type_from_extension("Png"), Some("image/png".to_string()));
    assert_eq!(mime_type_from_extension("pNG"), Some("image/png".to_string()));
}

#[test]
fn unknown_extensions_have_no_media_type() {
    for ext in ["bmp", "jpg", "jpeg", "webp", "", "gif ", ".gif", "gi", "giff", "png.", "pn\u{261}"]
    {
        assert_eq!(mime_type_from_extension(ext), None, "extension {:?}", ext);
    }
}

#[test]
fn success_is_a_status_from_200_to_299() {
    assert!(is_success(200));
    assert!(is_success(204));
    assert!(is_success(299));
    assert!(!is_success(199));
    assert!(!is_success(300));
    assert!(!is_success(404));
    assert!(!is_success(500));
    assert!(!is_success(0));
    assert!(!is_success(u16::MAX));
}

#[test]
fn decode_gives_every_frame_as_rgba_bytes() {
    let frames = decode_animation(&ONE_PIXEL).unwrap();
    assert_eq!(frames.len(), 1);
    assert_eq!(frames[0].width, 1);
    assert_eq!(frames[0].height, 1);
    assert_eq!(frames[0].pixels.len(), 4);

    let frames = decode_animation(&two_frame_gif()).unwrap();
    assert_eq!(frames.len(), 2);
    for frame in &frames {
        assert_eq!((frame.width, frame.height), (8, 8));
        assert_eq!(frame.pixels.len(), 4 * 8 * 8);
    }
    assert_eq!(&frames[0].pixels[0..4], &[255, 0, 0, 255]);
    assert_eq!(&frames[0].pixels[4 * 7..4 * 8], &[0, 255, 0, 255]);
    assert_eq!(&frames[1].pixels[0..4], &[255, 255, 255, 255]);
    assert_eq!(&frames[1].pixels[4 * 63..4 * 64], &[255, 0, 0, 255]);
}

#[test]
fn decode_of_what_is_no_gif_fails() {
    for payload in [&b"not a gif"[..], &b""[..], &ONE_PIXEL[..20]] {
        match decode_animation(payload) {
            Err(TransformError::Decode(text)) => assert!(!text.is_empty()),
            other => panic!("unexpected outcome: {:?}", other),
        }
        match resize_animation(payload, 4) {
            Err(TransformError::Decode(text)) => assert!(!text.is_empty()),
            other => panic!("unexpected outcome: {:?}", other),
        }
    }
}

#[test]
fn resize_frame_gives_a_square_of_the_wanted_size() {
    let colors = [[1, 2, 3, 255], [4, 5, 6, 255], [7, 8, 9, 255], [10, 11, 12, 255]];
    let source = quadrants(8, 8, colors);
    let frame = AnimationFrame { width: 8, height: 8, pixels: source.clone().into_raw() };
    assert!(can_resize(&frame, 4));
    let resized = resize_frame(&frame, 4);
    assert_eq!((resized.width, resized.height), (4, 4));
    assert_eq!(resized.pixels.len(), 4 * 4 * 4);
    let expected = image::imageops::resize(&source, 4, 4, image::imageops::FilterType::Nearest);
    assert_eq!(resized.pixels, expected.into_raw());
    assert_eq!(&resized.pixels[0..4], &[1, 2, 3, 255]);
    assert_eq!(&resized.pixels[4 * 3..4 * 4], &[4, 5, 6, 255]);
    assert_eq!(&resized.pixels[4 * 12..4 * 13], &[7, 8, 9, 255]);
    assert_eq!(&resized.pixels[4 * 15..4 * 16], &[10, 11, 12, 255]);

    let larger = resize_frame(&frame, 16);
    assert_eq!((larger.width, larger.height), (16, 16));
    assert_eq!(larger.pixels.len(), 4 * 16 * 16);
    assert_eq!(&larger.pixels[0..4], &[1, 2, 3, 255]);

    let same = resize_frame(&frame, 8);
    assert_eq!(same.pixels, frame.pixels);
}

#[test]
fn resize_frame_of_an_oblong_gives_a_square() {
    let source = quadrants(6, 2, [[1, 1, 1, 255], [2, 2, 2, 255], [3, 3, 3, 255], [4, 4, 4, 255]]);
    let frame = AnimationFrame { width: 6, height: 2, pixels: source.into_raw() };
    let resized = resize_frame(&frame, 2);
    assert_eq!((resized.width, resized.height), (2, 2));
    assert_eq!(resized.pixels, vec![1, 1, 1, 255, 2, 2, 2, 255, 3, 3, 3, 255, 4, 4, 4, 255]);
}

#[test]
fn resize_frames_keeps_count_and_order() {
    let frames = decode_animation(&two_frame_gif()).unwrap();
    let resized = resize_frames(&frames, 2).unwrap();
    assert_eq!(resized.len(), 2);
    assert_eq!(resized[0].pixels.len(), 16);
    assert_eq!(&resized[0].pixels[0..4], &[255, 0, 0, 255]);
    assert_eq!(&resized[1].pixels[0..4], &[255, 255, 255, 255]);
    assert_eq!(resize_frames(&Vec::new(), 2).unwrap().len(), 0);
}

#[test]
fn frames_too_large_to_resize_are_refused() {
    let frame = AnimationFrame { width: 1, height: 1, pixels: vec![0, 0, 0, 0] };
    assert!(can_resize(&frame, 0));
    assert!(can_resize(&frame, 512));
    assert!(!can_resize(&frame, u32::MAX));
    assert!(resize_frames(&vec![frame], u32::MAX).is_none());
    assert!(matches!(resize_animation(&ONE_PIXEL, u32::MAX), Err(TransformError::TooLarge)));
    assert_eq!(TransformError::TooLarge.detail(), "frame too large to resize");
    assert_eq!(TransformError::Decode("bad".to_string()).detail(), "bad");
    assert_eq!(TransformError::Encode("worse".to_string()).detail(), "worse");
}

#[test]
fn resized_animation_has_square_frames_a_fixed_delay_and_loops_forever() {
    let input = two_frame_gif();
    let output = resize_animation(&input, 4).unwrap();
    assert_ne!(output, input);
    assert_eq!(&output[0..6], b"GIF89a");
    assert_eq!(&output[6..10], &[4, 0, 4, 0]);

    let decoder = GifDecoder::new(std::io::Cursor::new(&output)).unwrap();
    assert!(matches!(decoder.loop_count(), image::metadata::LoopCount::Infinite));
    let frames = decoder.into_frames().collect_frames().unwrap();
    assert_eq!(frames.len(), 2);
    for frame in &frames {
        assert_eq!(frame.buffer().dimensions(), (4, 4));
        assert_eq!(frame.delay().numer_denom_ms(), (30, 1));
        assert_eq!(frame.delay().numer_denom_ms(), (FRAME_DELAY_MS, 1));
        assert_eq!((frame.left(), frame.top()), (0, 0));
    }
    assert_eq!(frames[0].buffer().get_pixel(0, 0), &Rgba([255, 0, 0, 255]));
    assert_eq!(frames[0].buffer().get_pixel(3, 0), &Rgba([0, 255, 0, 255]));
    assert_eq!(frames[0].buffer().get_pixel(0, 3), &Rgba([0, 0, 255, 255]));
    assert_eq!(frames[0].buffer().get_pixel(3, 3), &Rgba([255, 255, 255, 255]));
    assert_eq!(frames[1].buffer().get_pixel(0, 0), &Rgba([255, 255, 255, 255]));
    assert_eq!(frames[1].buffer().get_pixel(3, 3), &Rgba([255, 0, 0, 255]));

    let again = decode_animation(&output).unwrap();
    assert_eq!(again.len(), 2);
    assert_eq!((again[0].width, again[0].height), (4, 4));
}

#[test]
fn resized_animation_of_size_zero_has_an_empty_canvas() {
    let output = resize_animation(&ONE_PIXEL, 0).unwrap();
    assert_eq!(&output[0..6], b"GIF89a");
    assert_eq!(&output[6..10], &[0, 0, 0, 0]);
}

#[test]
fn resized_animation_of_one_pixel() {
    let output = resize_animation(&ONE_PIXEL, 3).unwrap();
    let frames = decode_animation(&output).unwrap();
    assert_eq!(frames.len(), 1);
    assert_eq!((frames[0].width, frames[0].height), (3, 3));
    assert_eq!(frames[0].pixels.len(), 36);
    assert_eq!(resize_animation(&ONE_PIXEL, 3).unwrap(), output);
}
