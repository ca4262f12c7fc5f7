use screencap::bitmap::Image;
use screencap::fsm::{Effect, Event, Key, State};
use screencap::geom::{Point, Rect};
use screencap::save::render_save;

// Alpha stays above zero so the encoder keeps the alpha plane and the
// decoder hands RGBA back; lossless WebP is then an exact round trip.
fn gradient_image(w: u32, h: u32) -> Image {
    let mut pixels = Vec::new();
    for y in 0..h {
        for x in 0..w {
            pixels.extend_from_slice(&[
                (x % 251) as u8,
                (y % 241) as u8,
                ((x + y) % 239) as u8,
                (128 + (x + y) % 128) as u8,
            ]);
        }
    }
    Image::new(w, h, pixels).unwrap()
}

#[test]
fn full_region_save_round_trips_through_webp() {
    // Capture, drag out the red rectangle, save: the file is named after the
    // red rectangle and decodes to exactly its pixels.
    let state = State::Idle;
    let (state, _) = state.step(Event::CaptureRequested);
    let grabbed = gradient_image(1920, 1080);
    let (state, _) = state.finish_capture(Some(grabbed));
    let (state, _) = state.step(Event::MouseDown(Point::new(100, 100)));
    let (state, _) = state.step(Event::MouseMove(Point::new(500, 400)));
    let (state, _) = state.step(Event::MouseUp(Point::new(500, 400)));
    let (_, eff) = state.step(Event::KeyDown(Key::S));
    let req = match eff {
        Effect::Save(req) => req,
        _ => panic!("expected a save request"),
    };
    let payload = render_save(&req.img, &req.red, req.green, 1920, 1080, 42);
    assert_eq!(payload.dir, "W1920H1080");
    assert_eq!(payload.path, "W1920H1080/screenshot_42_Lx100Ty100W400H300.webp");

    let decoded = webp::Decoder::new(&payload.bytes).decode().unwrap();
    assert_eq!(decoded.width(), 400);
    assert_eq!(decoded.height(), 300);
    assert!(decoded.is_alpha());
    let expected = req.img.crop(&Rect { x: 100, y: 100, w: 400, h: 300 });
    assert_eq!(&*decoded, expected.pixels.as_slice());
}

#[test]
fn sub_region_save_writes_green_pixels_under_red_name() {
    let img = gradient_image(1920, 1080);
    let red = Rect { x: 100, y: 100, w: 400, h: 300 };
    let green = Rect { x: 200, y: 200, w: 60, h: 60 };
    let payload = render_save(&img, &red, Some(green), 1920, 1080, 7);
    // The path still names the red rectangle.
    assert_eq!(payload.path, "W1920H1080/screenshot_7_Lx100Ty100W400H300.webp");
    // The pixels are the green crop, not the red one.
    let decoded = webp::Decoder::new(&payload.bytes).decode().unwrap();
    assert_eq!(decoded.width(), 60);
    assert_eq!(decoded.height(), 60);
    assert!(decoded.is_alpha());
    let expected = img.crop(&green);
    assert_eq!(&*decoded, expected.pixels.as_slice());
}

#[test]
fn opaque_image_round_trips_without_an_alpha_plane() {
    // With every alpha byte 255 the encoder drops the alpha plane; the
    // decoder then yields RGB, equal channel for channel to the crop.
    let mut pixels = Vec::new();
    for y in 0..40u32 {
        for x in 0..50u32 {
            pixels.extend_from_slice(&[(x % 251) as u8, (y % 241) as u8, ((x + y) % 239) as u8, 255]);
        }
    }
    let img = Image::new(50, 40, pixels).unwrap();
    let red = Rect { x: 5, y: 5, w: 20, h: 15 };
    let payload = render_save(&img, &red, None, 50, 40, 3);
    let decoded = webp::Decoder::new(&payload.bytes).decode().unwrap();
    assert!(!decoded.is_alpha());
    let expected: Vec<u8> = img
        .crop(&red)
        .pixels
        .chunks(4)
        .flat_map(|p| [p[0], p[1], p[2]])
        .collect();
    assert_eq!(&*decoded, expected.as_slice());
}

#[test]
fn encoding_actually_transforms_the_pixels() {
    let img = gradient_image(64, 64);
    let red = Rect { x: 0, y: 0, w: 64, h: 64 };
    let payload = render_save(&img, &red, None, 64, 64, 1);
    // A WebP stream is a RIFF container, not the raw pixel bytes.
    assert_eq!(&payload.bytes[0..4], b"RIFF");
    assert_ne!(payload.bytes, img.pixels);
}
