use screencap::bitmap::Image;
use screencap::geom::Rect;

#[test]
fn image_new_checks_the_buffer_length() {
    assert!(Image::new(2, 2, vec![0u8; 16]).is_some());
    assert!(Image::new(2, 2, vec![0u8; 15]).is_none());
    assert!(Image::new(2, 2, vec![0u8; 17]).is_none());
    assert!(Image::new(0, 0, vec![]).is_some());
}

#[test]
fn crop_copies_the_sub_rectangle() {
    // A 4-by-3 image whose pixel at (x, y) has red channel x, green channel
    // y, blue 7, alpha 255.
    let mut pixels = Vec::new();
    for y in 0..3u8 {
        for x in 0..4u8 {
            pixels.extend_from_slice(&[x, y, 7, 255]);
        }
    }
    let img = Image::new(4, 3, pixels).unwrap();
    let out = img.crop(&Rect { x: 1, y: 1, w: 2, h: 2 });
    assert_eq!(out.width, 2);
    assert_eq!(out.height, 2);
    assert_eq!(
        out.pixels,
        vec![
            1, 1, 7, 255, 2, 1, 7, 255, // row y = 1: pixels (1,1) (2,1)
            1, 2, 7, 255, 2, 2, 7, 255, // row y = 2: pixels (1,2) (2,2)
        ],
    );
}

#[test]
fn crop_of_whole_image_is_the_image() {
    let pixels: Vec<u8> = (0u8..48).collect();
    let img = Image::new(4, 3, pixels.clone()).unwrap();
    let out = img.crop(&Rect { x: 0, y: 0, w: 4, h: 3 });
    assert_eq!(out.pixels, pixels);
}
