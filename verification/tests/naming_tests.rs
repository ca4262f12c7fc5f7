use screencap::geom::Rect;
use screencap::naming::format_save_name;

#[test]
fn save_name_has_the_documented_shape() {
    let red = Rect { x: 100, y: 100, w: 400, h: 300 };
    let (dir, path) = format_save_name(1920, 1080, 1234567890123, &red);
    assert_eq!(dir, "W1920H1080");
    assert_eq!(path, "W1920H1080/screenshot_1234567890123_Lx100Ty100W400H300.webp");
}

#[test]
fn save_name_renders_zeros() {
    let red = Rect { x: 0, y: 0, w: 11, h: 11 };
    let (dir, path) = format_save_name(800, 600, 0, &red);
    assert_eq!(dir, "W800H600");
    assert_eq!(path, "W800H600/screenshot_0_Lx0Ty0W11H11.webp");
}

#[test]
fn save_name_renders_extreme_values() {
    let red = Rect { x: 2147483647, y: 1, w: 0, h: 2147483647 };
    let (dir, path) = format_save_name(4294967295, 1, 18446744073709551615, &red);
    assert_eq!(dir, "W4294967295H1");
    assert_eq!(
        path,
        "W4294967295H1/screenshot_18446744073709551615_Lx2147483647Ty1W0H2147483647.webp",
    );
}

#[test]
fn the_name_recovers_the_red_rectangle() {
    // Two saves differing only in the red rectangle get distinct names.
    let a = format_save_name(1920, 1080, 7, &Rect { x: 1, y: 2, w: 34, h: 56 }).1;
    let b = format_save_name(1920, 1080, 7, &Rect { x: 12, y: 3, w: 4, h: 56 }).1;
    assert_ne!(a, b);
    assert_eq!(a, "W1920H1080/screenshot_7_Lx1Ty2W34H56.webp");
    assert_eq!(b, "W1920H1080/screenshot_7_Lx12Ty3W4H56.webp");
}
