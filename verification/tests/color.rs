use sabi::color::{black, blue, cyan, green, magenta, red, white, yellow, Color16, Color216, Color256, RGB};

#[test]
fn test_rgb_to_16() {
    assert_eq!(Color16::from(black()), Color16::Black);
    assert_eq!(Color16::from(red()), Color16::Red);
    assert_eq!(Color16::from(green()), Color16::Green);
    assert_eq!(Color16::from(yellow()), Color16::Yellow);
    assert_eq!(Color16::from(blue()), Color16::Blue);
    assert_eq!(Color16::from(magenta()), Color16::Magenta);
    assert_eq!(Color16::from(cyan()), Color16::Cyan);
    assert_eq!(Color16::from(white()), Color16::White);
}

#[test]
fn color216_code_is_cube_index() {
    assert_eq!(Color216::new(0, 0, 0).to_u8(), 16);
    assert_eq!(Color216::new(5, 5, 5).to_u8(), 231);
    assert_eq!(Color216::new(1, 2, 3).to_u8(), 16 + 36 + 12 + 3);
}

#[test]
fn color256_cube_decomposition() {
    let c = Color256::from(16 + 36 + 12 + 3).to_color216();
    assert_eq!((c.r, c.g, c.b), (1, 2, 3));
    let gray = Color256::from(240).to_color216();
    assert_eq!((gray.r, gray.g, gray.b), (2, 2, 2));
    let white7 = Color256::from(7).to_color216();
    assert_eq!((white7.r, white7.g, white7.b), (5, 5, 5));
    let white15 = Color256::from(15).to_color216();
    assert_eq!((white15.r, white15.g, white15.b), (5, 5, 5));
}

#[test]
fn color256_to_rgb_scales_by_42() {
    let c = Color256::from(231).to_rgb();
    assert_eq!((c.r, c.g, c.b), (210, 210, 210));
}

#[test]
fn color256_from_cube_round_trip() {
    for code in 16u8..=231 {
        let c = Color256::from(code);
        assert_eq!(Color256::from_color216(c.to_color216()), c);
    }
}

#[test]
fn color256_mix_halfway() {
    let black = Color256::from(16);
    let white = Color256::from(231);
    assert_eq!(black.mix(white, 0), Color256::from(16));
    assert_eq!(black.mix(white, 5), Color256::from(231));
    // (0 * 2 + 5 * 3) / 5 = 3 in each component
    assert_eq!(black.mix(white, 3), Color256::from(16 + 3 * 36 + 3 * 6 + 3));
}

#[test]
fn quantize_prefers_first_of_equal_distance() {
    // Equally far from black and red: the earlier table entry wins.
    assert_eq!(Color16::from(RGB::new(128, 0, 0)), Color16::Red);
    assert_eq!(Color16::from(RGB::new(127, 0, 0)), Color16::Black);
    assert_eq!(RGB::new(1, 2, 3).dist_sq(&RGB::new(4, 6, 3)), 25);
}

#[test]
fn quantize_palette_color() {
    assert_eq!(Color16::from_color256(Color256::from(196)), Color16::Red);
    assert_eq!(Color16::from_color256(Color256::from(16)), Color16::Black);
}
