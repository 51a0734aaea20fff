use perturabo::color::{
    blend_channel, composite, weigh_channel, Color, ALPHA_AT, BLUE_AT, BYTES_PER_PIXEL, GREEN_AT,
    OPAQUE, RED_AT,
};

fn nearest(numerator: u32) -> u8 {
    // The byte n with |255 n - numerator| <= 127, found by search.
    let mut best: u32 = 0;
    for n in 0..=255u32 {
        let d = if 255 * n > numerator { 255 * n - numerator } else { numerator - 255 * n };
        let e =
            if 255 * best > numerator { 255 * best - numerator } else { numerator - 255 * best };
        if d < e {
            best = n;
        }
    }
    best as u8
}

#[test]
fn blend_channel_gives_exact_values() {
    assert_eq!(blend_channel(0, 255, 128), 128);
    assert_eq!(blend_channel(255, 0, 128), 127);
    assert_eq!(blend_channel(100, 200, 51), 120);
    assert_eq!(blend_channel(10, 200, 128), 105);
    assert_eq!(blend_channel(20, 100, 128), 60);
    assert_eq!(blend_channel(0, 255, 1), 1);
    assert_eq!(blend_channel(0, 1, 127), 0);
    assert_eq!(blend_channel(0, 1, 128), 1);
}

#[test]
fn blend_channel_rounds_to_the_nearest_byte() {
    for existing in (0..=255u32).step_by(5) {
        for incoming in (0..=255u32).step_by(3) {
            for alpha in 0..=255u32 {
                let exact = existing * (255 - alpha) + incoming * alpha;
                assert_eq!(
                    blend_channel(existing as u8, incoming as u8, alpha as u8),
                    nearest(exact)
                );
            }
        }
    }
}

#[test]
fn blend_channel_with_full_alpha_is_the_incoming_value() {
    for existing in 0..=255u8 {
        for incoming in 0..=255u8 {
            assert_eq!(blend_channel(existing, incoming, 255), incoming);
        }
    }
}

#[test]
fn blend_channel_with_no_alpha_is_the_existing_value() {
    for existing in 0..=255u8 {
        for incoming in 0..=255u8 {
            assert_eq!(blend_channel(existing, incoming, 0), existing);
        }
    }
}

#[test]
fn weigh_channel_gives_exact_values() {
    assert_eq!(weigh_channel(200, 128), 100);
    assert_eq!(weigh_channel(100, 128), 50);
    assert_eq!(weigh_channel(50, 128), 25);
    assert_eq!(weigh_channel(255, 128), 128);
    assert_eq!(weigh_channel(255, 255), 255);
    assert_eq!(weigh_channel(1, 127), 0);
    assert_eq!(weigh_channel(1, 128), 1);
    for value in 0..=255u8 {
        assert_eq!(weigh_channel(value, 255), value);
        assert_eq!(weigh_channel(value, 0), 0);
        assert_eq!(weigh_channel(255, value), value);
    }
}

#[test]
fn composite_with_opaque_color_takes_its_channels() {
    let color = Color { r: 12, g: 34, b: 56, a: 255 };
    for step in 0..=255u8 {
        let existing = Color { r: step, g: 255 - step, b: step / 2, a: step };
        assert_eq!(composite(existing, color), Color { r: 12, g: 34, b: 56, a: 255 });
    }
}

#[test]
fn composite_with_transparent_color_keeps_an_opaque_pixel() {
    let color = Color { r: 12, g: 34, b: 56, a: 0 };
    for step in 0..=255u8 {
        let existing = Color { r: step, g: 255 - step, b: step / 2, a: 255 };
        assert_eq!(composite(existing, color), existing);
    }
}

#[test]
fn composite_always_leaves_the_pixel_opaque() {
    let existing = Color { r: 10, g: 20, b: 30, a: 0 };
    let unseen = Color { r: 200, g: 100, b: 0, a: 0 };
    assert_eq!(composite(existing, unseen), Color { r: 10, g: 20, b: 30, a: 255 });
    let half = Color { r: 200, g: 100, b: 0, a: 128 };
    assert_eq!(composite(existing, half), Color { r: 105, g: 60, b: 15, a: 255 });
    assert_eq!(OPAQUE, 255);
}

#[test]
fn scale_weighs_all_four_channels() {
    let color = Color { r: 200, g: 100, b: 50, a: 255 };
    assert_eq!(color.scale(128), Color { r: 100, g: 50, b: 25, a: 128 });
    assert_eq!(color.scale(255), color);
    assert_eq!(color.scale(0), Color { r: 0, g: 0, b: 0, a: 0 });
    assert_eq!(color.scale(1), Color { r: 1, g: 0, b: 0, a: 1 });
}

#[test]
fn pixel_bytes_are_blue_green_red_alpha() {
    let color = Color { r: 1, g: 2, b: 3, a: 4 };
    assert_eq!(color.to_bytes(), [3, 2, 1, 4]);
    assert_eq!(Color::from_bytes([3, 2, 1, 4]), color);
    assert_eq!((BLUE_AT, GREEN_AT, RED_AT, ALPHA_AT), (0, 1, 2, 3));
    assert_eq!(BYTES_PER_PIXEL, 4);
}

#[test]
fn pixel_bytes_round_trip() {
    for step in 0..=255u8 {
        let color = Color { r: step, g: step.wrapping_mul(7), b: 255 - step, a: step ^ 0x5a };
        assert_eq!(Color::from_bytes(color.to_bytes()), color);
        let bytes = [step, 255 - step, step.wrapping_mul(3), step ^ 0xa5];
        assert_eq!(Color::from_bytes(bytes).to_bytes(), bytes);
    }
}

#[test]
fn color_from_and_to_channels() {
    let color = Color::from_rgba(9, 8, 7, 6);
    assert_eq!(color, Color { r: 9, g: 8, b: 7, a: 6 });
    assert_eq!(color.to_rgba(), (9, 8, 7, 6));
}
