use video2gd::data::{Color, PixelUpdate};
use video2gd::util::{flatten_color, flatten_int, index_to_position};

#[test]
fn flatten_int_rounds_to_step() {
    // bits 6: step 4
    assert_eq!(flatten_int(77, 6), 76);
    assert_eq!(flatten_int(75, 6), 76);
    assert_eq!(flatten_int(78, 6), 80);
    // exactly half a step rounds up
    assert_eq!(flatten_int(74, 6), 76);
    assert_eq!(flatten_int(0, 6), 0);
}

#[test]
fn flatten_int_saturates_at_255() {
    assert_eq!(flatten_int(255, 7), 255);
    assert_eq!(flatten_int(254, 7), 254);
    assert_eq!(flatten_int(253, 7), 254);
    assert_eq!(flatten_int(192, 1), 255);
    assert_eq!(flatten_int(191, 1), 128);
    assert_eq!(flatten_int(127, 1), 128);
    assert_eq!(flatten_int(63, 1), 0);
}

#[test]
fn eight_bits_keep_every_value() {
    for n in 0..=255u8 {
        assert_eq!(flatten_int(n, 8), n);
    }
    assert_eq!(flatten_int(201, 8), 201);
}

#[test]
fn zero_bits_give_black_or_white() {
    for n in 0..=255u8 {
        assert_eq!(flatten_int(n, 0), if n < 128 { 0 } else { 255 });
    }
}

#[test]
fn flatten_int_matches_float_rounding() {
    for bits in 0..=8u8 {
        let max = 2u128.pow(8u32 - bits as u32);
        for n in 0..=255u8 {
            let expected = ((n as f32 / max as f32).round() * max as f32) as u8;
            assert_eq!(flatten_int(n, bits), expected, "n = {}, bits = {}", n, bits);
        }
    }
}

#[test]
fn flatten_int_gives_two_to_the_bits_plus_one_levels() {
    for bits in 0..=8u8 {
        let mut levels: Vec<u8> = (0..=255u8).map(|n| flatten_int(n, bits)).collect();
        levels.sort();
        levels.dedup();
        let expected = std::cmp::min((1usize << bits) + 1, 256);
        assert_eq!(levels.len(), expected, "bits = {}", bits);
    }
}

#[test]
fn flatten_int_is_idempotent() {
    for bits in 0..=8u8 {
        for n in 0..=255u8 {
            let once = flatten_int(n, bits);
            assert_eq!(flatten_int(once, bits), once);
        }
    }
}

#[test]
fn flatten_color_quantises_each_channel() {
    assert_eq!(flatten_color(&[77, 255, 3], 6), Color { r: 76, g: 255, b: 4 });
    assert_eq!(flatten_color(&[201, 100, 255], 8), Color { r: 201, g: 100, b: 255 });
}

#[test]
fn index_to_position_is_row_major() {
    assert_eq!(index_to_position(0, 4), (0, 0));
    assert_eq!(index_to_position(3, 4), (3, 0));
    assert_eq!(index_to_position(4, 4), (0, 1));
    assert_eq!(index_to_position(11, 4), (3, 2));
}

#[test]
fn to_pixel_update_places_color() {
    let c = Color { r: 1, g: 2, b: 3 };
    let u = c.to_pixel_update(7, 3);
    assert_eq!(u, PixelUpdate { position: (1, 2), color: c });
}

#[test]
fn pixel_update_equality_compares_all_fields() {
    let c = Color { r: 1, g: 2, b: 3 };
    let a = PixelUpdate { position: (1, 2), color: c };
    assert!(a == PixelUpdate { position: (1, 2), color: c });
    assert!(a != PixelUpdate { position: (2, 1), color: c });
    assert!(a != PixelUpdate { position: (1, 2), color: Color { r: 1, g: 2, b: 4 } });
}

#[test]
fn flatten_int_moves_at_most_half_a_step() {
    for bits in 0..=8u8 {
        let step = 1i32 << (8 - bits);
        for n in 0..=255u8 {
            let r = flatten_int(n, bits);
            assert!((r as i32 - n as i32).abs() <= step / 2);
            assert!(r == 255 || (r as i32) % step == 0);
        }
    }
}

#[test]
fn flatten_color_is_flatten_int_per_channel() {
    for bits in 0..=8u8 {
        for n in (0..=255u8).step_by(7) {
            let c = flatten_color(&[n, 255 - n, n / 2], bits);
            assert_eq!(c, Color { r: flatten_int(n, bits), g: flatten_int(255 - n, bits), b: flatten_int(n / 2, bits) });
        }
    }
}
