use station_heatmap::{convert, heat_color, heat_level};

#[test]
fn heat_level_counts_down_from_the_top() {
    assert_eq!(heat_level(0, 1), 65535);
    assert_eq!(heat_level(1, 1), 65534);
    assert_eq!(heat_level(1000, 1), 64535);
    assert_eq!(heat_level(1000, 3), 62535);
    assert_eq!(heat_level(65534, 1), 1);
}

#[test]
fn heat_level_is_cut_off_at_zero() {
    assert_eq!(heat_level(65535, 1), 0);
    assert_eq!(heat_level(65536, 1), 0);
    assert_eq!(heat_level(u64::MAX, 1), 0);
    assert_eq!(heat_level(u64::MAX, u64::MAX), 0);
    assert_eq!(heat_level(21845, 3), 0);
    assert_eq!(heat_level(21844, 3), 3);
}

#[test]
fn a_scale_of_zero_makes_everything_hottest() {
    assert_eq!(heat_level(0, 0), 65535);
    assert_eq!(heat_level(u64::MAX, 0), 65535);
}

#[test]
fn heat_color_is_the_default_ramp() {
    assert_eq!(heat_color(0), Some(0xFF00_0000));
    assert_eq!(heat_color(65535), Some(fast_heatmap::get_color(65535)));
    for level in [1u16, 77, 10_922, 10_923, 21_845, 32_768, 40_000, 43_690, 54_614, 60_000] {
        let pixel = heat_color(level).unwrap();
        assert_eq!(pixel, fast_heatmap::get_color(level));
        assert_eq!(pixel >> 24, 0xFF);
        assert_ne!(pixel, level as u32);
    }
}

#[test]
fn heat_color_known_colors() {
    // black at the bottom, blue and green where a stretch begins
    assert_eq!(heat_color(0), Some(0xFF00_0000));
    assert_eq!(heat_color(10_923), Some(0xFFFF_0000));
    assert_eq!(heat_color(32_768), Some(0xFF00_FF00));
    // almost white at the top
    assert_eq!(heat_color(65_535), Some(0xFFFE_FEFF));
}

#[test]
fn heat_color_leaves_out_the_falling_stretches() {
    assert!(heat_color(21_845).is_some());
    assert_eq!(heat_color(21_846), None);
    assert_eq!(heat_color(30_000), None);
    assert_eq!(heat_color(32_767), None);
    assert!(heat_color(32_768).is_some());
    assert!(heat_color(43_690).is_some());
    assert_eq!(heat_color(43_691), None);
    assert_eq!(heat_color(54_613), None);
    assert!(heat_color(54_614).is_some());
}

#[test]
fn heat_color_is_defined_on_two_thirds_of_the_levels() {
    let mut defined = 0u32;
    for level in 0..=u16::MAX {
        if let Some(pixel) = heat_color(level) {
            assert!(pixel >= 0xFF00_0000);
            defined += 1;
        }
    }
    assert_eq!(defined, 65_536 - (32_767 - 21_846 + 1) - (54_613 - 43_691 + 1));
}

#[test]
fn convert_lays_out_red_green_blue_alpha() {
    assert_eq!(convert(&[]), Vec::<u8>::new());
    assert_eq!(convert(&[0xFF00_0000]), vec![0, 0, 0, 0xFF]);
    assert_eq!(convert(&[0x0403_0201, 0xAABB_CCDD]), vec![1, 2, 3, 4, 0xDD, 0xCC, 0xBB, 0xAA]);
    assert_eq!(convert(&[u32::MAX, 0]), vec![255, 255, 255, 255, 0, 0, 0, 0]);
}

#[test]
fn convert_agrees_with_little_endian_bytes() {
    let pixels: Vec<u32> = (0..1000u32).map(|i| i.wrapping_mul(2_654_435_761)).collect();
    let bytes = convert(&pixels);
    assert_eq!(bytes.len(), 4 * pixels.len());
    for (i, pixel) in pixels.iter().enumerate() {
        assert_eq!(&bytes[4 * i..4 * i + 4], &pixel.to_le_bytes());
    }
}

#[test]
fn convert_of_a_ramp_colour_is_opaque() {
    let bytes = convert(&[heat_color(10_923).unwrap()]);
    assert_eq!(bytes, vec![0, 0, 0xFF, 0xFF]);
}
