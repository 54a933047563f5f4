use nbody::color::{
    blue, dim, green, pack_rgb, red, BACKGROUND, CENTRAL_COLOR, CHANNEL_MAX, COLD_COLOR, HOT_COLOR,
};

/// Channel levels of a body of the given mass, by the linear mapping from
/// the lightest mass (cold) to the heaviest (hot).
fn levels_for_mass(mass: f32) -> (u32, u32, u32) {
    let t = (mass - 1.0) / (80.0 - 1.0);
    ((t * 255.0) as u32, ((1.0 - t * t) * 200.0) as u32, ((1.0 - t) * 255.0) as u32)
}

#[test]
fn lightest_body_is_cold() {
    let (r, g, b) = levels_for_mass(1.0);
    assert_eq!((r, g, b), (0, 200, 255));
    assert_eq!(pack_rgb(r, g, b), COLD_COLOR);
    assert_eq!(pack_rgb(r, g, b), 0x00C8FF);
}

#[test]
fn heaviest_body_is_hot() {
    let (r, g, b) = levels_for_mass(80.0);
    assert_eq!((r, g, b), (255, 0, 0));
    assert_eq!(pack_rgb(r, g, b), HOT_COLOR);
    assert_eq!(pack_rgb(r, g, b), 0xFF0000);
}

#[test]
fn pack_places_channels() {
    assert_eq!(pack_rgb(0x12, 0x34, 0x56), 0x123456);
    assert_eq!(pack_rgb(0, 0, 0), 0);
    assert_eq!(pack_rgb(255, 255, 255), 0xFFFFFF);
    assert_eq!(pack_rgb(1, 0, 0), 0x010000);
    assert_eq!(pack_rgb(0, 1, 0), 0x000100);
    assert_eq!(pack_rgb(0, 0, 1), 0x000001);
}

#[test]
fn pack_lets_large_levels_spill() {
    // A level above 255 runs into the bits to its left.
    assert_eq!(pack_rgb(6455, 0, 0), 0x1937_0000);
    assert_eq!(pack_rgb(0, 256, 0), 0x0001_0000);
    assert_eq!(pack_rgb(0, 0x1FF, 0x1FF), 0x0001_FFFF);
    // What is shifted past bit 31 is lost.
    assert_eq!(pack_rgb(0x1_0000, 0, 0), 0);
}

#[test]
fn channels_read_back() {
    assert_eq!(red(0x123456), 0x12);
    assert_eq!(green(0x123456), 0x34);
    assert_eq!(blue(0x123456), 0x56);
    assert_eq!(red(CENTRAL_COLOR), 0xFF);
    assert_eq!(green(CENTRAL_COLOR), 0xAA);
    assert_eq!(blue(CENTRAL_COLOR), 0x33);
    assert_eq!(blue(BACKGROUND), 8);
    // Bits above the three channels belong to none of them.
    assert_eq!(red(0xAB12_3456), 0x12);
}

#[test]
fn pack_and_read_round_trip() {
    for r in [0u32, 1, 17, 128, 254, 255] {
        for g in [0u32, 3, 99, 200, 255] {
            for b in [0u32, 8, 51, 170, 255] {
                let c = pack_rgb(r, g, b);
                assert_eq!((red(c), green(c), blue(c)), (r, g, b));
                assert_eq!(c, r * 0x10000 + g * 0x100 + b);
                assert!(red(c) <= CHANNEL_MAX && green(c) <= CHANNEL_MAX && blue(c) <= CHANNEL_MAX);
            }
        }
    }
}

#[test]
fn dim_scales_each_channel_and_rounds_down() {
    // 255 * 7 / 16 = 111.56, 170 * 7 / 16 = 74.37, 51 * 7 / 16 = 22.31
    assert_eq!(dim(0xFFAA33, 7, 16), 0x6F4A16);
    // one half
    assert_eq!(dim(0xFFAA33, 8, 16), 0x7F5519);
    // 255 * 5 / 9 = 141.67
    assert_eq!(dim(0xFF0000, 5, 9), 0x8D0000);
    // 3 * 6 / 9 is exactly 2
    assert_eq!(dim(0x000003, 6, 9), 0x000002);
}

#[test]
fn dim_by_zero_is_black() {
    assert_eq!(dim(0xFFAA33, 0, 16), 0);
    assert_eq!(dim(0xFFFFFF, 0, 1), 0);
}

#[test]
fn dim_by_one_keeps_the_channels() {
    assert_eq!(dim(0xFFAA33, 16, 16), 0xFFAA33);
    assert_eq!(dim(0x123456, u64::MAX, u64::MAX), 0x123456);
    // Bits above the channels are dropped.
    assert_eq!(dim(0xAB12_3456, 1, 1), 0x123456);
}

#[test]
fn dim_never_brightens() {
    let color = 0xC86432;
    let den = 25u64;
    let mut last = color;
    for num in (0..=den).rev() {
        let c = dim(color, num, den);
        assert!(red(c) <= red(last) && green(c) <= green(last) && blue(c) <= blue(last));
        if num < den {
            assert!(red(c) < red(color) && green(c) < green(color) && blue(c) < blue(color));
        }
        last = c;
    }
    assert_eq!(last, 0);
}

#[test]
fn dim_takes_large_fractions() {
    // glow radius 2 * i32::MAX squared
    let den: u64 = 4_294_967_294 * 4_294_967_294;
    assert_eq!(dim(0xFFFFFF, den - 1, den), 0xFEFEFE);
    assert_eq!(dim(0xFFFFFF, den / 2, den), 0x7F7F7F);
    assert_eq!(dim(0xFFFFFF, 1, den), 0);
}
