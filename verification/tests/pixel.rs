use raytracer::pixel::{channels, from_u8_rgb};

#[test]
fn packs_red_green_blue_into_one_word() {
    assert_eq!(from_u8_rgb(0x12, 0x34, 0x56), 0x0012_3456);
    assert_eq!(from_u8_rgb(0, 0, 0), 0);
    assert_eq!(from_u8_rgb(255, 255, 255), 0x00ff_ffff);
    assert_eq!(from_u8_rgb(255, 0, 0), 0x00ff_0000);
    assert_eq!(from_u8_rgb(0, 255, 0), 0x0000_ff00);
    assert_eq!(from_u8_rgb(0, 0, 255), 0x0000_00ff);
}

#[test]
fn channels_undo_the_packing() {
    for r in [0u8, 1, 127, 128, 255] {
        for g in [0u8, 2, 200, 255] {
            for b in [0u8, 3, 99, 255] {
                assert_eq!(channels(from_u8_rgb(r, g, b)), (r, g, b));
            }
        }
    }
}

#[test]
fn channels_ignore_the_top_byte() {
    assert_eq!(channels(0xff12_3456), (0x12, 0x34, 0x56));
}
