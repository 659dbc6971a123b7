use flinderax::color::{pack, unpack};

#[test]
fn pack_puts_red_high_and_blue_low() {
    assert_eq!(pack((1, 2, 3)), 0x010203);
    assert_eq!(pack((0, 0, 0)), 0);
    assert_eq!(pack((255, 255, 255)), 0x00FF_FFFF);
    assert_eq!(pack((255, 0, 0)), 0x00FF_0000);
    assert_eq!(pack((0, 255, 0)), 0x0000_FF00);
    assert_eq!(pack((0, 0, 255)), 0x0000_00FF);
}

#[test]
fn unpack_reads_the_three_channels() {
    assert_eq!(unpack(0x010203), (1, 2, 3));
    assert_eq!(unpack(0), (0, 0, 0));
    assert_eq!(unpack(0x00FF_FFFF), (255, 255, 255));
    assert_eq!(unpack(66051), (1, 2, 3));
}

#[test]
fn unpack_ignores_the_bits_above_the_channels() {
    assert_eq!(unpack(0x7F01_0203), (1, 2, 3));
    assert_eq!(unpack(-1), (255, 255, 255));
    assert_eq!(unpack(i32::MIN), (0, 0, 0));
    assert_eq!(unpack(-256), (255, 255, 0));
}

#[test]
fn unpack_inverts_pack() {
    let samples: [(u8, u8, u8); 6] =
        [(0, 0, 0), (1, 2, 3), (255, 254, 253), (16, 32, 64), (128, 0, 128), (9, 99, 199)];
    for color in samples {
        assert_eq!(unpack(pack(color)), color);
    }
}

#[test]
fn pack_inverts_unpack_on_the_low_bits() {
    let samples: [i32; 5] = [0, 1, 0x00AB_CDEF, 0x12AB_CDEF, -2];
    for color in samples {
        assert_eq!(pack(unpack(color)), color & 0x00FF_FFFF);
    }
}
