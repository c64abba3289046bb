use adaptivegrain::lut::{
    apply_lut_row, first_slot_out_of_range, max_sample_value, try_apply_lut_row, RowFault, LUT_SIZE,
};
use adaptivegrain::sample::Sample;

fn descending_lut_u8() -> Vec<u8> {
    (0..256u32).map(|i| (255 - i) as u8).collect()
}

fn descending_lut_u16(max: u16) -> Vec<u16> {
    (0..256u32).map(|i| ((255 - i) * max as u32 / 255) as u16).collect()
}

#[test]
fn eight_bit_samples_index_the_table_directly() {
    let lut = descending_lut_u8();
    let src: Vec<u8> = vec![0, 1, 128, 254, 255];
    let mut dst = vec![7u8; 5];
    apply_lut_row(&mut dst, &src, &lut, 8);
    assert_eq!(dst, vec![255, 254, 127, 1, 0]);
}

#[test]
fn ten_bit_samples_use_their_top_eight_bits() {
    let lut: Vec<u16> = (0..256u16).map(|i| i * 3).collect();
    // 1023 >> 2 = 255, 4 >> 2 = 1, 3 >> 2 = 0, 512 >> 2 = 128
    let src: Vec<u16> = vec![1023, 4, 3, 512];
    let mut dst = vec![0u16; 4];
    apply_lut_row(&mut dst, &src, &lut, 10);
    assert_eq!(dst, vec![765, 3, 0, 384]);
}

#[test]
fn twenty_four_bit_samples_shift_by_sixteen() {
    let lut: Vec<u32> = (0..256u32).map(|i| i << 16).collect();
    let src: Vec<u32> = vec![0x00ff_ffff, 0x0012_3456, 0];
    let mut dst = vec![1u32; 3];
    apply_lut_row(&mut dst, &src, &lut, 24);
    assert_eq!(dst, vec![0x00ff_0000, 0x0012_0000, 0]);
}

#[test]
fn longer_destination_keeps_its_tail() {
    let lut = descending_lut_u8();
    let src: Vec<u8> = vec![10, 20];
    let mut dst = vec![9u8; 4];
    apply_lut_row(&mut dst, &src, &lut, 8);
    assert_eq!(dst, vec![245, 235, 9, 9]);
}

#[test]
fn longer_source_is_cut_at_the_destination() {
    let lut = descending_lut_u8();
    let src: Vec<u8> = vec![10, 20, 30, 40];
    let mut dst = vec![9u8; 2];
    apply_lut_row(&mut dst, &src, &lut, 8);
    assert_eq!(dst, vec![245, 235]);
}

#[test]
fn checked_pass_maps_like_the_plain_one() {
    let lut = descending_lut_u16(1023);
    let src: Vec<u16> = vec![0, 1023, 600];
    let mut a = vec![0u16; 3];
    let mut b = vec![0u16; 3];
    apply_lut_row(&mut a, &src, &lut, 10);
    assert_eq!(try_apply_lut_row(&mut b, &src, &lut, 10), Ok(()));
    assert_eq!(a, b);
    assert_eq!(b[0], 1023);
    assert_eq!(b[1], 0);
}

#[test]
fn depth_below_eight_is_a_fault() {
    let lut = descending_lut_u8();
    let src: Vec<u8> = vec![1, 2];
    let mut dst = vec![5u8; 2];
    assert_eq!(try_apply_lut_row(&mut dst, &src, &lut, 7), Err(RowFault::DepthBelowEight));
    assert_eq!(dst, vec![5, 5]);
}

#[test]
fn shift_wider_than_the_sample_is_a_fault() {
    let lut = descending_lut_u8();
    let src: Vec<u8> = vec![1, 2];
    let mut dst = vec![5u8; 2];
    assert_eq!(try_apply_lut_row(&mut dst, &src, &lut, 16), Err(RowFault::ShiftTooWide));
    let src16: Vec<u16> = vec![1];
    let mut dst16 = vec![0u16; 1];
    let lut16 = descending_lut_u16(65535);
    assert_eq!(try_apply_lut_row(&mut dst16, &src16, &lut16, 24), Err(RowFault::ShiftTooWide));
    assert_eq!(try_apply_lut_row(&mut dst16, &src16, &lut16, 23), Ok(()));
}

#[test]
fn sample_past_the_table_is_reported_at_its_position() {
    // A 9-bit clip whose samples exceed the depth: 600 >> 1 = 300.
    let lut = descending_lut_u16(511);
    let src: Vec<u16> = vec![10, 511, 600, 700];
    let mut dst = vec![3u16; 4];
    assert_eq!(try_apply_lut_row(&mut dst, &src, &lut, 9), Err(RowFault::SlotOutOfRange(2)));
    assert_eq!(dst, vec![3, 3, 3, 3]);
    assert_eq!(first_slot_out_of_range(4, &src, lut.len(), 9), Some(2));
    assert_eq!(first_slot_out_of_range(2, &src, lut.len(), 9), None);
}

#[test]
fn empty_span_never_faults() {
    let lut = descending_lut_u8();
    let src: Vec<u8> = vec![];
    let mut dst = vec![4u8; 3];
    assert_eq!(try_apply_lut_row(&mut dst, &src, &lut, 2), Ok(()));
    assert_eq!(dst, vec![4, 4, 4]);
}

#[test]
fn short_table_bounds_the_slots() {
    let lut: Vec<u8> = vec![1, 2, 3];
    let src: Vec<u8> = vec![0, 2, 3];
    assert_eq!(first_slot_out_of_range(3, &src, lut.len(), 8), Some(2));
    let mut dst = vec![0u8; 2];
    assert_eq!(try_apply_lut_row(&mut dst, &src, &lut, 8), Ok(()));
    assert_eq!(dst, vec![1, 3]);
}

#[test]
fn largest_sample_value_per_depth() {
    assert_eq!(max_sample_value(0), Some(0));
    assert_eq!(max_sample_value(8), Some(255));
    assert_eq!(max_sample_value(10), Some(1023));
    assert_eq!(max_sample_value(16), Some(65535));
    assert_eq!(max_sample_value(30), Some((1 << 30) - 1));
    assert_eq!(max_sample_value(31), None);
    assert_eq!(max_sample_value(32), None);
}

#[test]
fn sample_widths_and_shifts() {
    assert_eq!(<u8 as Sample>::bit_width(), 8);
    assert_eq!(<u16 as Sample>::bit_width(), 16);
    assert_eq!(<u32 as Sample>::bit_width(), 32);
    assert_eq!(200u8.shifted_index(3), 25);
    assert_eq!(65535u16.shifted_index(8), 255);
    assert_eq!(0xffff_ffffu32.shifted_index(24), 255);
    assert_eq!(LUT_SIZE, 256);
}

#[test]
fn every_sample_of_the_depth_fits_a_full_table() {
    for depth in [9u8, 12, 16] {
        let max = max_sample_value(depth).unwrap() as u32;
        let src: Vec<u16> = (0..=max).step_by(7).map(|v| v as u16).chain([max as u16]).collect();
        let lut = descending_lut_u16(max as u16);
        assert_eq!(lut.len(), LUT_SIZE);
        assert_eq!(first_slot_out_of_range(src.len(), &src, lut.len(), depth), None);
        // the brightest sample lands in the last slot, black in the first
        assert_eq!((max as u16).shifted_index(depth - 8), LUT_SIZE - 1);
        assert_eq!(0u16.shifted_index(depth - 8), 0);
    }
}

#[test]
fn descending_table_gives_a_descending_row() {
    let lut = descending_lut_u16(1023);
    let src: Vec<u16> = (0..1024u16).step_by(3).collect();
    let mut dst = vec![0u16; src.len()];
    apply_lut_row(&mut dst, &src, &lut, 10);
    for w in dst.windows(2) {
        assert!(w[1] <= w[0]);
    }
    assert!(dst.iter().all(|&v| v <= 1023));
}

#[test]
fn samples_with_equal_top_bits_share_an_output() {
    let lut = descending_lut_u16(4095);
    let src: Vec<u16> = vec![0x0a10, 0x0a1f, 0x0a20];
    let mut dst = vec![0u16; 3];
    apply_lut_row(&mut dst, &src, &lut, 12);
    assert_eq!(dst[0], dst[1]);
    assert_ne!(dst[1], dst[2]);
}
