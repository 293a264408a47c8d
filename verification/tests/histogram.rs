use tessera_bridge::histogram::{luma_bin, Histogram};

#[test]
fn luma_uses_rec709_weights_in_fixed_point() {
    assert_eq!(luma_bin(0, 0, 0), 0);
    assert_eq!(luma_bin(255, 255, 255), 255);
    assert_eq!(luma_bin(255, 0, 0), 53);
    assert_eq!(luma_bin(0, 255, 0), 182);
    assert_eq!(luma_bin(0, 0, 255), 18);
    assert_eq!(luma_bin(10, 20, 30), ((54 * 10 + 183 * 20 + 19 * 30) >> 8) as u8);
}

#[test]
fn pixels_land_in_their_bins() {
    let mut h = Histogram::empty(2, 7);
    h.add_pixels(&[0, 255, 255], &[0, 0, 255], &[0, 0, 255]);
    assert_eq!(h.red[0], 1);
    assert_eq!(h.red[255], 2);
    assert_eq!(h.green[0], 2);
    assert_eq!(h.blue[255], 1);
    assert_eq!(h.luminance[0], 1);
    assert_eq!(h.luminance[53], 1);
    assert_eq!(h.luminance[255], 1);
    assert_eq!(h.red.iter().sum::<u32>(), 3);
    assert_eq!(h.luminance.iter().sum::<u32>(), 3);
    assert_eq!((h.level, h.generation), (2, 7));
}

#[test]
fn band_histograms_add_up() {
    let mut a = Histogram::empty(0, 1);
    a.add_pixels(&[1, 2], &[3, 4], &[5, 6]);
    let mut b = Histogram::empty(0, 1);
    b.add_pixels(&[1], &[9], &[9]);
    a.merge(&b);
    assert_eq!(a.red[1], 2);
    assert_eq!(a.red[2], 1);
    assert_eq!(a.green[9], 1);
    assert_eq!(a.red.iter().sum::<u32>(), 3);
}
