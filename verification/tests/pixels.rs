use quickshot::pixels::{block_grid, pixelate, to_image, to_surface};

#[test]
fn premultiplies_into_bgra_rows() {
    // 2x1 image: opaque red, half-transparent white
    let rgba = vec![255, 0, 0, 255, 255, 255, 255, 128];
    let out = to_surface(&rgba, 2, 1, 12);
    assert_eq!(out, vec![0, 0, 255, 255, 128, 128, 128, 128, 0, 0, 0, 0]);
}

#[test]
fn unpremultiplies_back() {
    let data = vec![0, 0, 255, 255, 128, 128, 128, 128, 9, 9, 9, 9, 10, 20, 30, 0, 1, 2, 3, 255, 7, 7, 7, 7];
    let out = to_image(&data, 2, 2, 12);
    // (128*255 + 64) / 128 = 255; alpha 0 and 255 keep the raw channels
    assert_eq!(out, vec![255, 0, 0, 255, 255, 255, 255, 128, 30, 20, 10, 0, 3, 2, 1, 255]);
}

#[test]
fn opaque_image_survives_the_round_trip() {
    let rgba: Vec<u8> = (0..3 * 2).flat_map(|i| [i as u8 * 40, 200 - i as u8, 7, 255]).collect();
    let surf = to_surface(&rgba, 3, 2, 16);
    assert_eq!(surf.len(), 32);
    assert_eq!(to_image(&surf, 3, 2, 16), rgba);
}

#[test]
fn block_counts() {
    assert_eq!(block_grid(10, 4, 3), (4, 2));
    assert_eq!(block_grid(6, 6, 6), (1, 1));
}

#[test]
fn pixelates_by_block_means() {
    // 3x2 image, region = whole image, blocks of 2: two blocks across, one down
    let px = |r: u8, g: u8, b: u8| [r, g, b, 255];
    let mut rgba = Vec::new();
    for p in [px(0, 0, 0), px(10, 20, 30), px(100, 0, 0), px(20, 40, 60), px(30, 60, 90), px(50, 0, 0)] {
        rgba.extend_from_slice(&p);
    }
    let out = pixelate(&rgba, 3, 2, 0, 0, 3, 2, 2, 8);
    // block 0: mean of (0,0,0) (10,20,30) (20,40,60) (30,60,90) = (15,30,45) written as B G R A
    // block 1: mean of (100,0,0) (50,0,0) = (75,0,0)
    assert_eq!(out, vec![45, 30, 15, 255, 0, 0, 75, 255]);
}

#[test]
fn pixelates_a_region_with_padding() {
    // 4x1 image, region x0=1, w=3, blocks of 2, stride 12 (two blocks + one empty pixel)
    let rgba = vec![9, 9, 9, 255, 10, 0, 0, 255, 20, 0, 0, 255, 40, 4, 8, 255];
    let out = pixelate(&rgba, 4, 1, 1, 0, 3, 1, 2, 12);
    assert_eq!(out, vec![0, 0, 15, 255, 8, 4, 40, 255, 0, 0, 0, 0]);
}

#[test]
fn transparent_black_survives_the_round_trip() {
    let rgba = vec![0, 0, 0, 0, 10, 20, 30, 255];
    let surf = to_surface(&rgba, 2, 1, 8);
    assert_eq!(to_image(&surf, 2, 1, 8), rgba);
}
