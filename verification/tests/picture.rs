use quickshot::picture::{crop, encode_png};

fn picture(width: u32, height: u32) -> Vec<u8> {
    (0..width * height).flat_map(|p| [p as u8, (p * 2) as u8, 7, 255]).collect()
}

#[test]
fn png_has_its_signature() {
    let rgba = picture(3, 2);
    let png = encode_png(&rgba, 3, 2).unwrap();
    assert_eq!(&png[..8], &[0x89, b'P', b'N', b'G', 0x0D, 0x0A, 0x1A, 0x0A]);
    assert_ne!(png, rgba);
}

#[test]
fn png_of_the_same_picture_is_the_same() {
    let rgba = picture(4, 4);
    assert_eq!(encode_png(&rgba, 4, 4), encode_png(&rgba, 4, 4));
}

#[test]
fn crop_copies_the_region() {
    // 4x3 picture, pixel p = y * 4 + x
    let rgba = picture(4, 3);
    let (part, w, h) = crop(&rgba, 4, 3, 1, 1, 2, 2);
    assert_eq!((w, h), (2, 2));
    let firsts: Vec<u8> = part.chunks(4).map(|px| px[0]).collect();
    assert_eq!(firsts, vec![5, 6, 9, 10]);
}

#[test]
fn crop_is_cut_down_to_the_picture() {
    let rgba = picture(4, 3);
    let (part, w, h) = crop(&rgba, 4, 3, 3, 2, 10, 10);
    assert_eq!((w, h), (1, 1));
    assert_eq!(part, vec![11, 22, 7, 255]);
    let (none, w0, h0) = crop(&rgba, 4, 3, 9, 0, 2, 2);
    assert_eq!((w0, h0, none.len()), (0, 2, 0));
}
