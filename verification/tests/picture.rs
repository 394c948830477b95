use nitrox::picture::{
    centre_rows, encode_png, read_rgb_png, rgb_picture, wallpaper_of, wallpaper_png, wallpaper_rows,
    EncodeError, ReadError, WallpaperError,
};
use nitrox::ppm::{parse_ppm, PpmError};

#[test]
fn an_encoded_picture_reads_back() {
    let rgb: Vec<u8> = (0..3 * 5 * 7).map(|i| (i * 37 % 251) as u8).collect();
    let bytes = encode_png(5, 7, &rgb).unwrap();
    assert_eq!(&bytes[..8], b"\x89PNG\r\n\x1a\n");
    assert_eq!(read_rgb_png(&bytes), Ok((5, 7, rgb)));
}

#[test]
fn a_picture_that_is_none_is_not_encoded() {
    assert_eq!(encode_png(0, 7, &[]), Err(EncodeError::NoWidth));
    assert_eq!(encode_png(5, 0, &[]), Err(EncodeError::NoHeight));
    assert_eq!(encode_png(1, 1, &[1, 2]), Err(EncodeError::WrongLength));
}

#[test]
fn a_picture_that_cannot_be_read_says_why() {
    assert_eq!(read_rgb_png(b"no picture"), Err(ReadError::Unreadable));
    let mut bytes = encode_png(2, 2, &[9; 12]).unwrap();
    bytes.truncate(45);
    assert!(matches!(
        read_rgb_png(&bytes),
        Err(ReadError::Undecodable) | Err(ReadError::Unreadable)
    ));
    assert_eq!(rgb_picture(None, None), Err(ReadError::Unreadable));
    assert_eq!(rgb_picture(Some((1, 1, 6, 8)), None), Err(ReadError::NotRgb(6, 8)));
    assert_eq!(rgb_picture(Some((1, 1, 2, 16)), None), Err(ReadError::NotRgb(2, 16)));
    assert_eq!(rgb_picture(Some((1, 1, 2, 8)), None), Err(ReadError::Undecodable));
    let frame = Some((1, 1, vec![1, 2, 3]));
    assert_eq!(rgb_picture(Some((4, 5, 2, 8)), frame), Ok((4, 5, vec![1, 2, 3])));
}

#[test]
fn a_picture_in_another_colour_type_is_named_as_such() {
    let mut out = Vec::new();
    let mut enc = png::Encoder::new(&mut out, 2, 1);
    enc.set_color(png::ColorType::Grayscale);
    enc.set_depth(png::BitDepth::Eight);
    let mut w = enc.write_header().unwrap();
    w.write_image_data(&[1, 2]).unwrap();
    drop(w);
    assert_eq!(read_rgb_png(&out), Err(ReadError::NotRgb(0, 8)));
    assert_eq!(wallpaper_png(&out), Err(WallpaperError::Read(ReadError::NotRgb(0, 8))));
}

#[test]
fn the_wallpaper_is_cut_out_of_the_middle() {
    let h = 1204usize;
    let mut rgb = vec![0u8; 1920 * h * 3];
    for y in 0..h {
        rgb[y * 5760] = (y % 256) as u8;
    }
    let rows = wallpaper_rows(1920, h as u32, &rgb).unwrap();
    assert_eq!(rows.len(), 1920 * 1200 * 3);
    assert_eq!((rows[0], rows[5760]), (2, 3), "two rows are cut above");
    assert_eq!(wallpaper_rows(1919, 1200, &vec![0; 1919 * 1200 * 3]), None);
    assert_eq!(wallpaper_rows(1920, 1, &vec![0; 5760]), None);
    let png = wallpaper_of(1920, h as u32, &rgb).unwrap();
    assert_eq!(read_rgb_png(&png), Ok((1920, 1200, rows)));
    let whole = encode_png(1920, h as u32, &rgb).unwrap();
    assert_eq!(wallpaper_png(&whole), Ok(png));
}

#[test]
fn a_picture_of_another_size_is_no_wallpaper() {
    let small = encode_png(2, 2, &[7; 12]).unwrap();
    assert_eq!(wallpaper_png(&small), Err(WallpaperError::Size(2, 2)));
    assert_eq!(wallpaper_png(b""), Err(WallpaperError::Read(ReadError::Unreadable)));
    assert_eq!(centre_rows(2, 2, &[7; 12]), (2, vec![7; 12]));
}

#[test]
fn a_pixmap_is_read_and_each_fault_told() {
    assert_eq!(
        parse_ppm(b"P6\n# a comment\n2 1\n255\n\x01\x02\x03\x04\x05\x06rest"),
        Ok((2, 1, vec![1, 2, 3, 4, 5, 6]))
    );
    assert_eq!(parse_ppm(b"P5\n2 1\n255\n"), Err(PpmError::NotPpm));
    assert_eq!(parse_ppm(b"P6 2"), Err(PpmError::NotPpm));
    assert_eq!(parse_ppm(b"P6\nx 1\n255\n"), Err(PpmError::BadWidth));
    assert_eq!(parse_ppm(b"P6\n1 x\n255\n"), Err(PpmError::BadHeight));
    assert_eq!(parse_ppm(b"P6\n1 1\n65535\n"), Err(PpmError::BadMaxval));
    assert_eq!(parse_ppm(b"P6\n1 1\n255\n\x01\x02"), Err(PpmError::Short));
}

#[test]
fn a_dumped_pixmap_reads_back() {
    let rgb: Vec<u8> = (0..3 * 12 * 10).map(|i| (i % 256) as u8).collect();
    let mut bytes = b"P6\n12 10\n255\n".to_vec();
    bytes.extend_from_slice(&rgb);
    assert_eq!(parse_ppm(&bytes), Ok((12, 10, rgb.clone())));
    bytes.extend_from_slice(b"\n# more");
    assert_eq!(parse_ppm(&bytes), Ok((12, 10, rgb)), "what follows is not read");
}
