use gamesync::covers::{check_pixels, validate_cover, CoverError};
use gamesync::steam::cover_candidates;

fn jpeg(image: &image::RgbImage) -> Vec<u8> {
    let mut bytes = Vec::new();
    image::codecs::jpeg::JpegEncoder::new(&mut bytes).encode_image(image).unwrap();
    bytes
}

#[test]
fn gray_placeholder_is_rejected_but_artwork_is_accepted() {
    let gray = image::RgbImage::from_pixel(300, 450, image::Rgb([75, 75, 75]));
    let err = validate_cover(&jpeg(&gray)).unwrap_err();
    assert_eq!(err, CoverError::Placeholder);
    assert!(err.message().contains("placeholder"));
    let artwork = image::RgbImage::from_fn(300, 450, |x, y| image::Rgb([(x % 256) as u8, (y % 256) as u8, ((x + y) % 256) as u8]));
    validate_cover(&jpeg(&artwork)).unwrap();
}

#[test]
fn invalid_cover_does_not_count_as_a_completed_download() {
    assert_eq!(validate_cover(&[0xff, 0xd8, 0xff]).unwrap_err(), CoverError::Invalid);
    assert_eq!(validate_cover(b"broken").unwrap_err(), CoverError::Invalid);
    let tiny = image::RgbImage::from_fn(16, 16, |x, _| image::Rgb([(x * 16) as u8, 0, 0]));
    assert_eq!(validate_cover(&jpeg(&tiny)).unwrap_err(), CoverError::TooSmall);
}

#[test]
fn a_border_alone_does_not_make_artwork() {
    // A flat interior inside a contrasting one-pixel border is still a placeholder.
    let (w, h) = (40u32, 40u32);
    let mut p = vec![75u8; (3 * w * h) as usize];
    for x in 0..w {
        for c in 0..3 {
            p[(3 * x + c) as usize] = 255;
        }
    }
    assert_eq!(check_pixels(w, h, &p), Err(CoverError::Placeholder));
    p[(3 * (20 * w + 20)) as usize] = 200;
    assert_eq!(check_pixels(w, h, &p), Ok(()));
    p[(3 * (20 * w + 20)) as usize] = 79;
    assert_eq!(check_pixels(w, h, &p), Err(CoverError::Placeholder));
    assert_eq!(check_pixels(31, 40, &vec![0u8; 3 * 31 * 40]), Err(CoverError::TooSmall));
}

#[test]
fn cover_downloads_try_store_assets_then_the_portrait() {
    let urls = cover_candidates(42, Some("abc/library_capsule.jpg"), Some("../x.jpg"), Some("abc/header.jpg"));
    assert_eq!(
        urls,
        vec![
            "https://shared.akamai.steamstatic.com/store_item_assets/steam/apps/42/abc/library_capsule.jpg".to_string(),
            "https://cdn.akamai.steamstatic.com/steam/apps/42/library_600x900.jpg".to_string(),
            "https://shared.akamai.steamstatic.com/store_item_assets/steam/apps/42/abc/header.jpg".to_string(),
        ]
    );
    assert_eq!(cover_candidates(7, None, None, None), vec!["https://cdn.akamai.steamstatic.com/steam/apps/7/library_600x900.jpg".to_string()]);
}

#[test]
fn each_cover_download_gets_a_new_media_path() {
    let a = gamesync::covers::new_cover_path(42);
    let b = gamesync::covers::new_cover_path(42);
    assert_ne!(a, b);
    assert!(a.starts_with("media/steam-42-"));
    assert!(a.ends_with(".jpg"));
    let id = &a["media/steam-42-".len()..a.len() - ".jpg".len()];
    let parsed = uuid::Uuid::parse_str(id).unwrap();
    assert_eq!(parsed.get_version_num(), 4);
    assert_eq!(parsed.to_string(), id);
}
