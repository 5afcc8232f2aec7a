use std::hash::{Hash, Hasher};

use sleeve::cover_cache::{cover_details, cover_hash, format_byte_size, BlurredCoverCache, BLURRED_COVER_CACHE_CAPACITY};
use sleeve::cover_image::{blur_pixels, blurred_background, cover_rgba, is_image};
use sleeve::i18n::Localization;
use sleeve::models::tag_draft::CoverDraft;

fn png(width: u32, height: u32) -> Vec<u8> {
    let image = image::RgbImage::from_fn(width, height, |x, y| image::Rgb([(x * 40) as u8, (y * 40) as u8, 128]));
    let mut bytes = std::io::Cursor::new(Vec::new());
    image.write_to(&mut bytes, image::ImageFormat::Png).expect("encode png");
    bytes.into_inner()
}

#[test]
fn the_cache_keeps_the_most_recently_used_covers() {
    let mut cache: BlurredCoverCache<String> = BlurredCoverCache::new();
    for key in 0..BLURRED_COVER_CACHE_CAPACITY as u64 {
        cache.insert(key, format!("cover {key}"));
    }
    assert_eq!(cache.get(0), Some("cover 0".to_string()));
    cache.insert(100, "newest".to_string());
    assert_eq!(cache.get(1), None);
    assert_eq!(cache.get(0), Some("cover 0".to_string()));
    assert_eq!(cache.get(100), Some("newest".to_string()));
    cache.insert(100, "replaced".to_string());
    assert_eq!(cache.get(100), Some("replaced".to_string()));
    assert_eq!(cache.get(2), Some("cover 2".to_string()));
}

#[test]
fn byte_sizes_are_shown_in_the_largest_fitting_unit() {
    assert_eq!(format_byte_size(0), "0 B");
    assert_eq!(format_byte_size(1023), "1023 B");
    assert_eq!(format_byte_size(1024), "1.0 KB");
    assert_eq!(format_byte_size(1280), "1.2 KB");
    assert_eq!(format_byte_size(2 * 1024 * 1024), "2.0 MB");
    for bytes in [1075u64, 1126, 1331, 1_500_000, 3_145_728, 10_000_000_000] {
        let expected = if bytes >= 1024 * 1024 {
            format!("{:.1} MB", bytes as f64 / (1024.0 * 1024.0))
        } else {
            format!("{:.1} KB", bytes as f64 / 1024.0)
        };
        assert_eq!(format_byte_size(bytes), expected);
    }
}

#[test]
fn the_details_line_gives_pixels_and_bytes() {
    let localization = Localization::default();
    assert_eq!(cover_details(&localization, Some((600, 400)), Some(2048)), "600 × 400 px · 2.0 KB");
    assert_eq!(cover_details(&localization, Some((1, 1)), None), "1 × 1 px · cover.unknown_size");
    assert_eq!(cover_details(&localization, None, Some(5)), "cover.no_image");
}

#[test]
fn only_covers_with_bytes_have_a_hash() {
    let embedded = CoverDraft::Embedded(vec![1, 2, 3]);
    let same = CoverDraft::Embedded(vec![1, 2, 3]);
    assert_eq!(cover_hash(&embedded, None), cover_hash(&same, None));
    assert_ne!(cover_hash(&embedded, None), cover_hash(&CoverDraft::Embedded(vec![3, 2, 1]), None));
    assert!(cover_hash(&CoverDraft::External("x.png".into()), None).is_none());
    assert_eq!(cover_hash(&CoverDraft::External("x.png".into()), Some(&[1, 2, 3])), cover_hash(&embedded, None));
    assert!(cover_hash(&CoverDraft::Removed, Some(&[1])).is_none());
    assert!(cover_hash(&CoverDraft::Unavailable, None).is_none());
}

#[test]
fn the_background_is_a_blurred_square() {
    let (pixels, width, height) = blurred_background(&png(4, 2)).expect("background");
    assert_eq!((width, height), (500, 500));
    assert_eq!(pixels.len(), 500 * 500 * 3);
    assert!(blurred_background(b"not an image").is_none());
}

#[test]
fn decodable_covers_give_their_pixels() {
    let bytes = png(3, 2);
    assert!(is_image(&bytes));
    assert!(!is_image(b"plain text"));
    let (pixels, width, height) = cover_rgba(&bytes).expect("pixels");
    assert_eq!((width, height), (3, 2));
    assert_eq!(pixels.len(), 3 * 2 * 4);
    assert_eq!(&pixels[0..4], &[0, 0, 128, 255]);
    assert!(cover_rgba(&[1, 2, 3]).is_none());
}

#[test]
fn blurring_takes_the_pixels_of_the_given_size() {
    let flat = vec![90u8; 4 * 3 * 3 + 5];
    let (pixels, width, height) = blur_pixels(flat, 4, 3).expect("blurred");
    assert_eq!((width, height), (4, 3));
    assert_eq!(pixels.len(), 4 * 3 * 3);
    assert!(pixels.iter().all(|&value| value == 90));
    assert!(blur_pixels(vec![1, 2, 3], 0, 1).is_none());
    assert!(blur_pixels(Vec::new(), 5, 0).is_none());
}

#[test]
fn cover_pixels_follow_the_image_row_by_row() {
    let (pixels, width, height) = cover_rgba(&png(3, 2)).expect("pixels");
    assert_eq!((width, height), (3, 2));
    assert_eq!(&pixels[4..8], &[40, 0, 128, 255]);
    assert_eq!(&pixels[20..24], &[80, 40, 128, 255]);
    let (_, wide_width, wide_height) = blurred_background(&png(9, 1)).expect("background");
    assert_eq!((wide_width, wide_height), (500, 500));
}

#[test]
fn the_cover_key_is_the_default_hash_of_its_bytes() {
    let bytes = vec![9u8, 8, 7, 6];
    let mut hasher = std::collections::hash_map::DefaultHasher::new();
    bytes.hash(&mut hasher);
    let expected = hasher.finish();
    assert_eq!(cover_hash(&CoverDraft::Embedded(bytes.clone()), None), Some(expected));
    assert_eq!(cover_hash(&CoverDraft::External("cover.jpg".into()), Some(&bytes)), Some(expected));
}
