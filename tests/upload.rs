use orlhf::upload::{
    fresh_record, hash_file, hash_message, sanitize_filename, screen_upload, thumbnail_size, AllowedFormat,
    ProcessedImage, UploadConfig, UploadError,
};

#[test]
fn test_magic_bytes_jpeg() {
    let jpeg_magic = [0xFF, 0xD8, 0xFF, 0xE0, 0x00, 0x10, 0x4A, 0x46, 0x49, 0x46, 0x00, 0x01];
    assert_eq!(AllowedFormat::from_magic_bytes(&jpeg_magic), Some(AllowedFormat::Jpeg));
}

#[test]
fn test_magic_bytes_png() {
    let png_magic = [0x89, 0x50, 0x4E, 0x47, 0x0D, 0x0A, 0x1A, 0x0A, 0x00, 0x00, 0x00, 0x0D];
    assert_eq!(AllowedFormat::from_magic_bytes(&png_magic), Some(AllowedFormat::Png));
}

#[test]
fn test_magic_bytes_invalid() {
    let invalid = [0x00, 0x01, 0x02, 0x03, 0x04, 0x05, 0x06, 0x07, 0x08, 0x09, 0x0A, 0x0B];
    assert_eq!(AllowedFormat::from_magic_bytes(&invalid), None);
}

#[test]
fn test_sanitize_filename() {
    assert_eq!(sanitize_filename("../../etc/passwd"), "passwd");
    assert_eq!(sanitize_filename("normal_file.jpg"), "normal_file.jpg");
    assert_eq!(sanitize_filename("file with spaces.png"), "filewithspaces.png");
}

#[test]
fn magic_bytes_gif_and_webp() {
    let gif = *b"GIF89a\x01\x00\x01\x00\x00\x00";
    assert_eq!(AllowedFormat::from_magic_bytes(&gif), Some(AllowedFormat::Gif));
    let webp = *b"RIFF\x10\x00\x00\x00WEBP";
    assert_eq!(AllowedFormat::from_magic_bytes(&webp), Some(AllowedFormat::WebP));
    let short = [0xFF, 0xD8, 0xFF];
    assert_eq!(AllowedFormat::from_magic_bytes(&short), None);
}

#[test]
fn format_names() {
    assert_eq!(AllowedFormat::Jpeg.extension(), "jpg");
    assert_eq!(AllowedFormat::WebP.extension(), "webp");
    assert_eq!(AllowedFormat::Png.mime_type(), "image/png");
    assert_eq!(AllowedFormat::Gif.mime_type(), "image/gif");
}

#[test]
fn sanitize_edge_cases() {
    assert_eq!(sanitize_filename(""), "unnamed");
    assert_eq!(sanitize_filename(".."), "unnamed");
    assert_eq!(sanitize_filename("a/.."), "unnamed");
    assert_eq!(sanitize_filename("dir/name.png/"), "name.png");
    assert_eq!(sanitize_filename("dir/name.png/."), "name.png");
    assert_eq!(sanitize_filename("héllo<script>.gif"), "hélloscript.gif");
    let long = "a".repeat(150);
    assert_eq!(sanitize_filename(&long).len(), 100);
}

#[test]
fn thumbnail_geometry() {
    assert_eq!(thumbnail_size(1000, 500, 250), (250, 125));
    assert_eq!(thumbnail_size(500, 1000, 250), (125, 250));
    assert_eq!(thumbnail_size(200, 100, 250), (200, 100));
    assert_eq!(thumbnail_size(10000, 1, 250), (250, 1));
    assert_eq!(thumbnail_size(300, 300, 250), (250, 250));
}

#[test]
fn fingerprints_are_sha256_hex() {
    assert_eq!(
        hash_message("abc"),
        "ba7816bf8f01cfea414140de5dae2223b00361a396177a9cb410ff61f20015ad"
    );
    assert_eq!(
        hash_file(b""),
        "e3b0c44298fc1c149afbf4c8996fb92427ae41e4649b934ca495991b7852b855"
    );
}

#[test]
fn upload_config_defaults() {
    let c = UploadConfig::default();
    assert_eq!(c.upload_dir, "uploads");
    assert_eq!(c.max_file_size, 4 * 1024 * 1024);
    assert_eq!(c.max_dimension, 4096);
    assert_eq!(c.thumb_size, 250);
}

fn encoded(width: u32, height: u32, format: image::ImageFormat) -> Vec<u8> {
    let img = image::DynamicImage::ImageRgb8(image::RgbImage::from_fn(width, height, |x, y| {
        image::Rgb([(x % 256) as u8, (y % 256) as u8, 128])
    }));
    let mut out = std::io::Cursor::new(Vec::new());
    img.write_to(&mut out, format).unwrap();
    out.into_inner()
}

fn with_exif(jpeg: &[u8]) -> Vec<u8> {
    let mut payload = b"Exif\0\0GPS-SECRET-LOCATION".to_vec();
    payload.resize(40, 0);
    let len = (payload.len() + 2) as u16;
    let mut out = vec![0xFF, 0xD8, 0xFF, 0xE1, (len >> 8) as u8, (len & 0xFF) as u8];
    out.extend_from_slice(&payload);
    out.extend_from_slice(&jpeg[2..]);
    out
}

fn contains(haystack: &[u8], needle: &[u8]) -> bool {
    haystack.windows(needle.len()).any(|w| w == needle)
}

#[test]
fn jpeg_round_trip_strips_metadata() {
    let original = with_exif(&encoded(600, 300, image::ImageFormat::Jpeg));
    assert!(contains(&original, b"GPS-SECRET-LOCATION"));
    let config = UploadConfig::default();
    let screened = screen_upload(&original, &config).unwrap();
    assert_eq!(screened.format, AllowedFormat::Jpeg);
    assert_eq!((screened.width, screened.height), (600, 300));
    assert_eq!((screened.thumb_width, screened.thumb_height), (250, 125));
    assert_eq!(screened.file_hash, hash_file(&original));
    assert!(!contains(&screened.data, b"GPS-SECRET-LOCATION"));
    assert!(!contains(&screened.data, b"Exif"));
    let decoded = image::load_from_memory(&screened.data).unwrap();
    assert_eq!((decoded.width(), decoded.height()), (600, 300));
    let thumb = image::load_from_memory(&screened.thumb_data).unwrap();
    assert_eq!((thumb.width(), thumb.height()), (250, 125));
}

#[test]
fn small_image_keeps_its_size_as_thumbnail() {
    let png = encoded(100, 40, image::ImageFormat::Png);
    let screened = screen_upload(&png, &UploadConfig::default()).unwrap();
    assert_eq!((screened.thumb_width, screened.thumb_height), (100, 40));
    let thumb = image::load_from_memory(&screened.thumb_data).unwrap();
    assert_eq!((thumb.width(), thumb.height()), (100, 40));
}

#[test]
fn upload_rejections() {
    let mut config = UploadConfig::default();
    config.max_file_size = 10;
    assert_eq!(
        screen_upload(&[0u8; 11], &config).unwrap_err(),
        UploadError::TooLarge { size: 11, max: 10 }
    );
    let config = UploadConfig::default();
    assert_eq!(screen_upload(&[0u8; 64], &config).unwrap_err(), UploadError::UnsupportedFormat);
    let mut broken = vec![0xFF, 0xD8, 0xFF, 0xE0];
    broken.extend_from_slice(&[0u8; 40]);
    assert_eq!(screen_upload(&broken, &config).unwrap_err(), UploadError::Undecodable);
    let mut small = UploadConfig::default();
    small.max_dimension = 50;
    let png = encoded(60, 20, image::ImageFormat::Png);
    assert_eq!(
        screen_upload(&png, &small).unwrap_err(),
        UploadError::TooManyPixels { width: 60, height: 20, max: 50 }
    );
}

#[test]
fn stored_record_uses_fresh_id() {
    let png = encoded(20, 10, image::ImageFormat::Png);
    let screened = screen_upload(&png, &UploadConfig::default()).unwrap();
    let record = ProcessedImage::stored(&screened, "abc-123", "../evil/../../cat pic.png");
    assert_eq!(record.file_path, "src/abc-123.png");
    assert_eq!(record.thumb_path, "thumb/abc-123_thumb.png");
    assert_eq!(record.original_name, "catpic.png");
    assert_eq!(record.mime_type, "image/png");
    assert_eq!(record.file_size, screened.data.len() as i64);
    assert_eq!((record.width, record.height), (20, 10));
    assert_eq!(record.file_hash, hash_file(&png));
}

#[test]
fn fresh_records_get_distinct_ids() {
    let png = encoded(8, 8, image::ImageFormat::Png);
    let screened = screen_upload(&png, &UploadConfig::default()).unwrap();
    let a = fresh_record(&screened, "x.png");
    let b = fresh_record(&screened, "x.png");
    assert_ne!(a.file_path, b.file_path);
    assert!(a.file_path.starts_with("src/") && a.file_path.ends_with(".png"));
    assert_eq!(a.file_path.len(), "src/".len() + 36 + ".png".len());
    assert!(a.thumb_path.ends_with("_thumb.png"));
}

#[test]
fn size_ceiling_is_inclusive() {
    let mut config = UploadConfig::default();
    config.max_file_size = 64;
    assert_eq!(screen_upload(&[0u8; 64], &config).unwrap_err(), UploadError::UnsupportedFormat);
    assert_eq!(
        screen_upload(&[0u8; 65], &config).unwrap_err(),
        UploadError::TooLarge { size: 65, max: 64 }
    );
}
