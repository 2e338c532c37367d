use nexus_core::asset::{
    cache_file_name, cache_file_stem, extension_from_content_type, extension_from_url, image_size_allowed,
    is_inline_url, media_size_after, resolve_extension, sanitize_extension, status_is_success, AssetKind,
    MAX_IMAGE_BYTES, MAX_MEDIA_BYTES,
};
use sha2::Digest;

#[test]
fn sanitize_accepts_short_alphanumerics() {
    assert_eq!(sanitize_extension(" .PNG "), Some("png".to_string()));
    assert_eq!(sanitize_extension("..Mp4"), Some("mp4".to_string()));
    assert_eq!(sanitize_extension("p"), None);
    assert_eq!(sanitize_extension("abcdefg"), None);
    assert_eq!(sanitize_extension("a-b"), None);
    assert_eq!(sanitize_extension("jpé"), None);
}

#[test]
fn content_type_table() {
    assert_eq!(extension_from_content_type(Some("Image/JPEG; charset=x")), Some("jpg".to_string()));
    assert_eq!(extension_from_content_type(Some("image/jpg")), Some("jpg".to_string()));
    assert_eq!(extension_from_content_type(Some("image/svg+xml")), Some("svg".to_string()));
    assert_eq!(extension_from_content_type(Some("video/quicktime")), Some("mov".to_string()));
    assert_eq!(extension_from_content_type(Some("audio/m4a")), Some("m4a".to_string()));
    assert_eq!(extension_from_content_type(Some("audio/wav")), Some("wav".to_string()));
    assert_eq!(extension_from_content_type(Some("text/html")), None);
    assert_eq!(extension_from_content_type(None), None);
}

#[test]
fn url_extension() {
    assert_eq!(extension_from_url("https://x.com/a/b.JPG?x=1.gif"), Some("jpg".to_string()));
    assert_eq!(extension_from_url("https://x.com/a/b"), None);
    assert_eq!(extension_from_url("https://x.com/a/b.toolongext"), None);
    assert_eq!(extension_from_url("not a url"), None);
}

#[test]
fn extension_fallbacks() {
    assert_eq!(resolve_extension(AssetKind::Media, "https://x/y", None), "bin");
    assert_eq!(resolve_extension(AssetKind::Image, "https://x/y", None), "png");
    assert_eq!(resolve_extension(AssetKind::Image, "https://x/y", Some("image/webp")), "webp");
    assert_eq!(resolve_extension(AssetKind::Image, "https://x/y.gif", Some("image/webp")), "gif");
}

#[test]
fn inline_urls() {
    assert!(is_inline_url("data:image/png;base64,AA"));
    assert!(is_inline_url("blob:https://x/1"));
    assert!(!is_inline_url("https://x/data:"));
}

#[test]
fn stems_hash_url_and_token() {
    let url = "https://x.com/a.png";
    let plain = cache_file_stem(AssetKind::Image, url, None);
    assert_eq!(plain, format!("image-{}", hex::encode(sha2::Sha256::digest(url.as_bytes()))));
    assert_eq!(cache_file_stem(AssetKind::Image, url, Some("")), plain);
    let with_token = cache_file_stem(AssetKind::Media, url, Some("tok"));
    let joined = format!("{}{}", url, "tok");
    assert_eq!(with_token, format!("media-{}", hex::encode(sha2::Sha256::digest(joined.as_bytes()))));
    assert_eq!(cache_file_stem(AssetKind::Media, url, Some("tok")), with_token);
    assert_eq!(plain.len(), 6 + 64);
}

#[test]
fn file_names() {
    assert_eq!(cache_file_name("image-ab", "png"), "image-ab.png");
}

#[test]
fn size_limits() {
    assert!(image_size_allowed(MAX_IMAGE_BYTES));
    assert!(!image_size_allowed(MAX_IMAGE_BYTES + 1));
    assert_eq!(MAX_IMAGE_BYTES, 52_428_800);
    assert_eq!(media_size_after(10, 20), Some(30));
    assert_eq!(media_size_after(MAX_MEDIA_BYTES - 1, 1), Some(MAX_MEDIA_BYTES));
    assert_eq!(media_size_after(MAX_MEDIA_BYTES, 1), None);
    assert_eq!(media_size_after(u64::MAX, u64::MAX), None);
}

#[test]
fn status_classes() {
    assert!(status_is_success(200));
    assert!(status_is_success(299));
    assert!(!status_is_success(304));
    assert!(!status_is_success(404));
}
