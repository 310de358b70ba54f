use pealayer::server::fs_api::MEDIA_EXTENSIONS;
use pealayer::server::urlencoding_decode;

#[test]
fn test_media_extensions_list() {
    assert!(MEDIA_EXTENSIONS.contains(&"mp4"));
    assert!(MEDIA_EXTENSIONS.contains(&"mkv"));
    assert!(MEDIA_EXTENSIONS.contains(&"webm"));
}

#[test]
fn test_url_decoding() {
    let raw = "hello%20world%2Ftest";
    assert_eq!(urlencoding_decode(raw), "hello world/test");
}
