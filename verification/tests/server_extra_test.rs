use pealayer::server::fs_api::{directory_listing, is_media_extension, RawEntry};
use pealayer::server::thumbnails::{md5_hash, thumbnail_file_name};
use pealayer::server::{path_parameter, route_request, urlencoding_decode, WebRoute};

fn raw(name: &str, ext: &str, is_dir: bool, size: u64) -> RawEntry {
    RawEntry {
        name: name.to_string(),
        path: format!("/media/{}", name),
        extension: ext.to_string(),
        is_dir,
        size_bytes: size,
    }
}

#[test]
fn listing_hides_dotfiles_sorts_dirs_first_and_flags_media() {
    let entries = directory_listing(vec![
        raw("zeta.MKV", "MKV", false, 10),
        raw(".hidden", "", false, 1),
        raw("Beta", "", true, 0),
        raw("alpha.txt", "txt", false, 5),
        raw("alpha", "", true, 0),
        raw("clip.mp4", "mp4", false, 7),
    ]);
    let names: Vec<&str> = entries.iter().map(|e| e.name.as_str()).collect();
    assert_eq!(names, vec!["alpha", "Beta", "alpha.txt", "clip.mp4", "zeta.MKV"]);
    assert!(entries[0].is_dir && !entries[0].is_media);
    assert!(!entries[2].is_media && !entries[2].has_thumbnail);
    assert!(entries[3].is_media && entries[3].has_thumbnail);
    assert!(entries[4].is_media, "extensions are compared in lower case");
    assert_eq!(entries[4].size_bytes, 10);
    assert_eq!(entries[4].path, "/media/zeta.MKV");
}

#[test]
fn listing_keeps_order_of_equal_names() {
    let entries = directory_listing(vec![raw("Same.mp4", "mp4", false, 1), raw("same.mp4", "mp4", false, 2)]);
    assert_eq!(entries[0].size_bytes, 1);
    assert_eq!(entries[1].size_bytes, 2);
}

#[test]
fn media_extension_membership() {
    assert!(is_media_extension("ts"));
    assert!(is_media_extension("m4v"));
    assert!(!is_media_extension("MP4"));
    assert!(!is_media_extension("txt"));
    assert!(!is_media_extension(""));
}

#[test]
fn routes_by_prefix_and_method() {
    assert_eq!(route_request("/api/fs/browse?path=%2Fhome", false), WebRoute::BrowseDirectory);
    assert_eq!(route_request("/api/fs/thumbnail?path=x", false), WebRoute::Thumbnail);
    assert_eq!(route_request("/api/fs/rename", true), WebRoute::Rename);
    assert_eq!(route_request("/api/fs/rename", false), WebRoute::Index);
    assert_eq!(route_request("/api/fs/trash", true), WebRoute::Trash);
    assert_eq!(route_request("/ws/control", false), WebRoute::ControlSocket);
    assert_eq!(route_request("/", false), WebRoute::Index);
    assert_eq!(route_request("/api", false), WebRoute::Index);
}

#[test]
fn path_parameter_is_decoded_and_cut_at_next_occurrence() {
    assert_eq!(path_parameter("/api/fs/browse?path=%2Fhome%2Fme"), Some("/home/me".to_string()));
    assert_eq!(path_parameter("/api/fs/browse"), None);
    assert_eq!(path_parameter("/x?path=a+b&path=c"), Some("a b&".to_string()));
    assert_eq!(path_parameter("/x?path="), Some(String::new()));
}

#[test]
fn url_decoding_edge_cases() {
    assert_eq!(urlencoding_decode("a+b"), "a b");
    assert_eq!(urlencoding_decode("%41%42"), "AB");
    assert_eq!(urlencoding_decode("%zz!"), "!");
    assert_eq!(urlencoding_decode("%4"), "\u{4}");
    assert_eq!(urlencoding_decode("%"), "");
}

#[test]
fn thumbnail_names_follow_path_hash() {
    assert_eq!(md5_hash(b""), 0xcbf29ce484222325);
    assert_eq!(thumbnail_file_name(""), "cbf29ce484222325.jpg");
    assert_eq!(thumbnail_file_name("a"), "cbf29ce5deaf63dc4c8601ec8c.jpg");
    assert_eq!(thumbnail_file_name("/videos/movie.mp4"), "8e996c0ce52b74f6c008c0a817756b0.jpg");
}
