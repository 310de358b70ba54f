use pealayer::app::add_recent_media;
use pealayer::paths::{is_same_path, sidecar_paths, with_extension};
use std::path::Path;

const SAMPLES: [&str; 24] = [
    "", "/", "//", ".", "./", "..", "a", "a/", "a//", "a/.", "./a", "a/./b", "a/b", "a//b/", "/a/b", "/a/b/",
    "/a/./b/.", "/./a", "../a", "a/../b", "a/b/..", ".hidden", "dir/.hidden.mp4", "movie.mp4",
];

#[test]
fn same_path_agrees_with_path_equality() {
    for a in SAMPLES {
        for b in SAMPLES {
            assert_eq!(is_same_path(a, b), Path::new(a) == Path::new(b), "{:?} vs {:?}", a, b);
        }
    }
}

#[test]
fn with_extension_agrees_with_std() {
    let extra = ["movie.4d.json", "/videos/clip.final.mkv", "/videos/clip.mkv/", "/videos/clip.mkv/.", "ab.", "...", ".a.b"];
    for p in SAMPLES.iter().chain(extra.iter()) {
        for ext in ["4d.json", "json", ""] {
            let expected = Path::new(p).with_extension(ext);
            assert_eq!(with_extension(p, ext), expected.to_str().unwrap(), "{:?} with {:?}", p, ext);
        }
    }
}

#[test]
fn sidecar_pairs_movie_with_4d_json() {
    let (first, second) = sidecar_paths("/home/user/movie.mp4");
    assert_eq!(first, "/home/user/movie.4d.json");
    // The fallback names the same file again.
    assert_eq!(second, "/home/user/movie.4d.json");
    assert_eq!(sidecar_paths("show").0, "show.4d.json");
    assert_eq!(sidecar_paths("/").0, "/");
}

#[test]
fn recent_media_treats_equal_paths_as_one() {
    let mut recent = vec!["/a/b".to_string(), "/c".to_string()];
    add_recent_media(&mut recent, "/a/b/".to_string());
    assert_eq!(recent, vec!["/a/b/".to_string(), "/c".to_string()]);
    add_recent_media(&mut recent, "/a/./b".to_string());
    assert_eq!(recent, vec!["/a/./b".to_string(), "/c".to_string()]);
    add_recent_media(&mut recent, "/a/b/c".to_string());
    assert_eq!(recent.len(), 3);
}
