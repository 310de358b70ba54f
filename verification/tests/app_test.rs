use pealayer::app::add_recent_media;

#[test]
fn test_recent_media_deduplication_and_cap() {
    let mut list: Vec<String> = Vec::new();

    for i in 0..15 {
        add_recent_media(&mut list, format!("/video{}.mp4", i));
    }

    assert_eq!(list.len(), 10);
    assert_eq!(list[0], "/video14.mp4");

    // Re-adding /video5.mp4 moves it to front
    add_recent_media(&mut list, "/video5.mp4".to_string());
    assert_eq!(list.len(), 10);
    assert_eq!(list[0], "/video5.mp4");
}

#[test]
fn test_url_formatting_and_trim() {
    let raw_url = "   https://example.com/stream.m3u8   ";
    let trimmed = raw_url.trim();
    assert_eq!(trimmed, "https://example.com/stream.m3u8");
    let path = std::path::PathBuf::from(trimmed);
    assert_eq!(path.to_str().unwrap(), "https://example.com/stream.m3u8");
}

#[test]
fn test_window_operating_flag_state() {
    let pointer_down = true;
    let active_drag = true;
    let is_operating = pointer_down && active_drag;
    assert!(is_operating);
}
