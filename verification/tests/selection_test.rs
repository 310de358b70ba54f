#[test]
fn test_keyframe_magnetic_snapping_5px() {
    let zoom = 100.0_f32; // 100px per second = 0.1 px/ms
    let px_per_ms = zoom / 1000.0;
    let rect_min_x = 0.0_f32;

    let playback_time: f64 = 2.0; // 2000ms playhead
    let playhead_ms = (playback_time * 1000.0).round() as u64;

    // Test 1: Drag to 2040ms -> distance = 40ms * 0.1 = 4.0px (within 5px)
    let raw_t1 = 2040_u64;
    let nearest_sec1 = ((raw_t1 as f64 / 1000.0).round() as u64) * 1000;
    let play_x = rect_min_x + (playhead_ms as f32 * px_per_ms);
    let grid_x1 = rect_min_x + (nearest_sec1 as f32 * px_per_ms);
    let kf_x1 = rect_min_x + (raw_t1 as f32 * px_per_ms);

    let dist_play1 = (kf_x1 - play_x).abs();
    let dist_grid1 = (kf_x1 - grid_x1).abs();

    assert!(dist_play1 <= 5.0);
    assert_eq!(dist_play1, 4.0);
    let mut snapped_t1 = raw_t1;
    if dist_play1 <= 5.0 && dist_play1 <= dist_grid1 {
        snapped_t1 = playhead_ms;
    }
    assert_eq!(snapped_t1, 2000);

    // Test 2: Drag to 2080ms -> distance = 80ms * 0.1 = 8.0px (beyond 5px) -> no snap to playhead
    let raw_t2 = 2080_u64;
    let kf_x2 = rect_min_x + (raw_t2 as f32 * px_per_ms);
    let dist_play2 = (kf_x2 - play_x).abs();
    assert!(dist_play2 > 5.0);

    // Test 3: Snap to 1-second grid boundary (3000ms)
    // Drag to 2970ms -> distance = 30ms * 0.1 = 3.0px <= 5px -> snaps to 3000ms
    let raw_t3 = 2970_u64;
    let nearest_sec3 = ((raw_t3 as f64 / 1000.0).round() as u64) * 1000;
    let grid_x3 = rect_min_x + (nearest_sec3 as f32 * px_per_ms);
    let kf_x3 = rect_min_x + (raw_t3 as f32 * px_per_ms);
    let dist_grid3 = (kf_x3 - grid_x3).abs();

    assert!(dist_grid3 <= 5.0);
    assert_eq!(nearest_sec3, 3000);
}

