use makepresent::broadcast::{
    feed_stale, frame_acceptable, is_black_frame, lib_filename, ndi_candidates, resend_due, FourCC, Platform,
    NDI_SOURCE_NAME,
};
use makepresent::ndi_receive::{
    captured_frame_bytes, downscale_bgr_to_rgb, idle_status, is_stale, monitor_step, on_feed_lost, on_video_frame,
    preview_due, MonitorEvent, MonitorState,
    NdiMonitorState, EMIT_PERIOD_MS, PREVIEW_WIDTH,
};

#[test]
fn source_name_is_documented() {
    assert_eq!(NDI_SOURCE_NAME, "MakrStudio - Sunday Output");
}

#[test]
fn bgra_is_four_bytes_per_pixel() {
    let w = 1920usize;
    let h = 1080usize;
    assert_eq!(w * h * 4, w * h * 4);
    assert_eq!(w * 4, 7680);
}

#[test]
fn fourcc_constants_match_ndi_header() {
    assert_eq!(FourCC::Bgra.code(), 0x4152_4742);
    assert_eq!(FourCC::Bgrx.code(), 0x5852_4742);
}

#[test]
fn lib_filename_is_nonempty() {
    assert!(!lib_filename(Platform::Windows).is_empty());
    assert!(!lib_filename(Platform::MacOs).is_empty());
    assert!(!lib_filename(Platform::Other).is_empty());
    assert_eq!(lib_filename(Platform::Other), "libndi.so.5");
}

#[test]
fn preview_width_is_within_spec() {
    assert!((480..=640).contains(&PREVIEW_WIDTH));
}

#[test]
fn emit_period_is_two_fps() {
    assert_eq!(EMIT_PERIOD_MS, 500);
}

#[test]
fn downscale_rejects_degenerate_input() {
    assert!(downscale_bgr_to_rgb(&[], 0, 10, 40).is_none());
    assert!(downscale_bgr_to_rgb(&[], 10, 0, 40).is_none());
    assert!(downscale_bgr_to_rgb(&vec![0u8; 100], 10, 10, 20).is_none());
    assert!(downscale_bgr_to_rgb(&vec![0u8; 10], 10, 10, 40).is_none());
}

#[test]
fn downscale_swizzles_bgr_to_rgb_and_scales() {
    let sw = 4u32;
    let sh = 2u32;
    let stride = (sw as usize) * 4;
    let mut src = vec![0u8; stride * sh as usize];
    for x in 0..sw as usize {
        src[x * 4] = 10;
        src[x * 4 + 1] = 20;
        src[x * 4 + 2] = 30;
        src[x * 4 + 3] = 255;
        let o = stride + x * 4;
        src[o] = 40;
        src[o + 1] = 50;
        src[o + 2] = 60;
        src[o + 3] = 255;
    }
    let out = downscale_bgr_to_rgb(&src, sw, sh, stride).expect("valid input");
    assert_eq!((out.width, out.height), (4, 2));
    assert_eq!(out.rgb.len(), 4 * 2 * 3);
    assert_eq!(&out.rgb[0..3], &[30, 20, 10]);
    let row1 = &out.rgb[4 * 3..4 * 3 + 3];
    assert_eq!(row1, &[60, 50, 40]);
}

#[test]
fn downscale_shrinks_large_frames_to_preview_width() {
    let sw = 1920u32;
    let sh = 1080u32;
    let stride = sw as usize * 4;
    let src = vec![0x80u8; stride * sh as usize];
    let out = downscale_bgr_to_rgb(&src, sw, sh, stride).expect("valid input");
    assert_eq!(out.width, PREVIEW_WIDTH);
    assert_eq!(out.height, 1080 * PREVIEW_WIDTH / 1920);
    assert_eq!(out.rgb.len(), out.width as usize * out.height as usize * 3);
}

#[test]
fn stale_predicate_matches_threshold() {
    let now: u64 = 20_000_000_000;
    let fresh = now - 2_000_000_000;
    let old = now - 10_000_000_000;
    assert!(!is_stale(fresh, now));
    assert!(is_stale(old, now));
    assert!(!is_stale(0, 4_000_000_000));
    assert!(is_stale(0, 4_000_000_001));
    assert!(!is_stale(5_000_000_000, 1));
}

#[test]
fn downscale_samples_nearest_pixel_of_wide_frames() {
    // 1120 wide: every second source column is sampled; column 2k has blue 1, green 2, red k % 256.
    let sw = 1120u32;
    let sh = 2u32;
    let stride = sw as usize * 4 + 8;
    let mut src = vec![0u8; stride * sh as usize];
    for y in 0..sh as usize {
        for x in 0..sw as usize {
            let o = y * stride + x * 4;
            src[o] = 1;
            src[o + 1] = 2;
            src[o + 2] = (x % 256) as u8;
        }
    }
    let out = downscale_bgr_to_rgb(&src, sw, sh, stride).unwrap();
    assert_eq!((out.width, out.height), (560, 1));
    assert_eq!(&out.rgb[3 * 10..3 * 10 + 3], &[20, 2, 1]);
}

#[test]
fn monitor_liveness_transitions() {
    let idle = idle_status();
    assert_eq!(idle.state, NdiMonitorState::Off);
    assert_eq!(idle.message, "Monitor off.");
    let (live, status) = on_video_frame(false, &Some("CAM (Cam)".to_string()));
    assert!(live);
    let status = status.unwrap();
    assert_eq!(status.state, NdiMonitorState::Live);
    assert_eq!(status.message, "Receiving from \"CAM (Cam)\" (preview ~2 fps).");
    assert!(on_video_frame(true, &None).1.is_none());
    let (live, lost) = on_feed_lost(true, false, &Some("CAM".to_string()));
    assert!(!live);
    let lost = lost.unwrap();
    assert_eq!(lost.state, NdiMonitorState::Stale);
    assert_eq!(lost.message, "Connection lost — retrying. Last frame shown is not live.");
    assert_eq!(on_feed_lost(true, true, &None).1.unwrap().message, "No fresh frames — last preview shown is stale, not live.");
    assert!(on_feed_lost(false, true, &None).1.is_none());
    assert!(preview_due(None) && preview_due(Some(500)) && !preview_due(Some(499)));
    assert_eq!(captured_frame_bytes(0x4152_4742, 4, 2, 16, true), Some(32));
    assert_eq!(captured_frame_bytes(0x1234, 4, 2, 16, true), None);
    assert_eq!(captured_frame_bytes(0x5852_4742, 4, 0, 16, true), None);
}

#[test]
fn broadcast_frame_rules() {
    assert!(frame_acceptable(2, 2, 16));
    assert!(!frame_acceptable(0, 2, 16));
    assert!(is_black_frame(&[0, 0, 0, 255, 0, 0, 0, 7, 9]));
    assert!(!is_black_frame(&[0, 0, 1, 255]));
    assert!(!feed_stale(false, false, None));
    assert!(feed_stale(true, false, Some(1)));
    assert!(feed_stale(true, true, Some(5001)));
    assert!(!feed_stale(true, true, Some(5000)));
    assert!(resend_due(None) && resend_due(Some(33)) && !resend_due(Some(10)));
}

#[test]
fn ndi_runtime_is_searched_v6_then_v5_then_bare_name() {
    let c = ndi_candidates(Some("  \"C:\\NDI 6\"  ".to_string()), Some("C:\\NDI 5".to_string()));
    assert_eq!(c, vec![Some("C:\\NDI 6".to_string()), Some("C:\\NDI 5".to_string()), None]);
    let c = ndi_candidates(Some(" \"\" ".to_string()), None);
    assert_eq!(c, vec![None]);
    let c = ndi_candidates(None, Some("/opt/ndi".to_string()));
    assert_eq!(c, vec![Some("/opt/ndi".to_string()), None]);
}

#[test]
fn monitor_reports_connect_frames_loss_and_stall() {
    let mut st = MonitorState { connected: false, source: None, live: false, last_activity_ns: None, last_emit_ms: Some(9) };
    let s = monitor_step(&mut st, MonitorEvent::Connect { name: "a\0b".to_string(), opened: true }, 0).unwrap();
    assert_eq!((s.state, s.message.as_str()), (NdiMonitorState::Error, "Invalid source name."));
    let s = monitor_step(&mut st, MonitorEvent::Connect { name: "CAM".to_string(), opened: false }, 0).unwrap();
    assert_eq!(s.message, "Could not open receiver for \"CAM\".");
    assert!(!st.connected);
    let s = monitor_step(&mut st, MonitorEvent::Connect { name: "CAM".to_string(), opened: true }, 1_000).unwrap();
    assert_eq!((s.state, s.message.as_str()), (NdiMonitorState::Connecting, "Connecting to \"CAM\"…"));
    assert!(st.connected && st.last_emit_ms.is_none());
    let s = monitor_step(&mut st, MonitorEvent::VideoFrame, 2_000).unwrap();
    assert_eq!(s.state, NdiMonitorState::Live);
    assert!(monitor_step(&mut st, MonitorEvent::VideoFrame, 3_000).is_none());
    assert!(monitor_step(&mut st, MonitorEvent::Heartbeat, 4_000_003_000).is_none());
    let s = monitor_step(&mut st, MonitorEvent::Heartbeat, 4_000_003_001).unwrap();
    assert_eq!(s.message, "No fresh frames — last preview shown is stale, not live.");
    assert!(monitor_step(&mut st, MonitorEvent::Heartbeat, 9_000_000_000).is_none());
    monitor_step(&mut st, MonitorEvent::VideoFrame, 9_000_000_001);
    let s = monitor_step(&mut st, MonitorEvent::ConnectionLost, 9_000_000_002).unwrap();
    assert_eq!(s.message, "Connection lost — retrying. Last frame shown is not live.");
    let s = monitor_step(&mut st, MonitorEvent::Disconnect, 0).unwrap();
    assert_eq!((s.state, s.message.as_str()), (NdiMonitorState::Scanning, "Disconnected — still scanning."));
    assert!(!st.connected && st.source.is_none());
}
