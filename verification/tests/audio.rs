use makepresent::audio::{
    check_audio_device, AudioDeviceInfo,
    current_position, play_plan, seek_target, status_from_sink, transport_device_changed, transport_loaded,
    transport_pause, transport_play, transport_seeked, transport_stop, transport_tick, AudioStatus, SinkCommand,
    Transport,
};

fn loaded(duration: Option<u64>) -> Transport {
    let mut t = Transport::new();
    transport_loaded(&mut t, "/music/song.mp3".to_string(), duration);
    t
}

#[test]
fn a_new_player_is_stopped_with_nothing_loaded() {
    let t = Transport::new();
    assert_eq!(t.status, AudioStatus::Stopped);
    assert!(t.current_path.is_none());
    assert_eq!(current_position(&t, 5_000), 0);
}

#[test]
fn loading_waits_paused_at_the_start() {
    let t = loaded(Some(180));
    assert_eq!(t.status, AudioStatus::Paused);
    assert_eq!(t.current_path.as_deref(), Some("/music/song.mp3"));
    assert_eq!(t.duration_secs, Some(180));
    assert_eq!(t.position_secs, Some(0));
}

#[test]
fn play_then_pause_keeps_the_position_reached() {
    let mut t = loaded(Some(180));
    assert_eq!(play_plan(&t, Some(false)), Ok(false));
    transport_play(&mut t, 1_000, false);
    assert_eq!(t.status, AudioStatus::Playing);
    assert_eq!(current_position(&t, 13_500), 12);
    assert_eq!(transport_pause(&mut t, 13_500, true), Ok(()));
    assert_eq!(t.status, AudioStatus::Paused);
    assert_eq!(t.position_secs, Some(12));
    assert_eq!(current_position(&t, 99_000), 12);
    transport_play(&mut t, 100_000, false);
    assert_eq!(current_position(&t, 103_000), 15);
}

#[test]
fn play_without_a_sink_or_track_is_refused() {
    let t = Transport::new();
    assert_eq!(play_plan(&t, None), Err("no track loaded".to_string()));
    assert_eq!(play_plan(&t, Some(true)), Err("no track loaded".to_string()));
    let t = loaded(None);
    assert_eq!(play_plan(&t, Some(true)), Ok(true));
}

#[test]
fn a_reopened_track_plays_from_zero() {
    let mut t = loaded(Some(60));
    transport_play(&mut t, 0, false);
    transport_pause(&mut t, 30_000, true).unwrap();
    transport_play(&mut t, 40_000, true);
    assert_eq!(t.position_secs, Some(0));
    assert_eq!(current_position(&t, 41_000), 1);
}

#[test]
fn pause_without_a_sink_changes_nothing() {
    let mut t = loaded(Some(60));
    let before = t.clone();
    assert_eq!(transport_pause(&mut t, 9_000, false), Err("no track loaded".to_string()));
    assert_eq!(t.status, before.status);
    assert_eq!(t.base_secs, before.base_secs);
}

#[test]
fn stop_rewinds() {
    let mut t = loaded(Some(60));
    transport_play(&mut t, 0, false);
    transport_stop(&mut t);
    assert_eq!(t.status, AudioStatus::Stopped);
    assert_eq!(t.position_secs, Some(0));
    assert_eq!(current_position(&t, 50_000), 0);
}

#[test]
fn tick_stops_a_track_that_ran_out_at_its_end() {
    let mut t = loaded(Some(30));
    transport_play(&mut t, 0, false);
    transport_tick(&mut t, 10_000, Some(false));
    assert_eq!(t.position_secs, Some(10));
    assert_eq!(t.status, AudioStatus::Playing);
    transport_tick(&mut t, 45_000, Some(false));
    assert_eq!(t.position_secs, Some(30));
    transport_tick(&mut t, 46_000, Some(true));
    assert_eq!(t.status, AudioStatus::Stopped);
    assert_eq!(t.position_secs, Some(30));
    assert!(t.playing_since_ms.is_none());
}

#[test]
fn tick_without_a_stream_changes_nothing() {
    let mut t = loaded(Some(30));
    transport_play(&mut t, 0, false);
    transport_tick(&mut t, 10_000, None);
    assert_eq!(t.position_secs, Some(0));
}

#[test]
fn seek_clamps_and_keeps_playing_or_stops_at_the_end() {
    let t = Transport::new();
    assert_eq!(seek_target(&t, 10, true), Err("no track loaded".to_string()));
    let mut t = loaded(Some(100));
    assert_eq!(seek_target(&t, 10, false), Err("no audio sink".to_string()));
    assert_eq!(seek_target(&t, 250, true), Ok(100));
    assert_eq!(seek_target(&t, 40, true), Ok(40));
    assert_eq!(transport_seeked(&mut t, 40, 0), SinkCommand::Pause);
    assert_eq!(t.status, AudioStatus::Paused);
    transport_play(&mut t, 0, false);
    assert_eq!(transport_seeked(&mut t, 50, 1_000), SinkCommand::Play);
    assert_eq!(current_position(&t, 3_000), 52);
    assert_eq!(transport_seeked(&mut t, 100, 4_000), SinkCommand::Leave);
    assert_eq!(t.status, AudioStatus::Stopped);
    assert_eq!(t.position_secs, Some(100));
}

#[test]
fn changing_device_carries_the_track_over() {
    let mut t = Transport::new();
    transport_device_changed(&mut t, Some("USB".to_string()), 0, false);
    assert_eq!(t.device_id.as_deref(), Some("USB"));
    assert_eq!(t.status, AudioStatus::Stopped);
    let mut t = loaded(Some(100));
    transport_play(&mut t, 0, false);
    transport_device_changed(&mut t, None, 7_000, true);
    assert!(t.device_id.is_none());
    assert_eq!(t.status, AudioStatus::Playing);
    assert_eq!(t.position_secs, Some(7));
    assert_eq!(current_position(&t, 9_000), 9);
}

#[test]
fn status_follows_the_sink() {
    let mut t = loaded(Some(10));
    status_from_sink(&mut t, Some((false, false)));
    assert_eq!(t.status, AudioStatus::Playing);
    status_from_sink(&mut t, Some((false, true)));
    assert_eq!(t.status, AudioStatus::Paused);
    status_from_sink(&mut t, Some((true, true)));
    assert_eq!(t.status, AudioStatus::Stopped);
    status_from_sink(&mut t, None);
    assert_eq!(t.status, AudioStatus::Stopped);
}

#[test]
fn a_named_audio_device_must_be_listed() {
    let devices = vec![AudioDeviceInfo { id: "USB DAC".to_string(), name: "USB DAC".to_string(), is_default: false }];
    assert!(check_audio_device(&devices, &None).is_ok());
    assert!(check_audio_device(&devices, &Some("USB DAC".to_string())).is_ok());
    assert_eq!(
        check_audio_device(&devices, &Some("HDMI".to_string())).unwrap_err(),
        "audio device \"HDMI\" not found"
    );
}
