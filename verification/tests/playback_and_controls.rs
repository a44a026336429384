use ohhplayer::controls::{
    audio_delay_change, continues_seek_hold, pin_osd_text, pip_toggle, scale_mode_label,
    scale_osd_text, seek_boost, seek_osd_text, seek_step_secs, sleep_timer_change, volume_osd_text,
    wm_floating_command, SeekBoost, WindowManagers,
};
use ohhplayer::playback::{
    next_audio_step, pts_is_valid, select_stream, streams_to_discard, sync_wait_chunk,
    wait_for_file, AudioStep, DecoderCommand, MediaKind, VideoStep, WaitStep, AUDIO_BUFFER_LIMIT,
};

#[test]
fn first_stream_of_kind_selected() {
    let kinds = vec![MediaKind::Audio, MediaKind::Other, MediaKind::Video, MediaKind::Video];
    assert_eq!(select_stream(&kinds, MediaKind::Video), Some(2));
    assert_eq!(select_stream(&kinds, MediaKind::Audio), Some(0));
    assert_eq!(select_stream(&vec![MediaKind::Other], MediaKind::Audio), None);
}

#[test]
fn other_streams_discarded() {
    let kinds = vec![MediaKind::Video, MediaKind::Audio, MediaKind::Other, MediaKind::Audio];
    assert_eq!(streams_to_discard(&kinds, MediaKind::Audio), vec![0, 2]);
}

#[test]
fn pts_sentinels_invalid() {
    assert!(!pts_is_valid(i64::MIN));
    assert!(!pts_is_valid(i64::MAX));
    assert!(pts_is_valid(0));
    assert!(pts_is_valid(-5));
}

#[test]
fn sync_wait_in_chunks() {
    assert_eq!(sync_wait_chunk(55), 20);
    assert_eq!(sync_wait_chunk(20), 20);
    assert_eq!(sync_wait_chunk(7), 7);
}

#[test]
fn waiting_thread_steps() {
    let mut f = Some("/next.mp4".to_string());
    assert_eq!(wait_for_file(true, &mut f), WaitStep::Stop);
    assert!(f.is_some());
    assert_eq!(wait_for_file(false, &mut f), WaitStep::Open("/next.mp4".to_string()));
    assert!(f.is_none());
    assert_eq!(wait_for_file(false, &mut f), WaitStep::Sleep);
}

#[test]
fn video_commands_in_order() {
    let mut c: DecoderCommand<f64, f32> = DecoderCommand::new(1.0);
    assert_eq!(c.next_video_step(), VideoStep::Play { seek: None });
    c.seek_target = Some(12.0);
    c.load_file = Some("/b.mp4".to_string());
    assert!(c.interrupts_wait());
    assert_eq!(c.next_video_step(), VideoStep::Open("/b.mp4".to_string()));
    assert_eq!(c.next_video_step(), VideoStep::Play { seek: Some(12.0) });
    assert!(c.seek_target.is_none());
    assert!(!c.interrupts_wait());
    c.playing = false;
    c.seek_target = Some(3.0);
    assert_eq!(c.next_video_step(), VideoStep::Pause { seek: Some(3.0) });
    c.quit = true;
    c.load_file = Some("/c.mp4".to_string());
    assert_eq!(c.next_video_step(), VideoStep::Stop);
    assert!(c.load_file.is_some());
}

#[test]
fn audio_commands_in_order() {
    let mut file: Option<String> = Some("/a.mp4".to_string());
    let mut seek: Option<f64> = Some(4.0);
    assert_eq!(next_audio_step(true, &mut file, &mut seek, true, 0), AudioStep::Stop);
    assert_eq!(
        next_audio_step(false, &mut file, &mut seek, true, 0),
        AudioStep::Open("/a.mp4".to_string())
    );
    assert_eq!(next_audio_step(false, &mut file, &mut seek, false, 0), AudioStep::Seek(4.0));
    assert_eq!(next_audio_step(false, &mut file, &mut seek, false, 0), AudioStep::Pause);
    assert_eq!(
        next_audio_step(false, &mut file, &mut seek, true, AUDIO_BUFFER_LIMIT),
        AudioStep::Throttle
    );
    assert_eq!(
        next_audio_step(false, &mut file, &mut seek, true, AUDIO_BUFFER_LIMIT - 1),
        AudioStep::Decode
    );
}

#[test]
fn scale_labels() {
    assert_eq!(scale_mode_label(0), "Fit (Letterbox)");
    assert_eq!(scale_mode_label(3), "100%");
    assert_eq!(scale_mode_label(6), "9:16");
    assert_eq!(scale_mode_label(-1), "9:16");
    assert_eq!(scale_osd_text(2), "Scale: Zoom (Crop)");
}

#[test]
fn volume_and_pin_texts() {
    assert_eq!(volume_osd_text(80), "Volume: 80%");
    assert_eq!(volume_osd_text(0), "Volume: 0%");
    assert_eq!(pin_osd_text(true), "Pinned");
    assert_eq!(pin_osd_text(false), "Unpinned");
}

#[test]
fn audio_delay_texts() {
    assert_eq!(audio_delay_change(0, 50), (50, "Audio Delay: +50 ms".to_string()));
    assert_eq!(audio_delay_change(0, -50), (-50, "Audio Delay: -50 ms".to_string()));
    assert_eq!(audio_delay_change(50, -50), (0, "Audio Delay: 0 ms (Synced)".to_string()));
}

#[test]
fn sleep_timer_texts() {
    assert_eq!(sleep_timer_change(15), (Some(900), "Sleep timer: 15m".to_string()));
    assert_eq!(sleep_timer_change(0), (None, "Sleep timer: Off".to_string()));
    assert_eq!(sleep_timer_change(-3), (None, "Sleep timer: Off".to_string()));
}

#[test]
fn seek_hold_acceleration() {
    assert!(continues_seek_hold(599));
    assert!(!continues_seek_hold(600));
    assert_eq!(seek_boost(1999), SeekBoost::Normal);
    assert_eq!(seek_boost(2000), SeekBoost::Fast);
    assert_eq!(seek_boost(4999), SeekBoost::Fast);
    assert_eq!(seek_boost(5000), SeekBoost::Boost);
    assert_eq!(SeekBoost::Normal.min_step_secs(), 0);
    assert_eq!(SeekBoost::Fast.min_step_secs(), 10);
    assert_eq!(SeekBoost::Boost.min_step_secs(), 15);
}

#[test]
fn seek_texts() {
    assert_eq!(
        seek_osd_text("00:01:05 / 00:10:00", true, 5, SeekBoost::Normal),
        "Seek: 00:01:05 / 00:10:00 (+5s)"
    );
    assert_eq!(
        seek_osd_text("00:00:50 / 00:10:00", false, -15, SeekBoost::Boost),
        "Seek: 00:00:50 / 00:10:00 (-15s (15s Boost))"
    );
    assert_eq!(
        seek_osd_text("00:00:20 / 00:10:00", true, 10, SeekBoost::Fast),
        "Seek: 00:00:20 / 00:10:00 (+10s (10s Fast))"
    );
}

#[test]
fn pip_enter_and_leave() {
    let enter = pip_toggle(false, (1280, 720), (900, 520), false);
    assert!(enter.is_pip);
    assert_eq!(enter.window_size, (360, 202));
    assert_eq!(enter.saved_size, (1280, 720));
    assert!(enter.always_on_top && enter.hide_controls && enter.float_window);
    assert_eq!(enter.osd, "PiP Mode Enabled");
    assert_eq!(enter.title, "Picture-in-Picture");
    let leave = pip_toggle(true, enter.window_size, enter.saved_size, false);
    assert!(!leave.is_pip);
    assert_eq!(leave.window_size, (1280, 720));
    assert!(!leave.always_on_top && !leave.hide_controls && !leave.float_window);
    assert_eq!(leave.osd, "PiP Mode Disabled");
    assert_eq!(leave.title, "ohhPlayer");
}

#[test]
fn pip_small_window_keeps_saved_size() {
    let enter = pip_toggle(false, (360, 700), (900, 520), true);
    assert_eq!(enter.saved_size, (900, 520));
    let leave = pip_toggle(true, enter.window_size, enter.saved_size, true);
    assert_eq!(leave.window_size, (900, 520));
    assert!(leave.always_on_top);
}

#[test]
fn wm_commands() {
    let none = WindowManagers { niri: false, hyprland: false, sway: false, i3: false };
    assert!(wm_floating_command(none, true).is_none());
    let c = wm_floating_command(WindowManagers { niri: true, hyprland: true, ..none }, true).unwrap();
    assert_eq!(c.program, "niri");
    assert_eq!(c.args, vec!["msg", "action", "move-window-to-floating"]);
    let c = wm_floating_command(WindowManagers { niri: true, ..none }, false).unwrap();
    assert_eq!(c.args, vec!["msg", "action", "move-window-to-tiling"]);
    let c = wm_floating_command(WindowManagers { hyprland: true, ..none }, false).unwrap();
    assert_eq!(c.program, "hyprctl");
    assert_eq!(c.args, vec!["dispatch", "settiled"]);
    let c = wm_floating_command(WindowManagers { hyprland: true, sway: true, ..none }, true).unwrap();
    assert_eq!(c.program, "hyprctl");
    assert_eq!(c.args, vec!["dispatch", "setfloating"]);
    let c = wm_floating_command(WindowManagers { sway: true, i3: true, ..none }, false).unwrap();
    assert_eq!(c.program, "swaymsg");
    assert_eq!(c.args, vec!["floating disable"]);
    let c = wm_floating_command(WindowManagers { i3: true, ..none }, true).unwrap();
    assert_eq!(c.program, "i3-msg");
    assert_eq!(c.args, vec!["floating enable"]);
}

#[test]
fn seek_step_sizes() {
    assert_eq!(seek_step_secs(5, 0), 5);
    assert_eq!(seek_step_secs(10, 1999), 10);
    assert_eq!(seek_step_secs(5, 2000), 10);
    assert_eq!(seek_step_secs(10, 2000), 10);
    assert_eq!(seek_step_secs(5, 5000), 15);
    assert_eq!(seek_step_secs(10, 7000), 15);
    assert_eq!(seek_step_secs(20, 7000), 20);
}
