use summit_hip_numbers::decode_loop::{DecodeLoop, LoopEvent, LoopFailure, LoopKind};
use summit_hip_numbers::player::{
    failure_message, resolve_path, wants_audio_output, ContainerProbe, PlaybackPlan, PlayerError,
    VideoPlayer,
};

fn video_loop_ended_by(events: &[LoopEvent], cancelled: bool) -> DecodeLoop {
    let mut decode_loop = DecodeLoop::video(0);
    for event in events {
        decode_loop.step(*event, cancelled);
    }
    assert!(decode_loop.outcome().is_some());
    decode_loop
}

fn opened() -> LoopEvent {
    LoopEvent::Opened {
        frame_rate: summit_hip_numbers::clock::FrameRate {
            numerator: 30,
            denominator: 1,
        },
    }
}

fn streams(video: Option<usize>, audio: Option<usize>) -> ContainerProbe {
    ContainerProbe::Streams { video, audio }
}

#[test]
fn bare_path_is_kept() {
    assert_eq!(resolve_path("/videos/001.mp4"), "/videos/001.mp4");
    assert_eq!(resolve_path("relative/001.mp4"), "relative/001.mp4");
    assert_eq!(resolve_path(""), "");
}

#[test]
fn file_scheme_is_removed() {
    assert_eq!(resolve_path("file:///videos/001.mp4"), "/videos/001.mp4");
    assert_eq!(resolve_path("file://"), "");
}

#[test]
fn repeated_file_scheme_is_removed() {
    assert_eq!(resolve_path("file://file:///videos/001.mp4"), "/videos/001.mp4");
}

#[test]
fn scheme_inside_the_path_is_kept() {
    assert_eq!(resolve_path("/a/file://b"), "/a/file://b");
    assert_eq!(resolve_path("file:/x"), "file:/x");
    assert_eq!(resolve_path("FILE:///x"), "FILE:///x");
}

#[test]
fn paths_beyond_ascii_are_kept() {
    assert_eq!(resolve_path("file:///vidéos/日本.mp4"), "/vidéos/日本.mp4");
}

#[test]
fn missing_file_gives_no_session() {
    let error = VideoPlayer::new("/no/such/file.mp4", false).unwrap_err();
    assert!(matches!(&error, PlayerError::FileNotFound { path } if path == "/no/such/file.mp4"));
    assert!(error.message().contains("not found"));
    assert_eq!(error.message(), "Video file not found: /no/such/file.mp4");
}

#[test]
fn missing_file_behind_scheme_names_the_path() {
    let error = VideoPlayer::new("file:///no/such/file.mp4", false).unwrap_err();
    assert_eq!(error.message(), "Video file not found: /no/such/file.mp4");
}

#[test]
fn new_session_is_idle() {
    let player = VideoPlayer::new("file:///videos/001.mp4", true).unwrap();
    assert_eq!(player.video_path(), "/videos/001.mp4");
    assert!(!player.is_eos());
    assert!(!player.is_cancelled());
    assert_eq!(player.get_error(), None);
    assert_eq!(player.plan(), None);
}

#[test]
fn play_with_video_and_audio_runs_both_loops() {
    let mut player = VideoPlayer::new("/videos/001.mp4", true).unwrap();
    let plan = player.play(streams(Some(0), Some(1)), true).unwrap();
    assert_eq!(
        plan,
        PlaybackPlan {
            video_stream: 0,
            audio_stream: Some(1)
        }
    );
    assert_eq!(player.plan(), Some(plan));
    assert!(!player.is_eos());
    assert_eq!(player.get_error(), None);
}

#[test]
fn video_only_file_plays_without_error() {
    let mut player = VideoPlayer::new("/videos/002.mp4", true).unwrap();
    let plan = player.play(streams(Some(2), None), false).unwrap();
    assert_eq!(plan.video_stream, 2);
    assert_eq!(plan.audio_stream, None);
    assert_eq!(player.get_error(), None);
    assert!(!player.is_eos());
    // the device being ready changes nothing where there is no audio stream
    let mut player = VideoPlayer::new("/videos/002.mp4", true).unwrap();
    assert_eq!(player.play(streams(Some(2), None), true).unwrap().audio_stream, None);
}

#[test]
fn failed_audio_device_leaves_video_playing() {
    let mut player = VideoPlayer::new("/videos/001.mp4", true).unwrap();
    let plan = player.play(streams(Some(0), Some(1)), false).unwrap();
    assert_eq!(plan.video_stream, 0);
    assert_eq!(plan.audio_stream, None);
    assert_eq!(player.get_error(), None);
}

#[test]
fn file_without_video_cannot_play() {
    let mut player = VideoPlayer::new("/videos/001.mp4", true).unwrap();
    let error = player.play(streams(None, Some(0)), true).unwrap_err();
    assert!(matches!(error, PlayerError::NoVideoStream));
    assert_eq!(error.message(), "No video stream found");
    assert_eq!(player.plan(), None);
    assert!(!player.is_eos());
}

#[test]
fn unreadable_container_cannot_play() {
    let mut player = VideoPlayer::new("/videos/001.mp4", true).unwrap();
    let probe = ContainerProbe::Unreadable {
        detail: "Invalid data found when processing input".to_string(),
    };
    let error = player.play(probe, true).unwrap_err();
    assert!(matches!(&error, PlayerError::OpenFailed { .. }));
    assert_eq!(error.message(), "Invalid data found when processing input");
    assert_eq!(player.plan(), None);
}

#[test]
fn stop_sets_the_flag_and_nothing_else() {
    let mut player = VideoPlayer::new("/videos/001.mp4", true).unwrap();
    player.play(streams(Some(0), None), false).unwrap();
    assert!(player.stop().is_ok());
    assert!(player.is_cancelled());
    assert!(!player.is_eos());
    assert_eq!(player.get_error(), None);
    assert!(player.stop().is_ok());
    assert!(player.is_cancelled());
}

#[test]
fn running_video_loop_is_not_the_end() {
    let mut player = VideoPlayer::new("/videos/001.mp4", true).unwrap();
    let mut video = DecodeLoop::video(0);
    player.loop_finished(&video, "");
    assert!(!player.is_eos());
    video.step(opened(), false);
    video.step(LoopEvent::Packet { stream_index: 0 }, false);
    player.loop_finished(&video, "ignored");
    assert!(!player.is_eos());
    assert_eq!(player.get_error(), None);
}

#[test]
fn completed_video_loop_is_the_end() {
    let mut player = VideoPlayer::new("/videos/001.mp4", true).unwrap();
    let video = video_loop_ended_by(
        &[opened(), LoopEvent::EndOfPackets, LoopEvent::EofSent, LoopEvent::NoFrame],
        false,
    );
    player.loop_finished(&video, "");
    assert!(player.is_eos());
    assert_eq!(player.get_error(), None);
}

#[test]
fn cancelled_video_loop_is_the_end_without_error() {
    let mut player = VideoPlayer::new("/videos/001.mp4", true).unwrap();
    player.stop().unwrap();
    let video = video_loop_ended_by(&[opened(), LoopEvent::EndOfPackets], player.is_cancelled());
    player.loop_finished(&video, "");
    assert!(player.is_eos());
    assert_eq!(player.get_error(), None);
}

#[test]
fn failed_video_loop_records_error_and_end() {
    let mut player = VideoPlayer::new("/videos/001.mp4", true).unwrap();
    let video = video_loop_ended_by(
        &[opened(), LoopEvent::Packet { stream_index: 0 }, LoopEvent::SendFailed],
        false,
    );
    player.loop_finished(&video, "Invalid data found");
    assert!(player.is_eos());
    assert_eq!(
        player.get_error(),
        Some("Failed to send packet: Invalid data found".to_string())
    );
}

#[test]
fn failed_open_in_the_loop_records_what_was_said() {
    let mut player = VideoPlayer::new("/videos/001.mp4", true).unwrap();
    let video = video_loop_ended_by(&[LoopEvent::OpenFailed], false);
    player.loop_finished(&video, "Decoder not found");
    assert!(player.is_eos());
    assert_eq!(player.get_error(), Some("Decoder not found".to_string()));
}

#[test]
fn first_error_is_kept() {
    let mut player = VideoPlayer::new("/videos/001.mp4", true).unwrap();
    let video = video_loop_ended_by(&[LoopEvent::OpenFailed], false);
    player.loop_finished(&video, "first");
    player.loop_finished(&video, "second");
    assert_eq!(player.get_error(), Some("first".to_string()));
    assert!(player.is_eos());
}

#[test]
fn end_of_stream_stays() {
    let mut player = VideoPlayer::new("/videos/001.mp4", true).unwrap();
    let video = video_loop_ended_by(&[LoopEvent::OpenFailed], false);
    player.loop_finished(&video, "broken");
    assert!(player.is_eos());
    player.stop().unwrap();
    assert!(player.is_eos());
    let _ = player.play(streams(Some(0), None), false);
    assert!(player.is_eos());
    player.loop_finished(&DecodeLoop::video(0), "");
    assert!(player.is_eos());
    player.loop_finished(&DecodeLoop::audio(1), "");
    assert!(player.is_eos());
}

#[test]
fn audio_loop_never_touches_the_session() {
    let mut player = VideoPlayer::new("/videos/001.mp4", true).unwrap();
    player.play(streams(Some(0), Some(1)), true).unwrap();
    let mut audio = DecodeLoop::new(LoopKind::Audio, 1);
    audio.step(LoopEvent::OpenFailed, false);
    assert!(audio.outcome().is_some());
    player.loop_finished(&audio, "no decoder for this audio");
    assert!(!player.is_eos());
    assert_eq!(player.get_error(), None);
    let mut audio = DecodeLoop::audio(1);
    audio.step(opened(), false);
    audio.step(LoopEvent::EndOfPackets, false);
    audio.step(LoopEvent::EofSent, false);
    audio.step(LoopEvent::NoFrame, false);
    player.loop_finished(&audio, "");
    assert!(!player.is_eos());
    assert_eq!(player.get_error(), None);
}

#[test]
fn failure_messages() {
    assert_eq!(
        failure_message(LoopFailure::SendPacket, "bad packet"),
        "Failed to send packet: bad packet"
    );
    assert_eq!(failure_message(LoopFailure::Open, "cannot open"), "cannot open");
    assert_eq!(failure_message(LoopFailure::ReceiveFrame, "decoder broke"), "decoder broke");
    assert_eq!(failure_message(LoopFailure::ConvertFrame, "bad frame"), "bad frame");
}

#[test]
fn audio_device_is_wanted_only_for_a_file_that_plays_with_sound() {
    assert!(wants_audio_output(&streams(Some(0), Some(1))));
    assert!(!wants_audio_output(&streams(Some(0), None)));
    // an audio-only file fails to play: the device stays untouched
    assert!(!wants_audio_output(&streams(None, Some(0))));
    assert!(!wants_audio_output(&streams(None, None)));
    assert!(!wants_audio_output(&ContainerProbe::Unreadable {
        detail: "broken".to_string()
    }));
}
