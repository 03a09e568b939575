use summit_hip_numbers::decode_loop::{DecodeLoop, LoopEvent};
use summit_hip_numbers::file_scanner::{scan_video_files, DirEntry, DirListing, VideoFile};
use summit_hip_numbers::kiosk::{should_show_splash, Kiosk, SETTLE_DELAY_MILLIS};
use summit_hip_numbers::player::VideoPlayer;

fn scanned(names: &[&str]) -> Vec<VideoFile> {
    let entries = names
        .iter()
        .map(|name| DirEntry {
            path: format!("/videos/{}", name),
            name: name.to_string(),
            is_file: true,
        })
        .collect();
    scan_video_files("/videos", DirListing::Entries(entries)).unwrap()
}

fn kiosk_with(names: &[&str]) -> Kiosk {
    let mut app = Kiosk::new();
    app.load_video_files(scanned(names));
    app
}

#[test]
fn test_media_player_app_default() {
    let app = Kiosk::default();
    assert_eq!(app.video_files.len(), 0);
    assert_eq!(app.current_index, 0);
    assert_eq!(app.input_buffer, "");
    assert_eq!(app.current_file_name, "No file loaded");
    assert!(app.show_splash);
    assert_eq!(app.current_splash_index, 0);
    assert_eq!(app.load_video_index, None);
    assert!(!app.show_no_video_popup);
    assert_eq!(app.videos_played, 0);
}

#[test]
fn test_load_video_files() {
    let app = kiosk_with(&["001.mp4", "002.mp4", "003.mp4"]);
    assert_eq!(app.video_files.len(), 3);
    assert_eq!(app.video_files[0].hip_number, "001");
    assert_eq!(app.video_files[1].hip_number, "002");
    assert_eq!(app.video_files[2].hip_number, "003");
    assert_eq!(app.find_hip("001"), Some(0));
    assert_eq!(app.current_index, 0);
}

#[test]
fn test_load_video_files_nonexistent_dir() {
    let mut app = Kiosk::new();
    if let Ok(files) = scan_video_files("/nonexistent", DirListing::Missing) {
        app.load_video_files(files);
    }
    assert_eq!(app.video_files.len(), 0);
}

#[test]
fn test_error_handling_video_scanning() {
    let mut app = Kiosk::new();
    if let Ok(files) = scan_video_files("/nonexistent/directory", DirListing::Missing) {
        app.load_video_files(files);
    }
    assert_eq!(app.video_files.len(), 0);
}

#[test]
fn test_should_show_splash_once() {
    assert!(should_show_splash(true, "once", 0));
    assert!(!should_show_splash(true, "once", 1));
}

#[test]
fn test_should_show_splash_every() {
    assert!(!should_show_splash(true, "every", 0));
    assert!(should_show_splash(true, "every", 1));
}

#[test]
fn test_should_show_splash_every_other() {
    assert!(should_show_splash(true, "every_other", 1));
    assert!(!should_show_splash(true, "every_other", 2));
}

#[test]
fn test_should_show_splash_every_third() {
    assert!(should_show_splash(true, "every_third", 1));
    assert!(!should_show_splash(true, "every_third", 2));
    assert!(!should_show_splash(true, "every_third", 3));
}

#[test]
fn test_should_show_splash_disabled() {
    // a fresh kiosk has the splash enabled, once, and has played nothing
    assert!(should_show_splash(true, "once", 0));
}

#[test]
fn test_splash_screen_logic() {
    assert!(should_show_splash(true, "once", 0));
    assert!(!should_show_splash(true, "once", 1));
    assert!(!should_show_splash(true, "every", 0));
    assert!(should_show_splash(true, "every", 1));
    assert!(should_show_splash(true, "every_other", 1));
    assert!(!should_show_splash(true, "every_other", 2));
    assert!(should_show_splash(true, "every_third", 1));
    assert!(!should_show_splash(true, "every_third", 2));
    assert!(!should_show_splash(true, "every_third", 3));
}

#[test]
fn splash_rules_beyond_the_first_videos() {
    assert!(should_show_splash(true, "every_other", 3));
    assert!(!should_show_splash(true, "every_other", 0));
    assert!(should_show_splash(true, "every_third", 4));
    assert!(should_show_splash(true, "every_third", 7));
    assert!(!should_show_splash(true, "every_third", 0));
    assert!(should_show_splash(true, "every", usize::MAX));
}

#[test]
fn disabled_splash_is_never_due() {
    for interval in ["once", "every", "every_other", "every_third"] {
        for played in 0..5 {
            assert!(!should_show_splash(false, interval, played));
        }
    }
}

#[test]
fn unknown_interval_is_never_due() {
    assert!(!should_show_splash(true, "", 0));
    assert!(!should_show_splash(true, "Once", 0));
    assert!(!should_show_splash(true, "once ", 0));
    assert!(!should_show_splash(true, "every_fourth", 1));
}

#[test]
fn test_validate_and_switch_valid() {
    let mut app = kiosk_with(&["001.mp4", "002.mp4"]);
    let result = app.validate_and_switch("001");
    assert!(result);
    assert_eq!(app.current_index, 0);
    assert_eq!(app.videos_played, 1);
}

#[test]
fn test_validate_and_switch_invalid() {
    let mut app = Kiosk::new();
    let result = app.validate_and_switch("999");
    assert!(!result);
    assert_eq!(app.videos_played, 0);
}

#[test]
fn test_validate_and_switch_invalid_length() {
    let mut app = Kiosk::new();
    let result = app.validate_and_switch("12");
    assert!(!result);
}

#[test]
fn test_validate_and_switch_non_digit() {
    let mut app = Kiosk::new();
    let result = app.validate_and_switch("abc");
    assert!(!result);
}

#[test]
fn test_hip_number_validation() {
    let mut app = kiosk_with(&["001.mp4", "002.mp4", "003.mp4"]);

    assert!(app.validate_and_switch("001"));
    assert_eq!(app.current_index, 0);
    assert_eq!(app.videos_played, 1);

    assert!(app.validate_and_switch("002"));
    assert_eq!(app.current_index, 1);
    assert_eq!(app.videos_played, 2);

    assert!(!app.validate_and_switch("999"));
    assert_eq!(app.videos_played, 2);

    assert!(!app.validate_and_switch("12"));
    assert!(!app.validate_and_switch("1234"));

    assert!(!app.validate_and_switch("abc"));
}

#[test]
fn unknown_hip_number_puts_up_the_notice() {
    let mut app = kiosk_with(&["001.mp4"]);
    assert!(!app.validate_and_switch("999"));
    assert!(app.show_no_video_popup);
    assert_eq!(app.no_video_hip, "999");
    assert_eq!(app.load_video_index, None);
    assert_eq!(app.current_index, 0);
}

#[test]
fn malformed_input_puts_up_no_notice() {
    let mut app = kiosk_with(&["001.mp4"]);
    assert!(!app.validate_and_switch("12"));
    assert!(!app.validate_and_switch("1234"));
    assert!(!app.validate_and_switch("0a1"));
    assert!(!app.validate_and_switch("١٢٣"));
    assert!(!app.show_no_video_popup);
    assert_eq!(app.no_video_hip, "");
}

#[test]
fn known_hip_number_asks_for_the_load() {
    let mut app = kiosk_with(&["001.mp4", "005.mp4", "009.mp4"]);
    assert!(app.validate_and_switch("009"));
    assert_eq!(app.current_index, 2);
    assert_eq!(app.load_video_index, Some(2));
    assert_eq!(app.take_load_request(), Some(2));
    assert_eq!(app.take_load_request(), None);
}

#[test]
fn last_file_wins_among_equal_hip_numbers() {
    let app = kiosk_with(&["001.mp4", "001.jpg", "002.mp4"]);
    assert_eq!(app.find_hip("001"), Some(1));
    assert_eq!(app.find_hip("002"), Some(2));
    assert_eq!(app.find_hip("003"), None);
}

#[test]
fn test_hip_to_index_mapping() {
    let app = kiosk_with(&["001.mp4", "002.mp4"]);
    assert_eq!(app.find_hip("001"), Some(0));
    assert_eq!(app.find_hip("002"), Some(1));
    assert_eq!(app.find_hip("003"), None);
}

#[test]
fn test_next_video() {
    let mut app = kiosk_with(&["001.mp4", "002.mp4"]);

    app.next_video();
    assert_eq!(app.load_video_index, Some(1));

    app.next_video(); // Wrap around
    assert_eq!(app.load_video_index, Some(0));
}

#[test]
fn next_video_without_files_does_nothing() {
    let mut app = Kiosk::new();
    app.next_video();
    assert_eq!(app.load_video_index, None);
    assert_eq!(app.current_index, 0);
}

#[test]
fn next_video_from_a_place_beyond_the_list() {
    let mut app = kiosk_with(&["001.mp4", "002.mp4", "003.mp4"]);
    app.current_index = 5;
    app.next_video();
    assert_eq!(app.current_index, 0);
    app.current_index = usize::MAX;
    app.next_video();
    // the largest index is 0 modulo 3, so the next place is 1
    assert_eq!(app.current_index, (usize::MAX % 3 + 1) % 3);
}

#[test]
fn test_arrow_key_navigation() {
    let mut app = kiosk_with(&["001.mp4", "002.mp4", "003.mp4"]);
    assert_eq!(app.current_index, 0);

    app.next_video();
    assert_eq!(app.load_video_index, Some(1));

    app.current_index = 1;
    app.navigate_backward();
    assert_eq!(app.load_video_index, Some(0));

    app.current_index = 2;
    app.next_video();
    assert_eq!(app.load_video_index, Some(0));
}

#[test]
fn arrows_stop_at_the_ends() {
    let mut app = kiosk_with(&["001.mp4", "002.mp4"]);
    app.navigate_backward();
    assert_eq!(app.current_index, 0);
    assert_eq!(app.load_video_index, None);
    assert_eq!(app.current_file_name, "No file loaded");
    app.navigate_forward();
    assert_eq!(app.current_index, 1);
    assert_eq!(app.load_video_index, Some(1));
    assert_eq!(app.current_file_name, "002.mp4");
    app.take_load_request();
    app.navigate_forward();
    assert_eq!(app.current_index, 1);
    assert_eq!(app.load_video_index, None);
    app.navigate_backward();
    assert_eq!(app.current_index, 0);
    assert_eq!(app.current_file_name, "001.mp4");
}

#[test]
fn arrows_without_files_do_nothing() {
    let mut app = Kiosk::new();
    app.navigate_forward();
    app.navigate_backward();
    assert_eq!(app.current_index, 0);
    assert_eq!(app.load_video_index, None);
}

#[test]
fn test_end_to_end_scenario() {
    let mut app = kiosk_with(&["001.mp4", "002.mp4", "003.mp4"]);
    assert_eq!(app.video_files.len(), 3);
    assert!(app.find_hip("001").is_some());

    assert!(app.validate_and_switch("001"));
    assert_eq!(app.current_index, 0);

    app.next_video();
    assert_eq!(app.load_video_index, Some(1));

    app.current_index = 1;
    app.navigate_backward();
    assert_eq!(app.load_video_index, Some(0));

    assert!(!app.validate_and_switch("999"));
}

#[test]
fn test_input_buffer_handling() {
    let mut app = Kiosk::new();
    app.type_text("123", 3);
    assert_eq!(app.input_buffer, "123");

    // no videos are loaded, so the number names none
    assert_eq!(app.submit(), Some(false));
    assert_eq!(app.input_buffer, "");
}

#[test]
fn test_no_video_popup_logic() {
    let mut app = Kiosk::new();
    app.validate_and_switch("999");
    assert!(app.show_no_video_popup);
    assert_eq!(app.no_video_hip, "999");
}

#[test]
fn typing_takes_digits_while_there_is_room() {
    let mut app = Kiosk::new();
    app.type_text("1", 3);
    app.type_text("x", 3);
    app.type_text("2", 3);
    app.type_text("", 3);
    app.type_text("3", 3);
    app.type_text("4", 3);
    assert_eq!(app.input_buffer, "123");
    let mut app = Kiosk::new();
    app.type_text("1", 0);
    assert_eq!(app.input_buffer, "");
    // a pasted run of digits is taken while the buffer is not full, and what
    // does not fit is cut off
    app.type_text("12", 3);
    app.type_text("34", 3);
    assert_eq!(app.input_buffer, "123");
    app.type_text("5", 3);
    assert_eq!(app.input_buffer, "123");
}

#[test]
fn long_run_of_digits_is_cut_to_the_limit() {
    let mut app = Kiosk::new();
    app.type_text("0123456789", 3);
    assert_eq!(app.input_buffer, "012");
    assert_eq!(app.submit(), Some(false));
}

#[test]
fn anything_but_digits_is_swept_from_the_buffer() {
    let mut app = Kiosk::new();
    app.input_buffer = "1a2b3c4".to_string();
    app.type_text("", 3);
    assert_eq!(app.input_buffer, "123");
    app.input_buffer = "x٣9".to_string();
    app.type_text("z", 5);
    assert_eq!(app.input_buffer, "9");
}

#[test]
fn splash_is_up_at_the_start_and_comes_down_when_its_time_is_up() {
    let mut app = Kiosk::new();
    assert!(app.show_splash);
    // already up: looking at the rule changes nothing
    assert!(!app.update_splash(true, "once", 3));
    assert!(app.show_splash);
    assert_eq!(app.current_splash_index, 0);
    app.splash_timed_out();
    assert!(!app.show_splash);
    app.splash_timed_out();
    assert!(!app.show_splash);
}

#[test]
fn due_splash_is_raised_with_the_next_picture() {
    let mut app = kiosk_with(&["001.mp4"]);
    app.splash_timed_out();
    assert!(app.validate_and_switch("001"));
    // one video played, splash after every video, three pictures
    assert!(app.update_splash(true, "every", 3));
    assert!(app.show_splash);
    assert_eq!(app.current_splash_index, 1);
    assert!(!app.update_splash(true, "every", 3));
    assert_eq!(app.current_splash_index, 1);
    app.splash_timed_out();
    assert!(app.update_splash(true, "every", 3));
    assert_eq!(app.current_splash_index, 2);
    app.splash_timed_out();
    assert!(app.update_splash(true, "every", 3));
    assert_eq!(app.current_splash_index, 0);
}

#[test]
fn splash_that_is_not_due_stays_down() {
    let mut app = kiosk_with(&["001.mp4"]);
    app.splash_timed_out();
    assert!(app.validate_and_switch("001"));
    assert!(!app.update_splash(true, "once", 3));
    assert!(!app.update_splash(false, "every", 3));
    assert!(!app.update_splash(true, "never", 3));
    assert!(!app.show_splash);
    assert_eq!(app.current_splash_index, 0);
}

#[test]
fn splash_without_pictures_keeps_its_index() {
    let mut app = Kiosk::new();
    app.splash_timed_out();
    assert!(app.update_splash(true, "once", 0));
    assert_eq!(app.current_splash_index, 0);
    app.splash_timed_out();
    app.current_splash_index = usize::MAX;
    assert!(app.update_splash(true, "once", 4));
    assert_eq!(app.current_splash_index, (usize::MAX % 4 + 1) % 4);
}

#[test]
fn enter_without_input_does_nothing() {
    let mut app = kiosk_with(&["001.mp4"]);
    assert_eq!(app.submit(), None);
    assert!(!app.show_no_video_popup);
    assert_eq!(app.videos_played, 0);
}

#[test]
fn enter_switches_to_the_typed_number() {
    let mut app = kiosk_with(&["001.mp4", "002.mp4"]);
    app.type_text("0", 3);
    app.type_text("0", 3);
    app.type_text("2", 3);
    assert_eq!(app.submit(), Some(true));
    assert_eq!(app.input_buffer, "");
    assert_eq!(app.current_index, 1);
    assert_eq!(app.take_load_request(), Some(1));
    assert_eq!(app.videos_played, 1);
}

#[test]
fn loading_names_the_file_and_gives_its_path() {
    let mut app = kiosk_with(&["001.mp4", "002.mp4"]);
    assert_eq!(app.load_video(1), Some("/videos/002.mp4".to_string()));
    assert_eq!(app.current_index, 1);
    assert_eq!(app.current_file_name, "002.mp4");
    assert_eq!(app.load_video(2), None);
    assert_eq!(app.current_index, 1);
    assert_eq!(app.current_file_name, "002.mp4");
}

#[test]
fn failed_load_is_shown_in_place_of_the_name() {
    let mut app = kiosk_with(&["001.mp4"]);
    app.load_video(0);
    app.load_failed("Video file not found: /videos/001.mp4");
    assert_eq!(
        app.current_file_name,
        "Error: Video file not found: /videos/001.mp4"
    );
}

#[test]
fn playing_session_keeps_the_kiosk_where_it_is() {
    let mut app = kiosk_with(&["001.mp4", "002.mp4"]);
    let player = VideoPlayer::new("/videos/001.mp4", true).unwrap();
    app.update_playback(&player);
    assert_eq!(app.current_index, 0);
    assert_eq!(app.load_video_index, None);
}

#[test]
fn ended_session_moves_the_kiosk_on() {
    let mut app = kiosk_with(&["001.mp4", "002.mp4"]);
    let mut player = VideoPlayer::new("/videos/001.mp4", true).unwrap();
    let mut video = DecodeLoop::video(0);
    video.step(LoopEvent::OpenFailed, false);
    player.loop_finished(&video, "corrupt");
    assert!(player.get_error().is_some());
    app.update_playback(&player);
    assert_eq!(app.current_index, 1);
    assert_eq!(app.load_video_index, Some(1));
}

#[test]
fn settle_delay_is_a_tenth_of_a_second() {
    assert_eq!(SETTLE_DELAY_MILLIS, 100);
}

#[test]
fn startup_asks_for_the_first_file() {
    let mut app = Kiosk::start(scanned(&["002.mp4", "001.mp4"]));
    assert_eq!(app.video_files.len(), 2);
    assert_eq!(app.current_index, 0);
    assert_eq!(app.current_file_name, "No file loaded");
    assert_eq!(app.take_load_request(), Some(0));
    assert_eq!(app.load_video(0), Some("/videos/001.mp4".to_string()));
}

#[test]
fn startup_without_files_asks_for_nothing() {
    let mut app = Kiosk::start(Vec::new());
    assert_eq!(app.take_load_request(), None);
    assert_eq!(app.video_files.len(), 0);
}
