use stream_cli::stream::{next_play_step, PlayAttempt, PlayStep};
use stream_cli::stream::params::StreamParams;
use stream_cli::stream::{
    codec_is_h264, is_remote_source, play, play_with_profile, profile_params, should_transcode,
    detect_environment, PlayPlan,
};

#[test]
fn remote_sources_are_recognised() {
    assert!(is_remote_source("http://host/a.mp4"));
    assert!(is_remote_source("rtsp://cam/stream"));
    assert!(is_remote_source("rtp://239.0.0.1:5004"));
    assert!(!is_remote_source("/videos/a.mp4"));
    assert!(!is_remote_source("ftp://host/a.mp4"));
}

#[test]
fn h264_codec_is_read_trimmed() {
    assert!(codec_is_h264("h264\n"));
    assert!(codec_is_h264("  h264 "));
    assert!(!codec_is_h264("hevc\n"));
    assert!(!codec_is_h264(""));
}

#[test]
fn transcode_decision() {
    assert!(should_transcode("/v/a.mp4", true, Some("h264\n")));
    assert!(!should_transcode("http://x/a.mp4", true, Some("h264")));
    assert!(!should_transcode("/v/a.mp4", false, Some("h264")));
    assert!(!should_transcode("/v/a.mp4", true, Some("hevc")));
    assert!(!should_transcode("/v/a.mp4", true, None));
}

#[test]
fn status_takes_first_line_of_mpv_version() {
    let st = detect_environment(true, "mpv 0.37.0 Copyright\nbuilt on today\n", false);
    assert!(st.mpv_installed);
    assert_eq!(st.mpv_version.as_deref(), Some("mpv 0.37.0 Copyright"));
    assert!(!st.ffmpeg_installed);
    let st = detect_environment(false, "ignored", true);
    assert!(!st.mpv_installed);
    assert_eq!(st.mpv_version, None);
    assert!(st.ffmpeg_installed);
}

#[test]
fn profiles_by_name() {
    assert_eq!(profile_params("4k60").unwrap().fps, 60);
    assert_eq!(profile_params("default").unwrap().fps, 60);
    assert_eq!(profile_params("4k30").unwrap().fps, 30);
    assert_eq!(profile_params("1080p60").unwrap().width, 1920);
    assert!(!profile_params("low-latency").unwrap().cache);
    assert!(profile_params("8k").is_none());
}

#[test]
fn unknown_profile_is_refused() {
    assert!(play_with_profile("a.mp4", "bogus", &vec![], false).is_err());
}

#[test]
fn direct_play_puts_source_after_options() {
    let extra = vec!["--fs".to_string()];
    match play_with_profile("a.mkv", "4k30", &extra, false) {
        Ok(PlayPlan::Direct { mpv_args }) => {
            let n = mpv_args.len();
            assert_eq!(mpv_args[n - 2], "a.mkv");
            assert_eq!(mpv_args[n - 1], "--fs");
            assert_eq!(mpv_args[0], "--vo=gpu");
        }
        _ => panic!("expected a direct plan"),
    }
}

#[test]
fn transcode_play_scales_to_profile() {
    match play_with_profile("/v/a.mp4", "1080p60", &vec![], true) {
        Ok(PlayPlan::Transcode { ffmpeg_hw_args, ffmpeg_sw_args, mpv_args }) => {
            assert_eq!(
                ffmpeg_hw_args,
                vec![
                    "-i", "/v/a.mp4", "-c:v", "hevc_v4l2m2m", "-pix_fmt", "yuv420p", "-vf",
                    "scale=1920:1080", "-c:a", "copy", "-f", "matroska", "-"
                ]
            );
            assert_eq!(
                ffmpeg_sw_args,
                vec![
                    "-i", "/v/a.mp4", "-c:v", "libx265", "-preset", "ultrafast", "-crf", "23",
                    "-pix_fmt", "yuv420p", "-vf", "scale=1920:1080", "-c:a", "copy", "-f",
                    "matroska", "-"
                ]
            );
            assert_eq!(mpv_args.last().map(|s| s.as_str()), Some("-"));
        }
        _ => panic!("expected a transcode plan"),
    }
}

#[test]
fn play_uses_4k60_settings() {
    let args = play("x.mkv", &vec![]);
    let expected = StreamParams::new_4k60().to_args();
    assert_eq!(&args[..expected.len()], &expected[..]);
    assert_eq!(args.last().map(|s| s.as_str()), Some("x.mkv"));
}

#[test]
fn vulkan_switch_replaces_opengl_options() {
    let p = StreamParams::new_4k60().with_api("vulkan");
    assert!(!p.extra.iter().any(|e| e.starts_with("--opengl")));
    let contexts: Vec<&String> = p.extra.iter().filter(|e| e.starts_with("--gpu-context")).collect();
    assert_eq!(contexts, vec!["--gpu-context=waylandvk"]);
    assert!(p.extra.contains(&"--spirv-compiler=auto".to_string()));
}

#[test]
fn other_api_keeps_extras() {
    let p = StreamParams::new_4k60();
    let q = StreamParams::new_4k60().with_api("opengl");
    assert_eq!(p.extra, q.extra);
    assert_eq!(q.gpu_api, "opengl");
}

#[test]
fn arguments_follow_settings_order() {
    let args = StreamParams::new_4k30().to_args();
    assert_eq!(
        &args[..8],
        &[
            "--vo=gpu",
            "--hwdec=auto",
            "--gpu-api=opengl",
            "--video-sync=display-resample",
            "--profile=fast",
            "--ao=alsa",
            "--audio-channels=2",
            "--cache=10"
        ]
    );
    assert!(!args.contains(&"--interpolation".to_string()));
}

#[test]
fn playback_falls_back_to_software_once() {
    assert_eq!(next_play_step(PlayAttempt::HardwarePipe, true), PlayStep::Finished);
    assert_eq!(next_play_step(PlayAttempt::HardwarePipe, false), PlayStep::RetrySoftware);
    assert_eq!(next_play_step(PlayAttempt::SoftwarePipe, false), PlayStep::Failed);
    assert_eq!(next_play_step(PlayAttempt::SoftwarePipe, true), PlayStep::Finished);
    assert_eq!(next_play_step(PlayAttempt::Direct, false), PlayStep::Failed);
    assert_eq!(next_play_step(PlayAttempt::Direct, true), PlayStep::Finished);
}
