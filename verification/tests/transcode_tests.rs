use stream_cli::transcode::{batch_step, BatchAction, BatchRun, FileOutcome};
use stream_cli::transcode::{
    h265_name, is_video_extension, is_video_path, summarize_probe, watch_output_key, BatchResult,
    ProbeStream, TranscodeConfig, WatchState,
};

#[test]
fn converted_name_from_stem() {
    assert_eq!(h265_name(Some("clip")), "clip_h265.mp4");
    assert_eq!(h265_name(None), "output_h265.mp4");
}

#[test]
fn output_beside_input() {
    let c = TranscodeConfig::new_h264_to_h265("/videos/a.mov", None);
    assert_eq!(c.output, "/videos/a_h265.mp4");
    let c = TranscodeConfig::new_h264_to_h265("clip.mp4", None);
    assert_eq!(c.output, "clip_h265.mp4");
    let c = TranscodeConfig::new_h264_to_h265("/videos/archive.tar.mkv", None);
    assert_eq!(c.output, "/videos/archive.tar_h265.mp4");
}

#[test]
fn hardware_command_line() {
    let c = TranscodeConfig::new_h264_to_h265("/in.mp4", Some("/out.mp4"));
    assert_eq!(
        c.to_ffmpeg_args(),
        vec![
            "-y", "-i", "/in.mp4", "-c:v", "hevc_v4l2m2m", "-pix_fmt", "yuv420p", "-c:a", "copy",
            "-movflags", "+faststart", "/out.mp4"
        ]
    );
}

#[test]
fn software_command_line_with_scale() {
    let c = TranscodeConfig::new_h264_to_h265("/in.mp4", Some("/out.mp4"))
        .with_software_fallback()
        .with_crf(30)
        .with_resolution(1280, 720);
    assert_eq!(
        c.to_ffmpeg_args(),
        vec![
            "-y", "-i", "/in.mp4", "-c:v", "libx265", "-preset", "medium", "-crf", "30", "-pix_fmt",
            "yuv420p", "-vf", "scale=1280:720", "-c:a", "copy", "-movflags", "+faststart", "/out.mp4"
        ]
    );
}

#[test]
fn crf_edges() {
    assert_eq!(TranscodeConfig::default().with_crf(0).crf, 0);
    assert_eq!(TranscodeConfig::default().with_crf(51).crf, 51);
    assert_eq!(TranscodeConfig::default().with_crf(52).crf, 51);
    assert_eq!(TranscodeConfig::default().with_crf(255).crf, 51);
}

#[test]
fn re_encoded_audio_options() {
    let mut c = TranscodeConfig::new_h264_to_h265("/in.mp4", Some("/out.mp4"));
    c.copy_audio = false;
    let args = c.to_ffmpeg_args();
    let i = args.iter().position(|a| a == "-c:a").unwrap();
    assert_eq!(&args[i..i + 4], &["-c:a", "aac", "-b:a", "128k"]);
}

fn stream(kind: Option<&str>, codec: Option<&str>, w: Option<u64>, h: Option<u64>) -> ProbeStream {
    ProbeStream {
        codec_type: kind.map(String::from),
        codec_name: codec.map(String::from),
        width: w,
        height: h,
    }
}

#[test]
fn probe_summary_of_h264_file() {
    let streams = vec![
        stream(Some("video"), Some("h264"), Some(1920), Some(1080)),
        stream(Some("audio"), Some("aac"), None, None),
        stream(None, Some("bin"), None, None),
    ];
    let s = summarize_probe("/v/a.mp4", &streams, Some("1048576"));
    assert_eq!(s.path, "/v/a.mp4");
    assert_eq!(s.video_codec.as_deref(), Some("h264"));
    assert_eq!(s.width, Some(1920));
    assert_eq!(s.height, Some(1080));
    assert_eq!(s.audio_codec.as_deref(), Some("aac"));
    assert_eq!(s.size_bytes, 1048576);
    assert!(s.needs_transcode);
}

#[test]
fn probe_summary_takes_last_streams_and_bad_size() {
    let streams = vec![
        stream(Some("video"), Some("h264"), Some(1920), Some(1080)),
        stream(Some("video"), Some("hevc"), Some(3840), Some(2160)),
    ];
    let s = summarize_probe("x", &streams, Some("12x"));
    assert_eq!(s.video_codec.as_deref(), Some("hevc"));
    assert_eq!(s.width, Some(3840));
    assert_eq!(s.audio_codec, None);
    assert_eq!(s.size_bytes, 0);
    assert!(!s.needs_transcode);
    let s = summarize_probe("x", &vec![], None);
    assert_eq!(s.video_codec, None);
    assert_eq!(s.width, None);
    assert_eq!(s.size_bytes, 0);
}

#[test]
fn batch_tally() {
    let mut b = BatchResult::new(3);
    b.record_success();
    b.record_skipped();
    b.record_failure("/v/c.mp4: probe failed".to_string());
    assert_eq!(b.total, 3);
    assert_eq!(b.success, 1);
    assert_eq!(b.skipped, 1);
    assert_eq!(b.failed, 1);
    assert_eq!(b.errors, vec!["/v/c.mp4: probe failed".to_string()]);
}

#[test]
fn video_files_by_extension() {
    assert!(is_video_extension("MKV"));
    assert!(is_video_extension("m2ts"));
    assert!(!is_video_extension("txt"));
    assert!(is_video_path("/a/B.MP4"));
    assert!(is_video_path("/a/movie.webm"));
    assert!(!is_video_path("/a/notes.txt"));
    assert!(!is_video_path("/a/noext"));
    assert!(!is_video_path("/a/.mp4"));
}

#[test]
fn watch_output_names() {
    assert_eq!(watch_output_key("/d/a.mkv"), "/d/a_h265.mp4");
    assert_eq!(watch_output_key("/d/a.avi"), "/d/a_h265.mp4");
    assert_eq!(watch_output_key("/d/a.mov"), "/d/a_h265.mp4");
    assert_eq!(watch_output_key("/d/clip.m2ts"), "/d/clip_h265.mp4");
    assert_eq!(watch_output_key("/d/a.mp4.avi"), "/d/a.mp4_h265.mp4");
}

#[test]
fn watcher_handles_each_file_once() {
    let mut w = WatchState::new();
    assert!(w.should_process("/d/a.mp4", false));
    assert!(!w.should_process("/d/b.mp4", true));
    w.mark_processed("/d/a.mp4");
    assert!(!w.should_process("/d/a.mp4", false));
    assert!(w.should_process("/d/b.mp4", false));
}

#[test]
fn probe_report_is_read_from_json() {
    let json = br#"{"streams":[{"codec_type":"video","codec_name":"h264","width":1920,"height":1080,"r_frame_rate":"30/1"},{"codec_type":"audio","codec_name":"aac"}],"format":{"size":"2048","duration":"1.5"}}"#;
    let s = stream_cli::transcode::probe_summary("/v/a.mp4", json).unwrap();
    assert_eq!(s.video_codec.as_deref(), Some("h264"));
    assert_eq!(s.width, Some(1920));
    assert_eq!(s.height, Some(1080));
    assert_eq!(s.audio_codec.as_deref(), Some("aac"));
    assert_eq!(s.size_bytes, 2048);
    assert!(s.needs_transcode);
    assert!(stream_cli::transcode::probe_summary("x", b"not json").is_none());
    let s = stream_cli::transcode::probe_summary("x", br#"{"streams":"none","format":{"size":12}}"#).unwrap();
    assert_eq!(s.video_codec, None);
    assert_eq!(s.size_bytes, 0);
}

#[test]
fn batch_steps() {
    let mut b = BatchResult::new(4);
    assert_eq!(batch_step(&mut b, "/v/a.mp4", Err("bad".to_string()), None), BatchAction::Next);
    assert_eq!(batch_step(&mut b, "/v/b.mp4", Ok(false), None), BatchAction::Next);
    assert_eq!(batch_step(&mut b, "/v/c.mp4", Ok(true), None), BatchAction::Convert);
    assert_eq!((b.success, b.failed, b.skipped), (0, 1, 1));
    assert_eq!(batch_step(&mut b, "/v/c.mp4", Ok(true), Some(Ok(()))), BatchAction::Next);
    assert_eq!(batch_step(&mut b, "/v/d.mp4", Ok(true), Some(Err("ffmpeg 오류".to_string()))), BatchAction::Next);
    assert_eq!((b.success, b.failed, b.skipped), (1, 2, 1));
    assert_eq!(b.success + b.failed + b.skipped, b.total);
    assert_eq!(b.errors, vec!["/v/a.mp4: probe 실패 - bad".to_string(), "/v/d.mp4: ffmpeg 오류".to_string()]);
}

#[test]
fn command_line_flags_follow_settings() {
    // Hardware encoder named libx265: the rate factor at index 5, no preset.
    let mut c = TranscodeConfig::new_h264_to_h265("/in.mp4", Some("/out.mp4"));
    c.codec = "libx265".to_string();
    let a = c.to_ffmpeg_args();
    assert_eq!(a[5], "-crf");
    assert_eq!(a[6], "23");
    assert!(!a.iter().any(|x| x == "-preset"));
    assert_eq!(a.iter().filter(|x| *x == "-crf").count(), 1);
    assert_eq!(a.len(), 12 + 2);
    // Software encoder other than x265: the preset at index 5, no rate factor.
    let mut c = TranscodeConfig::new_h264_to_h265("/in.mp4", Some("/out.mp4"));
    c.hw_accel = false;
    c.copy_audio = false;
    let a = c.to_ffmpeg_args();
    assert_eq!(&a[3..7], &["-c:v", "hevc_v4l2m2m", "-preset", "medium"]);
    assert!(!a.iter().any(|x| x == "-crf"));
    assert!(!a.iter().any(|x| x == "-vf"));
    assert!(a.iter().any(|x| x == "-b:a"));
    assert_eq!(a.len(), 12 + 2 + 2);
    assert_eq!(&a[a.len() - 7..], &["-c:a", "aac", "-b:a", "128k", "-movflags", "+faststart", "/out.mp4"]);
    // Only one dimension set: no scaling filter.
    let mut c = TranscodeConfig::new_h264_to_h265("/in.mp4", Some("/out.mp4"));
    c.width = Some(640);
    assert!(!c.to_ffmpeg_args().iter().any(|x| x == "-vf"));
    // Both set, software x265: the filter at 7 + 2 + 2.
    let c = TranscodeConfig::new_h264_to_h265("/in.mp4", Some("/out.mp4"))
        .with_software_fallback()
        .with_resolution(640, 360);
    let a = c.to_ffmpeg_args();
    assert_eq!(a[11], "-vf");
    assert_eq!(a[12], "scale=640:360");
    assert_eq!(a.len(), 12 + 2 + 2 + 2);
}

#[test]
fn watch_step_waits_for_conversion_then_remembers() {
    let mut w = WatchState::new();
    let probe: Result<bool, String> = Ok(true);
    assert_eq!(w.watch_step("/v/a.mov", &probe, &None), None);
    assert!(w.should_process("/v/a.mov", false));
    assert_eq!(w.watch_step("/v/a.mov", &probe, &Some(Ok(()))), Some(FileOutcome::Converted));
    assert!(!w.should_process("/v/a.mov", false));
    let failed: Result<bool, String> = Err("bad".to_string());
    assert_eq!(w.watch_step("/v/b.ts", &failed, &None), Some(FileOutcome::ProbeFailed));
    assert_eq!(w.watch_step("/v/c.mkv", &Ok(false), &None), Some(FileOutcome::Skipped));
    assert_eq!(
        w.watch_step("/v/d.mp4", &Ok(true), &Some(Err("x".to_string()))),
        Some(FileOutcome::ConvertFailed)
    );
    assert_eq!(w.processed.len(), 4);
}

#[test]
fn watcher_remembers_each_file_once() {
    let mut w = WatchState::new();
    w.mark_processed("/v/a.mov");
    w.mark_processed("/v/a.mov");
    assert_eq!(w.processed, vec!["/v/a.mov".to_string()]);
    assert_eq!(w.watch_step("/v/a.mov", &Ok(false), &None), Some(FileOutcome::Skipped));
    assert_eq!(w.processed.len(), 1);
}

#[test]
fn batch_run_counts_every_file_once() {
    let files = vec!["/v/a.mp4".to_string(), "/v/b.mkv".to_string(), "/v/c.mov".to_string()];
    let mut run = BatchRun::new(files);
    assert!(!run.is_done());
    assert_eq!(run.step(Ok(true), None), BatchAction::Convert);
    assert_eq!(run.next, 0);
    assert_eq!(run.step(Ok(true), Some(Ok(()))), BatchAction::Next);
    assert_eq!(run.step(Ok(false), None), BatchAction::Next);
    assert_eq!(run.step(Err("no ffprobe".to_string()), None), BatchAction::Next);
    assert!(run.is_done());
    let r = &run.result;
    assert_eq!((r.success, r.failed, r.skipped, r.total), (1, 1, 1, 3));
    assert_eq!(r.errors, vec!["/v/c.mov: probe 실패 - no ffprobe".to_string()]);
}
