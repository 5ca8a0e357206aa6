//! Playing a source with mpv: the profile choice, whether a local H.264
//! file goes through a live H.265 transcode, and the command lines.
pub mod params;

use vstd::prelude::*;

use crate::text::{
    chars_of, copy_range, cseqs, extend_strings, has_prefix, lines, opt_str, push_str_item,
    push_string_item, split_lines, str_eq, str_starts_with, str_trim, string_from, strs, trim,
};
use params::{is_1080p60, is_4k30, is_4k60, is_low_latency, spec_to_args, StreamParams};

verus! {

/// Whether mpv and ffmpeg are usable.
#[derive(Debug, Clone)]
pub struct StreamStatus {
    pub mpv_installed: bool,
    pub mpv_version: Option<String>,
    pub ffmpeg_installed: bool,
}

/// The status that the outcome of `mpv --version` and `ffmpeg -version`
/// gives: mpv's version is the first line of what it printed.
pub fn detect_environment(mpv_ok: bool, mpv_stdout: &str, ffmpeg_ok: bool) -> (st: StreamStatus)
    ensures
        st.mpv_installed == mpv_ok,
        st.ffmpeg_installed == ffmpeg_ok,
        opt_str(st.mpv_version) == if mpv_ok && lines(mpv_stdout@).len() > 0 {
            Some(lines(mpv_stdout@)[0])
        } else {
            None
        },
{
    let mut version: Option<String> = None;
    if mpv_ok {
        let ls = split_lines(&chars_of(mpv_stdout));
        if ls.len() > 0 {
            assert(cseqs(ls@)[0] == ls@[0]@);
            assert(ls@[0]@.subrange(0, ls@[0]@.len() as int) == ls@[0]@);
            version = Some(string_from(&ls[0], 0, ls[0].len()));
        }
    }
    StreamStatus { mpv_installed: mpv_ok, mpv_version: version, ffmpeg_installed: ffmpeg_ok }
}

/// The playback profiles, by name.
pub open spec fn is_profile(p: Seq<char>) -> bool {
    p == "4k60"@ || p == "default"@ || p == "4k30"@ || p == "1080p60"@ || p == "low-latency"@
}

/// The settings that the profile `name` stands for.
pub open spec fn profile_settings(name: Seq<char>, p: StreamParams) -> bool {
    if name == "4k60"@ || name == "default"@ {
        is_4k60(p)
    } else if name == "4k30"@ {
        is_4k30(p)
    } else if name == "1080p60"@ {
        is_1080p60(p)
    } else if name == "low-latency"@ {
        is_low_latency(p)
    } else {
        false
    }
}

/// The settings of the profile `name`, if there is such a profile.
pub fn profile_params(name: &str) -> (r: Option<StreamParams>)
    ensures
        r is Some <==> is_profile(name@),
        r matches Some(p) ==> profile_settings(name@, p),
{
    proof {
        reveal_strlit("4k60");
        reveal_strlit("default");
        reveal_strlit("4k30");
        reveal_strlit("1080p60");
        reveal_strlit("low-latency");
    }
    if str_eq(name, "4k60") || str_eq(name, "default") {
        Some(StreamParams::new_4k60())
    } else if str_eq(name, "4k30") {
        Some(StreamParams::new_4k30())
    } else if str_eq(name, "1080p60") {
        Some(StreamParams::new_1080p60())
    } else if str_eq(name, "low-latency") {
        Some(StreamParams::new_low_latency())
    } else {
        None
    }
}

/// A network source: never probed and never transcoded.
pub open spec fn is_remote(source: Seq<char>) -> bool {
    has_prefix(source, "http://"@) || has_prefix(source, "https://"@) || has_prefix(
        source,
        "rtsp://"@,
    ) || has_prefix(source, "rtp://"@)
}

pub fn is_remote_source(source: &str) -> (b: bool)
    ensures
        b == is_remote(source@),
{
    str_starts_with(source, "http://") || str_starts_with(source, "https://") || str_starts_with(
        source,
        "rtsp://",
    ) || str_starts_with(source, "rtp://")
}

/// The codec that ffprobe printed, trimmed, is H.264.
pub fn codec_is_h264(ffprobe_stdout: &str) -> (b: bool)
    ensures
        b == (trim(ffprobe_stdout@) == "h264"@),
{
    let t = str_trim(ffprobe_stdout);
    str_eq(t.as_str(), "h264")
}

/// Whether `source` is played through the live transcode: it is a local
/// file (not a URL), it exists, and ffprobe, run on it, succeeded and named
/// H.264 as the codec of its first video stream (`probe_output` is what it
/// printed, `None` when it was not run or failed).
pub fn should_transcode(source: &str, file_exists: bool, probe_output: Option<&str>) -> (b: bool)
    ensures
        b == (!is_remote(source@) && file_exists && match probe_output {
            Some(o) => trim(o@) == "h264"@,
            None => false,
        }),
{
    if is_remote_source(source) || !file_exists {
        return false;
    }
    match probe_output {
        Some(o) => codec_is_h264(o),
        None => false,
    }
}

/// How a source is played.
#[derive(Debug, Clone)]
pub enum PlayPlan {
    /// mpv plays the source itself.
    Direct { mpv_args: Vec<String> },
    /// ffmpeg converts the source to H.265 on a pipe that mpv plays; when mpv
    /// fails on the hardware encoder's output, the software encoder is tried.
    Transcode { ffmpeg_hw_args: Vec<String>, ffmpeg_sw_args: Vec<String>, mpv_args: Vec<String> },
}

pub enum StreamError {
    UnknownProfile,
}

/// The scaling target of the live transcode for a picture size.
pub open spec fn spec_resolution(width: u32, height: u32) -> Seq<char> {
    if width == 1920 && height == 1080 {
        "1920:1080"@
    } else {
        "3840:2160"@
    }
}

/// mpv's command line for playing `source` directly.
pub open spec fn spec_direct_args(p: StreamParams, source: Seq<char>, extra: Seq<Seq<char>>) -> Seq<
    Seq<char>,
> {
    spec_to_args(p).push(source) + extra
}

/// mpv's command line for playing the transcode pipe.
pub open spec fn spec_pipe_mpv_args(p: StreamParams, extra: Seq<Seq<char>>) -> Seq<Seq<char>> {
    spec_to_args(p).push("-"@) + extra
}

/// ffmpeg's command line for the live transcode with the hardware encoder.
pub open spec fn spec_pipe_hw_args(source: Seq<char>, p: StreamParams) -> Seq<Seq<char>> {
    seq![
        "-i"@, source, "-c:v"@, "hevc_v4l2m2m"@, "-pix_fmt"@, "yuv420p"@, "-vf"@,
        "scale="@ + spec_resolution(p.width, p.height), "-c:a"@, "copy"@, "-f"@, "matroska"@, "-"@,
    ]
}

/// ffmpeg's command line for the live transcode with the software encoder.
pub open spec fn spec_pipe_sw_args(source: Seq<char>, p: StreamParams) -> Seq<Seq<char>> {
    seq![
        "-i"@, source, "-c:v"@, "libx265"@, "-preset"@, "ultrafast"@, "-crf"@, "23"@, "-pix_fmt"@,
        "yuv420p"@, "-vf"@, "scale="@ + spec_resolution(p.width, p.height), "-c:a"@, "copy"@,
        "-f"@, "matroska"@, "-"@,
    ]
}

/// The plan for playing `source` with settings `p`.
pub open spec fn spec_plan(
    source: Seq<char>,
    p: StreamParams,
    extra: Seq<Seq<char>>,
    needs_transcode: bool,
    plan: PlayPlan,
) -> bool {
    if needs_transcode {
        plan matches PlayPlan::Transcode { ffmpeg_hw_args, ffmpeg_sw_args, mpv_args } && strs(
            ffmpeg_hw_args@,
        ) == spec_pipe_hw_args(source, p) && strs(ffmpeg_sw_args@) == spec_pipe_sw_args(source, p)
            && strs(mpv_args@) == spec_pipe_mpv_args(p, extra)
    } else {
        plan matches PlayPlan::Direct { mpv_args } && strs(mpv_args@) == spec_direct_args(
            p,
            source,
            extra,
        )
    }
}

fn resolution(p: &StreamParams) -> (r: String)
    ensures
        r@ == spec_resolution(p.width, p.height),
{
    if p.width == 1920 && p.height == 1080 {
        String::from_str("1920:1080")
    } else {
        String::from_str("3840:2160")
    }
}

fn scale_filter(p: &StreamParams) -> (r: String)
    ensures
        r@ == "scale="@ + spec_resolution(p.width, p.height),
{
    let mut s = String::from_str("scale=");
    s.append(resolution(p).as_str());
    s
}

/// mpv's command line for playing `source` directly with settings `p`.
pub fn direct_args(p: &StreamParams, source: &str, extra: &Vec<String>) -> (args: Vec<String>)
    ensures
        strs(args@) == spec_direct_args(*p, source@, strs(extra@)),
{
    let mut args = p.to_args();
    push_str_item(&mut args, source);
    extend_strings(&mut args, extra);
    args
}

/// mpv's command line for playing the transcode pipe with settings `p`.
pub fn pipe_mpv_args(p: &StreamParams, extra: &Vec<String>) -> (args: Vec<String>)
    ensures
        strs(args@) == spec_pipe_mpv_args(*p, strs(extra@)),
{
    let mut args = p.to_args();
    push_str_item(&mut args, "-");
    extend_strings(&mut args, extra);
    args
}

/// ffmpeg's command line for the live transcode of `source`, with the
/// hardware encoder or the software one.
pub fn pipe_ffmpeg_args(source: &str, p: &StreamParams, hardware: bool) -> (args: Vec<String>)
    ensures
        strs(args@) == if hardware {
            spec_pipe_hw_args(source@, *p)
        } else {
            spec_pipe_sw_args(source@, *p)
        },
{
    let mut a: Vec<String> = Vec::new();
    push_str_item(&mut a, "-i");
    push_str_item(&mut a, source);
    push_str_item(&mut a, "-c:v");
    if hardware {
        push_str_item(&mut a, "hevc_v4l2m2m");
    } else {
        push_str_item(&mut a, "libx265");
        push_str_item(&mut a, "-preset");
        push_str_item(&mut a, "ultrafast");
        push_str_item(&mut a, "-crf");
        push_str_item(&mut a, "23");
    }
    push_str_item(&mut a, "-pix_fmt");
    push_str_item(&mut a, "yuv420p");
    push_str_item(&mut a, "-vf");
    push_string_item(&mut a, scale_filter(p));
    push_str_item(&mut a, "-c:a");
    push_str_item(&mut a, "copy");
    push_str_item(&mut a, "-f");
    push_str_item(&mut a, "matroska");
    push_str_item(&mut a, "-");
    if hardware {
        assert(strs(a@) =~= spec_pipe_hw_args(source@, *p));
    } else {
        assert(strs(a@) =~= spec_pipe_sw_args(source@, *p));
    }
    a
}

/// The plan for playing `source` with settings `p`: through the live
/// transcode when `needs_transcode`, else directly.
pub fn plan_playback(source: &str, p: &StreamParams, extra: &Vec<String>, needs_transcode: bool) -> (plan: PlayPlan)
    ensures
        spec_plan(source@, *p, strs(extra@), needs_transcode, plan),
{
    if needs_transcode {
        PlayPlan::Transcode {
            ffmpeg_hw_args: pipe_ffmpeg_args(source, p, true),
            ffmpeg_sw_args: pipe_ffmpeg_args(source, p, false),
            mpv_args: pipe_mpv_args(p, extra),
        }
    } else {
        PlayPlan::Direct { mpv_args: direct_args(p, source, extra) }
    }
}

/// The plan for playing `source` with the profile `profile`; whether the
/// source needs the live transcode is what probing it found (a local H.264
/// file).  An unknown profile is refused.
pub fn play_with_profile(source: &str, profile: &str, extra_params: &Vec<String>, needs_transcode: bool) -> (r: Result<PlayPlan, StreamError>)
    ensures
        r is Err <==> !is_profile(profile@),
        r matches Ok(plan) ==> exists|p: StreamParams| profile_settings(profile@, p) && spec_plan(
            source@,
            p,
            strs(extra_params@),
            needs_transcode,
            plan,
        ),
{
    match profile_params(profile) {
        Some(p) => Ok(plan_playback(source, &p, extra_params, needs_transcode)),
        None => Err(StreamError::UnknownProfile),
    }
}

/// mpv's command line for playing `source` with the 4K 60 fps settings, directly.
pub fn play(source: &str, extra_params: &Vec<String>) -> (args: Vec<String>)
    ensures
        exists|p: StreamParams| is_4k60(p) && strs(args@) == spec_direct_args(p, source@, strs(extra_params@)),
{
    let p = StreamParams::new_4k60();
    direct_args(&p, source, extra_params)
}

/// Which way of playing mpv was just run with.
#[derive(Debug, Clone, Copy, PartialEq, Eq, Structural)]
pub enum PlayAttempt {
    /// mpv on the source itself.
    Direct,
    /// mpv on the pipe of the hardware encoder.
    HardwarePipe,
    /// mpv on the pipe of the software encoder.
    SoftwarePipe,
}

/// What to do after mpv has run.
#[derive(Debug, Clone, Copy, PartialEq, Eq, Structural)]
pub enum PlayStep {
    /// mpv exited successfully: playback is over.
    Finished,
    /// The hardware pipe failed: run mpv on the software pipe.
    RetrySoftware,
    /// Playback failed.
    Failed,
}

/// After a successful run playback is over; a failed run on the hardware
/// pipe falls back to the software pipe, and any other failure is an error.
pub open spec fn spec_next_play_step(attempt: PlayAttempt, mpv_ok: bool) -> PlayStep {
    if mpv_ok {
        PlayStep::Finished
    } else if attempt == PlayAttempt::HardwarePipe {
        PlayStep::RetrySoftware
    } else {
        PlayStep::Failed
    }
}

/// The next step of playback after mpv ran as `attempt` and exited
/// successfully or not.
pub fn next_play_step(attempt: PlayAttempt, mpv_ok: bool) -> (s: PlayStep)
    ensures
        s == spec_next_play_step(attempt, mpv_ok),
{
    if mpv_ok {
        PlayStep::Finished
    } else {
        match attempt {
            PlayAttempt::HardwarePipe => PlayStep::RetrySoftware,
            _ => PlayStep::Failed,
        }
    }
}

/// A transcoded playback runs mpv at most twice: once on the hardware pipe
/// and, only if that fails, once on the software pipe, after which it is
/// over either way.
pub proof fn law_play_fallback_once(first_ok: bool, second_ok: bool)
    ensures
        spec_next_play_step(PlayAttempt::HardwarePipe, first_ok) == PlayStep::RetrySoftware <==> !first_ok,
        spec_next_play_step(PlayAttempt::SoftwarePipe, second_ok) != PlayStep::RetrySoftware,
        spec_next_play_step(PlayAttempt::Direct, second_ok) != PlayStep::RetrySoftware,
{
}

} // verus!
