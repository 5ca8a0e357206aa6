//! H.264 to H.265 conversion with ffmpeg: the conversion settings and their
//! command line, the summary of an ffprobe report, and the bookkeeping of
//! batch and watch conversions.
use vstd::prelude::*;

use std::path::Path;

use crate::text::{
    chars_of, decimal, eq_chars, is_digit, lemma_decimal_plain, extend_strings, opt_str, parse_uint, parse_unsigned,
    push_decimal, push_str_item, push_string_item, str_eq, strs, to_lowercase, spec_to_lowercase,
    string_from, string_of, copy_range, free_of,
};

verus! {

// ---------------------------------------------------------------------------
// Paths
// ---------------------------------------------------------------------------

/// What `Path::file_stem` gives for a path: the final component without its
/// extension (by the path rules of the target, Unix here).
pub uninterp spec fn spec_file_stem(path: Seq<char>) -> Option<Seq<char>>;

/// What `Path::parent` gives for a path.
pub uninterp spec fn spec_parent(path: Seq<char>) -> Option<Seq<char>>;

/// What `Path::join` gives for a base path and a file name.
pub uninterp spec fn spec_join_path(base: Seq<char>, name: Seq<char>) -> Seq<char>;

/// What `Path::extension` gives for a path.
pub uninterp spec fn spec_extension(path: Seq<char>) -> Option<Seq<char>>;

/// `Path::file_stem`, as text.  The contract says no more than that the
/// result is the named function of the path.
#[verifier::external_body]
fn file_stem(path: &str) -> (r: Option<String>)
    ensures
        opt_str(r) == spec_file_stem(path@),
{
    match Path::new(path).file_stem() {
        Some(s) => Some(s.to_string_lossy().into_owned()),
        None => None,
    }
}

/// `Path::parent`, as text.  The contract says no more than that the result
/// is the named function of the path.
#[verifier::external_body]
fn parent(path: &str) -> (r: Option<String>)
    ensures
        opt_str(r) == spec_parent(path@),
{
    match Path::new(path).parent() {
        Some(p) => Some(p.to_string_lossy().into_owned()),
        None => None,
    }
}

/// `Path::join`, as text.  The contract says no more than that the result is
/// the named function of the two arguments.
#[verifier::external_body]
fn join_path(base: &str, name: &str) -> (r: String)
    ensures
        r@ == spec_join_path(base@, name@),
{
    Path::new(base).join(name).to_string_lossy().into_owned()
}

/// `Path::extension`, as text.  The contract says no more than that the
/// result is the named function of the path.
#[verifier::external_body]
fn extension(path: &str) -> (r: Option<String>)
    ensures
        opt_str(r) == spec_extension(path@),
{
    match Path::new(path).extension() {
        Some(e) => Some(e.to_string_lossy().into_owned()),
        None => None,
    }
}

/// Where the final component of a path starts: just after its last `/`.
pub open spec fn component_start(p: Seq<char>) -> int
    decreases p.len(),
{
    if p.len() == 0 {
        0
    } else if p.last() == '/' {
        p.len() as int
    } else {
        component_start(p.drop_last())
    }
}

/// The text after the last `/` of a path.
pub open spec fn final_component(p: Seq<char>) -> Seq<char> {
    p.skip(component_start(p))
}

/// A path whose final component is an ordinary file name: not empty (the
/// path does not end in `/`), and neither `.` nor `..`.
pub open spec fn plain_file_path(p: Seq<char>) -> bool {
    let f = final_component(p);
    f.len() > 0 && f != seq!['.'] && f != seq!['.', '.']
}

/// The position of the last `.` of a name.
pub open spec fn last_dot(f: Seq<char>) -> Option<int>
    decreases f.len(),
{
    if f.len() == 0 {
        None
    } else if f.last() == '.' {
        Some(f.len() - 1)
    } else {
        last_dot(f.drop_last())
    }
}

/// The extension of a file name, as `Path::extension` documents it: none
/// without a `.`, none when the only `.` starts the name, else the text
/// after the last `.`.
pub open spec fn name_extension(f: Seq<char>) -> Option<Seq<char>> {
    match last_dot(f) {
        Some(k) => if k > 0 {
            Some(f.skip(k + 1))
        } else {
            None
        },
        None => None,
    }
}

/// The extension of a path: that of its file name for a path that ends in
/// an ordinary file name, else what `Path::extension` gives.
pub open spec fn path_extension(p: Seq<char>) -> Option<Seq<char>> {
    if plain_file_path(p) {
        name_extension(final_component(p))
    } else {
        spec_extension(p)
    }
}

/// A path's final component, whether it is an ordinary file name, and the
/// position of its last dot.
fn final_name(path: &str) -> (r: (Vec<char>, bool, Option<usize>))
    ensures
        r.0@ == final_component(path@),
        r.1 == plain_file_path(path@),
        match r.2 {
            Some(k) => last_dot(r.0@) == Some(k as int) && k < r.0@.len(),
            None => last_dot(r.0@) is None,
        },
{
    let cs = chars_of(path);
    let n = cs.len();
    let mut st: usize = 0;
    let mut i: usize = 0;
    while i < n
        invariant
            n == cs@.len(),
            0 <= i <= n,
            st <= i,
            st == component_start(cs@.take(i as int)),
        decreases n - i,
    {
        assert(cs@.take(i + 1).drop_last() == cs@.take(i as int));
        assert(cs@.take(i + 1).last() == cs@[i as int]);
        if cs[i] == '/' {
            st = i + 1;
        }
        i += 1;
    }
    assert(cs@.take(n as int) == cs@);
    let f = copy_range(&cs, st, n);
    assert(f@ == final_component(path@));
    let m = f.len();
    let plain = m > 0 && !(m == 1 && f[0] == '.') && !(m == 2 && f[0] == '.' && f[1] == '.');
    assert(plain == plain_file_path(path@)) by {
        if m == 1 && f@[0] == '.' {
            assert(f@ =~= seq!['.']);
        }
        if m == 2 && f@[0] == '.' && f@[1] == '.' {
            assert(f@ =~= seq!['.', '.']);
        }
        if f@ == seq!['.'] {
            assert(f@[0] == '.');
        }
        if f@ == seq!['.', '.'] {
            assert(f@[0] == '.' && f@[1] == '.');
        }
    }
    let mut ld: Option<usize> = None;
    let mut j: usize = 0;
    while j < m
        invariant
            m == f@.len(),
            0 <= j <= m,
            match ld {
                Some(k) => last_dot(f@.take(j as int)) == Some(k as int) && k < j,
                None => last_dot(f@.take(j as int)) is None,
            },
        decreases m - j,
    {
        assert(f@.take(j + 1).drop_last() == f@.take(j as int));
        assert(f@.take(j + 1).last() == f@[j as int]);
        if f[j] == '.' {
            ld = Some(j);
        }
        j += 1;
    }
    assert(f@.take(m as int) == f@);
    (f, plain, ld)
}

/// The extension of a path, as text.
fn file_extension(path: &str) -> (r: Option<String>)
    ensures
        opt_str(r) == path_extension(path@),
{
    let (f, plain, ld) = final_name(path);
    if !plain {
        return extension(path);
    }
    match ld {
        Some(k) => if k > 0 {
            let m = f.len();
            assert(k < m);
            let e = copy_range(&f, k + 1, m);
            assert(e@ == f@.skip(k + 1));
            Some(string_of(&e))
        } else {
            None
        },
        None => None,
    }
}

/// The stem of a file name, as `Path::file_stem` documents it: the whole
/// name without a `.` or when the only `.` starts it, else the text before
/// the last `.`.
pub open spec fn name_stem(f: Seq<char>) -> Seq<char> {
    match last_dot(f) {
        Some(k) => if k > 0 {
            f.take(k)
        } else {
            f
        },
        None => f,
    }
}

/// The stem of a path: that of its file name for a path that ends in an
/// ordinary file name, else what `Path::file_stem` gives.
pub open spec fn path_stem(p: Seq<char>) -> Option<Seq<char>> {
    if plain_file_path(p) {
        Some(name_stem(final_component(p)))
    } else {
        spec_file_stem(p)
    }
}

/// The stem of a path, as text.
fn stem_of(path: &str) -> (r: Option<String>)
    ensures
        opt_str(r) == path_stem(path@),
{
    let (f, plain, ld) = final_name(path);
    if !plain {
        return file_stem(path);
    }
    match ld {
        Some(k) => if k > 0 {
            let t = copy_range(&f, 0, k);
            assert(t@ == f@.take(k as int));
            Some(string_of(&t))
        } else {
            Some(string_of(&f))
        },
        None => Some(string_of(&f)),
    }
}

proof fn lemma_component_start_bounds(p: Seq<char>)
    ensures
        0 <= component_start(p) <= p.len(),
        p.len() > 0 && p.last() != '/' ==> component_start(p) < p.len(),
        forall|i: int| component_start(p) <= i < p.len() ==> p[i] != '/',
    decreases p.len(),
{
    if p.len() > 0 && p.last() != '/' {
        lemma_component_start_bounds(p.drop_last());
        assert forall|i: int| component_start(p) <= i < p.len() implies p[i] != '/' by {
            if i < p.len() - 1 {
                assert(p[i] == p.drop_last()[i]);
            }
        }
    }
}

/// Appending text without `/` to a path extends its final component.
proof fn lemma_component_start_append(p: Seq<char>, e: Seq<char>)
    requires
        free_of(e, '/'),
    ensures
        component_start(p + e) == component_start(p),
    decreases e.len(),
{
    if e.len() > 0 {
        let e0 = e.drop_last();
        assert(free_of(e0, '/'));
        lemma_component_start_append(p, e0);
        assert((p + e).drop_last() == p + e0);
        assert((p + e).last() == e.last());
        assert(e.last() == e[e.len() - 1]);
    } else {
        assert(p + e == p);
    }
}

/// Appending text without `.` after a `.` puts the last dot there.
proof fn lemma_last_dot_append(f: Seq<char>, e: Seq<char>)
    requires
        free_of(e, '.'),
    ensures
        last_dot(f.push('.') + e) == Some(f.len() as int),
    decreases e.len(),
{
    if e.len() > 0 {
        let e0 = e.drop_last();
        assert(free_of(e0, '.'));
        lemma_last_dot_append(f, e0);
        assert((f.push('.') + e).drop_last() == f.push('.') + e0);
        assert((f.push('.') + e).last() == e.last());
        assert(e.last() == e[e.len() - 1]);
    } else {
        assert(f.push('.') + e == f.push('.'));
    }
}

/// The extension of a path that ends in a file name `NAME.EXT`, where EXT
/// holds no `.` or `/`, is EXT: the text after the last dot of the final
/// component, whatever dots come before it (`a.2019.mp4` has `mp4`); its
/// stem is NAME, dots included. The one path of that shape excluded is
/// `..`, which ends in no file name.
pub proof fn law_extension_after_last_dot(p: Seq<char>, e: Seq<char>)
    requires
        p.len() > 0,
        p.last() != '/',
        free_of(e, '.'),
        free_of(e, '/'),
        e.len() > 0 || final_component(p) != seq!['.'],
    ensures
        path_extension(p.push('.') + e) == Some(e),
        path_stem(p.push('.') + e) == Some(final_component(p)),
        spec_is_video_path(p.push('.') + e) == video_extensions().contains(spec_to_lowercase(e)),
{
    let q = p.push('.') + e;
    lemma_component_start_bounds(p);
    let s = component_start(p);
    assert(p.push('.').drop_last() == p);
    assert(component_start(p.push('.')) == s);
    assert(free_of(e, '/'));
    lemma_component_start_append(p.push('.'), e);
    assert(component_start(q) == s);
    let f = final_component(p);
    assert(final_component(q) =~= f.push('.') + e);
    assert(f.len() > 0);
    lemma_last_dot_append(f, e);
    assert((f.push('.') + e).skip(f.len() as int + 1) =~= e);
    assert((f.push('.') + e).take(f.len() as int) =~= f);
    let g = f.push('.') + e;
    assert(g.len() >= 2);
    assert(g != seq!['.']);
    if g == seq!['.', '.'] {
        assert(e.len() == 0);
        assert(f =~= seq!['.']);
    }
}

// ---------------------------------------------------------------------------
// Conversion settings
// ---------------------------------------------------------------------------

/// Largest constant rate factor that x265 accepts.
pub const MAX_CRF: u8 = 51;

/// Settings of one conversion.
#[derive(Debug, Clone)]
pub struct TranscodeConfig {
    pub input: String,
    pub output: String,
    pub codec: String,
    pub preset: String,
    pub crf: u8,
    pub pixel_format: String,
    pub width: Option<u32>,
    pub height: Option<u32>,
    pub hw_accel: bool,
    pub copy_audio: bool,
    pub container: String,
}

/// The default settings, apart from the paths: the V4L2 memory-to-memory
/// HEVC encoder, `medium` preset, CRF 23, `yuv420p`, unchanged picture size,
/// hardware acceleration, copied audio, MP4 container.
pub open spec fn default_settings(c: TranscodeConfig) -> bool {
    &&& c.codec@ == "hevc_v4l2m2m"@
    &&& c.preset@ == "medium"@
    &&& c.crf == 23
    &&& c.pixel_format@ == "yuv420p"@
    &&& c.width is None
    &&& c.height is None
    &&& c.hw_accel
    &&& c.copy_audio
    &&& c.container@ == "mp4"@
}

/// The file name of the converted copy of a file with stem `stem`.
pub open spec fn spec_h265_name(stem: Option<Seq<char>>) -> Seq<char> {
    let base = match stem {
        Some(s) => s,
        None => "output"@,
    };
    base + "_h265.mp4"@
}

/// Where the converted copy of `input` goes: `output` when given, else the
/// `_h265.mp4` sibling of the input.
pub open spec fn spec_output_path(input: Seq<char>, output: Option<Seq<char>>) -> Seq<char> {
    match output {
        Some(o) => o,
        None => spec_join_path(
            match spec_parent(input) {
                Some(p) => p,
                None => "."@,
            },
            spec_h265_name(path_stem(input)),
        ),
    }
}

/// The file name of the converted copy of a file whose stem is `stem`.
pub fn h265_name(stem: Option<&str>) -> (r: String)
    ensures
        r@ == spec_h265_name(match stem {
            Some(s) => Some(s@),
            None => None,
        }),
{
    let mut r = match stem {
        Some(s) => String::from_str(s),
        None => String::from_str("output"),
    };
    r.append("_h265.mp4");
    r
}

impl Default for TranscodeConfig {
    fn default() -> (c: Self)
        ensures
            default_settings(c),
            c.input@ == Seq::<char>::empty(),
            c.output@ == Seq::<char>::empty(),
    {
        TranscodeConfig {
            input: String::new(),
            output: String::new(),
            codec: String::from_str("hevc_v4l2m2m"),
            preset: String::from_str("medium"),
            crf: 23,
            pixel_format: String::from_str("yuv420p"),
            width: None,
            height: None,
            hw_accel: true,
            copy_audio: true,
            container: String::from_str("mp4"),
        }
    }
}

/// The encoder part of the command line: the codec, and the preset where
/// the encoder is software.
pub open spec fn video_args(c: TranscodeConfig) -> Seq<Seq<char>> {
    if c.hw_accel {
        seq!["-c:v"@, c.codec@]
    } else {
        seq!["-c:v"@, c.codec@, "-preset"@, c.preset@]
    }
}

/// The rate factor, which only x265 is given.
pub open spec fn crf_args(c: TranscodeConfig) -> Seq<Seq<char>> {
    if c.codec@ == "libx265"@ {
        seq!["-crf"@, decimal(c.crf as nat)]
    } else {
        Seq::empty()
    }
}

/// The scaling filter, present when both dimensions are set.
pub open spec fn scale_args(c: TranscodeConfig) -> Seq<Seq<char>> {
    match (c.width, c.height) {
        (Some(w), Some(h)) => seq!["-vf"@, scale_filter(w, h)],
        _ => Seq::empty(),
    }
}

/// The filter text `scale=W:H`.
pub open spec fn scale_filter(w: u32, h: u32) -> Seq<char> {
    "scale="@ + decimal(w as nat) + ":"@ + decimal(h as nat)
}

/// The audio part: copied, or re-encoded as 128 kbit/s AAC.
pub open spec fn audio_args(c: TranscodeConfig) -> Seq<Seq<char>> {
    if c.copy_audio {
        seq!["-c:a"@, "copy"@]
    } else {
        seq!["-c:a"@, "aac"@, "-b:a"@, "128k"@]
    }
}

/// The ffmpeg command line of the settings `c`.
pub open spec fn spec_ffmpeg_args(c: TranscodeConfig) -> Seq<Seq<char>> {
    seq!["-y"@, "-i"@, c.input@] + video_args(c) + crf_args(c) + seq!["-pix_fmt"@, c.pixel_format@]
        + scale_args(c) + audio_args(c) + seq!["-movflags"@, "+faststart"@, c.output@]
}

impl TranscodeConfig {
    /// Settings that convert `input` to H.265, into `output` or, without
    /// one, into the `_h265.mp4` sibling of the input.
    pub fn new_h264_to_h265(input: &str, output: Option<&str>) -> (c: Self)
        ensures
            default_settings(c),
            c.input@ == input@,
            c.output@ == spec_output_path(input@, match output {
                Some(o) => Some(o@),
                None => None,
            }),
    {
        let output_path = match output {
            Some(o) => String::from_str(o),
            None => {
                let stem = stem_of(input);
                let name = match &stem {
                    Some(s) => h265_name(Some(s.as_str())),
                    None => h265_name(None),
                };
                let dir = parent(input);
                match &dir {
                    Some(p) => join_path(p.as_str(), name.as_str()),
                    None => join_path(".", name.as_str()),
                }
            },
        };
        let mut c = Self::default();
        c.input = String::from_str(input);
        c.output = output_path;
        c
    }

    /// These settings scaled to `width`x`height`.
    pub fn with_resolution(self, width: u32, height: u32) -> (c: Self)
        ensures
            c == (TranscodeConfig { width: Some(width), height: Some(height), ..self }),
    {
        let mut c = self;
        c.width = Some(width);
        c.height = Some(height);
        c
    }

    /// These settings with the rate factor `crf`, capped at 51.
    pub fn with_crf(self, crf: u8) -> (c: Self)
        ensures
            c == (TranscodeConfig { crf: if crf <= MAX_CRF { crf } else { MAX_CRF }, ..self }),
    {
        let mut c = self;
        c.crf = if crf <= MAX_CRF { crf } else { MAX_CRF };
        c
    }

    /// These settings with the software x265 encoder.
    pub fn with_software_fallback(self) -> (c: Self)
        ensures
            c.codec@ == "libx265"@,
            c == (TranscodeConfig { hw_accel: false, codec: c.codec, ..self }),
    {
        let mut c = self;
        c.hw_accel = false;
        c.codec = String::from_str("libx265");
        c
    }

    /// The ffmpeg command line.
    pub fn to_ffmpeg_args(&self) -> (args: Vec<String>)
        ensures
            strs(args@) == spec_ffmpeg_args(*self),
    {
        let mut args: Vec<String> = Vec::new();
        push_str_item(&mut args, "-y");
        push_str_item(&mut args, "-i");
        push_str_item(&mut args, self.input.as_str());
        let ghost a0 = strs(args@);
        push_str_item(&mut args, "-c:v");
        push_str_item(&mut args, self.codec.as_str());
        if !self.hw_accel {
            push_str_item(&mut args, "-preset");
            push_str_item(&mut args, self.preset.as_str());
        }
        let ghost a1 = strs(args@);
        if str_eq(self.codec.as_str(), "libx265") {
            push_str_item(&mut args, "-crf");
            let mut n = String::new();
            push_decimal(&mut n, self.crf as u64);
            push_string_item(&mut args, n);
        }
        let ghost a2 = strs(args@);
        push_str_item(&mut args, "-pix_fmt");
        push_str_item(&mut args, self.pixel_format.as_str());
        let ghost a3 = strs(args@);
        match (self.width, self.height) {
            (Some(w), Some(h)) => {
                push_str_item(&mut args, "-vf");
                let mut sc = String::from_str("scale=");
                push_decimal(&mut sc, w as u64);
                sc.append(":");
                push_decimal(&mut sc, h as u64);
                push_string_item(&mut args, sc);
            },
            _ => {},
        }
        let ghost a4 = strs(args@);
        if self.copy_audio {
            push_str_item(&mut args, "-c:a");
            push_str_item(&mut args, "copy");
        } else {
            push_str_item(&mut args, "-c:a");
            push_str_item(&mut args, "aac");
            push_str_item(&mut args, "-b:a");
            push_str_item(&mut args, "128k");
        }
        let ghost a5 = strs(args@);
        push_str_item(&mut args, "-movflags");
        push_str_item(&mut args, "+faststart");
        push_str_item(&mut args, self.output.as_str());
        assert(strs(args@) =~= spec_ffmpeg_args(*self));
        args
    }
}

// ---------------------------------------------------------------------------
// ffprobe reports
// ---------------------------------------------------------------------------

/// What the summary reads of one stream of an ffprobe report.
#[derive(Debug, Clone)]
pub struct ProbeStream {
    pub codec_type: Option<String>,
    pub codec_name: Option<String>,
    pub width: Option<u64>,
    pub height: Option<u64>,
}

/// What an ffprobe report says of a file, apart from its duration and frame
/// rate.
#[derive(Debug, Clone)]
pub struct ProbeSummary {
    pub path: String,
    pub video_codec: Option<String>,
    pub width: Option<u32>,
    pub height: Option<u32>,
    pub audio_codec: Option<String>,
    pub size_bytes: u64,
    pub needs_transcode: bool,
}

pub open spec fn opt_u32(o: Option<u64>) -> Option<u32> {
    match o {
        Some(v) => Some(v as u32),
        None => None,
    }
}

pub open spec fn is_type(s: ProbeStream, t: Seq<char>) -> bool {
    match s.codec_type {
        Some(c) => c@ == t,
        None => t == Seq::<char>::empty(),
    }
}

/// The video fields of the report: those of the last video stream.
pub open spec fn last_video(streams: Seq<ProbeStream>) -> Option<ProbeStream>
    decreases streams.len(),
{
    if streams.len() == 0 {
        None
    } else if is_type(streams.last(), "video"@) {
        Some(streams.last())
    } else {
        last_video(streams.drop_last())
    }
}

/// The audio codec of the report: that of the last audio stream.
pub open spec fn last_audio(streams: Seq<ProbeStream>) -> Option<ProbeStream>
    decreases streams.len(),
{
    if streams.len() == 0 {
        None
    } else if is_type(streams.last(), "audio"@) {
        Some(streams.last())
    } else {
        last_audio(streams.drop_last())
    }
}

/// The size of the file, from the text of the report's size field; 0 when
/// that does not parse.
pub open spec fn spec_size(size: Option<Seq<char>>) -> nat {
    match size {
        Some(s) => match parse_unsigned(s, u64::MAX as nat) {
            Some(n) => n,
            None => 0,
        },
        None => 0,
    }
}

/// The summary of a report on `path` with `streams` and size field `size`.
pub open spec fn spec_summary(
    path: Seq<char>,
    streams: Seq<ProbeStream>,
    size: Option<Seq<char>>,
    r: ProbeSummary,
) -> bool {
    &&& r.path@ == path
    &&& match last_video(streams) {
        Some(v) => {
            &&& opt_str(r.video_codec) == opt_str(v.codec_name)
            &&& r.width == opt_u32(v.width)
            &&& r.height == opt_u32(v.height)
        },
        None => r.video_codec is None && r.width is None && r.height is None,
    }
    &&& opt_str(r.audio_codec) == match last_audio(streams) {
        Some(a) => opt_str(a.codec_name),
        None => None,
    }
    &&& r.size_bytes == spec_size(size)
    &&& r.needs_transcode == (opt_str(r.video_codec) == Some("h264"@))
}

proof fn lemma_last_video(streams: Seq<ProbeStream>)
    ensures
        match last_video(streams) {
            Some(v) => exists|i: int|
                0 <= i < streams.len() && #[trigger] streams[i] == v && is_type(v, "video"@) && forall|j: int|
                    i < j < streams.len() ==> !is_type(#[trigger] streams[j], "video"@),
            None => forall|i: int| 0 <= i < streams.len() ==> !is_type(#[trigger] streams[i], "video"@),
        },
    decreases streams.len(),
{
    if streams.len() > 0 {
        let d = streams.drop_last();
        lemma_last_video(d);
        if !is_type(streams.last(), "video"@) {
            match last_video(d) {
                Some(v) => {
                    let i = choose|i: int|
                        0 <= i < d.len() && #[trigger] d[i] == v && is_type(v, "video"@) && forall|j: int|
                            i < j < d.len() ==> !is_type(#[trigger] d[j], "video"@);
                    assert(streams[i] == d[i]);
                    assert forall|j: int| i < j < streams.len() implies !is_type(#[trigger] streams[j], "video"@) by {
                        if j < d.len() {
                            assert(streams[j] == d[j]);
                        }
                    }
                },
                None => {
                    assert forall|i: int| 0 <= i < streams.len() implies !is_type(#[trigger] streams[i], "video"@) by {
                        if i < d.len() {
                            assert(streams[i] == d[i]);
                        }
                    }
                },
            }
        } else {
            assert(streams[streams.len() - 1] == streams.last());
        }
    }
}

proof fn lemma_last_audio(streams: Seq<ProbeStream>)
    ensures
        match last_audio(streams) {
            Some(v) => exists|i: int|
                0 <= i < streams.len() && #[trigger] streams[i] == v && is_type(v, "audio"@) && forall|j: int|
                    i < j < streams.len() ==> !is_type(#[trigger] streams[j], "audio"@),
            None => forall|i: int| 0 <= i < streams.len() ==> !is_type(#[trigger] streams[i], "audio"@),
        },
    decreases streams.len(),
{
    if streams.len() > 0 {
        let d = streams.drop_last();
        lemma_last_audio(d);
        if !is_type(streams.last(), "audio"@) {
            match last_audio(d) {
                Some(v) => {
                    let i = choose|i: int|
                        0 <= i < d.len() && #[trigger] d[i] == v && is_type(v, "audio"@) && forall|j: int|
                            i < j < d.len() ==> !is_type(#[trigger] d[j], "audio"@);
                    assert(streams[i] == d[i]);
                    assert forall|j: int| i < j < streams.len() implies !is_type(#[trigger] streams[j], "audio"@) by {
                        if j < d.len() {
                            assert(streams[j] == d[j]);
                        }
                    }
                },
                None => {
                    assert forall|i: int| 0 <= i < streams.len() implies !is_type(#[trigger] streams[i], "audio"@) by {
                        if i < d.len() {
                            assert(streams[i] == d[i]);
                        }
                    }
                },
            }
        } else {
            assert(streams[streams.len() - 1] == streams.last());
        }
    }
}

/// The summary takes the video codec and picture size from the last stream
/// whose `codec_type` is `video` (none without one), the audio codec from
/// the last stream whose `codec_type` is `audio`, and asks for conversion
/// exactly when the video codec is `h264`.
pub proof fn law_summary_reads_last_streams(
    path: Seq<char>,
    streams: Seq<ProbeStream>,
    size: Option<Seq<char>>,
    r: ProbeSummary,
)
    requires
        spec_summary(path, streams, size, r),
    ensures
        (exists|i: int|
            0 <= i < streams.len() && is_type(#[trigger] streams[i], "video"@) && (forall|j: int|
                i < j < streams.len() ==> !is_type(#[trigger] streams[j], "video"@)) && opt_str(r.video_codec)
                == opt_str(streams[i].codec_name) && r.width == opt_u32(streams[i].width) && r.height == opt_u32(
                streams[i].height,
            )) || ((forall|i: int| 0 <= i < streams.len() ==> !is_type(#[trigger] streams[i], "video"@))
            && r.video_codec is None && r.width is None && r.height is None),
        (exists|i: int|
            0 <= i < streams.len() && is_type(#[trigger] streams[i], "audio"@) && (forall|j: int|
                i < j < streams.len() ==> !is_type(#[trigger] streams[j], "audio"@)) && opt_str(r.audio_codec)
                == opt_str(streams[i].codec_name)) || ((forall|i: int|
            0 <= i < streams.len() ==> !is_type(#[trigger] streams[i], "audio"@)) && r.audio_codec is None),
        r.needs_transcode <==> opt_str(r.video_codec) == Some("h264"@),
{
    lemma_last_video(streams);
    lemma_last_audio(streams);
    if last_audio(streams) is None {
        assert(opt_str(r.audio_codec) is None);
    }
}

fn type_is(s: &ProbeStream, t: &str) -> (b: bool)
    ensures
        b == is_type(*s, t@),
{
    match &s.codec_type {
        Some(c) => str_eq(c.as_str(), t),
        None => {
            let v = chars_of(t);
            assert(v@.len() == 0 ==> t@ =~= Seq::<char>::empty());
            v.len() == 0
        },
    }
}

fn clone_opt(o: &Option<String>) -> (r: Option<String>)
    ensures
        opt_str(r) == opt_str(*o),
{
    match o {
        Some(s) => Some(s.clone()),
        None => None,
    }
}

fn narrow(o: Option<u64>) -> (r: Option<u32>)
    ensures
        r == opt_u32(o),
{
    match o {
        Some(v) => Some(v as u32),
        None => None,
    }
}

/// Summarises an ffprobe report on `path` whose streams are `streams` and
/// whose size field holds the text `size`.
pub fn summarize_probe(path: &str, streams: &Vec<ProbeStream>, size: Option<&str>) -> (r: ProbeSummary)
    ensures
        spec_summary(path@, streams@, match size {
            Some(s) => Some(s@),
            None => None,
        }, r),
{
    let mut video_codec: Option<String> = None;
    let mut width: Option<u32> = None;
    let mut height: Option<u32> = None;
    let mut audio_codec: Option<String> = None;
    let mut i: usize = 0;
    while i < streams.len()
        invariant
            0 <= i <= streams@.len(),
            match last_video(streams@.take(i as int)) {
                Some(v) => {
                    &&& opt_str(video_codec) == opt_str(v.codec_name)
                    &&& width == opt_u32(v.width)
                    &&& height == opt_u32(v.height)
                },
                None => video_codec is None && width is None && height is None,
            },
            opt_str(audio_codec) == match last_audio(streams@.take(i as int)) {
                Some(a) => opt_str(a.codec_name),
                None => None,
            },
        decreases streams@.len() - i,
    {
        let st = &streams[i];
        assert(streams@.take(i + 1).drop_last() == streams@.take(i as int));
        assert(streams@.take(i + 1).last() == *st);
        if type_is(st, "video") {
            video_codec = clone_opt(&st.codec_name);
            width = narrow(st.width);
            height = narrow(st.height);
        } else if type_is(st, "audio") {
            audio_codec = clone_opt(&st.codec_name);
        }
        proof {
            reveal_strlit("video");
            reveal_strlit("audio");
            if is_type(*st, "video"@) {
                assert("video"@[0] != "audio"@[0]);
                assert(!is_type(*st, "audio"@));
            }
        }
        i += 1;
    }
    assert(streams@.take(streams@.len() as int) == streams@);
    let size_bytes: u64 = match size {
        Some(s) => {
            let v = chars_of(s);
            assert(v@.subrange(0, v@.len() as int) == v@);
            match parse_uint(&v, 0, v.len(), 0xffff_ffff_ffff_ffff) {
                Some(n) => n,
                None => 0,
            }
        },
        None => 0,
    };
    let needs_transcode = match &video_codec {
        Some(c) => str_eq(c.as_str(), "h264"),
        None => false,
    };
    ProbeSummary {
        path: String::from_str(path),
        video_codec,
        width,
        height,
        audio_codec,
        size_bytes,
        needs_transcode,
    }
}

/// What the summary reads of one stream, as plain values: codec type, codec
/// name, width, height.
pub open spec fn stream_view(s: ProbeStream) -> (Option<Seq<char>>, Option<Seq<char>>, Option<u64>, Option<u64>) {
    (opt_str(s.codec_type), opt_str(s.codec_name), s.width, s.height)
}

/// The streams (if the report has a `streams` array) and the size field of
/// a parsed report, as plain values.
pub open spec fn report_view(r: Option<(Option<Vec<ProbeStream>>, Option<String>)>) -> Option<
    (Option<Seq<(Option<Seq<char>>, Option<Seq<char>>, Option<u64>, Option<u64>)>>, Option<Seq<char>>),
> {
    match r {
        Some((streams, size)) => Some(
            (
                match streams {
                    Some(v) => Some(v@.map_values(|s: ProbeStream| stream_view(s))),
                    None => None,
                },
                opt_str(size),
            ),
        ),
        None => None,
    }
}

/// What `serde_json` reads of a JSON document along the keys `keys`, in
/// this order: streams, type, name, width, height, format, size. That is
/// the array at the key `streams` of the document, if it has one, with for
/// each element the strings at the keys `type` and `name` and the unsigned
/// integers at the keys `width` and `height`; and the string at the key
/// `size` of the object at the key `format`; no value when the bytes are
/// not JSON.
pub uninterp spec fn spec_probe_json(json: Seq<u8>, keys: Seq<Seq<char>>) -> Option<
    (Option<Seq<(Option<Seq<char>>, Option<Seq<char>>, Option<u64>, Option<u64>)>>, Option<Seq<char>>),
>;

/// `serde_json::from_slice` into a `serde_json::Value`, and the fields
/// named by `keys` (streams, type, name, width, height, format, size) read
/// with `Value`'s indexing, `as_array`, `as_str` and `as_u64`.  The contract
/// says no more than that the result is the named function of the bytes
/// and the keys.
#[verifier::external_body]
fn parse_probe_json(json: &[u8], keys: &[&str; 7]) -> (r: Option<(Option<Vec<ProbeStream>>, Option<String>)>)
    ensures
        report_view(r) == spec_probe_json(json@, keys@.map_values(|k: &str| k@)),
{
    let v: serde_json::Value = serde_json::from_slice(json).ok()?;
    let text = |x: &serde_json::Value| x.as_str().map(String::from);
    let streams = v[keys[0]].as_array().map(|a| a.iter().map(|s| ProbeStream {
        codec_type: text(&s[keys[1]]),
        codec_name: text(&s[keys[2]]),
        width: s[keys[3]].as_u64(),
        height: s[keys[4]].as_u64(),
    }).collect());
    Some((streams, text(&v[keys[5]][keys[6]])))
}

/// The streams of a report: none when it has no `streams` array.
pub open spec fn report_streams(
    streams: Option<Seq<(Option<Seq<char>>, Option<Seq<char>>, Option<u64>, Option<u64>)>>,
) -> Seq<(Option<Seq<char>>, Option<Seq<char>>, Option<u64>, Option<u64>)> {
    match streams {
        Some(ss) => ss,
        None => Seq::empty(),
    }
}

/// The summary of the ffprobe JSON report `json` on `path`, read from its
/// `streams` array (`codec_type`, `codec_name`, `width`, `height` of each
/// stream) and the `size` of its `format`; `None` when the report is not
/// JSON.
pub fn probe_summary(path: &str, json: &[u8]) -> (r: Option<ProbeSummary>)
    ensures
        match spec_probe_json(
            json@,
            seq![
                "streams"@,
                "codec_type"@,
                "codec_name"@,
                "width"@,
                "height"@,
                "format"@,
                "size"@,
            ],
        ) {
            None => r is None,
            Some((streams, size)) => r matches Some(s) && exists|ps: Seq<ProbeStream>|
                #![trigger spec_summary(path@, ps, size, s)]
                ps.map_values(|x: ProbeStream| stream_view(x)) == report_streams(streams) && spec_summary(
                    path@,
                    ps,
                    size,
                    s,
                ),
        },
{
    let keys: [&str; 7] = ["streams", "codec_type", "codec_name", "width", "height", "format", "size"];
    assert(keys@.map_values(|k: &str| k@) =~= seq![
        "streams"@,
        "codec_type"@,
        "codec_name"@,
        "width"@,
        "height"@,
        "format"@,
        "size"@,
    ]);
    match parse_probe_json(json, &keys) {
        None => None,
        Some((found, size)) => {
            let streams = match found {
                Some(v) => v,
                None => Vec::new(),
            };
            let ghost rs = match spec_probe_json(json@, keys@.map_values(|k: &str| k@)) {
                Some((st, _)) => report_streams(st),
                None => Seq::empty(),
            };
            assert(streams@.map_values(|x: ProbeStream| stream_view(x)) =~= rs);
            let s = match &size {
                Some(t) => summarize_probe(path, &streams, Some(t.as_str())),
                None => summarize_probe(path, &streams, None),
            };
            proof {
                assert(spec_summary(path@, streams@, opt_str(size), s));
            }
            Some(s)
        },
    }
}

// ---------------------------------------------------------------------------
// Batch conversion
// ---------------------------------------------------------------------------

/// The tally of a batch conversion.
#[derive(Debug, Clone)]
pub struct BatchResult {
    pub total: usize,
    pub success: usize,
    pub failed: usize,
    pub skipped: usize,
    pub errors: Vec<String>,
}

impl BatchResult {
    /// Files recorded so far.
    pub open spec fn processed(&self) -> int {
        self.success + self.failed + self.skipped
    }

    /// No more files are recorded than the batch holds, and each failure has
    /// its message.
    pub open spec fn wf(&self) -> bool {
        &&& self.processed() <= self.total
        &&& self.errors@.len() == self.failed
    }

    /// The tally of a batch of `total` files before any is converted.
    pub fn new(total: usize) -> (r: Self)
        ensures
            r.wf(),
            r.total == total,
            r.success == 0 && r.failed == 0 && r.skipped == 0,
            r.errors@.len() == 0,
    {
        BatchResult { total, success: 0, failed: 0, skipped: 0, errors: Vec::new() }
    }

    /// Records a file that did not need converting.
    pub fn record_skipped(&mut self)
        requires
            old(self).wf(),
            old(self).processed() < old(self).total,
        ensures
            final(self).wf(),
            *final(self) == (BatchResult { skipped: (old(self).skipped + 1) as usize, ..*old(self) }),
    {
        self.skipped = self.skipped + 1;
    }

    /// Records a file that was converted.
    pub fn record_success(&mut self)
        requires
            old(self).wf(),
            old(self).processed() < old(self).total,
        ensures
            final(self).wf(),
            *final(self) == (BatchResult { success: (old(self).success + 1) as usize, ..*old(self) }),
    {
        self.success = self.success + 1;
    }

    /// Records a file that could not be probed or converted, with its message.
    pub fn record_failure(&mut self, message: String)
        requires
            old(self).wf(),
            old(self).processed() < old(self).total,
        ensures
            final(self).wf(),
            final(self).failed == old(self).failed + 1,
            final(self).total == old(self).total,
            final(self).success == old(self).success,
            final(self).skipped == old(self).skipped,
            final(self).errors@ == old(self).errors@.push(message),
    {
        self.failed = self.failed + 1;
        self.errors.push(message);
    }
}

/// What became of one file of a batch.
#[derive(Debug, Clone, Copy, PartialEq, Eq, Structural)]
pub enum FileOutcome {
    /// ffprobe could not read it.
    ProbeFailed,
    /// It does not hold H.264 video.
    Skipped,
    /// It was converted.
    Converted,
    /// Converting it failed.
    ConvertFailed,
}

/// What a batch asks of its caller after a step on a file.
#[derive(Debug, Clone, Copy, PartialEq, Eq, Structural)]
pub enum BatchAction {
    /// Convert the file, then take the step again with the outcome.
    Convert,
    /// Go on with the next file.
    Next,
}

/// The outcome that a probe result (whether the file needs converting, or
/// the error) and a conversion result give; `None` while the conversion
/// is still to be done.
pub open spec fn step_outcome(probe: Result<bool, String>, converted: Option<Result<(), String>>) -> Option<FileOutcome> {
    match probe {
        Err(_) => Some(FileOutcome::ProbeFailed),
        Ok(false) => Some(FileOutcome::Skipped),
        Ok(true) => match converted {
            None => None,
            Some(Ok(())) => Some(FileOutcome::Converted),
            Some(Err(_)) => Some(FileOutcome::ConvertFailed),
        },
    }
}

/// The counts (success, failed, skipped) after one more outcome.
pub open spec fn tallied(c: (nat, nat, nat), o: FileOutcome) -> (nat, nat, nat) {
    match o {
        FileOutcome::Converted => ((c.0 + 1) as nat, c.1, c.2),
        FileOutcome::ProbeFailed | FileOutcome::ConvertFailed => (c.0, (c.1 + 1) as nat, c.2),
        FileOutcome::Skipped => (c.0, c.1, (c.2 + 1) as nat),
    }
}

/// The counts (success, failed, skipped) of a batch whose files had the
/// outcomes `os`.
pub open spec fn tally(os: Seq<FileOutcome>) -> (nat, nat, nat)
    decreases os.len(),
{
    if os.len() == 0 {
        (0, 0, 0)
    } else {
        tallied(tally(os.drop_last()), os.last())
    }
}

/// The message recorded for a file that failed.
pub open spec fn failure_message(file: Seq<char>, o: FileOutcome, error: Seq<char>) -> Seq<char> {
    if o == FileOutcome::ProbeFailed {
        file + ": probe 실패 - "@ + error
    } else {
        file + ": "@ + error
    }
}

/// The error text of a failed probe or conversion.
pub open spec fn error_text(probe: Result<bool, String>, converted: Option<Result<(), String>>) -> Seq<char> {
    match probe {
        Err(e) => e@,
        _ => match converted {
            Some(Err(e)) => e@,
            _ => Seq::empty(),
        },
    }
}

/// One step of a batch conversion on the file `file`, given what probing it
/// gave and, once it was converted, what converting it gave: a failed probe
/// is recorded as a failure, a file without H.264 video as skipped, a file
/// with H.264 video is first handed back to be converted and then recorded
/// as a success or a failure.
pub fn batch_step(
    r: &mut BatchResult,
    file: &str,
    probe: Result<bool, String>,
    converted: Option<Result<(), String>>,
) -> (a: BatchAction)
    requires
        old(r).wf(),
        old(r).processed() < old(r).total,
    ensures
        final(r).wf(),
        match step_outcome(probe, converted) {
            None => a == BatchAction::Convert && *final(r) == *old(r),
            Some(o) => {
                &&& a == BatchAction::Next
                &&& final(r).total == old(r).total
                &&& final(r).processed() == old(r).processed() + 1
                &&& (final(r).success as nat, final(r).failed as nat, final(r).skipped as nat) == tallied(
                    (old(r).success as nat, old(r).failed as nat, old(r).skipped as nat),
                    o,
                )
                &&& strs(final(r).errors@) == if o == FileOutcome::ProbeFailed || o == FileOutcome::ConvertFailed {
                    strs(old(r).errors@).push(failure_message(file@, o, error_text(probe, converted)))
                } else {
                    strs(old(r).errors@)
                }
            },
        },
{
    let ghost e0 = strs(r.errors@);
    match probe {
        Err(e) => {
            let mut m = String::from_str(file);
            m.append(": probe 실패 - ");
            m.append(e.as_str());
            r.record_failure(m);
            assert(strs(r.errors@) =~= e0.push(failure_message(file@, FileOutcome::ProbeFailed, e@)));
            BatchAction::Next
        },
        Ok(false) => {
            r.record_skipped();
            BatchAction::Next
        },
        Ok(true) => match converted {
            None => BatchAction::Convert,
            Some(Ok(())) => {
                r.record_success();
                BatchAction::Next
            },
            Some(Err(e)) => {
                let mut m = String::from_str(file);
                m.append(": ");
                m.append(e.as_str());
                r.record_failure(m);
                assert(strs(r.errors@) =~= e0.push(failure_message(file@, FileOutcome::ConvertFailed, e@)));
                BatchAction::Next
            },
        },
    }
}

/// A batch conversion under way over the files `files`: those before
/// `next` have their outcome recorded in `result`.
#[derive(Debug, Clone)]
pub struct BatchRun {
    pub files: Vec<String>,
    pub next: usize,
    pub result: BatchResult,
}

impl BatchRun {
    /// The tally covers the files, and counts exactly those already handled.
    pub open spec fn wf(&self) -> bool {
        &&& self.result.wf()
        &&& self.result.total == self.files@.len()
        &&& self.result.processed() == self.next
        &&& self.next <= self.files@.len()
    }

    /// A batch over `files`, none handled yet.
    pub fn new(files: Vec<String>) -> (run: Self)
        ensures
            run.wf(),
            run.files@ == files@,
            run.next == 0,
            run.result.errors@.len() == 0,
    {
        let n = files.len();
        BatchRun { files, next: 0, result: BatchResult::new(n) }
    }

    /// Whether every file has been handled.
    pub fn is_done(&self) -> (b: bool)
        requires
            self.wf(),
        ensures
            b == (self.next == self.files@.len()),
    {
        self.next >= self.files.len()
    }

    /// One step on the next file, as `batch_step` takes it; once the file
    /// has its outcome the batch moves on to the following file.
    pub fn step(&mut self, probe: Result<bool, String>, converted: Option<Result<(), String>>) -> (a: BatchAction)
        requires
            old(self).wf(),
            old(self).next < old(self).files@.len(),
        ensures
            final(self).wf(),
            final(self).files@ == old(self).files@,
            match step_outcome(probe, converted) {
                None => a == BatchAction::Convert && *final(self) == *old(self),
                Some(o) => {
                    &&& a == BatchAction::Next
                    &&& final(self).next == old(self).next + 1
                    &&& (
                        final(self).result.success as nat,
                        final(self).result.failed as nat,
                        final(self).result.skipped as nat,
                    ) == tallied(
                        (
                            old(self).result.success as nat,
                            old(self).result.failed as nat,
                            old(self).result.skipped as nat,
                        ),
                        o,
                    )
                    &&& strs(final(self).result.errors@) == if o == FileOutcome::ProbeFailed || o
                        == FileOutcome::ConvertFailed {
                        strs(old(self).result.errors@).push(
                            failure_message(
                                old(self).files@[old(self).next as int]@,
                                o,
                                error_text(probe, converted),
                            ),
                        )
                    } else {
                        strs(old(self).result.errors@)
                    }
                },
            },
    {
        let i = self.next;
        let a = batch_step(&mut self.result, self.files[i].as_str(), probe, converted);
        if a == BatchAction::Next {
            self.next = i + 1;
        }
        a
    }
}

/// A batch that has handled all its files counts each of them once:
/// success, failed and skipped add up to the number of files, and there is
/// one message per failure.
pub proof fn law_batch_run_complete(run: BatchRun)
    requires
        run.wf(),
        run.next == run.files@.len(),
    ensures
        run.result.success + run.result.failed + run.result.skipped == run.files@.len(),
        run.result.total == run.files@.len(),
        run.result.errors@.len() == run.result.failed,
{
}

/// Whatever becomes of each file, a batch whose files all had an outcome
/// counts each of them once: success, failed and skipped add up to the
/// number of files.
pub proof fn law_batch_tally(os: Seq<FileOutcome>)
    ensures
        tally(os).0 + tally(os).1 + tally(os).2 == os.len(),
    decreases os.len(),
{
    if os.len() > 0 {
        law_batch_tally(os.drop_last());
    }
}

// ---------------------------------------------------------------------------
// Finding and watching video files
// ---------------------------------------------------------------------------

/// The file extensions of video files, in lower case.
pub open spec fn video_extensions() -> Seq<Seq<char>> {
    seq![
        "mp4"@, "mkv"@, "avi"@, "mov"@, "flv"@, "wmv"@, "webm"@, "ts"@, "mts"@, "m2ts"@,
    ]
}

/// A path is a video file when its extension, in lower case, is a video extension.
pub open spec fn spec_is_video_path(path: Seq<char>) -> bool {
    match path_extension(path) {
        Some(e) => video_extensions().contains(spec_to_lowercase(e)),
        None => false,
    }
}

/// Whether the extension `ext`, in lower case, is a video extension.
pub fn is_video_extension(ext: &str) -> (b: bool)
    ensures
        b == video_extensions().contains(spec_to_lowercase(ext@)),
{
    let lower = to_lowercase(ext);
    let exts: [&str; 10] = ["mp4", "mkv", "avi", "mov", "flv", "wmv", "webm", "ts", "mts", "m2ts"];
    assert(exts@.map_values(|s: &str| s@) =~= video_extensions());
    let mut i: usize = 0;
    while i < 10
        invariant
            0 <= i <= 10,
            exts@.map_values(|s: &str| s@) == video_extensions(),
            lower@ == spec_to_lowercase(ext@),
            forall|j: int| 0 <= j < i ==> video_extensions()[j] != lower@,
        decreases 10 - i,
    {
        if str_eq(lower.as_str(), exts[i]) {
            assert(video_extensions()[i as int] == lower@);
            return true;
        }
        i += 1;
    }
    false
}

/// Whether a path names a video file, by its extension.
pub fn is_video_path(path: &str) -> (b: bool)
    ensures
        b == spec_is_video_path(path@),
{
    match file_extension(path) {
        Some(e) => is_video_extension(e.as_str()),
        None => false,
    }
}

/// Where the watcher expects the converted copy of the file `key`: the path
/// that converting it writes, the `_h265.mp4` sibling of the file.
pub fn watch_output_key(key: &str) -> (r: String)
    ensures
        r@ == spec_output_path(key@, None),
{
    TranscodeConfig::new_h264_to_h265(key, None).output
}

/// The files that a watcher has handled.
#[derive(Debug, Clone)]
pub struct WatchState {
    pub processed: Vec<String>,
}

/// The handled files after handling `key`: a file is remembered once.
pub open spec fn marked(ps: Seq<Seq<char>>, key: Seq<char>) -> Seq<Seq<char>> {
    if ps.contains(key) {
        ps
    } else {
        ps.push(key)
    }
}

/// Remembering `key` keeps the remembered files distinct, and `key` is
/// among them afterwards.
proof fn lemma_marked(ps: Seq<Seq<char>>, key: Seq<char>)
    requires
        ps.no_duplicates(),
    ensures
        marked(ps, key).no_duplicates(),
        marked(ps, key).contains(key),
{
    if !ps.contains(key) {
        let q = ps.push(key);
        assert(q[ps.len() as int] == key);
        assert forall|i: int, j: int| 0 <= i < q.len() && 0 <= j < q.len() && i != j implies q[i] != q[j] by {
            if i < ps.len() && j < ps.len() {
                assert(q[i] == ps[i] && q[j] == ps[j]);
            } else if i < ps.len() {
                assert(q[i] == ps[i]);
            } else {
                assert(q[j] == ps[j]);
            }
        }
    }
}

impl WatchState {
    /// No file is remembered twice.
    pub open spec fn wf(&self) -> bool {
        strs(self.processed@).no_duplicates()
    }

    pub fn new() -> (w: Self)
        ensures
            w.processed@.len() == 0,
            w.wf(),
    {
        WatchState { processed: Vec::new() }
    }

    /// A file is handled when it was not handled before and its converted
    /// copy does not exist yet.
    pub fn should_process(&self, key: &str, output_exists: bool) -> (b: bool)
        ensures
            b == (!strs(self.processed@).contains(key@) && !output_exists),
    {
        if output_exists {
            return false;
        }
        let mut i: usize = 0;
        while i < self.processed.len()
            invariant
                0 <= i <= self.processed@.len(),
                forall|j: int| 0 <= j < i ==> strs(self.processed@)[j] != key@,
            decreases self.processed@.len() - i,
        {
            if str_eq(self.processed[i].as_str(), key) {
                assert(strs(self.processed@)[i as int] == key@);
                return false;
            }
            i += 1;
        }
        true
    }

    /// Remembers that `key` was handled, unless it already is.
    pub fn mark_processed(&mut self, key: &str)
        requires
            old(self).wf(),
        ensures
            final(self).wf(),
            strs(final(self).processed@) == marked(strs(old(self).processed@), key@),
    {
        proof {
            lemma_marked(strs(self.processed@), key@);
        }
        if self.should_process(key, false) {
            push_str_item(&mut self.processed, key);
        }
    }

    /// One step of the watcher on the new file `key`, given what probing it
    /// gave and, once it was converted, what converting it gave. While a
    /// file with H.264 video still waits for its conversion the answer is
    /// `None` and nothing changes; otherwise the answer is what became of
    /// the file, which is then remembered as handled.
    pub fn watch_step(
        &mut self,
        key: &str,
        probe: &Result<bool, String>,
        converted: &Option<Result<(), String>>,
    ) -> (o: Option<FileOutcome>)
        requires
            old(self).wf(),
        ensures
            final(self).wf(),
            o == step_outcome(*probe, *converted),
            o is None ==> strs(final(self).processed@) == strs(old(self).processed@),
            o is Some ==> strs(final(self).processed@) == marked(strs(old(self).processed@), key@),
    {
        let o = match probe {
            Err(_) => Some(FileOutcome::ProbeFailed),
            Ok(false) => Some(FileOutcome::Skipped),
            Ok(true) => match converted {
                None => None,
                Some(Ok(())) => Some(FileOutcome::Converted),
                Some(Err(_)) => Some(FileOutcome::ConvertFailed),
            },
        };
        if o.is_some() {
            self.mark_processed(key);
        }
        o
    }
}


/// With the software encoder the command line names x265, its preset and
/// the quality setting.
pub proof fn law_software_args(c: TranscodeConfig, d: TranscodeConfig)
    requires
        d.codec@ == "libx265"@,
        d == (TranscodeConfig { hw_accel: false, codec: d.codec, ..c }),
    ensures
        spec_ffmpeg_args(d).contains("libx265"@),
        spec_ffmpeg_args(d).contains("-preset"@),
        spec_ffmpeg_args(d).contains("-crf"@),
        spec_ffmpeg_args(d).contains(decimal(d.crf as nat)),
{
    let a = spec_ffmpeg_args(d);
    let head = seq!["-y"@, "-i"@, d.input@, "-c:v"@, d.codec@, "-preset"@, d.preset@, "-crf"@, decimal(d.crf as nat)];
    assert(!d.hw_accel);
    assert(seq!["-y"@, "-i"@, d.input@] + seq!["-c:v"@, d.codec@, "-preset"@, d.preset@] + seq![
        "-crf"@,
        decimal(d.crf as nat),
    ] =~= head);
    assert(a.take(9) =~= head);
    assert(a[4] == head[4] && head[4] == "libx265"@);
    assert(a[5] == "-preset"@);
    assert(a[7] == "-crf"@);
    assert(a[8] == decimal(d.crf as nat));
}


/// Once `mark_processed` has recorded a file, it is among the handled ones,
/// so `should_process` refuses it from then on; and no file is ever
/// recorded twice.
pub proof fn law_marked_not_reprocessed(processed: Seq<Seq<char>>, key: Seq<char>)
    requires
        processed.no_duplicates(),
    ensures
        marked(processed, key).contains(key),
        marked(processed, key).no_duplicates(),
        marked(marked(processed, key), key) == marked(processed, key),
{
    lemma_marked(processed, key);
}


// ---------------------------------------------------------------------------
// Shape of the command line
// ---------------------------------------------------------------------------

/// No item of `s` is the word `w`.
pub open spec fn avoids(s: Seq<Seq<char>>, w: Seq<char>) -> bool {
    forall|i: int| 0 <= i < s.len() ==> s[i] != w
}

/// None of the free-text settings of `c` (paths, codec, preset, pixel
/// format) is the word `w`.
pub open spec fn fields_avoid(c: TranscodeConfig, w: Seq<char>) -> bool {
    &&& c.input@ != w
    &&& c.output@ != w
    &&& c.codec@ != w
    &&& c.preset@ != w
    &&& c.pixel_format@ != w
}

proof fn lemma_avoids_concat(s: Seq<Seq<char>>, t: Seq<Seq<char>>, w: Seq<char>)
    requires
        avoids(s, w),
        avoids(t, w),
    ensures
        avoids(s + t, w),
{
    assert forall|i: int| 0 <= i < (s + t).len() implies (s + t)[i] != w by {
        if i < s.len() {
            assert((s + t)[i] == s[i]);
        } else {
            assert((s + t)[i] == t[i - s.len()]);
        }
    }
}

proof fn lemma_avoids_not_contains(s: Seq<Seq<char>>, w: Seq<char>)
    requires
        avoids(s, w),
    ensures
        !s.contains(w),
{
}

/// The pieces of the command line, joined.
proof fn lemma_args_pieces(c: TranscodeConfig)
    ensures
        spec_ffmpeg_args(c) == seq!["-y"@, "-i"@, c.input@] + video_args(c) + crf_args(c) + seq![
            "-pix_fmt"@,
            c.pixel_format@,
        ] + scale_args(c) + audio_args(c) + seq!["-movflags"@, "+faststart"@, c.output@],
{
}

/// The fixed words of the command line, spelled out.
proof fn lemma_arg_words()
    ensures
        "-y"@ == seq!['-', 'y'],
        "-i"@ == seq!['-', 'i'],
        "-c:v"@ == seq!['-', 'c', ':', 'v'],
        "-preset"@ == seq!['-', 'p', 'r', 'e', 's', 'e', 't'],
        "-crf"@ == seq!['-', 'c', 'r', 'f'],
        "-pix_fmt"@ == seq!['-', 'p', 'i', 'x', '_', 'f', 'm', 't'],
        "-vf"@ == seq!['-', 'v', 'f'],
        "scale="@ == seq!['s', 'c', 'a', 'l', 'e', '='],
        "-c:a"@ == seq!['-', 'c', ':', 'a'],
        "copy"@ == seq!['c', 'o', 'p', 'y'],
        "aac"@ == seq!['a', 'a', 'c'],
        "-b:a"@ == seq!['-', 'b', ':', 'a'],
        "128k"@ == seq!['1', '2', '8', 'k'],
        "-movflags"@ == seq!['-', 'm', 'o', 'v', 'f', 'l', 'a', 'g', 's'],
        "+faststart"@ == seq!['+', 'f', 'a', 's', 't', 's', 't', 'a', 'r', 't'],
{
    reveal_strlit("-y");
    reveal_strlit("-i");
    reveal_strlit("-c:v");
    reveal_strlit("-preset");
    reveal_strlit("-crf");
    reveal_strlit("-pix_fmt");
    reveal_strlit("-vf");
    reveal_strlit("scale=");
    reveal_strlit("-c:a");
    reveal_strlit("copy");
    reveal_strlit("aac");
    reveal_strlit("-b:a");
    reveal_strlit("128k");
    reveal_strlit("-movflags");
    reveal_strlit("+faststart");
}

/// A number written in decimal never starts with `-`.
proof fn lemma_decimal_not_flag(n: nat, w: Seq<char>)
    requires
        w.len() > 0,
        w[0] == '-',
    ensures
        decimal(n) != w,
{
    lemma_decimal_plain(n);
    assert(decimal(n).len() > 0);
    assert(is_digit(decimal(n)[0]));
}

/// A scale filter starts with `s`, so it is no flag.
proof fn lemma_scale_not_flag(wd: u32, ht: u32, w: Seq<char>)
    requires
        w.len() > 0,
        w[0] == '-',
    ensures
        scale_filter(wd, ht) != w,
{
    lemma_arg_words();
    assert(scale_filter(wd, ht)[0] == 's');
}

/// `-crf` is on the command line exactly when the encoder is x265; it then
/// stands once, right after the encoder part, followed by the rate factor.
pub proof fn law_crf_only_for_x265(c: TranscodeConfig)
    requires
        fields_avoid(c, "-crf"@),
    ensures
        spec_ffmpeg_args(c).contains("-crf"@) <==> c.codec@ == "libx265"@,
        c.codec@ == "libx265"@ ==> {
            let a = spec_ffmpeg_args(c);
            let k = if c.hw_accel { 5int } else { 7int };
            &&& a[k] == "-crf"@
            &&& a[k + 1] == decimal(c.crf as nat)
            &&& forall|j: int| 0 <= j < a.len() && j != k ==> a[j] != "-crf"@
        },
{
    let w = "-crf"@;
    lemma_arg_words();
    lemma_args_pieces(c);
    lemma_decimal_not_flag(c.crf as nat, w);
    assert("-c:v"@ != w) by { assert("-c:v"@[2] != w[2]); }
    assert("-c:a"@ != w) by { assert("-c:a"@[2] != w[2]); }
    assert("-b:a"@ != w) by { assert("-b:a"@[1] != w[1]); }
    assert("copy"@ != w) by { assert("copy"@[0] != w[0]); }
    assert("128k"@ != w) by { assert("128k"@[0] != w[0]); }
    let head = seq!["-y"@, "-i"@, c.input@];
    let pix = seq!["-pix_fmt"@, c.pixel_format@];
    let tail = seq!["-movflags"@, "+faststart"@, c.output@];
    let pre = head + video_args(c);
    let post = pix + scale_args(c) + audio_args(c) + tail;
    assert(avoids(head, w));
    assert(avoids(video_args(c), w));
    assert(avoids(pix, w));
    assert(avoids(scale_args(c), w)) by {
        match (c.width, c.height) {
            (Some(wd), Some(ht)) => {
                lemma_scale_not_flag(wd, ht, w);
            },
            _ => {},
        }
    }
    assert(avoids(audio_args(c), w));
    assert(avoids(tail, w));
    lemma_avoids_concat(head, video_args(c), w);
    lemma_avoids_concat(pix, scale_args(c), w);
    lemma_avoids_concat(pix + scale_args(c), audio_args(c), w);
    lemma_avoids_concat(pix + scale_args(c) + audio_args(c), tail, w);
    let a = spec_ffmpeg_args(c);
    assert(a =~= pre + crf_args(c) + post);
    if c.codec@ == "libx265"@ {
        let k = pre.len() as int;
        assert(k == if c.hw_accel { 5int } else { 7int });
        assert(a[k] == w);
        assert(a[k + 1] == decimal(c.crf as nat));
        assert forall|j: int| 0 <= j < a.len() && j != k implies a[j] != w by {
            if j < k {
                assert(a[j] == pre[j]);
            } else if j == k + 1 {
            } else {
                assert(a[j] == post[j - k - 2]);
            }
        }
        assert(a.contains(w));
    } else {
        assert(crf_args(c) =~= Seq::<Seq<char>>::empty());
        assert(a =~= pre + post);
        lemma_avoids_concat(pre, post, w);
        lemma_avoids_not_contains(a, w);
    }
}

/// `-preset` is on the command line exactly when hardware acceleration is
/// off; it then stands once, at index 5, right after the codec, followed by
/// the preset.
pub proof fn law_preset_only_for_software(c: TranscodeConfig)
    requires
        fields_avoid(c, "-preset"@),
    ensures
        spec_ffmpeg_args(c).contains("-preset"@) <==> !c.hw_accel,
        !c.hw_accel ==> {
            let a = spec_ffmpeg_args(c);
            &&& a[3] == "-c:v"@
            &&& a[4] == c.codec@
            &&& a[5] == "-preset"@
            &&& a[6] == c.preset@
            &&& forall|j: int| 0 <= j < a.len() && j != 5 ==> a[j] != "-preset"@
        },
{
    let w = "-preset"@;
    lemma_arg_words();
    lemma_args_pieces(c);
    lemma_decimal_not_flag(c.crf as nat, w);
    let head = seq!["-y"@, "-i"@, c.input@];
    let pix = seq!["-pix_fmt"@, c.pixel_format@];
    let tail = seq!["-movflags"@, "+faststart"@, c.output@];
    let post = crf_args(c) + pix + scale_args(c) + audio_args(c) + tail;
    assert(avoids(head, w));
    assert(avoids(crf_args(c), w));
    assert(avoids(pix, w));
    assert(avoids(scale_args(c), w)) by {
        match (c.width, c.height) {
            (Some(wd), Some(ht)) => {
                lemma_scale_not_flag(wd, ht, w);
            },
            _ => {},
        }
    }
    assert(avoids(audio_args(c), w));
    assert(avoids(tail, w));
    lemma_avoids_concat(crf_args(c), pix, w);
    lemma_avoids_concat(crf_args(c) + pix, scale_args(c), w);
    lemma_avoids_concat(crf_args(c) + pix + scale_args(c), audio_args(c), w);
    lemma_avoids_concat(crf_args(c) + pix + scale_args(c) + audio_args(c), tail, w);
    let a = spec_ffmpeg_args(c);
    assert(a =~= head + video_args(c) + post);
    if !c.hw_accel {
        let v = video_args(c);
        assert(a[3] == v[0] && a[4] == v[1] && a[5] == v[2] && a[6] == v[3]);
        assert forall|j: int| 0 <= j < a.len() && j != 5 implies a[j] != w by {
            if j < 3 {
                assert(a[j] == head[j]);
            } else if j < 7 {
                assert(a[j] == v[j - 3]);
            } else {
                assert(a[j] == post[j - 7]);
            }
        }
        assert(a.contains(w));
    } else {
        assert(avoids(video_args(c), w));
        lemma_avoids_concat(head, video_args(c), w);
        lemma_avoids_concat(head + video_args(c), post, w);
        lemma_avoids_not_contains(a, w);
    }
}

/// The length of the command line counts its optional parts: 12 words,
/// two more for each of the preset, the rate factor, the scaling filter and
/// re-encoded audio. It ends with the audio part and then `-movflags
/// +faststart` and the output. `-vf` is on it exactly when both dimensions
/// are set, followed by `scale=W:H`; `-b:a` exactly when the audio is
/// re-encoded.
pub proof fn law_args_layout(c: TranscodeConfig)
    ensures
        ({
            let a = spec_ffmpeg_args(c);
            &&& a.len() == 12 + (if c.hw_accel { 0int } else { 2 }) + (if c.codec@ == "libx265"@ {
                2int
            } else {
                0
            }) + (if c.width is Some && c.height is Some { 2int } else { 0 }) + (if c.copy_audio {
                0int
            } else {
                2
            })
            &&& a.subrange(a.len() - 3, a.len() as int) == seq![
                "-movflags"@,
                "+faststart"@,
                c.output@,
            ]
            &&& a.subrange(a.len() - 3 - audio_args(c).len(), a.len() - 3) == audio_args(c)
        }),
        fields_avoid(c, "-vf"@) ==> (spec_ffmpeg_args(c).contains("-vf"@) <==> (c.width is Some
            && c.height is Some)),
        c.width is Some && c.height is Some ==> {
            let a = spec_ffmpeg_args(c);
            let k = 7 + (if c.hw_accel { 0int } else { 2 }) + (if c.codec@ == "libx265"@ {
                2int
            } else {
                0
            });
            &&& a[k] == "-vf"@
            &&& a[k + 1] == scale_filter(c.width.unwrap(), c.height.unwrap())
        },
        fields_avoid(c, "-b:a"@) ==> (spec_ffmpeg_args(c).contains("-b:a"@) <==> !c.copy_audio),
{
    lemma_arg_words();
    lemma_args_pieces(c);
    let a = spec_ffmpeg_args(c);
    let head = seq!["-y"@, "-i"@, c.input@];
    let pix = seq!["-pix_fmt"@, c.pixel_format@];
    let tail = seq!["-movflags"@, "+faststart"@, c.output@];
    let pre = head + video_args(c) + crf_args(c) + pix;
    let post = audio_args(c) + tail;
    assert(a =~= pre + scale_args(c) + post);
    assert(a =~= pre + scale_args(c) + audio_args(c) + tail);
    assert(a.subrange(a.len() - 3, a.len() as int) =~= tail);
    assert(a.subrange(a.len() - 3 - audio_args(c).len(), a.len() - 3) =~= audio_args(c));
    if c.width is Some && c.height is Some {
        let k = pre.len() as int;
        assert(a[k] == scale_args(c)[0]);
        assert(a[k + 1] == scale_args(c)[1]);
    }
    if fields_avoid(c, "-vf"@) {
        let w = "-vf"@;
        lemma_decimal_not_flag(c.crf as nat, w);
        assert("aac"@ != w) by { assert("aac"@[0] != w[0]); }
        assert(avoids(pre, w)) by {
            lemma_avoids_concat(head, video_args(c), w);
            lemma_avoids_concat(head + video_args(c), crf_args(c), w);
            lemma_avoids_concat(head + video_args(c) + crf_args(c), pix, w);
        }
        assert(avoids(post, w)) by {
            lemma_avoids_concat(audio_args(c), tail, w);
        }
        if c.width is Some && c.height is Some {
            assert(a[pre.len() as int] == w);
            assert(a.contains(w));
        } else {
            assert(scale_args(c) =~= Seq::<Seq<char>>::empty());
            assert(a =~= pre + post);
            lemma_avoids_concat(pre, post, w);
            lemma_avoids_not_contains(a, w);
        }
    }
    if fields_avoid(c, "-b:a"@) {
        let w = "-b:a"@;
        lemma_decimal_not_flag(c.crf as nat, w);
        assert("-c:v"@ != w) by { assert("-c:v"@[1] != w[1]); }
        assert("-c:a"@ != w) by { assert("-c:a"@[1] != w[1]); }
        assert("-crf"@ != w) by { assert("-crf"@[1] != w[1]); }
        assert("copy"@ != w) by { assert("copy"@[0] != w[0]); }
        assert("128k"@ != w) by { assert("128k"@[0] != w[0]); }
        let front = pre + scale_args(c);
        assert(avoids(front, w)) by {
            lemma_avoids_concat(head, video_args(c), w);
            lemma_avoids_concat(head + video_args(c), crf_args(c), w);
            lemma_avoids_concat(head + video_args(c) + crf_args(c), pix, w);
            assert(avoids(scale_args(c), w)) by {
                match (c.width, c.height) {
                    (Some(wd), Some(ht)) => {
                        lemma_scale_not_flag(wd, ht, w);
                    },
                    _ => {},
                }
            }
            lemma_avoids_concat(pre, scale_args(c), w);
        }
        assert(a =~= front + audio_args(c) + tail);
        if c.copy_audio {
            lemma_avoids_concat(front, audio_args(c), w);
            lemma_avoids_concat(front + audio_args(c), tail, w);
            lemma_avoids_not_contains(a, w);
        } else {
            assert(a[front.len() as int + 2] == audio_args(c)[2]);
            assert(a.contains(w));
        }
    }
}

} // verus!
