//! mpv settings for the streaming profiles, and the command line they give.
use vstd::prelude::*;

use crate::text::{concat_str, decimal, drop_prefixed, has_prefix, push_decimal, retain_unprefixed, str_eq, strs};

verus! {

/// mpv settings.  The playback time offset of mpv is left at its default of
/// zero and is not part of these settings.
#[derive(Debug, Clone)]
pub struct StreamParams {
    pub vo: String,
    pub hwdec: String,
    pub gpu_api: String,
    pub video_sync: String,
    pub interpolation: bool,
    pub profile: String,
    pub width: u32,
    pub height: u32,
    pub fps: u32,
    pub cache: bool,
    pub cache_secs: u32,
    pub ao: String,
    pub audio_channels: u32,
    pub extra: Vec<String>,
}

/// The settings that every profile shares: GPU output with automatic hardware
/// decoding, the `fast` profile, a ten second cache, and stereo ALSA audio.
pub open spec fn common_settings(p: StreamParams) -> bool {
    &&& p.vo@ == "gpu"@
    &&& p.hwdec@ == "auto"@
    &&& p.profile@ == "fast"@
    &&& p.cache_secs == 10
    &&& p.ao@ == "alsa"@
    &&& p.audio_channels == 2
}

/// The extra options of the 4K 60 fps OpenGL profile.
pub open spec fn extra_4k60() -> Seq<Seq<char>> {
    seq![
        "--gpu-context=wayland"@,
        "--opengl-es=yes"@,
        "--vd-lavc-fast"@,
        "--vd-lavc-skiploopfilter=nonref"@,
        "--vd-lavc-skipframe=nonref"@,
        "--vd-lavc-framedrop=nonref"@,
        "--video-latency-hacks=yes"@,
        "--demuxer-max-bytes=150MiB"@,
        "--demuxer-max-back-bytes=75MiB"@,
        "--demuxer-seekable-cache=no"@,
    ]
}

/// The extra options of the low-latency profile.
pub open spec fn extra_low_latency() -> Seq<Seq<char>> {
    seq![
        "--profile=fast"@,
        "--vd-lavc-fast"@,
        "--vd-lavc-skiploopfilter=all"@,
        "--vd-lavc-skipframe=nonkey"@,
        "--vd-lavc-framedrop=all"@,
        "--video-latency-hacks=yes"@,
        "--no-cache"@,
        "--untimed"@,
        "--opengl-es=yes"@,
    ]
}

/// The extra options of the 4K 60 fps Vulkan profile.
pub open spec fn extra_4k60_vulkan() -> Seq<Seq<char>> {
    seq![
        "--gpu-context=waylandvk"@,
        "--vd-lavc-fast"@,
        "--vd-lavc-skiploopfilter=nonref"@,
        "--vd-lavc-skipframe=nonref"@,
        "--vd-lavc-framedrop=nonref"@,
        "--video-latency-hacks=yes"@,
        "--demuxer-max-bytes=150MiB"@,
        "--demuxer-max-back-bytes=75MiB"@,
        "--spirv-compiler=auto"@,
    ]
}

/// The 4K 60 fps OpenGL profile.
pub open spec fn is_4k60(p: StreamParams) -> bool {
    &&& common_settings(p)
    &&& p.gpu_api@ == "opengl"@
    &&& p.video_sync@ == "display-resample"@
    &&& p.interpolation
    &&& p.width == 3840
    &&& p.height == 2160
    &&& p.fps == 60
    &&& p.cache
    &&& strs(p.extra@) == extra_4k60()
}

/// The 4K 30 fps profile: the 4K 60 fps one at 30 fps, without
/// interpolation, and without `--video-sync` extras.
pub open spec fn is_4k30(p: StreamParams) -> bool {
    &&& common_settings(p)
    &&& p.gpu_api@ == "opengl"@
    &&& p.video_sync@ == "display-resample"@
    &&& !p.interpolation
    &&& p.width == 3840
    &&& p.height == 2160
    &&& p.fps == 30
    &&& p.cache
    &&& strs(p.extra@) == drop_prefixed(extra_4k60(), "--video-sync"@)
}

/// The 1080p 60 fps profile: the 4K 60 fps one at 1920x1080, with smaller
/// demuxer buffers.
pub open spec fn is_1080p60(p: StreamParams) -> bool {
    &&& common_settings(p)
    &&& p.gpu_api@ == "opengl"@
    &&& p.video_sync@ == "display-resample"@
    &&& p.interpolation
    &&& p.width == 1920
    &&& p.height == 1080
    &&& p.fps == 60
    &&& p.cache
    &&& strs(p.extra@) == drop_prefixed(extra_4k60(), "--demuxer-max"@).push(
        "--demuxer-max-bytes=50MiB"@,
    ).push("--demuxer-max-back-bytes=25MiB"@)
}

/// The low-latency profile: no cache, no interpolation, audio-clocked sync.
pub open spec fn is_low_latency(p: StreamParams) -> bool {
    &&& common_settings(p)
    &&& p.gpu_api@ == "opengl"@
    &&& p.video_sync@ == "audio"@
    &&& !p.interpolation
    &&& p.width == 3840
    &&& p.height == 2160
    &&& p.fps == 60
    &&& !p.cache
    &&& strs(p.extra@) == extra_low_latency()
}

/// The 4K 60 fps Vulkan profile.
pub open spec fn is_4k60_vulkan(p: StreamParams) -> bool {
    &&& common_settings(p)
    &&& p.gpu_api@ == "vulkan"@
    &&& p.video_sync@ == "display-resample"@
    &&& p.interpolation
    &&& p.width == 3840
    &&& p.height == 2160
    &&& p.fps == 60
    &&& p.cache
    &&& strs(p.extra@) == extra_4k60_vulkan()
}

/// The settings `p` with the graphics API set to `api`; for Vulkan, the
/// OpenGL and GPU context extras give way to the Vulkan ones.
pub open spec fn spec_with_api(p: StreamParams, api: Seq<char>, q: StreamParams) -> bool {
    &&& q.gpu_api@ == api
    &&& strs(q.extra@) == if api == "vulkan"@ {
        drop_prefixed(drop_prefixed(strs(p.extra@), "--opengl"@), "--gpu-context"@).push(
            "--gpu-context=waylandvk"@,
        ).push("--spirv-compiler=auto"@)
    } else {
        strs(p.extra@)
    }
    &&& q.vo == p.vo
    &&& q.hwdec == p.hwdec
    &&& q.video_sync == p.video_sync
    &&& q.interpolation == p.interpolation
    &&& q.profile == p.profile
    &&& q.width == p.width
    &&& q.height == p.height
    &&& q.fps == p.fps
    &&& q.cache == p.cache
    &&& q.cache_secs == p.cache_secs
    &&& q.ao == p.ao
    &&& q.audio_channels == p.audio_channels
}

/// The mpv command line options of `p`: the seven basic options, then the
/// interpolation flag when it is on, then the cache option, then the extras.
pub open spec fn spec_to_args(p: StreamParams) -> Seq<Seq<char>> {
    seq![
        "--vo="@ + p.vo@,
        "--hwdec="@ + p.hwdec@,
        "--gpu-api="@ + p.gpu_api@,
        "--video-sync="@ + p.video_sync@,
        "--profile="@ + p.profile@,
        "--ao="@ + p.ao@,
        "--audio-channels="@ + decimal(p.audio_channels as nat),
    ] + (if p.interpolation {
        seq!["--interpolation"@]
    } else {
        Seq::empty()
    }) + (if p.cache {
        seq!["--cache="@ + decimal(p.cache_secs as nat)]
    } else {
        seq!["--no-cache"@]
    }) + strs(p.extra@)
}

fn string_list(items: &[&str]) -> (v: Vec<String>)
    ensures
        strs(v@) == items@.map_values(|s: &str| s@),
{
    let mut v: Vec<String> = Vec::new();
    let mut i: usize = 0;
    while i < items.len()
        invariant
            0 <= i <= items@.len(),
            strs(v@) == items@.take(i as int).map_values(|s: &str| s@),
        decreases items@.len() - i,
    {
        let ghost v0 = strs(v@);
        v.push(String::from_str(items[i]));
        assert(strs(v@) =~= v0.push(items@[i as int]@));
        assert(items@.take(i + 1).map_values(|s: &str| s@) =~= items@.take(i as int).map_values(
            |s: &str| s@,
        ).push(items@[i as int]@));
        i += 1;
    }
    assert(items@.take(items@.len() as int) == items@);
    v
}

impl StreamParams {
    pub fn new_4k60() -> (p: Self)
        ensures
            is_4k60(p),
    {
        let items: [&str; 10] = [
            "--gpu-context=wayland",
            "--opengl-es=yes",
            "--vd-lavc-fast",
            "--vd-lavc-skiploopfilter=nonref",
            "--vd-lavc-skipframe=nonref",
            "--vd-lavc-framedrop=nonref",
            "--video-latency-hacks=yes",
            "--demuxer-max-bytes=150MiB",
            "--demuxer-max-back-bytes=75MiB",
            "--demuxer-seekable-cache=no",
        ];
        let extra = string_list(&items);
        assert(items@.map_values(|s: &str| s@) =~= extra_4k60());
        StreamParams {
            vo: String::from_str("gpu"),
            hwdec: String::from_str("auto"),
            gpu_api: String::from_str("opengl"),
            video_sync: String::from_str("display-resample"),
            interpolation: true,
            profile: String::from_str("fast"),
            width: 3840,
            height: 2160,
            fps: 60,
            cache: true,
            cache_secs: 10,
            ao: String::from_str("alsa"),
            audio_channels: 2,
            extra,
        }
    }

    pub fn new_4k30() -> (p: Self)
        ensures
            is_4k30(p),
    {
        let mut p = Self::new_4k60();
        p.fps = 30;
        p.interpolation = false;
        retain_unprefixed(&mut p.extra, "--video-sync");
        p
    }

    pub fn new_1080p60() -> (p: Self)
        ensures
            is_1080p60(p),
    {
        let mut p = Self::new_4k60();
        p.width = 1920;
        p.height = 1080;
        retain_unprefixed(&mut p.extra, "--demuxer-max");
        let ghost e0 = strs(p.extra@);
        p.extra.push(String::from_str("--demuxer-max-bytes=50MiB"));
        p.extra.push(String::from_str("--demuxer-max-back-bytes=25MiB"));
        assert(strs(p.extra@) =~= e0.push("--demuxer-max-bytes=50MiB"@).push(
            "--demuxer-max-back-bytes=25MiB"@,
        ));
        p
    }

    pub fn new_low_latency() -> (p: Self)
        ensures
            is_low_latency(p),
    {
        let mut p = Self::new_4k60();
        p.cache = false;
        p.interpolation = false;
        p.video_sync = String::from_str("audio");
        let items: [&str; 9] = [
            "--profile=fast",
            "--vd-lavc-fast",
            "--vd-lavc-skiploopfilter=all",
            "--vd-lavc-skipframe=nonkey",
            "--vd-lavc-framedrop=all",
            "--video-latency-hacks=yes",
            "--no-cache",
            "--untimed",
            "--opengl-es=yes",
        ];
        p.extra = string_list(&items);
        assert(items@.map_values(|s: &str| s@) =~= extra_low_latency());
        p
    }

    pub fn new_4k60_vulkan() -> (p: Self)
        ensures
            is_4k60_vulkan(p),
    {
        let items: [&str; 9] = [
            "--gpu-context=waylandvk",
            "--vd-lavc-fast",
            "--vd-lavc-skiploopfilter=nonref",
            "--vd-lavc-skipframe=nonref",
            "--vd-lavc-framedrop=nonref",
            "--video-latency-hacks=yes",
            "--demuxer-max-bytes=150MiB",
            "--demuxer-max-back-bytes=75MiB",
            "--spirv-compiler=auto",
        ];
        let extra = string_list(&items);
        assert(items@.map_values(|s: &str| s@) =~= extra_4k60_vulkan());
        StreamParams {
            vo: String::from_str("gpu"),
            hwdec: String::from_str("auto"),
            gpu_api: String::from_str("vulkan"),
            video_sync: String::from_str("display-resample"),
            interpolation: true,
            profile: String::from_str("fast"),
            width: 3840,
            height: 2160,
            fps: 60,
            cache: true,
            cache_secs: 10,
            ao: String::from_str("alsa"),
            audio_channels: 2,
            extra,
        }
    }

    /// These settings with the graphics API `api`.
    pub fn with_api(self, api: &str) -> (q: Self)
        ensures
            spec_with_api(self, api@, q),
    {
        let mut q = self;
        q.gpu_api = String::from_str(api);
        if str_eq(api, "vulkan") {
            retain_unprefixed(&mut q.extra, "--opengl");
            retain_unprefixed(&mut q.extra, "--gpu-context");
            let ghost e0 = strs(q.extra@);
            q.extra.push(String::from_str("--gpu-context=waylandvk"));
            q.extra.push(String::from_str("--spirv-compiler=auto"));
            assert(strs(q.extra@) =~= e0.push("--gpu-context=waylandvk"@).push(
                "--spirv-compiler=auto"@,
            ));
        }
        q
    }

    /// The mpv command line options.
    pub fn to_args(&self) -> (args: Vec<String>)
        ensures
            strs(args@) == spec_to_args(*self),
    {
        let mut channels = String::from_str("--audio-channels=");
        push_decimal(&mut channels, self.audio_channels as u64);
        let mut args: Vec<String> = vec![
            concat_str("--vo=", self.vo.as_str()),
            concat_str("--hwdec=", self.hwdec.as_str()),
            concat_str("--gpu-api=", self.gpu_api.as_str()),
            concat_str("--video-sync=", self.video_sync.as_str()),
            concat_str("--profile=", self.profile.as_str()),
            concat_str("--ao=", self.ao.as_str()),
            channels,
        ];
        let ghost a0 = strs(args@);
        if self.interpolation {
            args.push(String::from_str("--interpolation"));
        }
        let ghost a1 = strs(args@);
        assert(a1 =~= a0 + if self.interpolation {
            seq!["--interpolation"@]
        } else {
            Seq::<Seq<char>>::empty()
        });
        if self.cache {
            let mut c = String::from_str("--cache=");
            push_decimal(&mut c, self.cache_secs as u64);
            args.push(c);
        } else {
            args.push(String::from_str("--no-cache"));
        }
        let ghost a2 = strs(args@);
        let mut i: usize = 0;
        while i < self.extra.len()
            invariant
                0 <= i <= self.extra@.len(),
                strs(args@) == a2 + strs(self.extra@).take(i as int),
            decreases self.extra@.len() - i,
        {
            let ghost b0 = strs(args@);
            args.push(self.extra[i].clone());
            assert(strs(args@) =~= b0.push(self.extra@[i as int]@));
            assert(strs(self.extra@).take(i + 1) =~= strs(self.extra@).take(i as int).push(
                self.extra@[i as int]@,
            ));
            i += 1;
        }
        assert(strs(self.extra@).take(self.extra@.len() as int) == strs(self.extra@));
        assert(strs(args@) =~= spec_to_args(*self));
        args
    }
}


/// The options kept by `drop_prefixed` are options of the list that do not
/// start with the prefix.
proof fn lemma_drop_prefixed(ls: Seq<Seq<char>>, p: Seq<char>)
    ensures
        forall|i: int|
            0 <= i < drop_prefixed(ls, p).len() ==> !has_prefix(#[trigger] drop_prefixed(ls, p)[i], p) && ls.contains(
                drop_prefixed(ls, p)[i],
            ),
    decreases ls.len(),
{
    if ls.len() > 0 {
        lemma_drop_prefixed(ls.drop_last(), p);
        let d0 = drop_prefixed(ls.drop_last(), p);
        assert forall|i: int| 0 <= i < drop_prefixed(ls, p).len() implies !has_prefix(
            #[trigger] drop_prefixed(ls, p)[i],
            p,
        ) && ls.contains(drop_prefixed(ls, p)[i]) by {
            if i < d0.len() {
                assert(drop_prefixed(ls, p)[i] == d0[i]);
                let k = choose|k: int| 0 <= k < ls.drop_last().len() && ls.drop_last()[k] == d0[i];
                assert(ls[k] == d0[i]);
            } else {
                assert(drop_prefixed(ls, p)[i] == ls.last());
                assert(ls[ls.len() - 1] == ls.last());
            }
        }
    }
}

/// Switching to Vulkan leaves no OpenGL option and one GPU context option,
/// Vulkan's, and asks for a SPIR-V compiler.
pub proof fn law_vulkan_extras(p: StreamParams, q: StreamParams)
    requires
        spec_with_api(p, "vulkan"@, q),
    ensures
        q.gpu_api@ == "vulkan"@,
        forall|i: int| 0 <= i < q.extra@.len() ==> !has_prefix(#[trigger] strs(q.extra@)[i], "--opengl"@),
        forall|i: int|
            0 <= i < q.extra@.len() && has_prefix(#[trigger] strs(q.extra@)[i], "--gpu-context"@) ==> strs(q.extra@)[i]
                == "--gpu-context=waylandvk"@,
        strs(q.extra@).contains("--spirv-compiler=auto"@),
{
    reveal_strlit("--opengl");
    reveal_strlit("--gpu-context");
    reveal_strlit("--gpu-context=waylandvk");
    reveal_strlit("--spirv-compiler=auto");
    let d1 = drop_prefixed(strs(p.extra@), "--opengl"@);
    let d2 = drop_prefixed(d1, "--gpu-context"@);
    lemma_drop_prefixed(strs(p.extra@), "--opengl"@);
    lemma_drop_prefixed(d1, "--gpu-context"@);
    let e = strs(q.extra@);
    assert(e == d2.push("--gpu-context=waylandvk"@).push("--spirv-compiler=auto"@));
    assert forall|i: int| 0 <= i < q.extra@.len() implies !has_prefix(#[trigger] strs(q.extra@)[i], "--opengl"@) by {
        if i < d2.len() {
            assert(e[i] == d2[i]);
            let k = choose|k: int| 0 <= k < d1.len() && d1[k] == d2[i];
        } else if i == d2.len() {
            assert(e[i] == "--gpu-context=waylandvk"@);
            assert(e[i][2] != "--opengl"@[2]);
        } else {
            assert(e[i] == "--spirv-compiler=auto"@);
            assert(e[i][2] != "--opengl"@[2]);
        }
    }
    assert forall|i: int|
        0 <= i < q.extra@.len() && has_prefix(#[trigger] strs(q.extra@)[i], "--gpu-context"@) implies strs(q.extra@)[i]
        == "--gpu-context=waylandvk"@ by {
        if i < d2.len() {
            assert(e[i] == d2[i]);
        } else if i == d2.len() + 1 {
            assert(e[i] == "--spirv-compiler=auto"@);
            assert(e[i][2] != "--gpu-context"@[2]);
        }
    }
    assert(e[e.len() - 1] == "--spirv-compiler=auto"@);
}

} // verus!
