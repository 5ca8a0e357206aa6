//! The firmware settings that enable the VideoCore GPU for 4K 60 fps output.
use vstd::prelude::*;

use crate::text::{decimal, push_decimal, strs};

verus! {

/// The `config.txt` and `cmdline.txt` settings that enable the GPU.
#[derive(Debug, Clone)]
pub struct GpuConfig {
    pub overlay: String,
    pub gpu_mem: u32,
    pub cma_size_mb: u32,
    pub hdmi_mode: HdmiMode,
    pub hdmi_cvt: HdmiCvt,
}

/// `hdmi_group` and `hdmi_mode`.
#[derive(Debug, Clone, Copy)]
pub struct HdmiMode {
    pub group: u32,
    pub mode: u32,
}

/// The custom video timing of `hdmi_cvt`.
#[derive(Debug, Clone, Copy)]
pub struct HdmiCvt {
    pub width: u32,
    pub height: u32,
    pub framerate: u32,
    pub aspect: u32,
}

/// The 4K 60 fps settings: KMS overlay, 256 MB of GPU memory, a 512 MB CMA
/// pool, DMT group 2 mode 16, and a 3840x2160@60 custom timing.
pub open spec fn is_default_gpu_config(c: GpuConfig) -> bool {
    &&& c.overlay@ == "vc4-kms-v3d"@
    &&& c.gpu_mem == 256
    &&& c.cma_size_mb == 512
    &&& c.hdmi_mode.group == 2
    &&& c.hdmi_mode.mode == 16
    &&& c.hdmi_cvt.width == 3840
    &&& c.hdmi_cvt.height == 2160
    &&& c.hdmi_cvt.framerate == 60
    &&& c.hdmi_cvt.aspect == 16
}

/// The lines that `config_lines` writes for a configuration.
pub open spec fn spec_config_lines(c: GpuConfig) -> Seq<Seq<char>> {
    seq![
        "dtoverlay="@ + c.overlay@,
        "gpu_mem_1024="@ + decimal(c.gpu_mem as nat),
        "hdmi_group="@ + decimal(c.hdmi_mode.group as nat),
        "hdmi_mode="@ + decimal(c.hdmi_mode.mode as nat),
        "hdmi_cvt "@ + decimal(c.hdmi_cvt.width as nat) + " "@ + decimal(c.hdmi_cvt.height as nat)
            + " "@ + decimal(c.hdmi_cvt.framerate as nat) + " "@ + decimal(c.hdmi_cvt.aspect as nat)
            + " 0 0 1"@,
        "hdmi_drive=2"@,
        "disable_overscan=1"@,
    ]
}

/// The kernel command line parameter that sizes the CMA pool.
pub open spec fn spec_cmdline_params(c: GpuConfig) -> Seq<char> {
    "cma="@ + decimal(c.cma_size_mb as nat) + "M"@
}

impl Default for GpuConfig {
    fn default() -> (c: Self)
        ensures
            is_default_gpu_config(c),
    {
        GpuConfig {
            overlay: String::from_str("vc4-kms-v3d"),
            gpu_mem: 256,
            cma_size_mb: 512,
            hdmi_mode: HdmiMode { group: 2, mode: 16 },
            hdmi_cvt: HdmiCvt { width: 3840, height: 2160, framerate: 60, aspect: 16 },
        }
    }
}

/// `prefix` followed by the decimal representation of `n`.
fn labelled_number(prefix: &str, n: u32) -> (s: String)
    ensures
        s@ == prefix@ + decimal(n as nat),
{
    let mut s = String::from_str(prefix);
    push_decimal(&mut s, n as u64);
    s
}

impl GpuConfig {
    pub fn new_4k60() -> (c: Self)
        ensures
            is_default_gpu_config(c),
    {
        Self::default()
    }

    /// The lines to put into `config.txt`.
    pub fn config_lines(&self) -> (lines: Vec<String>)
        ensures
            strs(lines@) == spec_config_lines(*self),
    {
        let mut overlay = String::from_str("dtoverlay=");
        overlay.append(self.overlay.as_str());
        let mut cvt = labelled_number("hdmi_cvt ", self.hdmi_cvt.width);
        cvt.append(" ");
        push_decimal(&mut cvt, self.hdmi_cvt.height as u64);
        cvt.append(" ");
        push_decimal(&mut cvt, self.hdmi_cvt.framerate as u64);
        cvt.append(" ");
        push_decimal(&mut cvt, self.hdmi_cvt.aspect as u64);
        cvt.append(" 0 0 1");
        let lines = vec![
            overlay,
            labelled_number("gpu_mem_1024=", self.gpu_mem),
            labelled_number("hdmi_group=", self.hdmi_mode.group),
            labelled_number("hdmi_mode=", self.hdmi_mode.mode),
            cvt,
            String::from_str("hdmi_drive=2"),
            String::from_str("disable_overscan=1"),
        ];
        assert(strs(lines@) =~= spec_config_lines(*self));
        lines
    }

    /// The parameter to add to `cmdline.txt`.
    pub fn cmdline_params(&self) -> (s: String)
        ensures
            s@ == spec_cmdline_params(*self),
    {
        let mut s = labelled_number("cma=", self.cma_size_mb);
        s.append("M");
        s
    }
}

} // verus!
