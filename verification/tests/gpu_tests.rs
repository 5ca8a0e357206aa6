use stream_cli::gpu::{activate, apply_cmdline_tweaks, deactivate, detect};

#[test]
fn detect_reads_driver_overlay_and_memory() {
    let st = detect(
        "snd 100 0 - Live 0x0\nvc4 2048 2 drm Live 0x0\n",
        "# comment\n#dtoverlay=vc4-kms-v3d\n  gpu_mem=128 \n",
        true,
    );
    assert!(st.driver_loaded);
    assert!(!st.dtoverlay_set);
    assert_eq!(st.gpu_mem_mb, Some(128));
    assert!(st.firmware_exists);
}

#[test]
fn detect_without_settings() {
    let st = detect("snd 100 0 - Live 0x0\n", "arm_64bit=1\n", false);
    assert!(!st.driver_loaded);
    assert!(!st.dtoverlay_set);
    assert_eq!(st.gpu_mem_mb, None);
    assert!(!st.firmware_exists);
}

#[test]
fn detect_skips_commented_and_unparsable_memory() {
    let st = detect("", "#gpu_mem=64\ngpu_mem_1024=abc\ngpu_mem=96\n", false);
    assert_eq!(st.gpu_mem_mb, Some(96));
    let st = detect("", "#gpu_mem=64\ngpu_mem_1024=512\ngpu_mem=96\n", false);
    assert_eq!(st.gpu_mem_mb, Some(512));
}

#[test]
fn activate_uncomments_overlay_and_replaces_memory() {
    let out = activate("#dtoverlay=vc4-kms-v3d\ngpu_mem=128", 256);
    assert_eq!(out, "dtoverlay=vc4-kms-v3d\ngpu_mem_1024=256");
}

#[test]
fn activate_appends_to_empty_config() {
    let out = activate("", 256);
    assert_eq!(out, "dtoverlay=vc4-kms-v3d\ngpu_mem_1024=256");
}

#[test]
fn activate_keeps_enabled_overlay() {
    let out = activate("dtoverlay=vc4-kms-v3d\narm_64bit=1\n", 512);
    assert_eq!(out, "dtoverlay=vc4-kms-v3d\narm_64bit=1\ngpu_mem_1024=512");
}

#[test]
fn activate_then_detect_reads_back_settings() {
    let out = activate("arm_64bit=1\n# dtoverlay=vc4-kms-v3d\ngpu_mem=64\n", 320);
    let st = detect("", &out, false);
    assert!(st.dtoverlay_set);
    assert_eq!(st.gpu_mem_mb, Some(320));
}

#[test]
fn deactivate_comments_overlay() {
    let out = deactivate("dtoverlay=vc4-kms-v3d\narm_64bit=1");
    assert_eq!(out, "#dtoverlay=vc4-kms-v3d\narm_64bit=1");
    let st = detect("", &out, false);
    assert!(!st.dtoverlay_set);
}

#[test]
fn deactivate_keeps_other_lines() {
    let out = deactivate("#dtoverlay=vc4-kms-v3d\ngpu_mem=64\n");
    assert_eq!(out, "#dtoverlay=vc4-kms-v3d\ngpu_mem=64");
}

#[test]
fn cmdline_tweak_adds_cma() {
    let out = apply_cmdline_tweaks("console=tty1  root=/dev/mmcblk0p2\n");
    assert_eq!(out, "console=tty1 root=/dev/mmcblk0p2 cma=512M");
}

#[test]
fn cmdline_tweak_keeps_existing_cma() {
    let out = apply_cmdline_tweaks("cma=256M console=tty1");
    assert_eq!(out, "cma=256M console=tty1");
    assert_eq!(apply_cmdline_tweaks(""), "cma=512M");
}

#[test]
fn cmdline_tweak_twice_is_tweak_once() {
    for text in ["console=tty1 root=/dev/mmcblk0p2 rootwait\n", "", "  cma=64M  quiet ", "a\tb\nc"] {
        let once = apply_cmdline_tweaks(text);
        assert_eq!(apply_cmdline_tweaks(&once), once);
    }
}

#[test]
fn deactivate_keeps_line_count_and_other_lines() {
    let c = "arm_64bit=1\n  dtoverlay=vc4-kms-v3d,cma-256  \n# note\ngpu_mem=64";
    let out = deactivate(c);
    assert_eq!(out, "arm_64bit=1\n#dtoverlay=vc4-kms-v3d,cma-256\n# note\ngpu_mem=64");
    assert_eq!(out.lines().count(), c.lines().count());
}

#[test]
fn activate_keeps_other_lines_and_is_idempotent() {
    let c = "arm_64bit=1\n#dtoverlay=vc4-kms-v3d\ndisable_overscan=1\ngpu_mem=64\nhdmi_group=1";
    let once = activate(c, 256);
    assert_eq!(
        once,
        "arm_64bit=1\ndtoverlay=vc4-kms-v3d\ndisable_overscan=1\ngpu_mem_1024=256\nhdmi_group=1"
    );
    assert_eq!(activate(&once, 256), once);
    let twice = activate(&activate("arm_64bit=1", 128), 128);
    assert_eq!(twice, activate("arm_64bit=1", 128));
}

#[test]
fn edits_read_back_with_blank_end_and_carriage_returns() {
    // Deactivation: a blank last line goes when the text is read back.
    let out = deactivate("dtoverlay=vc4-kms-v3d\n\n");
    assert_eq!(out, "#dtoverlay=vc4-kms-v3d\n");
    assert_eq!(out.lines().collect::<Vec<_>>(), vec!["#dtoverlay=vc4-kms-v3d"]);
    // Activation, then a second one: it writes back the lines that the first
    // text reads as.
    let once = activate("dtoverlay=vc4-kms-v3d\ngpu_mem=1\n\n", 256);
    assert_eq!(once, "dtoverlay=vc4-kms-v3d\ngpu_mem_1024=256\n");
    let twice = activate(&once, 256);
    assert_eq!(twice, once.lines().collect::<Vec<_>>().join("\n"));
    assert_eq!(twice.lines().collect::<Vec<_>>(), once.lines().collect::<Vec<_>>());
    // A line ending in two carriage returns loses one on each reading.
    let once = activate("a\r\r\nb", 64);
    assert_eq!(activate(&once, 64), once.lines().collect::<Vec<_>>().join("\n"));
}
