use stream_cli::dep::{
    all_packages, apt_install_args, dep_status, missing_required, not_installed_count,
    optional_packages, required_packages,
};

#[test]
fn package_lists() {
    assert_eq!(
        required_packages(),
        vec!["mpv", "ffmpeg", "libraspberrypi0", "libdrm2", "mesa-utils", "firmware-linux-nonfree"]
    );
    assert_eq!(optional_packages(), vec!["v4l-utils", "libva2", "i965-va-driver"]);
    let all = all_packages();
    assert_eq!(all.len(), 9);
    assert_eq!(all[0], "mpv");
    assert_eq!(all[8], "i965-va-driver");
}

#[test]
fn status_from_query() {
    let d = dep_status("mpv", true, " 0.37.0-1\n");
    assert_eq!(d.name, "mpv");
    assert!(d.installed);
    assert_eq!(d.version.as_deref(), Some("0.37.0-1"));
    let d = dep_status("libva2", true, " \n");
    assert!(d.installed);
    assert_eq!(d.version, None);
    let d = dep_status("ffmpeg", false, "1.0");
    assert!(!d.installed);
    assert_eq!(d.version, None);
}

#[test]
fn missing_are_required_and_absent() {
    let statuses = vec![
        dep_status("mpv", false, ""),
        dep_status("ffmpeg", true, "6.1"),
        dep_status("libva2", false, ""),
        dep_status("libdrm2", false, ""),
    ];
    assert_eq!(missing_required(&statuses), vec!["mpv".to_string(), "libdrm2".to_string()]);
    assert_eq!(not_installed_count(&statuses), 3);
}

#[test]
fn install_command() {
    let pkgs = vec!["mpv".to_string(), "ffmpeg".to_string()];
    assert_eq!(apt_install_args(&pkgs), vec!["apt", "install", "-y", "mpv", "ffmpeg"]);
    assert_eq!(apt_install_args(&vec![]), vec!["apt", "install", "-y"]);
}
