use stream_cli::selection::{parse_command, SelectionStep};
use stream_cli::service::{
    apply_selection, apply_service_command, determine_state, disable_service, enable_service,
    get_service_info, initial_service_selection, parse_description, recommended_to_disable,
    service_units, services_from_units, services_to_disable, services_to_enable, status_groups,
    ServiceState,
};

const LISTING: &str = "UNIT LOAD ACTIVE SUB DESCRIPTION\n\
ssh.service loaded inactive dead OpenSSH server\n\
bluetooth.service loaded active running Bluetooth service\n\
foo.service loaded active running Foo\n\
bad line\n\
wpa_supplicant.socket loaded active running socket\n\
avahi-daemon.service masked inactive dead Avahi\n";

#[test]
fn states_from_columns() {
    assert_eq!(determine_state("masked", "active", "running"), ServiceState::Masked);
    assert_eq!(determine_state("loaded", "active", "running"), ServiceState::Running);
    assert_eq!(determine_state("loaded", "inactive", "dead"), ServiceState::Stopped);
    assert_eq!(determine_state("loaded", "failed", "failed"), ServiceState::Stopped);
    assert_eq!(determine_state("loaded", "activating", "start"), ServiceState::Unknown);
}

#[test]
fn service_categories() {
    assert_eq!(
        get_service_info("bluetooth.service"),
        ("Bluetooth".to_string(), "스트리밍 시 불필요".to_string(), true)
    );
    assert_eq!(
        get_service_info("ssh.service"),
        ("SSH 서버".to_string(), "원격 관리 필요 시 유지".to_string(), false)
    );
    assert_eq!(
        get_service_info("my-bluetooth-agent.service"),
        ("Bluetooth".to_string(), "스트리밍 시 비활성화 권장".to_string(), true)
    );
    assert_eq!(
        get_service_info("iwd-wifi.service"),
        ("WiFi".to_string(), "유선 사용 시 비활성화 권장".to_string(), true)
    );
    assert_eq!(
        get_service_info("pulse-sound.service"),
        ("Audio".to_string(), "HDMI 오디오 사용 시".to_string(), false)
    );
    assert_eq!(get_service_info("foo.service"), (String::new(), String::new(), false));
}

#[test]
fn units_of_the_listing() {
    let us = service_units(LISTING);
    let names: Vec<&str> = us.iter().map(|u| u.name.as_str()).collect();
    assert_eq!(names, vec!["ssh.service", "bluetooth.service", "avahi-daemon.service"]);
    assert_eq!(us[0].state, ServiceState::Stopped);
    assert_eq!(us[1].state, ServiceState::Running);
    assert_eq!(us[2].state, ServiceState::Masked);
    assert!(us[1].recommended_disable);
    assert!(!us[0].recommended_disable);
    assert!(service_units("").is_empty());
    assert!(service_units("bluetooth.service loaded active running x\n").is_empty());
}

#[test]
fn descriptions() {
    assert_eq!(parse_description("Description=Bluetooth service\nOther=1\n"), "Bluetooth service");
    assert_eq!(parse_description("Other=1\nDescription=x\n"), "");
    assert_eq!(parse_description(""), "");
}

#[test]
fn services_in_editor_order() {
    let us = service_units(LISTING);
    let descs = vec!["OpenSSH".to_string(), "BT".to_string(), "mDNS".to_string()];
    let ss = services_from_units(&us, &descs);
    let names: Vec<&str> = ss.iter().map(|s| s.name.as_str()).collect();
    assert_eq!(names, vec!["bluetooth.service", "avahi-daemon.service", "ssh.service"]);
    assert_eq!(ss[0].description, "BT");
    assert_eq!(ss[1].description, "mDNS");
    assert_eq!(ss[2].category, "SSH 서버");
}

#[test]
fn editor_selection_and_changes() {
    let us = service_units(LISTING);
    let descs = vec![String::new(), String::new(), String::new()];
    let ss = services_from_units(&us, &descs);
    let mut sel = initial_service_selection(&ss);
    assert_eq!(sel, vec![false, true, true]);
    let step = apply_service_command(&mut sel, &ss, &parse_command("r", ss.len()));
    assert_eq!(step, SelectionStep::Continue);
    assert_eq!(sel, vec![true, true, false]);
    assert_eq!(services_to_disable(&ss, &sel), vec!["bluetooth.service"]);
    assert_eq!(services_to_enable(&ss, &sel), vec!["ssh.service"]);
    assert_eq!(recommended_to_disable(&ss), vec!["bluetooth.service"]);
    assert_eq!(status_groups(&ss), (vec![0], vec![2]));
    assert_eq!(apply_service_command(&mut sel, &ss, &parse_command("q", ss.len())), SelectionStep::Cancel);
}

#[test]
fn systemctl_calls() {
    assert_eq!(disable_service("a.service"), vec![vec!["stop", "a.service"], vec!["disable", "a.service"]]);
    assert_eq!(enable_service("a.service"), vec![vec!["enable", "a.service"], vec!["start", "a.service"]]);
    let calls = apply_selection(&vec!["a.service".to_string(), "b.service".to_string()]);
    assert_eq!(
        calls,
        vec![
            vec!["stop", "a.service"],
            vec!["disable", "a.service"],
            vec!["stop", "b.service"],
            vec!["disable", "b.service"]
        ]
    );
    assert!(apply_selection(&vec![]).is_empty());
}
