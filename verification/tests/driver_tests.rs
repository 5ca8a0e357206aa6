use stream_cli::driver::blacklist::{
    apply_command, apply_selection, scan_loaded_modules, chosen_modules, deps_label,
    initial_selection, is_recommended_module, is_risky_category, module_category,
    parse_blacklist_conf, recommended_names, remove_entry_content, status_groups, BlacklistEntry,
};
use stream_cli::driver::{load_module, list_loaded, unload_module};
use stream_cli::selection::{parse_command, SelectCommand, SelectionStep};

const PROC: &str = "btusb 100 0 - Live 0x0\nvc4 2048 2 drm,drm_kms_helper Live 0x0\nsnd_bcm2835 300 0 - Live 0x0\n";

#[test]
fn proc_modules_are_parsed() {
    let ms = list_loaded("snd_bcm2835 24576 1 snd_pcm,snd_timer, Live 0x0\nbt 10 0 - Live 0x0\nlonely\n");
    assert_eq!(ms.len(), 2);
    assert_eq!(ms[0].name, "snd-bcm2835");
    assert_eq!(ms[0].size, 24576);
    assert_eq!(ms[0].used_count, 1);
    assert_eq!(ms[0].used_by, vec!["snd-pcm", "snd-timer", "Live 0x0"]);
    assert_eq!(ms[1].name, "bt");
    assert!(ms[1].used_by.is_empty());
}

#[test]
fn proc_module_with_bad_numbers() {
    let ms = list_loaded("m x\n");
    assert_eq!(ms.len(), 1);
    assert_eq!(ms[0].size, 0);
    assert_eq!(ms[0].used_count, 0);
}

#[test]
fn modprobe_arguments() {
    assert_eq!(load_module("vc4"), vec!["vc4"]);
    assert_eq!(unload_module("vc4"), vec!["-r", "vc4"]);
}

#[test]
fn categories_of_modules() {
    assert_eq!(module_category("btusb"), ("Bluetooth".to_string(), "Bluetooth 드라이버".to_string()));
    assert_eq!(module_category("i2c-bcm2835"), ("I2C".to_string(), "I2C 버스".to_string()));
    assert_eq!(module_category("mystery"), ("Other".to_string(), String::new()));
    assert!(is_recommended_module("btusb"));
    assert!(!is_recommended_module("vc4"));
    assert!(is_risky_category("GPU/DRM"));
    assert!(!is_risky_category("Audio"));
}

#[test]
fn listing_is_sorted_recommended_first() {
    let es = scan_loaded_modules(PROC, &vec!["btusb".to_string()]);
    let names: Vec<&str> = es.iter().map(|e| e.module.as_str()).collect();
    assert_eq!(names, vec!["btusb", "vc4", "snd-bcm2835"]);
    assert!(es[0].recommended);
    assert!(es[0].currently_blacklisted);
    assert_eq!(es[1].category, "GPU/DRM");
    assert_eq!(es[1].used_by, vec!["drm", "drm-kms-helper"]);
    assert_eq!(es[1].used_count, 2);
    assert_eq!(es[2].category, "Other");
    assert!(!es[2].recommended);
}

#[test]
fn selection_commands() {
    let es = scan_loaded_modules(PROC, &vec!["snd-bcm2835".to_string()]);
    let mut sel = initial_selection(&es);
    assert_eq!(sel, vec![false, false, true]);
    let step = apply_command(&mut sel, &es, &parse_command(" R ", es.len()));
    assert_eq!(step, SelectionStep::Continue);
    assert_eq!(sel, vec![true, false, true]);
    apply_command(&mut sel, &es, &parse_command("2-3 9", es.len()));
    assert_eq!(sel, vec![true, true, false]);
    apply_command(&mut sel, &es, &parse_command("n", es.len()));
    assert_eq!(sel, vec![false, false, false]);
    apply_command(&mut sel, &es, &parse_command("a", es.len()));
    assert_eq!(sel, vec![true, true, true]);
    apply_command(&mut sel, &es, &parse_command("what", es.len()));
    assert_eq!(sel, vec![true, true, true]);
    assert_eq!(apply_command(&mut sel, &es, &parse_command("d", es.len())), SelectionStep::Apply);
    assert_eq!(apply_command(&mut sel, &es, &parse_command("Q", es.len())), SelectionStep::Cancel);
    assert_eq!(chosen_modules(&es, &sel), vec!["btusb", "vc4", "snd-bcm2835"]);
    assert_eq!(recommended_names(&es), vec!["btusb"]);
}

#[test]
fn bad_range_is_ignored() {
    assert!(matches!(parse_command("x-2", 5), SelectCommand::Ignore));
    assert!(matches!(parse_command("3-1", 5), SelectCommand::Toggle(ref v) if v.is_empty()));
}

#[test]
fn conf_lists_blacklisted_modules() {
    let mods = parse_blacklist_conf("# comment\nblacklist btusb\n  blacklist   snd  \nblacklist \ninstall x /bin/true\nblacklist  vc4\r\n");
    assert_eq!(mods, vec!["btusb", "blacklist   snd", "vc4"]);
    assert!(parse_blacklist_conf("").is_empty());
}

#[test]
fn removing_entries() {
    assert_eq!(
        remove_entry_content("blacklist a\nblacklist b\n", "a").as_deref(),
        Some("blacklist b\n")
    );
    assert_eq!(remove_entry_content("  blacklist a  \n\n", "a"), None);
    assert_eq!(remove_entry_content("# keep\nblacklist a", "b").as_deref(), Some("# keep\nblacklist a\n"));
}

#[test]
fn applying_a_selection_rewrites_the_file() {
    let plan = apply_selection(Some("blacklist a\n"), &vec!["b".to_string()]);
    assert_eq!(plan.to_add, vec!["b"]);
    assert_eq!(plan.to_remove, vec!["a"]);
    assert_eq!(plan.added, vec!["b"]);
    assert_eq!(plan.file.as_deref(), Some("blacklist b\n"));
    assert_eq!(parse_blacklist_conf(plan.file.as_deref().unwrap()), vec!["b"]);
}

#[test]
fn applying_keeps_other_lines() {
    let plan = apply_selection(Some("# mine\nblacklist a"), &vec!["a".to_string(), "c".to_string()]);
    assert!(plan.to_remove.is_empty());
    assert_eq!(plan.file.as_deref(), Some("# mine\nblacklist a\nblacklist c\n"));
    let mut read = parse_blacklist_conf(plan.file.as_deref().unwrap());
    read.sort();
    assert_eq!(read, vec!["a", "c"]);
}

#[test]
fn applying_nothing_to_no_file() {
    let plan = apply_selection(None, &vec![]);
    assert!(plan.to_add.is_empty() && plan.to_remove.is_empty() && plan.added.is_empty());
    assert_eq!(plan.file, None);
    let plan = apply_selection(None, &vec!["x".to_string()]);
    assert_eq!(plan.file.as_deref(), Some("blacklist x\n"));
}

#[test]
fn dependents_column() {
    assert_eq!(deps_label(&vec![]), "-");
    assert_eq!(deps_label(&vec!["a".to_string(), "b".to_string()]), "a,b");
    let five: Vec<String> = ["a", "b", "c", "d", "e"].iter().map(|s| s.to_string()).collect();
    assert_eq!(deps_label(&five), "a,b,c, ...(총5개)");
}

fn entry(module: &str, recommended: bool, blacklisted: bool) -> BlacklistEntry {
    BlacklistEntry {
        module: module.to_string(),
        size: 0,
        used_count: 0,
        used_by: vec![],
        recommended,
        currently_blacklisted: blacklisted,
        category: "Other".to_string(),
        reason: String::new(),
    }
}

#[test]
fn status_report_groups() {
    let es = vec![entry("a", true, true), entry("b", true, false), entry("c", false, true), entry("d", false, false)];
    let (blocked, pending) = status_groups(&es);
    assert_eq!(blocked, vec![0, 2]);
    assert_eq!(pending, vec![1]);
}

#[test]
fn applying_the_same_selection_twice_changes_nothing() {
    let modules = vec!["btusb".to_string(), "hci_uart".to_string()];
    let first = apply_selection(Some("# local\nblacklist vc4\nblacklist btusb\n"), &modules);
    assert_eq!(first.file.as_deref(), Some("# local\nblacklist btusb\nblacklist hci_uart\n"));
    let second = apply_selection(first.file.as_deref(), &modules);
    assert!(second.to_add.is_empty());
    assert!(second.to_remove.is_empty());
    assert_eq!(second.file, first.file);
}

#[test]
fn applying_to_a_file_with_trailing_blanks() {
    let modules = vec!["b".to_string(), "c".to_string()];
    let plan = apply_selection(Some("blacklist a  \r\nblacklist b\r\n"), &modules);
    assert_eq!(plan.to_remove, vec!["a"]);
    assert_eq!(plan.to_add, vec!["c"]);
    assert_eq!(plan.file.as_deref(), Some("blacklist b\nblacklist c\n"));
    assert_eq!(parse_blacklist_conf(plan.file.as_deref().unwrap()), vec!["b", "c"]);
}

#[test]
fn applying_keeps_comments_while_removing() {
    let plan = apply_selection(
        Some("# keep me\nblacklist a\noptions b x=1\nblacklist b\n"),
        &vec!["b".to_string()],
    );
    let file = plan.file.unwrap();
    let ls: Vec<&str> = file.lines().collect();
    assert!(ls.contains(&"# keep me"));
    assert!(ls.contains(&"options b x=1"));
    assert!(!ls.contains(&"blacklist a"));
}

#[test]
fn applying_reads_back_names_with_inner_spaces() {
    let plan = apply_selection(Some("# c\nblacklist old\n"), &vec!["a b".to_string()]);
    let file = plan.file.unwrap();
    assert_eq!(file, "# c\nblacklist a b\n");
    assert_eq!(parse_blacklist_conf(&file), vec!["a b"]);
}
