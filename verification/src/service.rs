//! The systemd services that matter to streaming: which of them to disable,
//! the state that `systemctl list-units` reports, the editor's selection and
//! the `systemctl` calls that carry it out.
use vstd::prelude::*;

use crate::selection::{set_all, toggle_items, toggled, SelectCommand, SelectionStep};
use crate::sort::{is_permutation, key_eq, key_lt, sort_by_keys, stably_sorted, SortKey};
use crate::text::{
    chars_of, cseqs, ends_with, has_infix, has_prefix, has_suffix, keep, lines, push_str_item,
    split_lines, split_words, str_contains, str_eq, string_of, strs, words,
};

verus! {

/// The state of a service.
#[derive(Debug, Clone, Copy, PartialEq, Eq, Structural)]
pub enum ServiceState {
    Running,
    Stopped,
    Disabled,
    Enabled,
    Masked,
    Unknown,
}

/// The state that the load and active columns of `systemctl list-units`
/// give (the sub column plays no part).
pub open spec fn spec_determine_state(load: Seq<char>, active: Seq<char>) -> ServiceState {
    if load == "masked"@ {
        ServiceState::Masked
    } else if active == "active"@ {
        ServiceState::Running
    } else if active == "inactive"@ || active == "failed"@ {
        ServiceState::Stopped
    } else {
        ServiceState::Unknown
    }
}

/// The state of a service from its load, active and sub columns.
pub fn determine_state(load: &str, active: &str, _sub: &str) -> (s: ServiceState)
    ensures
        s == spec_determine_state(load@, active@),
{
    if str_eq(load, "masked") {
        return ServiceState::Masked;
    }
    if str_eq(active, "active") {
        ServiceState::Running
    } else if str_eq(active, "inactive") || str_eq(active, "failed") {
        ServiceState::Stopped
    } else {
        ServiceState::Unknown
    }
}

/// Services that streaming does not need: name, category, reason.
pub open spec fn streaming_disable_services() -> Seq<(Seq<char>, Seq<char>, Seq<char>)> {
    seq![
        ("bluetooth.service"@, "Bluetooth"@, "스트리밍 시 불필요"@),
        ("hciuart.service"@, "Bluetooth UART"@, "스트리밍 시 불필요"@),
        ("rpibluetooth.service"@, "RPi Bluetooth"@, "스트리밍 시 불필요"@),
        ("wpa_supplicant.service"@, "WiFi 연결"@, "유선 사용 시 불필요"@),
        ("dhcpcd.service"@, "DHCP Client"@, "정적 IP 사용 시 비활성화 가능"@),
        ("avahi-daemon.service"@, "mDNS/Bonjour"@, "스트리밍 시 불필요"@),
        ("cron.service"@, "Cron 작업"@, "스크린케스트 시 비활성화 가능"@),
        ("rsyslog.service"@, "로그 수집"@, "성능 최적화 시 비활성화 가능"@),
        ("triggerhappy.service"@, "GPIO 이벤트"@, "스트리밍 시 불필요"@),
        ("alsa-restore.service"@, "ALSA 설정"@, "HDMI 오디오 사용 시 비활성화 가능"@),
        ("alsa-state.service"@, "ALSA 상태"@, "HDMI 오디오 사용 시 비활성화 가능"@),
        ("rpi-display-backlight.service"@, "디스플레이 백라이트"@, "고정 백라이트 설정 시"@),
    ]
}

/// Services that one may disable, depending on the use of the machine.
pub open spec fn optional_disable_services() -> Seq<(Seq<char>, Seq<char>, Seq<char>)> {
    seq![
        ("nginx.service"@, "Web Server"@, "서버 운영 시 필요"@),
        ("apache2.service"@, "Web Server"@, "서버 운영 시 필요"@),
        ("ssh.service"@, "SSH 서버"@, "원격 관리 필요 시 유지"@),
        ("systemd-journald.service"@, "Journal 로그"@, "디버깅 필요 시 유지"@),
    ]
}

/// The category and reason of the first row of `table` for `name`.
pub open spec fn table_entry(table: Seq<(Seq<char>, Seq<char>, Seq<char>)>, name: Seq<char>) -> Option<
    (Seq<char>, Seq<char>),
>
    decreases table.len(),
{
    if table.len() == 0 {
        None
    } else if table[0].0 == name {
        Some((table[0].1, table[0].2))
    } else {
        table_entry(table.drop_first(), name)
    }
}

/// Category, reason and whether streaming recommends disabling, for a
/// service name; an empty category for a service that does not matter.
pub open spec fn spec_service_info(name: Seq<char>) -> (Seq<char>, Seq<char>, bool) {
    match table_entry(streaming_disable_services(), name) {
        Some((c, r)) => (c, r, true),
        None => match table_entry(optional_disable_services(), name) {
            Some((c, r)) => (c, r, false),
            None => if has_infix(name, "bluetooth"@) {
                ("Bluetooth"@, "스트리밍 시 비활성화 권장"@, true)
            } else if has_infix(name, "wifi"@) || has_infix(name, "wpa"@) {
                ("WiFi"@, "유선 사용 시 비활성화 권장"@, true)
            } else if has_infix(name, "alsa"@) || has_infix(name, "sound"@) {
                ("Audio"@, "HDMI 오디오 사용 시"@, false)
            } else {
                (Seq::empty(), Seq::empty(), false)
            },
        },
    }
}

/// A row of a table whose name no earlier row has is the row that
/// `table_entry` finds for that name.
proof fn lemma_table_entry_at(table: Seq<(Seq<char>, Seq<char>, Seq<char>)>, k: int)
    requires
        0 <= k < table.len(),
        forall|j: int| 0 <= j < k ==> (#[trigger] table[j]).0 != table[k].0,
    ensures
        table_entry(table, table[k].0) == Some((table[k].1, table[k].2)),
    decreases k,
{
    if k > 0 {
        let t = table.drop_first();
        assert(table[0].0 != table[k].0);
        assert forall|j: int| 0 <= j < k - 1 implies (#[trigger] t[j]).0 != t[k - 1].0 by {
            assert(t[j] == table[j + 1]);
        }
        assert(t[k - 1] == table[k]);
        lemma_table_entry_at(t, k - 1);
    }
}

/// A name that no row of a table has is not found in it.
proof fn lemma_table_entry_absent(table: Seq<(Seq<char>, Seq<char>, Seq<char>)>, name: Seq<char>)
    requires
        forall|j: int| 0 <= j < table.len() ==> (#[trigger] table[j]).0 != name,
    ensures
        table_entry(table, name) is None,
    decreases table.len(),
{
    if table.len() > 0 {
        let t = table.drop_first();
        assert(table[0].0 != name);
        assert forall|j: int| 0 <= j < t.len() implies (#[trigger] t[j]).0 != name by {
            assert(t[j] == table[j + 1]);
        }
        lemma_table_entry_absent(t, name);
    }
}

/// The service names of the two tables are all different.
proof fn lemma_table_names_distinct()
    ensures
        forall|i: int, j: int|
            0 <= i < j < streaming_disable_services().len() ==> (#[trigger] streaming_disable_services()[i]).0
                != (#[trigger] streaming_disable_services()[j]).0,
        forall|i: int, j: int|
            0 <= i < j < optional_disable_services().len() ==> (#[trigger] optional_disable_services()[i]).0
                != (#[trigger] optional_disable_services()[j]).0,
        forall|i: int, j: int|
            0 <= i < optional_disable_services().len() && 0 <= j < streaming_disable_services().len() ==> (
            #[trigger] optional_disable_services()[i]).0 != (#[trigger] streaming_disable_services()[j]).0,
{
    reveal_strlit("bluetooth.service");
    reveal_strlit("hciuart.service");
    reveal_strlit("rpibluetooth.service");
    reveal_strlit("wpa_supplicant.service");
    reveal_strlit("dhcpcd.service");
    reveal_strlit("avahi-daemon.service");
    reveal_strlit("cron.service");
    reveal_strlit("rsyslog.service");
    reveal_strlit("triggerhappy.service");
    reveal_strlit("alsa-restore.service");
    reveal_strlit("alsa-state.service");
    reveal_strlit("rpi-display-backlight.service");
    reveal_strlit("nginx.service");
    reveal_strlit("apache2.service");
    reveal_strlit("ssh.service");
    reveal_strlit("systemd-journald.service");
    let t = streaming_disable_services();
    let o = optional_disable_services();
    assert(t[0].0.len() == 17 && t[0].0[0] == 'b' && t[0].0[1] == 'l');
    assert(t[1].0.len() == 15 && t[1].0[0] == 'h' && t[1].0[1] == 'c');
    assert(t[2].0.len() == 20 && t[2].0[0] == 'r' && t[2].0[1] == 'p');
    assert(t[3].0.len() == 22 && t[3].0[0] == 'w' && t[3].0[1] == 'p');
    assert(t[4].0.len() == 14 && t[4].0[0] == 'd' && t[4].0[1] == 'h');
    assert(t[5].0.len() == 20 && t[5].0[0] == 'a' && t[5].0[1] == 'v');
    assert(t[6].0.len() == 12 && t[6].0[0] == 'c' && t[6].0[1] == 'r');
    assert(t[7].0.len() == 15 && t[7].0[0] == 'r' && t[7].0[1] == 's');
    assert(t[8].0.len() == 20 && t[8].0[0] == 't' && t[8].0[1] == 'r');
    assert(t[9].0.len() == 20 && t[9].0[0] == 'a' && t[9].0[1] == 'l');
    assert(t[10].0.len() == 18 && t[10].0[0] == 'a' && t[10].0[1] == 'l');
    assert(t[11].0.len() == 29 && t[11].0[0] == 'r' && t[11].0[1] == 'p');
    assert(o[0].0.len() == 13 && o[0].0[0] == 'n' && o[0].0[1] == 'g');
    assert(o[1].0.len() == 15 && o[1].0[0] == 'a' && o[1].0[1] == 'p');
    assert(o[2].0.len() == 11 && o[2].0[0] == 's' && o[2].0[1] == 's');
    assert(o[3].0.len() == 24 && o[3].0[0] == 's' && o[3].0[1] == 'y');
}

/// The rows of the two tables decide before any rule on parts of the name:
/// a service of the first table is recommended for disabling, with the
/// table's category and reason, and a service of the second table is not,
/// again with the table's category and reason.
pub proof fn law_service_tables_decide()
    ensures
        forall|k: int|
            0 <= k < streaming_disable_services().len() ==> spec_service_info(
                (#[trigger] streaming_disable_services()[k]).0,
            ) == (streaming_disable_services()[k].1, streaming_disable_services()[k].2, true),
        forall|k: int|
            0 <= k < optional_disable_services().len() ==> spec_service_info(
                (#[trigger] optional_disable_services()[k]).0,
            ) == (optional_disable_services()[k].1, optional_disable_services()[k].2, false),
{
    let t = streaming_disable_services();
    let o = optional_disable_services();
    lemma_table_names_distinct();
    assert forall|k: int| 0 <= k < t.len() implies spec_service_info((#[trigger] t[k]).0) == (t[k].1, t[k].2, true) by {
        lemma_table_entry_at(t, k);
    }
    assert forall|k: int| 0 <= k < o.len() implies spec_service_info((#[trigger] o[k]).0) == (o[k].1, o[k].2, false) by {
        assert forall|j: int| 0 <= j < t.len() implies (#[trigger] t[j]).0 != o[k].0 by {
            assert(o[k].0 != t[j].0);
        }
        lemma_table_entry_absent(t, o[k].0);
        lemma_table_entry_at(o, k);
    }
}

/// A service in neither table is judged by its name: one whose name holds
/// `bluetooth` is recommended for disabling as Bluetooth; else one with
/// `wifi` or `wpa` as WiFi; else one with `alsa` or `sound` is Audio and
/// not recommended; any other service has no category, no reason and is not
/// recommended.
pub proof fn law_service_name_rules(name: Seq<char>)
    requires
        forall|k: int|
            0 <= k < streaming_disable_services().len() ==> (#[trigger] streaming_disable_services()[k]).0
                != name,
        forall|k: int|
            0 <= k < optional_disable_services().len() ==> (#[trigger] optional_disable_services()[k]).0
                != name,
    ensures
        has_infix(name, "bluetooth"@) ==> spec_service_info(name) == (
            "Bluetooth"@,
            "스트리밍 시 비활성화 권장"@,
            true,
        ),
        !has_infix(name, "bluetooth"@) && (has_infix(name, "wifi"@) || has_infix(name, "wpa"@))
            ==> spec_service_info(name) == ("WiFi"@, "유선 사용 시 비활성화 권장"@, true),
        !has_infix(name, "bluetooth"@) && !has_infix(name, "wifi"@) && !has_infix(name, "wpa"@) && (
        has_infix(name, "alsa"@) || has_infix(name, "sound"@)) ==> spec_service_info(name) == (
            "Audio"@,
            "HDMI 오디오 사용 시"@,
            false,
        ),
        !has_infix(name, "bluetooth"@) && !has_infix(name, "wifi"@) && !has_infix(name, "wpa"@)
            && !has_infix(name, "alsa"@) && !has_infix(name, "sound"@) ==> spec_service_info(name) == (
            Seq::<char>::empty(),
            Seq::<char>::empty(),
            false,
        ),
{
    lemma_table_entry_absent(streaming_disable_services(), name);
    lemma_table_entry_absent(optional_disable_services(), name);
}

/// The row that `table_entry` finds is a row of the table.
proof fn lemma_table_entry_row(table: Seq<(Seq<char>, Seq<char>, Seq<char>)>, name: Seq<char>)
    ensures
        table_entry(table, name) matches Some(p) ==> exists|i: int|
            0 <= i < table.len() && (#[trigger] table[i]).1 == p.0 && table[i].2 == p.1,
    decreases table.len(),
{
    if table.len() > 0 && table[0].0 != name {
        lemma_table_entry_row(table.drop_first(), name);
        if let Some(p) = table_entry(table, name) {
            let i = choose|i: int|
                0 <= i < table.drop_first().len() && (#[trigger] table.drop_first()[i]).1 == p.0 && table.drop_first()[i].2
                    == p.1;
            assert(table[i + 1] == table.drop_first()[i]);
        }
    }
}

/// A service has an empty category exactly when it has no reason, and such
/// a service is never recommended for disabling.
pub proof fn law_empty_category_without_reason(name: Seq<char>)
    ensures
        (spec_service_info(name).0.len() == 0) == (spec_service_info(name).1.len() == 0),
        spec_service_info(name).0.len() == 0 ==> !spec_service_info(name).2,
{
    reveal_strlit("ALSA 상태");
    reveal_strlit("ALSA 설정");
    reveal_strlit("Bluetooth");
    reveal_strlit("Bluetooth UART");
    reveal_strlit("Cron 작업");
    reveal_strlit("DHCP Client");
    reveal_strlit("GPIO 이벤트");
    reveal_strlit("HDMI 오디오 사용 시 비활성화 가능");
    reveal_strlit("Journal 로그");
    reveal_strlit("RPi Bluetooth");
    reveal_strlit("SSH 서버");
    reveal_strlit("Web Server");
    reveal_strlit("WiFi 연결");
    reveal_strlit("alsa-restore.service");
    reveal_strlit("alsa-state.service");
    reveal_strlit("apache2.service");
    reveal_strlit("avahi-daemon.service");
    reveal_strlit("bluetooth.service");
    reveal_strlit("cron.service");
    reveal_strlit("dhcpcd.service");
    reveal_strlit("hciuart.service");
    reveal_strlit("mDNS/Bonjour");
    reveal_strlit("nginx.service");
    reveal_strlit("rpi-display-backlight.service");
    reveal_strlit("rpibluetooth.service");
    reveal_strlit("rsyslog.service");
    reveal_strlit("ssh.service");
    reveal_strlit("systemd-journald.service");
    reveal_strlit("triggerhappy.service");
    reveal_strlit("wpa_supplicant.service");
    reveal_strlit("고정 백라이트 설정 시");
    reveal_strlit("디버깅 필요 시 유지");
    reveal_strlit("디스플레이 백라이트");
    reveal_strlit("로그 수집");
    reveal_strlit("서버 운영 시 필요");
    reveal_strlit("성능 최적화 시 비활성화 가능");
    reveal_strlit("스크린케스트 시 비활성화 가능");
    reveal_strlit("스트리밍 시 불필요");
    reveal_strlit("원격 관리 필요 시 유지");
    reveal_strlit("유선 사용 시 불필요");
    reveal_strlit("정적 IP 사용 시 비활성화 가능");
    reveal_strlit("Bluetooth");
    reveal_strlit("스트리밍 시 비활성화 권장");
    reveal_strlit("WiFi");
    reveal_strlit("유선 사용 시 비활성화 권장");
    reveal_strlit("Audio");
    reveal_strlit("HDMI 오디오 사용 시");
    let st = streaming_disable_services();
    let op = optional_disable_services();
    assert forall|i: int| 0 <= i < st.len() implies (#[trigger] st[i]).1.len() > 0 && st[i].2.len() > 0 by {}
    assert forall|i: int| 0 <= i < op.len() implies (#[trigger] op[i]).1.len() > 0 && op[i].2.len() > 0 by {}
    lemma_table_entry_row(st, name);
    lemma_table_entry_row(op, name);
}

pub open spec fn table_view(t: Seq<(&str, &str, &str)>) -> Seq<(Seq<char>, Seq<char>, Seq<char>)> {
    t.map_values(|r: (&str, &str, &str)| (r.0@, r.1@, r.2@))
}

/// Looks `name` up in a table of services.
fn lookup(table: &[(&str, &str, &str)], name: &str) -> (r: Option<(String, String)>)
    ensures
        match r {
            Some(p) => table_entry(table_view(table@), name@) == Some((p.0@, p.1@)),
            None => table_entry(table_view(table@), name@) is None,
        },
{
    let ghost tv = table_view(table@);
    let mut i: usize = 0;
    assert(tv.skip(0) == tv);
    while i < table.len()
        invariant
            tv == table_view(table@),
            0 <= i <= table@.len(),
            table_entry(tv, name@) == table_entry(tv.skip(i as int), name@),
        decreases table@.len() - i,
    {
        let (svc, cat, reason) = table[i];
        assert(tv.skip(i as int)[0] == tv[i as int]);
        if str_eq(svc, name) {
            return Some((String::from_str(cat), String::from_str(reason)));
        }
        assert(tv.skip(i as int).drop_first() == tv.skip(i + 1));
        i += 1;
    }
    None
}

/// Category, reason and whether streaming recommends disabling the service
/// `name`; the category is empty for a service that does not matter.
pub fn get_service_info(name: &str) -> (r: (String, String, bool))
    ensures
        (r.0@, r.1@, r.2) == spec_service_info(name@),
{
    let streaming: [(&str, &str, &str); 12] = [
        ("bluetooth.service", "Bluetooth", "스트리밍 시 불필요"),
        ("hciuart.service", "Bluetooth UART", "스트리밍 시 불필요"),
        ("rpibluetooth.service", "RPi Bluetooth", "스트리밍 시 불필요"),
        ("wpa_supplicant.service", "WiFi 연결", "유선 사용 시 불필요"),
        ("dhcpcd.service", "DHCP Client", "정적 IP 사용 시 비활성화 가능"),
        ("avahi-daemon.service", "mDNS/Bonjour", "스트리밍 시 불필요"),
        ("cron.service", "Cron 작업", "스크린케스트 시 비활성화 가능"),
        ("rsyslog.service", "로그 수집", "성능 최적화 시 비활성화 가능"),
        ("triggerhappy.service", "GPIO 이벤트", "스트리밍 시 불필요"),
        ("alsa-restore.service", "ALSA 설정", "HDMI 오디오 사용 시 비활성화 가능"),
        ("alsa-state.service", "ALSA 상태", "HDMI 오디오 사용 시 비활성화 가능"),
        ("rpi-display-backlight.service", "디스플레이 백라이트", "고정 백라이트 설정 시"),
    ];
    let optional: [(&str, &str, &str); 4] = [
        ("nginx.service", "Web Server", "서버 운영 시 필요"),
        ("apache2.service", "Web Server", "서버 운영 시 필요"),
        ("ssh.service", "SSH 서버", "원격 관리 필요 시 유지"),
        ("systemd-journald.service", "Journal 로그", "디버깅 필요 시 유지"),
    ];
    assert(table_view(streaming@) =~= streaming_disable_services());
    assert(table_view(optional@) =~= optional_disable_services());
    if let Some((c, r)) = lookup(&streaming, name) {
        return (c, r, true);
    }
    if let Some((c, r)) = lookup(&optional, name) {
        return (c, r, false);
    }
    if str_contains(name, "bluetooth") {
        return (String::from_str("Bluetooth"), String::from_str("스트리밍 시 비활성화 권장"), true);
    }
    if str_contains(name, "wifi") || str_contains(name, "wpa") {
        return (String::from_str("WiFi"), String::from_str("유선 사용 시 비활성화 권장"), true);
    }
    if str_contains(name, "alsa") || str_contains(name, "sound") {
        return (String::from_str("Audio"), String::from_str("HDMI 오디오 사용 시"), false);
    }
    proof {
        reveal_strlit("");
    }
    (String::from_str(""), String::from_str(""), false)
}


// ---------------------------------------------------------------------------
// The listing of `systemctl list-units`
// ---------------------------------------------------------------------------

/// A service of the listing that matters to streaming, before its
/// description is known.
#[derive(Debug, Clone)]
pub struct ServiceUnit {
    pub name: String,
    pub state: ServiceState,
    pub recommended_disable: bool,
    pub category: String,
    pub reason: String,
}

/// The lines of the listing after its header line.
pub open spec fn body_lines(content: Seq<char>) -> Seq<Seq<char>> {
    let ls = lines(content);
    if ls.len() == 0 {
        ls
    } else {
        ls.drop_first()
    }
}

/// A line of the listing that names a service that matters: four columns
/// or more, a name ending in `.service`, and a category.
pub open spec fn is_unit_line(l: Seq<char>) -> bool {
    let p = words(l);
    &&& p.len() >= 4
    &&& has_suffix(p[0], ".service"@)
    &&& spec_service_info(p[0]).0.len() > 0
}

pub open spec fn unit_line_fn() -> spec_fn(Seq<char>) -> bool {
    |l: Seq<char>| is_unit_line(l)
}

/// The lines of the listing that name services that matter, in order.
pub open spec fn unit_lines(content: Seq<char>) -> Seq<Seq<char>> {
    keep(body_lines(content), unit_line_fn())
}

/// `u` is what the listing line `l` says.
pub open spec fn unit_from_line(u: ServiceUnit, l: Seq<char>) -> bool {
    let p = words(l);
    &&& u.name@ == p[0]
    &&& u.state == spec_determine_state(p[1], p[2])
    &&& (u.category@, u.reason@, u.recommended_disable) == spec_service_info(p[0])
}

/// The services that matter to streaming that the output of
/// `systemctl list-units --type=service --all --no-pager --plain` lists, in
/// its order.
pub fn service_units(content: &str) -> (us: Vec<ServiceUnit>)
    ensures
        us@.len() == unit_lines(content@).len(),
        forall|k: int| 0 <= k < us@.len() ==> unit_from_line(#[trigger] us@[k], unit_lines(content@)[k]),
{
    let ls = split_lines(&chars_of(content));
    let ghost all = cseqs(ls@);
    let ghost body = body_lines(content@);
    let mut us: Vec<ServiceUnit> = Vec::new();
    if ls.len() == 0 {
        return us;
    }
    assert(body == all.drop_first());
    let suffix = chars_of(".service");
    let mut i: usize = 1;
    while i < ls.len()
        invariant
            all == cseqs(ls@),
            body == all.drop_first(),
            suffix@ == ".service"@,
            1 <= i <= ls@.len(),
            us@.len() == keep(body.take(i - 1), unit_line_fn()).len(),
            forall|k: int| 0 <= k < us@.len() ==> unit_from_line(#[trigger] us@[k], keep(body.take(i - 1), unit_line_fn())[k]),
        decreases ls@.len() - i,
    {
        let l = &ls[i];
        assert(body.take(i as int).drop_last() == body.take(i - 1));
        assert(body.take(i as int).last() == l@);
        let ghost k0 = keep(body.take(i - 1), unit_line_fn());
        let ws = split_words(l);
        let ghost p = cseqs(ws@);
        if ws.len() >= 4 && ends_with(&ws[0], &suffix) {
            let name = string_of(&ws[0]);
            let (category, reason, recommended) = get_service_info(name.as_str());
            if chars_of(category.as_str()).len() > 0 {
                let load = string_of(&ws[1]);
                let active = string_of(&ws[2]);
                let sub = string_of(&ws[3]);
                let state = determine_state(load.as_str(), active.as_str(), sub.as_str());
                let u = ServiceUnit { name, state, recommended_disable: recommended, category, reason };
                assert(unit_from_line(u, l@));
                us.push(u);
                assert(keep(body.take(i as int), unit_line_fn()) == k0.push(l@));
                assert forall|k: int| 0 <= k < us@.len() implies unit_from_line(
                    #[trigger] us@[k],
                    keep(body.take(i as int), unit_line_fn())[k],
                ) by {
                    if k < us@.len() - 1 {
                        assert(keep(body.take(i as int), unit_line_fn())[k] == k0[k]);
                    }
                }
            } else {
                assert(keep(body.take(i as int), unit_line_fn()) == k0);
            }
        } else {
            assert(keep(body.take(i as int), unit_line_fn()) == k0);
        }
        i += 1;
    }
    assert(body.take(body.len() as int) == body);
    us
}

/// What `systemctl show NAME --property=Description` printed, reduced to
/// the description: its first line after `Description=`, or nothing.
pub open spec fn spec_description(output: Seq<char>) -> Seq<char> {
    let ls = lines(output);
    if ls.len() > 0 && has_prefix(ls[0], "Description="@) {
        ls[0].skip(12)
    } else {
        Seq::empty()
    }
}

/// The description of a service from the output of `systemctl show`.
pub fn parse_description(output: &str) -> (d: String)
    ensures
        d@ == spec_description(output@),
{
    let ls = split_lines(&chars_of(output));
    let prefix = chars_of("Description=");
    proof {
        reveal_strlit("Description=");
    }
    if ls.len() > 0 && crate::text::starts_with(&ls[0], &prefix) {
        let first = &ls[0];
        crate::text::string_from(first, 12, first.len())
    } else {
        proof {
            reveal_strlit("");
        }
        String::from_str("")
    }
}


// ---------------------------------------------------------------------------
// The services, in the order of the editor
// ---------------------------------------------------------------------------

/// A service that matters to streaming, with its description.
#[derive(Debug, Clone)]
pub struct ServiceInfo {
    pub name: String,
    pub description: String,
    pub state: ServiceState,
    pub recommended_disable: bool,
    pub category: String,
    pub reason: String,
}

/// `s` is the unit `u` with the description `d`.
pub open spec fn info_of(s: ServiceInfo, u: ServiceUnit, d: Seq<char>) -> bool {
    &&& s.name@ == u.name@
    &&& s.description@ == d
    &&& s.state == u.state
    &&& s.recommended_disable == u.recommended_disable
    &&& s.category@ == u.category@
    &&& s.reason@ == u.reason@
}

/// The order of the editor: services whose disabling is recommended first,
/// then by category, then by name.
pub open spec fn service_key(s: ServiceInfo) -> SortKey {
    SortKey { flag: s.recommended_disable, first: s.category, second: s.name }
}

/// `out` holds the units with their descriptions, ordered by `service_key`,
/// services of equal key in their order in `units`.
pub open spec fn spec_services(units: Seq<ServiceUnit>, descs: Seq<Seq<char>>, out: Seq<ServiceInfo>) -> bool {
    exists|perm: Seq<int>|
        {
            &&& is_permutation(perm, units.len() as int)
            &&& out.len() == units.len()
            &&& forall|k: int| 0 <= k < out.len() ==> info_of(#[trigger] out[k], units[perm[k]], descs[perm[k]])
            &&& forall|a: int, b: int| 0 <= a < b < out.len() ==> !key_lt(service_key(#[trigger] out[b]), service_key(#[trigger] out[a]))
            &&& forall|a: int, b: int|
                0 <= a < b < out.len() && key_eq(service_key(#[trigger] out[a]), service_key(#[trigger] out[b])) ==> perm[a] < perm[b]
        }
}

/// The services of the listing with their descriptions (`descriptions[i]`
/// belongs to `units[i]`), in the order of the editor.
pub fn services_from_units(units: &Vec<ServiceUnit>, descriptions: &Vec<String>) -> (out: Vec<ServiceInfo>)
    requires
        units@.len() == descriptions@.len(),
    ensures
        spec_services(units@, strs(descriptions@), out@),
{
    let ghost ds = strs(descriptions@);
    let mut items: Vec<ServiceInfo> = Vec::new();
    let mut keys: Vec<SortKey> = Vec::new();
    let mut i: usize = 0;
    while i < units.len()
        invariant
            units@.len() == descriptions@.len(),
            ds == strs(descriptions@),
            0 <= i <= units@.len(),
            items@.len() == keys@.len() == i,
            forall|j: int| 0 <= j < i ==> info_of(#[trigger] items@[j], units@[j], ds[j]),
            forall|j: int| 0 <= j < i ==> #[trigger] keys@[j] == service_key(items@[j]),
        decreases units@.len() - i,
    {
        let u = &units[i];
        let s = ServiceInfo {
            name: u.name.clone(),
            description: descriptions[i].clone(),
            state: u.state,
            recommended_disable: u.recommended_disable,
            category: u.category.clone(),
            reason: u.reason.clone(),
        };
        let key = SortKey { flag: s.recommended_disable, first: s.category.clone(), second: s.name.clone() };
        assert(info_of(s, units@[i as int], ds[i as int]));
        assert(key == service_key(s));
        items.push(s);
        keys.push(key);
        i += 1;
    }
    let ghost its = items@;
    let ghost ks = keys@;
    let (out, out_keys) = sort_by_keys(items, keys);
    proof {
        let perm = choose|perm: Seq<int>| stably_sorted(its, ks, out@, out_keys@, perm);
        assert forall|k: int| 0 <= k < out@.len() implies service_key(#[trigger] out@[k]) == out_keys@[k] by {
            assert(out_keys@[k] == ks[perm[k]]);
            assert(out@[k] == its[perm[k]]);
        }
        assert forall|k: int| 0 <= k < out@.len() implies info_of(#[trigger] out@[k], units@[perm[k]], ds[perm[k]]) by {
            assert(out@[k] == its[perm[k]]);
        }
        assert forall|a: int, b: int| 0 <= a < b < out@.len() implies !key_lt(
            service_key(#[trigger] out@[b]),
            service_key(#[trigger] out@[a]),
        ) by {
            assert(!key_lt(out_keys@[b], out_keys@[a]));
        }
        assert forall|a: int, b: int|
            0 <= a < b < out@.len() && key_eq(service_key(#[trigger] out@[a]), service_key(#[trigger] out@[b])) implies perm[a]
            < perm[b] by {
            assert(key_eq(out_keys@[a], out_keys@[b]));
        }
    }
    out
}


// ---------------------------------------------------------------------------
// The editor's selection: selected services are to be disabled
// ---------------------------------------------------------------------------

/// A service that is not running.
pub open spec fn is_off(st: ServiceState) -> bool {
    st == ServiceState::Stopped || st == ServiceState::Disabled || st == ServiceState::Masked
}

fn state_is_off(st: ServiceState) -> (b: bool)
    ensures
        b == is_off(st),
{
    st == ServiceState::Stopped || st == ServiceState::Disabled || st == ServiceState::Masked
}

/// At first the services that are stopped, disabled or masked are selected.
pub fn initial_service_selection(services: &Vec<ServiceInfo>) -> (sel: Vec<bool>)
    ensures
        sel@ == services@.map_values(|s: ServiceInfo| is_off(s.state)),
{
    let mut sel: Vec<bool> = Vec::new();
    let mut i: usize = 0;
    while i < services.len()
        invariant
            0 <= i <= services@.len(),
            sel@ == services@.take(i as int).map_values(|s: ServiceInfo| is_off(s.state)),
        decreases services@.len() - i,
    {
        sel.push(state_is_off(services[i].state));
        assert(services@.take(i + 1).map_values(|s: ServiceInfo| is_off(s.state)) =~= services@.take(
            i as int,
        ).map_values(|s: ServiceInfo| is_off(s.state)).push(is_off(services@[i as int].state)));
        i += 1;
    }
    assert(services@.take(services@.len() as int) == services@);
    sel
}

/// The selection and the next step after a command of the service editor:
/// `r` selects exactly the services whose disabling is recommended.
pub open spec fn spec_apply_service_command(
    services: Seq<ServiceInfo>,
    sel: Seq<bool>,
    cmd: SelectCommand,
    after: Seq<bool>,
    step: SelectionStep,
) -> bool {
    match cmd {
        SelectCommand::Quit => step == SelectionStep::Cancel && after == sel,
        SelectCommand::Done => step == SelectionStep::Apply && after == sel,
        SelectCommand::Recommended => step == SelectionStep::Continue && after == services.map_values(
            |s: ServiceInfo| s.recommended_disable,
        ),
        SelectCommand::All => step == SelectionStep::Continue && after == Seq::new(sel.len(), |i: int| true),
        SelectCommand::Clear => step == SelectionStep::Continue && after == Seq::new(sel.len(), |i: int| false),
        SelectCommand::Toggle(ix) => step == SelectionStep::Continue && after == toggled(sel, ix@),
        SelectCommand::Ignore => step == SelectionStep::Continue && after == sel,
    }
}

/// What each command of the service editor does to the selection, service
/// by service: `r` selects exactly the services recommended for disabling;
/// `a` selects all, `n` none; `d` applies and `q` leaves, both without a
/// change; any command keeps the number of services.
pub proof fn law_service_commands(
    services: Seq<ServiceInfo>,
    sel: Seq<bool>,
    cmd: SelectCommand,
    after: Seq<bool>,
    step: SelectionStep,
)
    requires
        spec_apply_service_command(services, sel, cmd, after, step),
        sel.len() == services.len(),
    ensures
        after.len() == sel.len(),
        cmd is Recommended ==> step == SelectionStep::Continue && forall|i: int|
            0 <= i < sel.len() ==> #[trigger] after[i] == services[i].recommended_disable,
        cmd is All ==> step == SelectionStep::Continue && forall|i: int| 0 <= i < sel.len() ==> #[trigger] after[i],
        cmd is Clear ==> step == SelectionStep::Continue && forall|i: int| 0 <= i < sel.len() ==> !#[trigger] after[i],
        cmd is Done ==> step == SelectionStep::Apply && after == sel,
        cmd is Quit ==> step == SelectionStep::Cancel && after == sel,
        cmd is Ignore ==> step == SelectionStep::Continue && after == sel,
{
    if let SelectCommand::Toggle(ix) = cmd {
        assert(after == toggled(sel, ix@));
    }
}

/// Carries out a command of the service editor on its selection.
pub fn apply_service_command(selected: &mut Vec<bool>, services: &Vec<ServiceInfo>, cmd: &SelectCommand) -> (step: SelectionStep)
    requires
        old(selected)@.len() == services@.len(),
        cmd matches SelectCommand::Toggle(ix) ==> forall|k: int| 0 <= k < ix@.len() ==> #[trigger] ix@[k] < services@.len(),
    ensures
        spec_apply_service_command(services@, old(selected)@, *cmd, final(selected)@, step),
        final(selected)@.len() == services@.len(),
{
    match cmd {
        SelectCommand::Quit => SelectionStep::Cancel,
        SelectCommand::Done => SelectionStep::Apply,
        SelectCommand::Recommended => {
            let mut i: usize = 0;
            while i < services.len()
                invariant
                    selected@.len() == services@.len(),
                    0 <= i <= services@.len(),
                    forall|j: int| 0 <= j < i ==> selected@[j] == services@[j].recommended_disable,
                decreases services@.len() - i,
            {
                selected.set(i, services[i].recommended_disable);
                i += 1;
            }
            assert(selected@ =~= services@.map_values(|s: ServiceInfo| s.recommended_disable));
            SelectionStep::Continue
        },
        SelectCommand::All => {
            set_all(selected, true);
            SelectionStep::Continue
        },
        SelectCommand::Clear => {
            set_all(selected, false);
            SelectionStep::Continue
        },
        SelectCommand::Toggle(ix) => {
            toggle_items(selected, ix);
            SelectionStep::Continue
        },
        SelectCommand::Ignore => SelectionStep::Continue,
    }
}

/// The services that the selection changes, in order: with `disable`, the
/// selected services that run; without, the unselected ones that do not.
pub open spec fn changed(services: Seq<ServiceInfo>, sel: Seq<bool>, disable: bool) -> Seq<Seq<char>>
    decreases services.len(),
{
    if services.len() == 0 {
        Seq::empty()
    } else {
        let i = services.len() - 1;
        let rest = changed(services.drop_last(), sel, disable);
        if sel[i] == disable && (services[i].state == ServiceState::Running) == disable {
            rest.push(services[i].name@)
        } else {
            rest
        }
    }
}

fn changed_names(services: &Vec<ServiceInfo>, selected: &Vec<bool>, disable: bool) -> (r: Vec<String>)
    requires
        selected@.len() == services@.len(),
    ensures
        strs(r@) == changed(services@, selected@, disable),
{
    let mut r: Vec<String> = Vec::new();
    let mut i: usize = 0;
    while i < services.len()
        invariant
            selected@.len() == services@.len(),
            0 <= i <= services@.len(),
            strs(r@) == changed(services@.take(i as int), selected@, disable),
        decreases services@.len() - i,
    {
        assert(services@.take(i + 1).drop_last() == services@.take(i as int));
        assert(services@.take(i + 1)[i as int] == services@[i as int]);
        let running = services[i].state == ServiceState::Running;
        if selected[i] == disable && running == disable {
            push_str_item(&mut r, services[i].name.as_str());
        }
        i += 1;
    }
    assert(services@.take(services@.len() as int) == services@);
    r
}

/// The selected services that run: those to disable.
pub fn services_to_disable(services: &Vec<ServiceInfo>, selected: &Vec<bool>) -> (r: Vec<String>)
    requires
        selected@.len() == services@.len(),
    ensures
        strs(r@) == changed(services@, selected@, true),
{
    changed_names(services, selected, true)
}

/// The unselected services that do not run: those to enable.
pub fn services_to_enable(services: &Vec<ServiceInfo>, selected: &Vec<bool>) -> (r: Vec<String>)
    requires
        selected@.len() == services@.len(),
    ensures
        strs(r@) == changed(services@, selected@, false),
{
    changed_names(services, selected, false)
}

/// The running services whose disabling is recommended, in order.
pub open spec fn recommended_running(services: Seq<ServiceInfo>) -> Seq<Seq<char>>
    decreases services.len(),
{
    if services.len() == 0 {
        Seq::empty()
    } else {
        let s = services.last();
        let rest = recommended_running(services.drop_last());
        if s.recommended_disable && s.state == ServiceState::Running {
            rest.push(s.name@)
        } else {
            rest
        }
    }
}

/// The running services whose disabling is recommended.
pub fn recommended_to_disable(services: &Vec<ServiceInfo>) -> (r: Vec<String>)
    ensures
        strs(r@) == recommended_running(services@),
{
    let mut r: Vec<String> = Vec::new();
    let mut i: usize = 0;
    while i < services.len()
        invariant
            0 <= i <= services@.len(),
            strs(r@) == recommended_running(services@.take(i as int)),
        decreases services@.len() - i,
    {
        assert(services@.take(i + 1).drop_last() == services@.take(i as int));
        assert(services@.take(i + 1).last() == services@[i as int]);
        if services[i].recommended_disable && services[i].state == ServiceState::Running {
            push_str_item(&mut r, services[i].name.as_str());
        }
        i += 1;
    }
    assert(services@.take(services@.len() as int) == services@);
    r
}

/// The positions of the running services whose disabling is recommended,
/// and of the stopped and the disabled services, as the status report lists
/// them.
pub open spec fn spec_status_groups(services: Seq<ServiceInfo>) -> (Seq<usize>, Seq<usize>)
    decreases services.len(),
{
    if services.len() == 0 {
        (Seq::empty(), Seq::empty())
    } else {
        let i = services.len() - 1;
        let s = services[i];
        let (r, o) = spec_status_groups(services.drop_last());
        (
            if s.recommended_disable && s.state == ServiceState::Running {
                r.push(i as usize)
            } else {
                r
            },
            if s.state == ServiceState::Stopped || s.state == ServiceState::Disabled {
                o.push(i as usize)
            } else {
                o
            },
        )
    }
}

/// The positions of the running services whose disabling is recommended,
/// and of the stopped and the disabled services.
pub fn status_groups(services: &Vec<ServiceInfo>) -> (r: (Vec<usize>, Vec<usize>))
    ensures
        (r.0@, r.1@) == spec_status_groups(services@),
{
    let mut running: Vec<usize> = Vec::new();
    let mut off: Vec<usize> = Vec::new();
    let mut i: usize = 0;
    while i < services.len()
        invariant
            0 <= i <= services@.len(),
            (running@, off@) == spec_status_groups(services@.take(i as int)),
        decreases services@.len() - i,
    {
        assert(services@.take(i + 1).drop_last() == services@.take(i as int));
        assert(services@.take(i + 1)[i as int] == services@[i as int]);
        let s = &services[i];
        if s.recommended_disable && s.state == ServiceState::Running {
            running.push(i);
        }
        if s.state == ServiceState::Stopped || s.state == ServiceState::Disabled {
            off.push(i);
        }
        i += 1;
    }
    assert(services@.take(services@.len() as int) == services@);
    (running, off)
}

/// Choosing `r` in the service editor and applying disables exactly the
/// services that `service recommended` disables: the running ones whose
/// disabling is recommended.
pub proof fn law_recommended_selection_disables_recommended(services: Seq<ServiceInfo>)
    ensures
        changed(services, services.map_values(|s: ServiceInfo| s.recommended_disable), true) == recommended_running(
            services,
        ),
    decreases services.len(),
{
    if services.len() > 0 {
        let init = services.drop_last();
        let sel = services.map_values(|s: ServiceInfo| s.recommended_disable);
        law_recommended_selection_disables_recommended(init);
        assert forall|k: int| 0 <= k < init.len() implies #[trigger] sel[k] == init.map_values(
            |s: ServiceInfo| s.recommended_disable,
        )[k] by {}
        lemma_changed_prefix(init, sel, init.map_values(|s: ServiceInfo| s.recommended_disable), true);
    }
}

/// `changed` reads the selection only at the positions of the services.
proof fn lemma_changed_prefix(services: Seq<ServiceInfo>, a: Seq<bool>, b: Seq<bool>, disable: bool)
    requires
        forall|k: int| 0 <= k < services.len() ==> #[trigger] a[k] == b[k],
    ensures
        changed(services, a, disable) == changed(services, b, disable),
    decreases services.len(),
{
    if services.len() > 0 {
        lemma_changed_prefix(services.drop_last(), a, b, disable);
    }
}

// ---------------------------------------------------------------------------
// The systemctl calls
// ---------------------------------------------------------------------------

/// The arguments of each call, as text.
pub open spec fn call_views(calls: Seq<Vec<String>>) -> Seq<Seq<Seq<char>>> {
    calls.map_values(|c: Vec<String>| strs(c@))
}

/// Disabling a service: `systemctl stop NAME`, then `systemctl disable NAME`.
pub open spec fn disable_calls(name: Seq<char>) -> Seq<Seq<Seq<char>>> {
    seq![seq!["stop"@, name], seq!["disable"@, name]]
}

/// Enabling a service: `systemctl enable NAME`, then `systemctl start NAME`.
pub open spec fn enable_calls(name: Seq<char>) -> Seq<Seq<Seq<char>>> {
    seq![seq!["enable"@, name], seq!["start"@, name]]
}

fn call2(verb: &str, name: &str) -> (c: Vec<String>)
    ensures
        strs(c@) == seq![verb@, name@],
{
    let mut c: Vec<String> = Vec::new();
    push_str_item(&mut c, verb);
    push_str_item(&mut c, name);
    assert(strs(c@) =~= seq![verb@, name@]);
    c
}

/// The arguments of the `systemctl` calls that disable the service `name`.
pub fn disable_service(name: &str) -> (calls: Vec<Vec<String>>)
    ensures
        call_views(calls@) == disable_calls(name@),
{
    let calls = vec![call2("stop", name), call2("disable", name)];
    assert(call_views(calls@) =~= disable_calls(name@));
    calls
}

/// The arguments of the `systemctl` calls that enable the service `name`.
pub fn enable_service(name: &str) -> (calls: Vec<Vec<String>>)
    ensures
        call_views(calls@) == enable_calls(name@),
{
    let calls = vec![call2("enable", name), call2("start", name)];
    assert(call_views(calls@) =~= enable_calls(name@));
    calls
}

/// The calls that disable each of `names`, in order.
pub open spec fn disable_all_calls(names: Seq<Seq<char>>) -> Seq<Seq<Seq<char>>>
    decreases names.len(),
{
    if names.len() == 0 {
        Seq::empty()
    } else {
        disable_all_calls(names.drop_last()) + disable_calls(names.last())
    }
}

/// The `systemctl` calls that disable the services `services_to_disable`,
/// in order: for each service, `stop` then `disable`.
pub fn apply_selection(services_to_disable: &Vec<String>) -> (calls: Vec<Vec<String>>)
    ensures
        call_views(calls@) == disable_all_calls(strs(services_to_disable@)),
{
    let ghost names = strs(services_to_disable@);
    let mut calls: Vec<Vec<String>> = Vec::new();
    let mut i: usize = 0;
    while i < services_to_disable.len()
        invariant
            names == strs(services_to_disable@),
            0 <= i <= services_to_disable@.len(),
            call_views(calls@) == disable_all_calls(names.take(i as int)),
        decreases services_to_disable@.len() - i,
    {
        assert(names.take(i + 1).drop_last() == names.take(i as int));
        assert(names.take(i + 1).last() == services_to_disable@[i as int]@);
        let ghost c0 = call_views(calls@);
        let mut more = disable_service(services_to_disable[i].as_str());
        let ghost m0 = call_views(more@);
        calls.append(&mut more);
        assert(call_views(calls@) =~= c0 + m0);
        i += 1;
    }
    assert(names.take(names.len() as int) == names);
    calls
}

} // verus!
