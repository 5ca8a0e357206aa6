//! The kernel module blacklist: the loaded modules with their categories and
//! recommendations, the editor's selection, and the edits of the blacklist
//! file under `/etc/modprobe.d`.
use vstd::prelude::*;

use crate::driver::{dashed, number_or_zero};
use crate::sort::{key_eq, key_lt, sort_by_keys, stably_sorted, is_permutation, SortKey};
use crate::selection::{toggle_items, toggled, set_all, SelectCommand, SelectionStep};
use crate::text::{
    chars_of, cseqs, eq_chars, has_prefix, has_suffix, join, join_chars, keep, lines, nonempty_fn,
    parse_or_zero, push_char, push_str_item, replace_chars, split, split_chars, split_lines,
    split_words, starts_with, str_eq, string_of, strs, trim, trim_start_str, trim_start_str_exec,
    trimmed, words, ends_with, join_strings, push_decimal, decimal,
};

verus! {

/// A loaded module, as the blacklist editor shows it.
#[derive(Debug, Clone)]
pub struct BlacklistEntry {
    pub module: String,
    pub size: u64,
    pub used_count: u32,
    pub used_by: Vec<String>,
    pub recommended: bool,
    pub currently_blacklisted: bool,
    pub category: String,
    pub reason: String,
}

/// The modules whose blacklisting streaming recommends.
pub open spec fn recommended_modules() -> Seq<Seq<char>> {
    seq!["bluetooth"@, "btusb"@, "hci_uart"@, "snd_bcm2835"@, "w1_gpio"@, "w1_therm"@, "snd_usb_audio"@]
}

/// The category of a module and why one would blacklist it.
pub open spec fn spec_module_category(name: Seq<char>) -> (Seq<char>, Seq<char>) {
    if name == "brcmfmac"@ || name == "brcmutil"@ || name == "cfg80211"@ {
        ("WiFi"@, "WiFi 드라이버"@)
    } else if name == "bluetooth"@ || name == "btusb"@ || name == "hci_uart"@ || name == "btbcm"@
        || name == "btintel"@ || name == "btmtk"@ {
        ("Bluetooth"@, "Bluetooth 드라이버"@)
    } else if name == "rfkill"@ {
        ("RF"@, "RF 제어 모듈"@)
    } else if name == "snd_bcm2835"@ || name == "snd_usb_audio"@ || name == "snd_soc_core"@ || name
        == "snd_pcm"@ || name == "snd_timer"@ || name == "snd"@ {
        ("Audio"@, "오디오 드라이버"@)
    } else if name == "w1_gpio"@ || name == "w1_therm"@ || name == "wire"@ {
        ("1-Wire"@, "1-Wire 센서 버스"@)
    } else if name == "i2c-bcm2835"@ || name == "i2c_dev"@ || name == "i2c_bcm2835"@ {
        ("I2C"@, "I2C 버스"@)
    } else if name == "spi_bcm2835"@ || name == "spi_bcm2835aux"@ {
        ("SPI"@, "SPI 버스"@)
    } else if name == "vc4"@ || name == "v3d"@ || name == "drm"@ || name == "drm_kms_helper"@ {
        ("GPU/DRM"@, "GPU/디스플레이 (비활성화 주의)"@)
    } else if name == "uvcvideo"@ || name == "videodev"@ {
        ("Camera"@, "카메라/비디오"@)
    } else if name == "usbhid"@ || name == "hid_generic"@ || name == "hid"@ {
        ("HID"@, "USB 입력 장치 (비활성화 주의)"@)
    } else if name == "sdhci"@ || name == "sdhci_pltfm"@ || name == "sdhci_iproc"@ {
        ("SD"@, "SD카드 컨트롤러 (비활성화 주의)"@)
    } else if name == "lan78xx"@ {
        ("Ethernet"@, "USB 이더넷 (비활성화 주의)"@)
    } else if name == "ipv6"@ {
        ("Network"@, "IPv6 프로토콜"@)
    } else {
        ("Other"@, Seq::empty())
    }
}

/// A module has the category `Other` exactly when no reason is given for
/// blacklisting it, which is when it is none of the modules that the table
/// names.
pub proof fn law_other_category_without_reason(name: Seq<char>)
    ensures
        (spec_module_category(name).0 == "Other"@) == (spec_module_category(name).1.len() == 0),
{
    reveal_strlit("Other");
    reveal_strlit("WiFi");
    assert("WiFi"@ != "Other"@) by {
        if "WiFi"@.len() == 5 {
            assert("WiFi"@[0] != "Other"@[0]);
        }
    }
    reveal_strlit("Bluetooth");
    assert("Bluetooth"@ != "Other"@) by {
        if "Bluetooth"@.len() == 5 {
            assert("Bluetooth"@[0] != "Other"@[0]);
        }
    }
    reveal_strlit("RF");
    assert("RF"@ != "Other"@) by {
        if "RF"@.len() == 5 {
            assert("RF"@[0] != "Other"@[0]);
        }
    }
    reveal_strlit("Audio");
    assert("Audio"@ != "Other"@) by {
        if "Audio"@.len() == 5 {
            assert("Audio"@[0] != "Other"@[0]);
        }
    }
    reveal_strlit("1-Wire");
    assert("1-Wire"@ != "Other"@) by {
        if "1-Wire"@.len() == 5 {
            assert("1-Wire"@[0] != "Other"@[0]);
        }
    }
    reveal_strlit("I2C");
    assert("I2C"@ != "Other"@) by {
        if "I2C"@.len() == 5 {
            assert("I2C"@[0] != "Other"@[0]);
        }
    }
    reveal_strlit("SPI");
    assert("SPI"@ != "Other"@) by {
        if "SPI"@.len() == 5 {
            assert("SPI"@[0] != "Other"@[0]);
        }
    }
    reveal_strlit("GPU/DRM");
    assert("GPU/DRM"@ != "Other"@) by {
        if "GPU/DRM"@.len() == 5 {
            assert("GPU/DRM"@[0] != "Other"@[0]);
        }
    }
    reveal_strlit("Camera");
    assert("Camera"@ != "Other"@) by {
        if "Camera"@.len() == 5 {
            assert("Camera"@[0] != "Other"@[0]);
        }
    }
    reveal_strlit("HID");
    assert("HID"@ != "Other"@) by {
        if "HID"@.len() == 5 {
            assert("HID"@[0] != "Other"@[0]);
        }
    }
    reveal_strlit("SD");
    assert("SD"@ != "Other"@) by {
        if "SD"@.len() == 5 {
            assert("SD"@[0] != "Other"@[0]);
        }
    }
    reveal_strlit("Ethernet");
    assert("Ethernet"@ != "Other"@) by {
        if "Ethernet"@.len() == 5 {
            assert("Ethernet"@[0] != "Other"@[0]);
        }
    }
    reveal_strlit("Network");
    assert("Network"@ != "Other"@) by {
        if "Network"@.len() == 5 {
            assert("Network"@[0] != "Other"@[0]);
        }
    }
    reveal_strlit("WiFi 드라이버");
    assert("WiFi 드라이버"@.len() > 0);
    reveal_strlit("Bluetooth 드라이버");
    assert("Bluetooth 드라이버"@.len() > 0);
    reveal_strlit("RF 제어 모듈");
    assert("RF 제어 모듈"@.len() > 0);
    reveal_strlit("오디오 드라이버");
    assert("오디오 드라이버"@.len() > 0);
    reveal_strlit("1-Wire 센서 버스");
    assert("1-Wire 센서 버스"@.len() > 0);
    reveal_strlit("I2C 버스");
    assert("I2C 버스"@.len() > 0);
    reveal_strlit("SPI 버스");
    assert("SPI 버스"@.len() > 0);
    reveal_strlit("GPU/디스플레이 (비활성화 주의)");
    assert("GPU/디스플레이 (비활성화 주의)"@.len() > 0);
    reveal_strlit("카메라/비디오");
    assert("카메라/비디오"@.len() > 0);
    reveal_strlit("USB 입력 장치 (비활성화 주의)");
    assert("USB 입력 장치 (비활성화 주의)"@.len() > 0);
    reveal_strlit("SD카드 컨트롤러 (비활성화 주의)");
    assert("SD카드 컨트롤러 (비활성화 주의)"@.len() > 0);
    reveal_strlit("USB 이더넷 (비활성화 주의)");
    assert("USB 이더넷 (비활성화 주의)"@.len() > 0);
    reveal_strlit("IPv6 프로토콜");
    assert("IPv6 프로토콜"@.len() > 0);
}

/// Whether `name` is one of `names`.
fn one_of(name: &str, names: &[&str]) -> (b: bool)
    ensures
        b == names@.map_values(|s: &str| s@).contains(name@),
{
    let ghost vs = names@.map_values(|s: &str| s@);
    let mut i: usize = 0;
    while i < names.len()
        invariant
            vs == names@.map_values(|s: &str| s@),
            0 <= i <= names@.len(),
            forall|j: int| 0 <= j < i ==> vs[j] != name@,
        decreases names@.len() - i,
    {
        if str_eq(names[i], name) {
            assert(vs[i as int] == name@);
            return true;
        }
        i += 1;
    }
    false
}

pub fn is_recommended_module(name: &str) -> (b: bool)
    ensures
        b == recommended_modules().contains(name@),
{
    let names: [&str; 7] = ["bluetooth", "btusb", "hci_uart", "snd_bcm2835", "w1_gpio", "w1_therm", "snd_usb_audio"];
    assert(names@.map_values(|s: &str| s@) =~= recommended_modules());
    one_of(name, &names)
}

/// The category of a module and why one would blacklist it.
pub fn module_category(name: &str) -> (r: (String, String))
    ensures
        (r.0@, r.1@) == spec_module_category(name@),
{
    let g1: [&str; 3] = ["brcmfmac", "brcmutil", "cfg80211"];
    let g2: [&str; 6] = ["bluetooth", "btusb", "hci_uart", "btbcm", "btintel", "btmtk"];
    let g3: [&str; 1] = ["rfkill"];
    let g4: [&str; 6] = ["snd_bcm2835", "snd_usb_audio", "snd_soc_core", "snd_pcm", "snd_timer", "snd"];
    let g5: [&str; 3] = ["w1_gpio", "w1_therm", "wire"];
    let g6: [&str; 3] = ["i2c-bcm2835", "i2c_dev", "i2c_bcm2835"];
    let g7: [&str; 2] = ["spi_bcm2835", "spi_bcm2835aux"];
    let g8: [&str; 4] = ["vc4", "v3d", "drm", "drm_kms_helper"];
    let g9: [&str; 2] = ["uvcvideo", "videodev"];
    let g10: [&str; 3] = ["usbhid", "hid_generic", "hid"];
    let g11: [&str; 3] = ["sdhci", "sdhci_pltfm", "sdhci_iproc"];
    let g12: [&str; 1] = ["lan78xx"];
    let g13: [&str; 1] = ["ipv6"];
    proof {
        let n = name@;
        assert(g1@.map_values(|s: &str| s@).contains(n) == (n == "brcmfmac"@ || n == "brcmutil"@ || n == "cfg80211"@)) by {
            assert(g1@.map_values(|s: &str| s@) =~= seq!["brcmfmac"@, "brcmutil"@, "cfg80211"@]);
        }
        assert(g2@.map_values(|s: &str| s@).contains(n) == (n == "bluetooth"@ || n == "btusb"@ || n == "hci_uart"@ || n == "btbcm"@ || n == "btintel"@ || n == "btmtk"@)) by {
            assert(g2@.map_values(|s: &str| s@) =~= seq!["bluetooth"@, "btusb"@, "hci_uart"@, "btbcm"@, "btintel"@, "btmtk"@]);
        }
        assert(g3@.map_values(|s: &str| s@).contains(n) == (n == "rfkill"@)) by {
            assert(g3@.map_values(|s: &str| s@) =~= seq!["rfkill"@]);
            assert(g3@.map_values(|s: &str| s@)[0] == "rfkill"@);
        }
        assert(g4@.map_values(|s: &str| s@).contains(n) == (n == "snd_bcm2835"@ || n == "snd_usb_audio"@ || n == "snd_soc_core"@ || n == "snd_pcm"@ || n == "snd_timer"@ || n == "snd"@)) by {
            assert(g4@.map_values(|s: &str| s@) =~= seq!["snd_bcm2835"@, "snd_usb_audio"@, "snd_soc_core"@, "snd_pcm"@, "snd_timer"@, "snd"@]);
        }
        assert(g5@.map_values(|s: &str| s@).contains(n) == (n == "w1_gpio"@ || n == "w1_therm"@ || n == "wire"@)) by {
            assert(g5@.map_values(|s: &str| s@) =~= seq!["w1_gpio"@, "w1_therm"@, "wire"@]);
        }
        assert(g6@.map_values(|s: &str| s@).contains(n) == (n == "i2c-bcm2835"@ || n == "i2c_dev"@ || n == "i2c_bcm2835"@)) by {
            assert(g6@.map_values(|s: &str| s@) =~= seq!["i2c-bcm2835"@, "i2c_dev"@, "i2c_bcm2835"@]);
        }
        assert(g7@.map_values(|s: &str| s@).contains(n) == (n == "spi_bcm2835"@ || n == "spi_bcm2835aux"@)) by {
            assert(g7@.map_values(|s: &str| s@) =~= seq!["spi_bcm2835"@, "spi_bcm2835aux"@]);
        }
        assert(g8@.map_values(|s: &str| s@).contains(n) == (n == "vc4"@ || n == "v3d"@ || n == "drm"@ || n == "drm_kms_helper"@)) by {
            assert(g8@.map_values(|s: &str| s@) =~= seq!["vc4"@, "v3d"@, "drm"@, "drm_kms_helper"@]);
        }
        assert(g9@.map_values(|s: &str| s@).contains(n) == (n == "uvcvideo"@ || n == "videodev"@)) by {
            assert(g9@.map_values(|s: &str| s@) =~= seq!["uvcvideo"@, "videodev"@]);
        }
        assert(g10@.map_values(|s: &str| s@).contains(n) == (n == "usbhid"@ || n == "hid_generic"@ || n == "hid"@)) by {
            assert(g10@.map_values(|s: &str| s@) =~= seq!["usbhid"@, "hid_generic"@, "hid"@]);
        }
        assert(g11@.map_values(|s: &str| s@).contains(n) == (n == "sdhci"@ || n == "sdhci_pltfm"@ || n == "sdhci_iproc"@)) by {
            assert(g11@.map_values(|s: &str| s@) =~= seq!["sdhci"@, "sdhci_pltfm"@, "sdhci_iproc"@]);
        }
        assert(g12@.map_values(|s: &str| s@).contains(n) == (n == "lan78xx"@)) by {
            assert(g12@.map_values(|s: &str| s@) =~= seq!["lan78xx"@]);
            assert(g12@.map_values(|s: &str| s@)[0] == "lan78xx"@);
        }
        assert(g13@.map_values(|s: &str| s@).contains(n) == (n == "ipv6"@)) by {
            assert(g13@.map_values(|s: &str| s@) =~= seq!["ipv6"@]);
            assert(g13@.map_values(|s: &str| s@)[0] == "ipv6"@);
        }
    }
    let (c, r) = if one_of(name, &g1) {
        ("WiFi", "WiFi 드라이버")
    } else if one_of(name, &g2) {
        ("Bluetooth", "Bluetooth 드라이버")
    } else if one_of(name, &g3) {
        ("RF", "RF 제어 모듈")
    } else if one_of(name, &g4) {
        ("Audio", "오디오 드라이버")
    } else if one_of(name, &g5) {
        ("1-Wire", "1-Wire 센서 버스")
    } else if one_of(name, &g6) {
        ("I2C", "I2C 버스")
    } else if one_of(name, &g7) {
        ("SPI", "SPI 버스")
    } else if one_of(name, &g8) {
        ("GPU/DRM", "GPU/디스플레이 (비활성화 주의)")
    } else if one_of(name, &g9) {
        ("Camera", "카메라/비디오")
    } else if one_of(name, &g10) {
        ("HID", "USB 입력 장치 (비활성화 주의)")
    } else if one_of(name, &g11) {
        ("SD", "SD카드 컨트롤러 (비활성화 주의)")
    } else if one_of(name, &g12) {
        ("Ethernet", "USB 이더넷 (비활성화 주의)")
    } else if one_of(name, &g13) {
        ("Network", "IPv6 프로토콜")
    } else {
        proof {
            reveal_strlit("");
        }
        ("Other", "")
    };
    (String::from_str(c), String::from_str(r))
}

// ---------------------------------------------------------------------------
// Scanning the loaded modules
// ---------------------------------------------------------------------------

/// A `/proc/modules` line that names a module: at least two fields.
pub open spec fn is_entry_line(l: Seq<char>) -> bool {
    words(l).len() >= 2
}

pub open spec fn entry_line_fn() -> spec_fn(Seq<char>) -> bool {
    |l: Seq<char>| is_entry_line(l)
}

/// The modules that use a module, from its dependents field: the pieces
/// between commas, without empty ones, each trimmed and dashed.
pub open spec fn entry_users(field: Seq<char>) -> Seq<Seq<char>> {
    keep(split(field, ','), nonempty_fn()).map_values(|s: Seq<char>| dashed(trim(s)))
}

/// `e` is what the module line `l` says, given the modules that the
/// blacklist file lists.
pub open spec fn entry_from_line(e: BlacklistEntry, l: Seq<char>, blacklisted: Seq<Seq<char>>) -> bool {
    let p = words(l);
    let name = dashed(p[0]);
    &&& e.module@ == name
    &&& e.size == number_or_zero(p[1], u64::MAX as nat)
    &&& e.used_count == number_or_zero(p[2], u32::MAX as nat)
    &&& strs(e.used_by@) == if p.len() > 3 && p[3] != "-"@ {
        entry_users(p[3])
    } else {
        Seq::empty()
    }
    &&& e.recommended == recommended_modules().contains(name)
    &&& e.currently_blacklisted == blacklisted.contains(name)
    &&& (e.category@, e.reason@) == spec_module_category(name)
}

/// The order of the listing: recommended modules first, then by category,
/// then by name.
pub open spec fn entry_key(e: BlacklistEntry) -> SortKey {
    SortKey { flag: e.recommended, first: e.category, second: e.module }
}

/// `es` lists the module lines of `content`, ordered by `entry_key`, lines
/// of equal key in their order in `content`.
pub open spec fn spec_entries(content: Seq<char>, blacklisted: Seq<Seq<char>>, es: Seq<BlacklistEntry>) -> bool {
    let ls = keep(lines(content), entry_line_fn());
    exists|perm: Seq<int>|
        {
            &&& is_permutation(perm, ls.len() as int)
            &&& es.len() == ls.len()
            &&& forall|k: int| 0 <= k < es.len() ==> entry_from_line(#[trigger] es[k], ls[perm[k]], blacklisted)
            &&& forall|a: int, b: int| 0 <= a < b < es.len() ==> !key_lt(entry_key(#[trigger] es[b]), entry_key(#[trigger] es[a]))
            &&& forall|a: int, b: int|
                0 <= a < b < es.len() && key_eq(entry_key(#[trigger] es[a]), entry_key(#[trigger] es[b])) ==> perm[a] < perm[b]
        }
}

/// No line of `content` has exactly two fields (the listing reads a third
/// field of every line with two or more).
pub open spec fn no_two_field_lines(content: Seq<char>) -> bool {
    forall|i: int| 0 <= i < lines(content).len() ==> words(#[trigger] lines(content)[i]).len() != 2
}

fn contains_string(list: &Vec<String>, s: &str) -> (b: bool)
    ensures
        b == strs(list@).contains(s@),
{
    let mut i: usize = 0;
    while i < list.len()
        invariant
            0 <= i <= list@.len(),
            forall|j: int| 0 <= j < i ==> strs(list@)[j] != s@,
        decreases list@.len() - i,
    {
        if str_eq(list[i].as_str(), s) {
            assert(strs(list@)[i as int] == s@);
            return true;
        }
        i += 1;
    }
    false
}

fn entry_users_exec(field: &Vec<char>) -> (r: Vec<String>)
    ensures
        strs(r@) == entry_users(field@),
{
    let pieces = split_chars(field, ',');
    let ghost ps = cseqs(pieces@);
    let mut r: Vec<String> = Vec::new();
    let mut i: usize = 0;
    while i < pieces.len()
        invariant
            ps == cseqs(pieces@),
            0 <= i <= pieces@.len(),
            strs(r@) == keep(ps.take(i as int), nonempty_fn()).map_values(|s: Seq<char>| dashed(trim(s))),
        decreases pieces@.len() - i,
    {
        let p = &pieces[i];
        assert(ps.take(i + 1).drop_last() == ps.take(i as int));
        assert(ps.take(i + 1).last() == p@);
        if p.len() > 0 {
            let d = replace_chars(&trimmed(p), '_', '-');
            let ghost r0 = strs(r@);
            r.push(string_of(&d));
            assert(strs(r@) =~= r0.push(dashed(trim(p@))));
            assert(keep(ps.take(i + 1), nonempty_fn()) == keep(ps.take(i as int), nonempty_fn()).push(p@));
            assert(keep(ps.take(i + 1), nonempty_fn()).map_values(|s: Seq<char>| dashed(trim(s)))
                =~= keep(ps.take(i as int), nonempty_fn()).map_values(|s: Seq<char>| dashed(trim(s))).push(
                dashed(trim(p@)),
            ));
        } else {
            assert(keep(ps.take(i + 1), nonempty_fn()) == keep(ps.take(i as int), nonempty_fn()));
        }
        i += 1;
    }
    assert(ps.take(ps.len() as int) == ps);
    r
}

/// The loaded modules that the text of `/proc/modules` lists, given the
/// modules that the blacklist file lists, in the order of the listing.
pub fn scan_loaded_modules(content: &str, blacklisted: &Vec<String>) -> (es: Vec<BlacklistEntry>)
    requires
        no_two_field_lines(content@),
    ensures
        spec_entries(content@, strs(blacklisted@), es@),
{
    let ls = split_lines(&chars_of(content));
    let ghost all = cseqs(ls@);
    let ghost bl = strs(blacklisted@);
    let mut items: Vec<BlacklistEntry> = Vec::new();
    let mut keys: Vec<SortKey> = Vec::new();
    let mut i: usize = 0;
    while i < ls.len()
        invariant
            all == cseqs(ls@),
            all == lines(content@),
            bl == strs(blacklisted@),
            no_two_field_lines(content@),
            0 <= i <= ls@.len(),
            items@.len() == keys@.len() == keep(all.take(i as int), entry_line_fn()).len(),
            forall|j: int| 0 <= j < items@.len() ==> entry_from_line(#[trigger] items@[j], keep(all.take(i as int), entry_line_fn())[j], bl),
            forall|j: int| 0 <= j < items@.len() ==> #[trigger] keys@[j] == entry_key(items@[j]),
        decreases ls@.len() - i,
    {
        let l = &ls[i];
        assert(all.take(i + 1).drop_last() == all.take(i as int));
        assert(all.take(i + 1).last() == l@);
        assert(all[i as int] == l@);
        let ws = split_words(l);
        let ghost p = cseqs(ws@);
        if ws.len() >= 2 {
            assert(p.len() != 2);
            assert(p[0] == ws@[0]@ && p[1] == ws@[1]@ && p[2] == ws@[2]@);
            let name = string_of(&replace_chars(&ws[0], '_', '-'));
            let size = parse_or_zero(&ws[1], 0xffff_ffff_ffff_ffff);
            let used_count = parse_or_zero(&ws[2], 0xffff_ffff) as u32;
            let used_by: Vec<String> = if ws.len() > 3 && !eq_chars(&ws[3], &chars_of("-")) {
                assert(p[3] == ws@[3]@);
                entry_users_exec(&ws[3])
            } else {
                let e: Vec<String> = Vec::new();
                assert(strs(e@) =~= Seq::<Seq<char>>::empty());
                e
            };
            let recommended = is_recommended_module(name.as_str());
            let currently_blacklisted = contains_string(blacklisted, name.as_str());
            let (category, reason) = module_category(name.as_str());
            let key = SortKey { flag: recommended, first: category.clone(), second: name.clone() };
            let e = BlacklistEntry {
                module: name,
                size,
                used_count,
                used_by,
                recommended,
                currently_blacklisted,
                category,
                reason,
            };
            assert(entry_from_line(e, l@, bl));
            assert(key == entry_key(e));
            let ghost k0 = keep(all.take(i as int), entry_line_fn());
            items.push(e);
            keys.push(key);
            assert(keep(all.take(i + 1), entry_line_fn()) == k0.push(l@));
            assert forall|j: int| 0 <= j < items@.len() implies entry_from_line(
                #[trigger] items@[j],
                keep(all.take(i + 1), entry_line_fn())[j],
                bl,
            ) by {
                if j < items@.len() - 1 {
                    assert(keep(all.take(i + 1), entry_line_fn())[j] == k0[j]);
                }
            }
        } else {
            assert(keep(all.take(i + 1), entry_line_fn()) == keep(all.take(i as int), entry_line_fn()));
        }
        i += 1;
    }
    assert(all.take(all.len() as int) == all);
    let ghost its = items@;
    let ghost ks = keys@;
    let (out, out_keys) = sort_by_keys(items, keys);
    proof {
        let perm = choose|perm: Seq<int>| stably_sorted(its, ks, out@, out_keys@, perm);
        let ls2 = keep(lines(content@), entry_line_fn());
        assert forall|k: int| 0 <= k < out@.len() implies entry_key(#[trigger] out@[k]) == out_keys@[k] by {
            assert(out_keys@[k] == ks[perm[k]]);
            assert(out@[k] == its[perm[k]]);
        }
        assert forall|k: int| 0 <= k < out@.len() implies entry_from_line(#[trigger] out@[k], ls2[perm[k]], bl) by {
            assert(out@[k] == its[perm[k]]);
        }
        assert forall|a: int, b: int| 0 <= a < b < out@.len() implies !key_lt(
            entry_key(#[trigger] out@[b]),
            entry_key(#[trigger] out@[a]),
        ) by {
            assert(!key_lt(out_keys@[b], out_keys@[a]));
        }
        assert forall|a: int, b: int|
            0 <= a < b < out@.len() && key_eq(entry_key(#[trigger] out@[a]), entry_key(#[trigger] out@[b])) implies perm[a]
            < perm[b] by {
            assert(key_eq(out_keys@[a], out_keys@[b]));
        }
    }
    out
}

// ---------------------------------------------------------------------------
// The editor's selection
// ---------------------------------------------------------------------------

/// At first the modules that the blacklist file lists are selected.
pub fn initial_selection(entries: &Vec<BlacklistEntry>) -> (sel: Vec<bool>)
    ensures
        sel@ == entries@.map_values(|e: BlacklistEntry| e.currently_blacklisted),
{
    let mut sel: Vec<bool> = Vec::new();
    let mut i: usize = 0;
    while i < entries.len()
        invariant
            0 <= i <= entries@.len(),
            sel@ == entries@.take(i as int).map_values(|e: BlacklistEntry| e.currently_blacklisted),
        decreases entries@.len() - i,
    {
        sel.push(entries[i].currently_blacklisted);
        assert(entries@.take(i + 1).map_values(|e: BlacklistEntry| e.currently_blacklisted)
            =~= entries@.take(i as int).map_values(|e: BlacklistEntry| e.currently_blacklisted).push(
            entries@[i as int].currently_blacklisted,
        ));
        i += 1;
    }
    assert(entries@.take(entries@.len() as int) == entries@);
    sel
}

/// The selection after `r`: recommended modules selected, modules that the
/// file does not list unselected, the others as they were.
pub open spec fn recommended_selection(entries: Seq<BlacklistEntry>, sel: Seq<bool>) -> Seq<bool> {
    Seq::new(
        sel.len(),
        |i: int|
            if entries[i].recommended {
                true
            } else if !entries[i].currently_blacklisted {
                false
            } else {
                sel[i]
            },
    )
}

/// The selection and the next step after a command.
pub open spec fn spec_apply_command(
    entries: Seq<BlacklistEntry>,
    sel: Seq<bool>,
    cmd: SelectCommand,
    after: Seq<bool>,
    step: SelectionStep,
) -> bool {
    match cmd {
        SelectCommand::Quit => step == SelectionStep::Cancel && after == sel,
        SelectCommand::Done => step == SelectionStep::Apply && after == sel,
        SelectCommand::Recommended => step == SelectionStep::Continue && after == recommended_selection(entries, sel),
        SelectCommand::All => step == SelectionStep::Continue && after == Seq::new(sel.len(), |i: int| true),
        SelectCommand::Clear => step == SelectionStep::Continue && after == Seq::new(sel.len(), |i: int| false),
        SelectCommand::Toggle(ix) => step == SelectionStep::Continue && after == toggled(sel, ix@),
        SelectCommand::Ignore => step == SelectionStep::Continue && after == sel,
    }
}

/// Carries out a command of the blacklist editor on its selection.
pub fn apply_command(selected: &mut Vec<bool>, entries: &Vec<BlacklistEntry>, cmd: &SelectCommand) -> (step: SelectionStep)
    requires
        old(selected)@.len() == entries@.len(),
        cmd matches SelectCommand::Toggle(ix) ==> forall|k: int| 0 <= k < ix@.len() ==> #[trigger] ix@[k] < entries@.len(),
    ensures
        spec_apply_command(entries@, old(selected)@, *cmd, final(selected)@, step),
        final(selected)@.len() == entries@.len(),
{
    match cmd {
        SelectCommand::Quit => SelectionStep::Cancel,
        SelectCommand::Done => SelectionStep::Apply,
        SelectCommand::Recommended => {
            let ghost s0 = selected@;
            let mut i: usize = 0;
            while i < entries.len()
                invariant
                    selected@.len() == entries@.len() == s0.len(),
                    0 <= i <= entries@.len(),
                    forall|j: int| 0 <= j < i ==> selected@[j] == recommended_selection(entries@, s0)[j],
                    forall|j: int| i <= j < s0.len() ==> selected@[j] == s0[j],
                decreases entries@.len() - i,
            {
                if entries[i].recommended {
                    selected.set(i, true);
                } else if !entries[i].currently_blacklisted {
                    selected.set(i, false);
                }
                i += 1;
            }
            assert(selected@ =~= recommended_selection(entries@, s0));
            SelectionStep::Continue
        },
        SelectCommand::All => {
            set_all(selected, true);
            SelectionStep::Continue
        },
        SelectCommand::Clear => {
            set_all(selected, false);
            SelectionStep::Continue
        },
        SelectCommand::Toggle(ix) => {
            toggle_items(selected, ix);
            SelectionStep::Continue
        },
        SelectCommand::Ignore => SelectionStep::Continue,
    }
}

/// What each command of the blacklist editor does to the selection, module
/// by module: `r` selects every recommended module, unselects every other
/// module that the file does not list and leaves the rest (modules the file
/// lists) as they were; `a` selects all, `n` none; `d` applies and `q`
/// leaves, both without a change; any command keeps the number of modules.
pub proof fn law_blacklist_commands(
    entries: Seq<BlacklistEntry>,
    sel: Seq<bool>,
    cmd: SelectCommand,
    after: Seq<bool>,
    step: SelectionStep,
)
    requires
        spec_apply_command(entries, sel, cmd, after, step),
        sel.len() == entries.len(),
    ensures
        after.len() == sel.len(),
        cmd is Recommended ==> step == SelectionStep::Continue && forall|i: int|
            0 <= i < sel.len() ==> {
                &&& entries[i].recommended ==> #[trigger] after[i]
                &&& !entries[i].recommended && !entries[i].currently_blacklisted ==> !after[i]
                &&& !entries[i].recommended && entries[i].currently_blacklisted ==> after[i] == sel[i]
            },
        cmd is All ==> step == SelectionStep::Continue && forall|i: int| 0 <= i < sel.len() ==> #[trigger] after[i],
        cmd is Clear ==> step == SelectionStep::Continue && forall|i: int| 0 <= i < sel.len() ==> !#[trigger] after[i],
        cmd is Done ==> step == SelectionStep::Apply && after == sel,
        cmd is Quit ==> step == SelectionStep::Cancel && after == sel,
        cmd is Ignore ==> step == SelectionStep::Continue && after == sel,
{
    if let SelectCommand::Toggle(ix) = cmd {
        assert(after == toggled(sel, ix@));
    }
}

/// The modules of the selected entries, in order.
pub open spec fn chosen(entries: Seq<BlacklistEntry>, sel: Seq<bool>) -> Seq<Seq<char>>
    decreases entries.len(),
{
    if entries.len() == 0 {
        Seq::empty()
    } else if sel[entries.len() - 1] {
        chosen(entries.drop_last(), sel).push(entries.last().module@)
    } else {
        chosen(entries.drop_last(), sel)
    }
}

/// The modules of the selected entries, in order.
pub fn chosen_modules(entries: &Vec<BlacklistEntry>, selected: &Vec<bool>) -> (r: Vec<String>)
    requires
        selected@.len() == entries@.len(),
    ensures
        strs(r@) == chosen(entries@, selected@),
{
    let mut r: Vec<String> = Vec::new();
    let mut i: usize = 0;
    while i < entries.len()
        invariant
            selected@.len() == entries@.len(),
            0 <= i <= entries@.len(),
            strs(r@) == chosen(entries@.take(i as int), selected@),
        decreases entries@.len() - i,
    {
        assert(entries@.take(i + 1).drop_last() == entries@.take(i as int));
        assert(entries@.take(i + 1).last() == entries@[i as int]);
        if selected[i] {
            push_str_item(&mut r, entries[i].module.as_str());
        }
        i += 1;
    }
    assert(entries@.take(entries@.len() as int) == entries@);
    r
}

/// The modules that streaming recommends blacklisting, in listing order.
pub open spec fn recommended_of(entries: Seq<BlacklistEntry>) -> Seq<Seq<char>>
    decreases entries.len(),
{
    if entries.len() == 0 {
        Seq::empty()
    } else if entries.last().recommended {
        recommended_of(entries.drop_last()).push(entries.last().module@)
    } else {
        recommended_of(entries.drop_last())
    }
}

/// The recommended modules of a listing.
pub fn recommended_names(entries: &Vec<BlacklistEntry>) -> (r: Vec<String>)
    ensures
        strs(r@) == recommended_of(entries@),
{
    let mut r: Vec<String> = Vec::new();
    let mut i: usize = 0;
    while i < entries.len()
        invariant
            0 <= i <= entries@.len(),
            strs(r@) == recommended_of(entries@.take(i as int)),
        decreases entries@.len() - i,
    {
        assert(entries@.take(i + 1).drop_last() == entries@.take(i as int));
        assert(entries@.take(i + 1).last() == entries@[i as int]);
        if entries[i].recommended {
            push_str_item(&mut r, entries[i].module.as_str());
        }
        i += 1;
    }
    assert(entries@.take(entries@.len() as int) == entries@);
    r
}

// ---------------------------------------------------------------------------
// What the listing shows
// ---------------------------------------------------------------------------

/// Categories whose modules the system may need: the listing warns of them.
pub open spec fn spec_risky_category(category: Seq<char>) -> bool {
    category == "GPU/DRM"@ || category == "HID"@ || category == "SD"@ || category == "Ethernet"@
}

/// Whether the listing warns that blacklisting modules of `category` can
/// harm the system.
pub fn is_risky_category(category: &str) -> (b: bool)
    ensures
        b == spec_risky_category(category@),
{
    str_eq(category, "GPU/DRM") || str_eq(category, "HID") || str_eq(category, "SD") || str_eq(category, "Ethernet")
}

/// The dependents column of the listing: `-` when no module uses it, the
/// users joined by commas when there are three at most, else the first
/// three and their number.
pub open spec fn spec_deps_label(used_by: Seq<Seq<char>>) -> Seq<char> {
    if used_by.len() == 0 {
        "-"@
    } else if used_by.len() <= 3 {
        join(used_by, ","@)
    } else {
        join(used_by.take(3), ","@) + ", ...(총"@ + decimal(used_by.len()) + "개)"@
    }
}

/// The dependents column of the listing for the users `used_by`.
pub fn deps_label(used_by: &Vec<String>) -> (s: String)
    ensures
        s@ == spec_deps_label(strs(used_by@)),
{
    if used_by.len() == 0 {
        return String::from_str("-");
    }
    if used_by.len() <= 3 {
        return join_strings(used_by, ",");
    }
    let mut first: Vec<String> = Vec::new();
    let mut i: usize = 0;
    while i < 3
        invariant
            3 < used_by@.len(),
            0 <= i <= 3,
            strs(first@) == strs(used_by@).take(i as int),
        decreases 3 - i,
    {
        push_str_item(&mut first, used_by[i].as_str());
        assert(strs(used_by@).take(i + 1) =~= strs(used_by@).take(i as int).push(used_by@[i as int]@));
        i += 1;
    }
    let mut s = join_strings(&first, ",");
    s.append(", ...(총");
    push_decimal(&mut s, used_by.len() as u64);
    s.append("개)");
    s
}

/// The positions of the blacklisted entries, and of the recommended ones
/// that are not blacklisted yet, as the status report lists them.
pub open spec fn spec_status_groups(entries: Seq<BlacklistEntry>) -> (Seq<usize>, Seq<usize>)
    decreases entries.len(),
{
    if entries.len() == 0 {
        (Seq::empty(), Seq::empty())
    } else {
        let i = entries.len() - 1;
        let e = entries[i];
        let (b, r) = spec_status_groups(entries.drop_last());
        (
            if e.currently_blacklisted {
                b.push(i as usize)
            } else {
                b
            },
            if e.recommended && !e.currently_blacklisted {
                r.push(i as usize)
            } else {
                r
            },
        )
    }
}

/// The positions of the blacklisted entries, and of the recommended ones
/// that are not blacklisted yet.
pub fn status_groups(entries: &Vec<BlacklistEntry>) -> (r: (Vec<usize>, Vec<usize>))
    ensures
        (r.0@, r.1@) == spec_status_groups(entries@),
{
    let mut blocked: Vec<usize> = Vec::new();
    let mut pending: Vec<usize> = Vec::new();
    let mut i: usize = 0;
    while i < entries.len()
        invariant
            0 <= i <= entries@.len(),
            (blocked@, pending@) == spec_status_groups(entries@.take(i as int)),
        decreases entries@.len() - i,
    {
        assert(entries@.take(i + 1).drop_last() == entries@.take(i as int));
        assert(entries@.take(i + 1)[i as int] == entries@[i as int]);
        let e = &entries[i];
        if e.currently_blacklisted {
            blocked.push(i);
        }
        if e.recommended && !e.currently_blacklisted {
            pending.push(i);
        }
        i += 1;
    }
    assert(entries@.take(entries@.len() as int) == entries@);
    (blocked, pending)
}

// ---------------------------------------------------------------------------
// The blacklist file
// ---------------------------------------------------------------------------

/// A line of the blacklist file that blacklists a module.
pub open spec fn is_blacklist_line(l: Seq<char>) -> bool {
    let t = trim(l);
    t.len() > 0 && !has_prefix(t, "#"@) && has_prefix(t, "blacklist "@)
}

pub open spec fn blacklist_line_fn() -> spec_fn(Seq<char>) -> bool {
    |l: Seq<char>| is_blacklist_line(l)
}

/// The module that a blacklist line names.
pub open spec fn listed_module(l: Seq<char>) -> Seq<char> {
    trim(trim_start_str(l, "blacklist "@))
}

/// The modules that the text of the blacklist file lists, in order.
pub open spec fn spec_conf_modules(content: Seq<char>) -> Seq<Seq<char>> {
    keep(keep(lines(content), blacklist_line_fn()).map_values(|l: Seq<char>| listed_module(l)), nonempty_fn())
}

/// The modules that the text of the blacklist file lists.
pub fn parse_blacklist_conf(content: &str) -> (r: Vec<String>)
    ensures
        strs(r@) == spec_conf_modules(content@),
{
    let ls = split_lines(&chars_of(content));
    let ghost all = cseqs(ls@);
    let hash = chars_of("#");
    let prefix = chars_of("blacklist ");
    let mut r: Vec<String> = Vec::new();
    let mut i: usize = 0;
    while i < ls.len()
        invariant
            all == cseqs(ls@),
            hash@ == "#"@,
            prefix@ == "blacklist "@,
            0 <= i <= ls@.len(),
            strs(r@) == keep(keep(all.take(i as int), blacklist_line_fn()).map_values(|l: Seq<char>| listed_module(l)), nonempty_fn()),
        decreases ls@.len() - i,
    {
        let l = &ls[i];
        let ghost k0 = keep(all.take(i as int), blacklist_line_fn());
        assert(all.take(i + 1).drop_last() == all.take(i as int));
        assert(all.take(i + 1).last() == l@);
        let t = trimmed(l);
        if t.len() > 0 && !starts_with(&t, &hash) && starts_with(&t, &prefix) {
            let m = trimmed(&trim_start_str_exec(l, &prefix));
            assert(keep(all.take(i + 1), blacklist_line_fn()) == k0.push(l@));
            assert(k0.push(l@).map_values(|l: Seq<char>| listed_module(l)) =~= k0.map_values(
                |l: Seq<char>| listed_module(l),
            ).push(listed_module(l@)));
            let ghost mo = k0.map_values(|l: Seq<char>| listed_module(l));
            assert(m@ == listed_module(l@));
            assert(mo.push(m@).drop_last() == mo);
            assert(mo.push(m@).last() == m@);
            if m.len() > 0 {
                push_str_item(&mut r, string_of(&m).as_str());
            }
        } else {
            assert(keep(all.take(i + 1), blacklist_line_fn()) == k0);
        }
        i += 1;
    }
    assert(all.take(all.len() as int) == all);
    r
}

/// The line that blacklists `m`.
pub open spec fn entry_line(m: Seq<char>) -> Seq<char> {
    "blacklist "@ + m
}

pub open spec fn not_entry_fn(m: Seq<char>) -> spec_fn(Seq<char>) -> bool {
    |l: Seq<char>| trim(l) != entry_line(m)
}

/// The blacklist file without the lines that blacklist `m`: `None` when
/// nothing but whitespace would be left (the file is then removed).
pub open spec fn spec_remove_entry(content: Seq<char>, m: Seq<char>) -> Option<Seq<char>> {
    let kept = join(keep(lines(content), not_entry_fn(m)), "\n"@);
    if trim(kept).len() == 0 {
        None
    } else {
        Some(kept + "\n"@)
    }
}

/// The text of the blacklist file without the lines that blacklist `module`;
/// `None` when the file would hold nothing but whitespace.
pub fn remove_entry_content(content: &str, module: &str) -> (r: Option<String>)
    ensures
        match r {
            Some(s) => spec_remove_entry(content@, module@) == Some(s@),
            None => spec_remove_entry(content@, module@) is None,
        },
{
    let ls = split_lines(&chars_of(content));
    let ghost all = cseqs(ls@);
    let mut entry = chars_of("blacklist ");
    let mv = chars_of(module);
    let mut j: usize = 0;
    let ghost e0 = entry@;
    while j < mv.len()
        invariant
            0 <= j <= mv@.len(),
            entry@ == e0 + mv@.take(j as int),
        decreases mv@.len() - j,
    {
        entry.push(mv[j]);
        assert(mv@.take(j + 1) == mv@.take(j as int).push(mv@[j as int]));
        j += 1;
    }
    assert(mv@.take(mv@.len() as int) == mv@);
    assert(entry@ == entry_line(module@));
    let mut kept: Vec<Vec<char>> = Vec::new();
    let mut i: usize = 0;
    while i < ls.len()
        invariant
            all == cseqs(ls@),
            entry@ == entry_line(module@),
            0 <= i <= ls@.len(),
            cseqs(kept@) == keep(all.take(i as int), not_entry_fn(module@)),
        decreases ls@.len() - i,
    {
        let l = &ls[i];
        assert(all.take(i + 1).drop_last() == all.take(i as int));
        assert(all.take(i + 1).last() == l@);
        if !eq_chars(&trimmed(l), &entry) {
            let ghost k0 = cseqs(kept@);
            kept.push(crate::text::copy_range(l, 0, l.len()));
            assert(l@.subrange(0, l@.len() as int) == l@);
            assert(cseqs(kept@) =~= k0.push(l@));
        }
        i += 1;
    }
    assert(all.take(all.len() as int) == all);
    let joined = join_chars(&kept, '\n');
    assert(seq!['\n'] == "\n"@) by {
        reveal_strlit("\n");
    }
    let jc = chars_of(joined.as_str());
    let t = trimmed(&jc);
    if t.len() == 0 {
        None
    } else {
        let mut s = joined;
        push_char(&mut s, '\n');
        Some(s)
    }
}

// ---------------------------------------------------------------------------
// Applying a selection to the blacklist file
// ---------------------------------------------------------------------------

pub open spec fn absent_from_fn(list: Seq<Seq<char>>) -> spec_fn(Seq<char>) -> bool {
    |m: Seq<char>| !list.contains(m)
}

/// The file after removing the entries of `ms`, one after the other;
/// `None` stands for no file.
pub open spec fn after_removals(file: Option<Seq<char>>, ms: Seq<Seq<char>>) -> Option<Seq<char>>
    decreases ms.len(),
{
    if ms.len() == 0 {
        file
    } else {
        match after_removals(file, ms.drop_last()) {
            Some(c) => spec_remove_entry(c, ms.last()),
            None => None,
        }
    }
}

/// Some line of `c`, trimmed, blacklists `m`.
pub open spec fn has_entry(c: Seq<char>, m: Seq<char>) -> bool {
    exists|i: int| 0 <= i < lines(c).len() && trim(#[trigger] lines(c)[i]) == entry_line(m)
}

/// `c` with a line that blacklists `m` appended, unless it has one; a last
/// line without a line feed gets one first.
pub open spec fn append_one(c: Seq<char>, m: Seq<char>) -> Seq<char> {
    if has_entry(c, m) {
        c
    } else {
        let c1 = if !has_suffix(c, "\n"@) && c.len() > 0 {
            c.push('\n')
        } else {
            c
        };
        c1 + entry_line(m) + "\n"@
    }
}

/// `c` with lines for each of `ms` appended in turn.
pub open spec fn appended(c: Seq<char>, ms: Seq<Seq<char>>) -> Seq<char>
    decreases ms.len(),
{
    if ms.len() == 0 {
        c
    } else {
        append_one(appended(c, ms.drop_last()), ms.last())
    }
}

/// The modules of `ms` whose line `appended` did append.
pub open spec fn appended_names(c: Seq<char>, ms: Seq<Seq<char>>) -> Seq<Seq<char>>
    decreases ms.len(),
{
    if ms.len() == 0 {
        Seq::empty()
    } else {
        let prev = appended(c, ms.drop_last());
        if has_entry(prev, ms.last()) {
            appended_names(c, ms.drop_last())
        } else {
            appended_names(c, ms.drop_last()).push(ms.last())
        }
    }
}

/// The changes that applying a selection makes to the blacklist file.
#[derive(Debug, Clone)]
pub struct BlacklistPlan {
    /// Selected modules that the file did not list.
    pub to_add: Vec<String>,
    /// Listed modules that are not selected.
    pub to_remove: Vec<String>,
    /// The modules whose line was appended.
    pub added: Vec<String>,
    /// The file afterwards; `None` when there is none.
    pub file: Option<String>,
}

pub open spec fn text_or_empty(file: Option<Seq<char>>) -> Seq<char> {
    match file {
        Some(c) => c,
        None => Seq::empty(),
    }
}

/// The changes that selecting `modules` makes to the blacklist file `file`
/// (`None` when there is none).
pub open spec fn spec_plan(file: Option<Seq<char>>, modules: Seq<Seq<char>>, plan: BlacklistPlan) -> bool {
    let current = spec_conf_modules(text_or_empty(file));
    let to_add = keep(modules, absent_from_fn(current));
    let to_remove = keep(current, absent_from_fn(modules));
    let after = after_removals(file, to_remove);
    &&& strs(plan.to_add@) == to_add
    &&& strs(plan.to_remove@) == to_remove
    &&& crate::text::opt_str(plan.file) == if to_add.len() > 0 {
        Some(appended(text_or_empty(after), to_add))
    } else {
        after
    }
    &&& strs(plan.added@) == if to_add.len() > 0 {
        appended_names(text_or_empty(after), to_add)
    } else {
        Seq::empty()
    }
}

fn has_entry_exec(c: &str, m: &str) -> (b: bool)
    ensures
        b == has_entry(c@, m@),
{
    let ls = split_lines(&chars_of(c));
    let ghost all = cseqs(ls@);
    let entry = chars_of(crate::text::concat_str("blacklist ", m).as_str());
    let mut i: usize = 0;
    while i < ls.len()
        invariant
            all == cseqs(ls@),
            all == lines(c@),
            entry@ == entry_line(m@),
            0 <= i <= ls@.len(),
            forall|j: int| 0 <= j < i ==> trim(#[trigger] all[j]) != entry_line(m@),
        decreases ls@.len() - i,
    {
        assert(all[i as int] == ls@[i as int]@);
        if eq_chars(&trimmed(&ls[i]), &entry) {
            return true;
        }
        i += 1;
    }
    false
}

fn keep_absent(list: &Vec<String>, from: &Vec<String>) -> (r: Vec<String>)
    ensures
        strs(r@) == keep(strs(list@), absent_from_fn(strs(from@))),
{
    let ghost all = strs(list@);
    let mut r: Vec<String> = Vec::new();
    let mut i: usize = 0;
    while i < list.len()
        invariant
            all == strs(list@),
            0 <= i <= list@.len(),
            strs(r@) == keep(all.take(i as int), absent_from_fn(strs(from@))),
        decreases list@.len() - i,
    {
        assert(all.take(i + 1).drop_last() == all.take(i as int));
        assert(all.take(i + 1).last() == list@[i as int]@);
        if !contains_string(from, list[i].as_str()) {
            push_str_item(&mut r, list[i].as_str());
        }
        i += 1;
    }
    assert(all.take(all.len() as int) == all);
    r
}

/// The changes that selecting `modules` makes to the blacklist file whose
/// text is `current_file` (`None` when there is no file).
pub fn apply_selection(current_file: Option<&str>, modules: &Vec<String>) -> (plan: BlacklistPlan)
    ensures
        spec_plan(match current_file {
            Some(c) => Some(c@),
            None => None,
        }, strs(modules@), plan),
{
    let ghost file = match current_file {
        Some(c) => Some(c@),
        None => None,
    };
    let current = match current_file {
        Some(c) => parse_blacklist_conf(c),
        None => {
            proof {
                reveal_strlit("");
            }
            parse_blacklist_conf("")
        },
    };
    assert(strs(current@) == spec_conf_modules(text_or_empty(file)));
    let to_add = keep_absent(modules, &current);
    let to_remove = keep_absent(&current, modules);
    let ghost rm = strs(to_remove@);
    let mut after: Option<String> = match current_file {
        Some(c) => Some(String::from_str(c)),
        None => None,
    };
    let mut i: usize = 0;
    while i < to_remove.len()
        invariant
            rm == strs(to_remove@),
            0 <= i <= to_remove@.len(),
            crate::text::opt_str(after) == after_removals(file, rm.take(i as int)),
        decreases to_remove@.len() - i,
    {
        assert(rm.take(i + 1).drop_last() == rm.take(i as int));
        assert(rm.take(i + 1).last() == to_remove@[i as int]@);
        after = match &after {
            Some(c) => remove_entry_content(c.as_str(), to_remove[i].as_str()),
            None => None,
        };
        i += 1;
    }
    assert(rm.take(rm.len() as int) == rm);
    let mut added: Vec<String> = Vec::new();
    assert(strs(added@) =~= Seq::<Seq<char>>::empty());
    let mut file_after = after;
    if to_add.len() > 0 {
        let ghost adds = strs(to_add@);
        let mut content = match file_after {
            Some(c) => c,
            None => String::new(),
        };
        let ghost base = content@;
        let mut k: usize = 0;
        assert(adds.take(0) =~= Seq::<Seq<char>>::empty());
        while k < to_add.len()
            invariant
                adds == strs(to_add@),
                0 <= k <= to_add@.len(),
                content@ == appended(base, adds.take(k as int)),
                strs(added@) == appended_names(base, adds.take(k as int)),
            decreases to_add@.len() - k,
        {
            let m = to_add[k].as_str();
            assert(adds.take(k + 1).drop_last() == adds.take(k as int));
            assert(adds.take(k + 1).last() == m@);
            if !has_entry_exec(content.as_str(), m) {
                let cv = chars_of(content.as_str());
                proof {
                    reveal_strlit("\n");
                }
                if !ends_with(&cv, &chars_of("\n")) && cv.len() > 0 {
                    push_char(&mut content, '\n');
                }
                content.append("blacklist ");
                content.append(m);
                push_char(&mut content, '\n');
                assert(content@ == append_one(appended(base, adds.take(k as int)), m@));
                push_str_item(&mut added, m);
            }
            k += 1;
        }
        assert(adds.take(adds.len() as int) == adds);
        file_after = Some(content);
    }
    BlacklistPlan { to_add, to_remove, added, file: file_after }
}

} // verus!
