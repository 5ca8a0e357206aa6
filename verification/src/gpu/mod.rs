//! GPU activation: what the firmware configuration says about the GPU, and
//! the edits of `config.txt` and `cmdline.txt` that turn it on or off.
pub mod config;

use vstd::prelude::*;

use crate::text::{
    chars_of, contains, copy_range, cseqs, decimal, first_index, has_infix, has_prefix, join, join_chars,
    lemma_first_index_is, lines, opt_index, parse_uint, parse_unsigned, push_decimal, split_lines,
    split_words, starts_with, trim, trim_bounds, trim_start_char, trim_start_char_exec, trimmed,
    words, free_of, is_word, lemma_words_are_words, lemma_words_join, relined, lemma_lines_join, lemma_lines_free, lemma_trim_free,
    lemma_trim_start_char_free, lemma_trim_strip_cr, lemma_trim_shape, lemma_trim_fixed,
    lemma_decimal_plain, lemma_parse_decimal, strip_cr, is_ws, lemma_first_index,
    lemma_trim_end_take, trim_start, trim_end, lemma_trim_nonempty,
};

verus! {

/// What the running system and `config.txt` say about the GPU.
#[derive(Debug, Clone)]
pub struct GpuStatus {
    pub driver_loaded: bool,
    pub dtoverlay_set: bool,
    pub gpu_mem_mb: Option<u32>,
    pub firmware_exists: bool,
}

// ---------------------------------------------------------------------------
// Reading `/proc/modules` and `config.txt`
// ---------------------------------------------------------------------------

/// A `/proc/modules` line of the VideoCore display or 3D driver.
pub open spec fn is_gpu_module_line(l: Seq<char>) -> bool {
    has_prefix(l, "vc4"@) || has_prefix(l, "v3d"@)
}

/// A `config.txt` line that enables the KMS overlay.
pub open spec fn enables_overlay(l: Seq<char>) -> bool {
    has_infix(trim(l), "vc4-kms-v3d"@) && !has_prefix(trim(l), "#"@)
}

/// A commented-out `config.txt` line that names the KMS overlay.
pub open spec fn disabled_overlay(l: Seq<char>) -> bool {
    has_infix(trim(l), "vc4-kms-v3d"@) && has_prefix(trim(l), "#"@)
}

/// A `config.txt` line that sets the GPU memory split.
pub open spec fn sets_gpu_mem(l: Seq<char>) -> bool {
    let t = trim(l);
    (has_prefix(t, "gpu_mem="@) || has_prefix(t, "gpu_mem_1024="@)) && !has_prefix(t, "#"@)
}

/// The GPU memory, in MB, that a `config.txt` line sets, if it sets one that parses.
pub open spec fn gpu_mem_of_line(l: Seq<char>) -> Option<nat> {
    let t = trim(l);
    if has_prefix(t, "#"@) {
        None
    } else if has_prefix(t, "gpu_mem="@) {
        parse_unsigned(trim(t.skip("gpu_mem="@.len() as int)), u32::MAX as nat)
    } else if has_prefix(t, "gpu_mem_1024="@) {
        parse_unsigned(trim(t.skip("gpu_mem_1024="@.len() as int)), u32::MAX as nat)
    } else {
        None
    }
}

/// The GPU memory of the first line that sets one that parses.
pub open spec fn config_gpu_mem(ls: Seq<Seq<char>>) -> Option<nat>
    decreases ls.len(),
{
    if ls.len() == 0 {
        None
    } else {
        match gpu_mem_of_line(ls[0]) {
            Some(v) => Some(v),
            None => config_gpu_mem(ls.drop_first()),
        }
    }
}

/// Some line of `/proc/modules` belongs to the GPU driver.
pub open spec fn gpu_driver_listed(ls: Seq<Seq<char>>) -> bool {
    exists|i: int| 0 <= i < ls.len() && is_gpu_module_line(#[trigger] ls[i])
}

/// Some line of `config.txt` enables the KMS overlay.
pub open spec fn overlay_enabled(ls: Seq<Seq<char>>) -> bool {
    exists|i: int| 0 <= i < ls.len() && enables_overlay(#[trigger] ls[i])
}

pub open spec fn opt_nat(o: Option<u32>) -> Option<nat> {
    match o {
        Some(v) => Some(v as nat),
        None => None,
    }
}

/// The status that the module list, the configuration text and the presence
/// of the firmware libraries give.
pub open spec fn spec_gpu_status(
    modules: Seq<char>,
    config: Seq<char>,
    firmware_exists: bool,
    st: GpuStatus,
) -> bool {
    &&& st.driver_loaded == gpu_driver_listed(lines(modules))
    &&& st.dtoverlay_set == overlay_enabled(lines(config))
    &&& opt_nat(st.gpu_mem_mb) == config_gpu_mem(lines(config))
    &&& st.firmware_exists == firmware_exists
}

fn is_gpu_module_line_exec(l: &Vec<char>) -> (b: bool)
    ensures
        b == is_gpu_module_line(l@),
{
    starts_with(l, &chars_of("vc4")) || starts_with(l, &chars_of("v3d"))
}

fn enables_overlay_exec(l: &Vec<char>) -> (b: bool)
    ensures
        b == enables_overlay(l@),
{
    let t = trimmed(l);
    contains(&t, &chars_of("vc4-kms-v3d")) && !starts_with(&t, &chars_of("#"))
}

fn disabled_overlay_exec(l: &Vec<char>) -> (b: bool)
    ensures
        b == disabled_overlay(l@),
{
    let t = trimmed(l);
    contains(&t, &chars_of("vc4-kms-v3d")) && starts_with(&t, &chars_of("#"))
}

fn sets_gpu_mem_exec(l: &Vec<char>) -> (b: bool)
    ensures
        b == sets_gpu_mem(l@),
{
    let t = trimmed(l);
    (starts_with(&t, &chars_of("gpu_mem=")) || starts_with(&t, &chars_of("gpu_mem_1024=")))
        && !starts_with(&t, &chars_of("#"))
}

/// The number after `prefix` in `t`, trimmed and parsed.
fn parse_after(t: &Vec<char>, prefix: &Vec<char>) -> (r: Option<u32>)
    requires
        has_prefix(t@, prefix@),
    ensures
        opt_nat(r) == parse_unsigned(trim(t@.skip(prefix@.len() as int)), u32::MAX as nat),
{
    let (a, b) = trim_bounds(t, prefix.len(), t.len());
    assert(t@.subrange(prefix@.len() as int, t@.len() as int) == t@.skip(prefix@.len() as int));
    match parse_uint(t, a, b, 0xffff_ffff) {
        Some(v) => Some(v as u32),
        None => None,
    }
}

fn gpu_mem_of_line_exec(l: &Vec<char>) -> (r: Option<u32>)
    ensures
        opt_nat(r) == gpu_mem_of_line(l@),
{
    let t = trimmed(l);
    if starts_with(&t, &chars_of("#")) {
        return None;
    }
    let p1 = chars_of("gpu_mem=");
    if starts_with(&t, &p1) {
        return parse_after(&t, &p1);
    }
    let p2 = chars_of("gpu_mem_1024=");
    if starts_with(&t, &p2) {
        return parse_after(&t, &p2);
    }
    None
}

/// Reads the GPU status from the text of `/proc/modules` and of `config.txt`.
pub fn detect(modules: &str, config: &str, firmware_exists: bool) -> (st: GpuStatus)
    ensures
        spec_gpu_status(modules@, config@, firmware_exists, st),
{
    let mods = split_lines(&chars_of(modules));
    let ghost ms = cseqs(mods@);
    let mut driver_loaded = false;
    let mut i: usize = 0;
    while i < mods.len()
        invariant
            ms == cseqs(mods@),
            0 <= i <= mods@.len(),
            driver_loaded == exists|j: int| 0 <= j < i && is_gpu_module_line(#[trigger] ms[j]),
        decreases mods@.len() - i,
    {
        if is_gpu_module_line_exec(&mods[i]) {
            driver_loaded = true;
        }
        assert(ms[i as int] == mods@[i as int]@);
        i += 1;
    }

    let ls = split_lines(&chars_of(config));
    let ghost cs = cseqs(ls@);
    let mut dtoverlay_set = false;
    let mut gpu_mem_mb: Option<u32> = None;
    let mut found = false;
    let mut i: usize = 0;
    assert(cs.skip(0) == cs);
    while i < ls.len()
        invariant
            cs == cseqs(ls@),
            0 <= i <= ls@.len(),
            dtoverlay_set == exists|j: int| 0 <= j < i && enables_overlay(#[trigger] cs[j]),
            config_gpu_mem(cs) == if found {
                opt_nat(gpu_mem_mb)
            } else {
                config_gpu_mem(cs.skip(i as int))
            },
            !found ==> gpu_mem_mb is None,
        decreases ls@.len() - i,
    {
        assert(cs[i as int] == ls@[i as int]@);
        if enables_overlay_exec(&ls[i]) {
            dtoverlay_set = true;
        }
        assert(cs.skip(i as int)[0] == cs[i as int]);
        assert(cs.skip(i as int).drop_first() == cs.skip(i + 1));
        if !found {
            let v = gpu_mem_of_line_exec(&ls[i]);
            if v.is_some() {
                gpu_mem_mb = v;
                found = true;
            }
        }
        i += 1;
    }
    assert(cs.skip(cs.len() as int) == Seq::<Seq<char>>::empty());
    GpuStatus { driver_loaded, dtoverlay_set, gpu_mem_mb, firmware_exists }
}

// ---------------------------------------------------------------------------
// Editing `config.txt`
// ---------------------------------------------------------------------------

pub open spec fn disabled_overlay_fn() -> spec_fn(Seq<char>) -> bool {
    |l: Seq<char>| disabled_overlay(l)
}

pub open spec fn sets_gpu_mem_fn() -> spec_fn(Seq<char>) -> bool {
    |l: Seq<char>| sets_gpu_mem(l)
}

/// A line with its leading `#` characters removed, then trimmed.
pub open spec fn uncommented(l: Seq<char>) -> Seq<char> {
    trim(trim_start_char(l, '#'))
}

/// The lines after making sure the overlay is enabled: when no line enables
/// it, the first commented-out overlay line is uncommented, or else an
/// overlay line is appended.
pub open spec fn overlay_enabled_lines(ls: Seq<Seq<char>>) -> Seq<Seq<char>> {
    if overlay_enabled(ls) {
        ls
    } else {
        match first_index(ls, disabled_overlay_fn()) {
            Some(i) => ls.update(i, uncommented(ls[i])),
            None => ls.push("dtoverlay=vc4-kms-v3d"@),
        }
    }
}

/// The line that sets the GPU memory to `m` MB.
pub open spec fn gpu_mem_line(m: nat) -> Seq<char> {
    "gpu_mem_1024="@ + decimal(m)
}

/// The lines with the first GPU memory setting replaced by `m` MB, or with
/// such a setting appended.
pub open spec fn gpu_mem_set_lines(ls: Seq<Seq<char>>, m: nat) -> Seq<Seq<char>> {
    match first_index(ls, sets_gpu_mem_fn()) {
        Some(i) => ls.update(i, gpu_mem_line(m)),
        None => ls.push(gpu_mem_line(m)),
    }
}

/// `config.txt` after enabling the GPU with `m` MB of memory.
pub open spec fn spec_activate(config: Seq<char>, m: nat) -> Seq<char> {
    join(gpu_mem_set_lines(overlay_enabled_lines(lines(config)), m), "\n"@)
}

/// A line with the overlay commented out if it enables it.
pub open spec fn deactivated_line(l: Seq<char>) -> Seq<char> {
    if enables_overlay(l) {
        "#"@ + uncommented(l)
    } else {
        l
    }
}

/// `config.txt` after disabling the GPU overlay.
pub open spec fn spec_deactivate(config: Seq<char>) -> Seq<char> {
    join(lines(config).map_values(|l: Seq<char>| deactivated_line(l)), "\n"@)
}

fn find_disabled_overlay(ls: &Vec<Vec<char>>) -> (r: Option<usize>)
    ensures
        opt_index(r) == first_index(cseqs(ls@), disabled_overlay_fn()),
{
    let ghost cs = cseqs(ls@);
    let mut i: usize = 0;
    while i < ls.len()
        invariant
            cs == cseqs(ls@),
            0 <= i <= ls@.len(),
            forall|j: int| 0 <= j < i ==> !disabled_overlay_fn()(#[trigger] cs[j]),
        decreases ls@.len() - i,
    {
        assert(cs[i as int] == ls@[i as int]@);
        if disabled_overlay_exec(&ls[i]) {
            proof {
                lemma_first_index_is(cs, disabled_overlay_fn(), i as int);
            }
            return Some(i);
        }
        i += 1;
    }
    proof {
        lemma_first_index_is(cs, disabled_overlay_fn(), i as int);
    }
    None
}

fn find_gpu_mem_setting(ls: &Vec<Vec<char>>) -> (r: Option<usize>)
    ensures
        opt_index(r) == first_index(cseqs(ls@), sets_gpu_mem_fn()),
{
    let ghost cs = cseqs(ls@);
    let mut i: usize = 0;
    while i < ls.len()
        invariant
            cs == cseqs(ls@),
            0 <= i <= ls@.len(),
            forall|j: int| 0 <= j < i ==> !sets_gpu_mem_fn()(#[trigger] cs[j]),
        decreases ls@.len() - i,
    {
        assert(cs[i as int] == ls@[i as int]@);
        if sets_gpu_mem_exec(&ls[i]) {
            proof {
                lemma_first_index_is(cs, sets_gpu_mem_fn(), i as int);
            }
            return Some(i);
        }
        i += 1;
    }
    proof {
        lemma_first_index_is(cs, sets_gpu_mem_fn(), i as int);
    }
    None
}

fn any_overlay_enabled(ls: &Vec<Vec<char>>) -> (b: bool)
    ensures
        b == overlay_enabled(cseqs(ls@)),
{
    let ghost cs = cseqs(ls@);
    let mut i: usize = 0;
    while i < ls.len()
        invariant
            cs == cseqs(ls@),
            0 <= i <= ls@.len(),
            forall|j: int| 0 <= j < i ==> !enables_overlay(#[trigger] cs[j]),
        decreases ls@.len() - i,
    {
        assert(cs[i as int] == ls@[i as int]@);
        if enables_overlay_exec(&ls[i]) {
            return true;
        }
        i += 1;
    }
    false
}

/// The text of `config.txt` after enabling the GPU with `gpu_mem` MB.
pub fn activate(config: &str, gpu_mem: u32) -> (r: String)
    ensures
        r@ == spec_activate(config@, gpu_mem as nat),
{
    let mut ls = split_lines(&chars_of(config));
    let ghost l0 = cseqs(ls@);
    if !any_overlay_enabled(&ls) {
        proof {
            lemma_first_index(l0, disabled_overlay_fn());
        }
        match find_disabled_overlay(&ls) {
            Some(i) => {
                let t = trimmed(&trim_start_char_exec(&ls[i], '#'));
                assert(l0[i as int] == ls@[i as int]@);
                ls.set(i, t);
                assert(cseqs(ls@) =~= l0.update(i as int, uncommented(l0[i as int])));
            },
            None => {
                ls.push(chars_of("dtoverlay=vc4-kms-v3d"));
                assert(cseqs(ls@) =~= l0.push("dtoverlay=vc4-kms-v3d"@));
            },
        }
    }
    let ghost l1 = cseqs(ls@);
    assert(l1 == overlay_enabled_lines(l0));
    let mut mem_line = String::from_str("gpu_mem_1024=");
    push_decimal(&mut mem_line, gpu_mem as u64);
    let mem_chars = chars_of(mem_line.as_str());
    proof {
        lemma_first_index(l1, sets_gpu_mem_fn());
    }
    match find_gpu_mem_setting(&ls) {
        Some(i) => {
            ls.set(i, mem_chars);
            assert(cseqs(ls@) =~= l1.update(i as int, gpu_mem_line(gpu_mem as nat)));
        },
        None => {
            ls.push(mem_chars);
            assert(cseqs(ls@) =~= l1.push(gpu_mem_line(gpu_mem as nat)));
        },
    }
    let r = join_chars(&ls, '\n');
    assert(seq!['\n'] == "\n"@) by {
        reveal_strlit("\n");
    }
    r
}

/// The text of `config.txt` after disabling the GPU overlay.
pub fn deactivate(config: &str) -> (r: String)
    ensures
        r@ == spec_deactivate(config@),
{
    let ls = split_lines(&chars_of(config));
    let ghost cs = cseqs(ls@);
    let mut out: Vec<Vec<char>> = Vec::new();
    let mut i: usize = 0;
    while i < ls.len()
        invariant
            cs == cseqs(ls@),
            0 <= i <= ls@.len(),
            cseqs(out@) == cs.take(i as int).map_values(|l: Seq<char>| deactivated_line(l)),
        decreases ls@.len() - i,
    {
        let l = &ls[i];
        assert(cs[i as int] == l@);
        let nl = if enables_overlay_exec(l) {
            let mut v = chars_of("#");
            let u = trimmed(&trim_start_char_exec(l, '#'));
            let mut j: usize = 0;
            let ghost v0 = v@;
            while j < u.len()
                invariant
                    0 <= j <= u@.len(),
                    v@ == v0 + u@.take(j as int),
                decreases u@.len() - j,
            {
                v.push(u[j]);
                assert(u@.take(j + 1) == u@.take(j as int).push(u@[j as int]));
                j += 1;
            }
            assert(u@.take(u@.len() as int) == u@);
            v
        } else {
            copy_range(l, 0, l.len())
        };
        assert(l@.subrange(0, l@.len() as int) == l@);
        assert(nl@ == deactivated_line(cs[i as int]));
        let ghost o0 = cseqs(out@);
        out.push(nl);
        assert(cseqs(out@) =~= o0.push(deactivated_line(cs[i as int])));
        assert(cs.take(i + 1).map_values(|l: Seq<char>| deactivated_line(l)) =~= cs.take(
            i as int,
        ).map_values(|l: Seq<char>| deactivated_line(l)).push(deactivated_line(cs[i as int])));
        i += 1;
    }
    assert(cs.take(cs.len() as int) == cs);
    let r = join_chars(&out, '\n');
    assert(seq!['\n'] == "\n"@) by {
        reveal_strlit("\n");
    }
    r
}

// ---------------------------------------------------------------------------
// Editing `cmdline.txt`
// ---------------------------------------------------------------------------

/// A kernel parameter that sizes the CMA pool.
pub open spec fn is_cma_param(w: Seq<char>) -> bool {
    has_prefix(w, "cma="@)
}

/// The parameters of `cmdline.txt`, with `cma=512M` added when no parameter
/// sizes the CMA pool.
pub open spec fn cmdline_tweaked_words(cmdline: Seq<char>) -> Seq<Seq<char>> {
    let w = words(cmdline);
    if exists|i: int| 0 <= i < w.len() && is_cma_param(#[trigger] w[i]) {
        w
    } else {
        w.push("cma=512M"@)
    }
}

/// `cmdline.txt` after the CMA tweak: its parameters, separated by spaces.
pub open spec fn spec_cmdline_tweak(cmdline: Seq<char>) -> Seq<char> {
    join(cmdline_tweaked_words(cmdline), " "@)
}

/// The text of `cmdline.txt` after the CMA tweak.
pub fn apply_cmdline_tweaks(cmdline: &str) -> (r: String)
    ensures
        r@ == spec_cmdline_tweak(cmdline@),
{
    let mut ws = split_words(&chars_of(cmdline));
    let ghost w0 = cseqs(ws@);
    let cma = chars_of("cma=");
    let mut has_cma = false;
    let mut i: usize = 0;
    while i < ws.len()
        invariant
            w0 == cseqs(ws@),
            cma@ == "cma="@,
            0 <= i <= ws@.len(),
            has_cma == exists|j: int| 0 <= j < i && is_cma_param(#[trigger] w0[j]),
        decreases ws@.len() - i,
    {
        assert(w0[i as int] == ws@[i as int]@);
        if starts_with(&ws[i], &cma) {
            has_cma = true;
        }
        i += 1;
    }
    if !has_cma {
        ws.push(chars_of("cma=512M"));
        assert(cseqs(ws@) =~= w0.push("cma=512M"@));
    }
    let r = join_chars(&ws, ' ');
    assert(seq![' '] == " "@) by {
        reveal_strlit(" ");
    }
    r
}

// ---------------------------------------------------------------------------
// Laws
// ---------------------------------------------------------------------------

proof fn lemma_config_gpu_mem_at(ls: Seq<Seq<char>>, i: int)
    requires
        0 <= i < ls.len(),
        forall|j: int| 0 <= j < i ==> gpu_mem_of_line(#[trigger] ls[j]) is None,
        gpu_mem_of_line(ls[i]) is Some,
    ensures
        config_gpu_mem(ls) == gpu_mem_of_line(ls[i]),
    decreases i,
{
    if i > 0 {
        assert(gpu_mem_of_line(ls[0]) is None);
        assert forall|j: int| 0 <= j < i - 1 implies gpu_mem_of_line(#[trigger] ls.drop_first()[j]) is None by {
            assert(ls.drop_first()[j] == ls[j + 1]);
        }
        assert(ls.drop_first()[i - 1] == ls[i]);
        lemma_config_gpu_mem_at(ls.drop_first(), i - 1);
    }
}

proof fn lemma_config_gpu_mem_none(ls: Seq<Seq<char>>)
    requires
        forall|j: int| 0 <= j < ls.len() ==> gpu_mem_of_line(#[trigger] ls[j]) is None,
    ensures
        config_gpu_mem(ls) is None,
    decreases ls.len(),
{
    if ls.len() > 0 {
        assert(gpu_mem_of_line(ls[0]) is None);
        assert forall|j: int| 0 <= j < ls.len() - 1 implies gpu_mem_of_line(#[trigger] ls.drop_first()[j]) is None by {
            assert(ls.drop_first()[j] == ls[j + 1]);
        }
        lemma_config_gpu_mem_none(ls.drop_first());
    }
}

/// The GPU memory that a list of lines sets depends only on what each line sets.
proof fn lemma_config_gpu_mem_same(a: Seq<Seq<char>>, b: Seq<Seq<char>>)
    requires
        a.len() == b.len(),
        forall|j: int| 0 <= j < a.len() ==> gpu_mem_of_line(#[trigger] a[j]) == gpu_mem_of_line(b[j]),
    ensures
        config_gpu_mem(a) == config_gpu_mem(b),
    decreases a.len(),
{
    if a.len() > 0 {
        assert(gpu_mem_of_line(a[0]) == gpu_mem_of_line(b[0]));
        assert forall|j: int| 0 <= j < a.len() - 1 implies gpu_mem_of_line(#[trigger] a.drop_first()[j])
            == gpu_mem_of_line(b.drop_first()[j]) by {
            assert(a.drop_first()[j] == a[j + 1]);
            assert(b.drop_first()[j] == b[j + 1]);
        }
        lemma_config_gpu_mem_same(a.drop_first(), b.drop_first());
    }
}

proof fn lemma_config_gpu_mem_push_none(a: Seq<Seq<char>>, x: Seq<char>)
    requires
        gpu_mem_of_line(x) is None,
    ensures
        config_gpu_mem(a.push(x)) == config_gpu_mem(a),
    decreases a.len(),
{
    if a.len() == 0 {
        assert(a.push(x).drop_first() =~= Seq::<Seq<char>>::empty());
    } else {
        assert(a.push(x)[0] == a[0]);
        assert(a.push(x).drop_first() == a.drop_first().push(x));
        lemma_config_gpu_mem_push_none(a.drop_first(), x);
    }
}

/// Re-reading lines joined with `\n` gives back the same GPU memory setting.
proof fn lemma_config_gpu_mem_relined(ls: Seq<Seq<char>>)
    ensures
        config_gpu_mem(relined(ls)) == config_gpu_mem(ls),
{
    if ls.len() > 0 {
        let init = ls.drop_last();
        let m = init.map_values(|l: Seq<char>| strip_cr(l));
        assert forall|j: int| 0 <= j < m.len() implies gpu_mem_of_line(#[trigger] m[j]) == gpu_mem_of_line(
            init[j],
        ) by {
            lemma_trim_strip_cr(init[j]);
        }
        lemma_config_gpu_mem_same(m, init);
        assert(ls == init.push(ls.last()));
        if ls.last().len() == 0 {
            assert(trim(ls.last()) =~= Seq::<char>::empty());
            lemma_config_gpu_mem_push_none(init, ls.last());
        } else {
            lemma_config_gpu_mem_same(m.push(ls.last()), init.push(ls.last()));
        }
    }
}

proof fn lemma_overlay_line_free()
    ensures
        free_of("dtoverlay=vc4-kms-v3d"@, '\n'),
        !sets_gpu_mem("dtoverlay=vc4-kms-v3d"@),
        enables_overlay("dtoverlay=vc4-kms-v3d"@),
{
    reveal_strlit("dtoverlay=vc4-kms-v3d");
    reveal_strlit("vc4-kms-v3d");
    reveal_strlit("#");
    reveal_strlit("gpu_mem=");
    reveal_strlit("gpu_mem_1024=");
    let l = "dtoverlay=vc4-kms-v3d"@;
    lemma_trim_fixed(l);
    assert(l.subrange(10, 10 + "vc4-kms-v3d"@.len() as int) == "vc4-kms-v3d"@);
    assert(l.take(1)[0] != "#"@[0]);
    assert(l.take(8)[0] != "gpu_mem="@[0]);
    assert(l.take(13)[0] != "gpu_mem_1024="@[0]);
}

/// The line that sets `m` MB reads back as `m` MB, holds no line feed, and
/// does not enable the overlay.
proof fn lemma_gpu_mem_line(m: nat)
    requires
        m <= u32::MAX,
    ensures
        gpu_mem_of_line(gpu_mem_line(m)) == Some(m),
        free_of(gpu_mem_line(m), '\n'),
        sets_gpu_mem(gpu_mem_line(m)),
{
    reveal_strlit("gpu_mem_1024=");
    reveal_strlit("gpu_mem=");
    reveal_strlit("#");
    let p = "gpu_mem_1024="@;
    let l = gpu_mem_line(m);
    lemma_decimal_plain(m);
    lemma_trim_fixed(l);
    lemma_trim_fixed(decimal(m));
    assert(l.take(p.len() as int) == p);
    assert(l.skip(p.len() as int) == decimal(m));
    assert(l[7] == '_');
    lemma_parse_decimal(m, u32::MAX as nat);
}

proof fn lemma_uncommented_free(l: Seq<char>)
    requires
        free_of(l, '\n'),
    ensures
        free_of(uncommented(l), '\n'),
{
    lemma_trim_start_char_free(l, '#', '\n');
    lemma_trim_free(trim_start_char(l, '#'), '\n');
}

proof fn lemma_overlay_lines_free(config: Seq<char>)
    ensures
        forall|i: int| 0 <= i < overlay_enabled_lines(lines(config)).len() ==> free_of(
            #[trigger] overlay_enabled_lines(lines(config))[i],
            '\n',
        ),
{
    let l0 = lines(config);
    lemma_lines_free(config);
    lemma_overlay_line_free();
    lemma_first_index(l0, disabled_overlay_fn());
    if !overlay_enabled(l0) {
        if let Some(i) = first_index(l0, disabled_overlay_fn()) {
            lemma_uncommented_free(l0[i]);
        }
    }
}

/// Reading back the configuration that activation writes gives the GPU
/// memory that was asked for.
pub proof fn law_activate_sets_gpu_mem(config: Seq<char>, m: nat)
    requires
        m <= u32::MAX,
    ensures
        config_gpu_mem(lines(spec_activate(config, m))) == Some(m),
{
    let l1 = overlay_enabled_lines(lines(config));
    let l2 = gpu_mem_set_lines(l1, m);
    lemma_overlay_lines_free(config);
    lemma_gpu_mem_line(m);
    lemma_first_index(l1, sets_gpu_mem_fn());
    assert forall|i: int| 0 <= i < l2.len() implies free_of(#[trigger] l2[i], '\n') by {
        if i < l1.len() && l2[i] == l1[i] {
        }
    }
    lemma_lines_join(l2);
    lemma_config_gpu_mem_relined(l2);
    match first_index(l1, sets_gpu_mem_fn()) {
        Some(i) => {
            assert forall|j: int| 0 <= j < i implies gpu_mem_of_line(#[trigger] l2[j]) is None by {
                assert(l2[j] == l1[j]);
                assert(!sets_gpu_mem_fn()(l1[j]));
            }
            lemma_config_gpu_mem_at(l2, i);
        },
        None => {
            assert forall|j: int| 0 <= j < l1.len() implies gpu_mem_of_line(#[trigger] l2[j]) is None by {
                assert(l2[j] == l1[j]);
                assert(!sets_gpu_mem_fn()(l1[j]));
            }
            lemma_config_gpu_mem_at(l2, l1.len() as int);
        },
    }
}

/// After deactivation no line of the configuration enables the overlay.
pub proof fn law_deactivate_disables_overlay(config: Seq<char>)
    ensures
        !overlay_enabled(lines(spec_deactivate(config))),
{
    reveal_strlit("#");
    let l0 = lines(config);
    let d = l0.map_values(|l: Seq<char>| deactivated_line(l));
    lemma_lines_free(config);
    assert forall|i: int| 0 <= i < d.len() implies free_of(#[trigger] d[i], '\n') && !enables_overlay(
        d[i],
    ) by {
        let l = l0[i];
        if enables_overlay(l) {
            let u = uncommented(l);
            lemma_uncommented_free(l);
            lemma_trim_shape(trim_start_char(l, '#'));
            let h = "#"@ + u;
            assert(h[0] == '#');
            assert(!is_ws('#'));
            lemma_trim_fixed(h);
            assert(h.take(1) == "#"@);
        }
    }
    lemma_lines_join(d);
    let r = relined(d);
    assert forall|i: int| 0 <= i < r.len() implies !enables_overlay(#[trigger] r[i]) by {
        if i < d.len() - 1 {
            lemma_trim_strip_cr(d[i]);
            assert(r[i] == strip_cr(d[i]));
        } else {
            assert(r[i] == d.last());
        }
    }
}

/// Lines that read back as they are written: the last one is not blank and
/// none ends in a carriage return.
pub open spec fn plain_lines(ls: Seq<Seq<char>>) -> bool {
    &&& ls.len() > 0 ==> ls.last().len() > 0
    &&& forall|i: int| 0 <= i < ls.len() ==> strip_cr(#[trigger] ls[i]) == ls[i]
}

/// A character other than `c` survives stripping leading `c`s.
proof fn lemma_trim_start_char_keeps(s: Seq<char>, c: char, i: int)
    requires
        0 <= i < s.len(),
        s[i] != c,
    ensures
        exists|j: int| 0 <= j < trim_start_char(s, c).len() && trim_start_char(s, c)[j] == s[i],
    decreases s.len(),
{
    if s.len() > 0 && s[0] == c {
        assert(s.drop_first()[i - 1] == s[i]);
        lemma_trim_start_char_keeps(s.drop_first(), c, i - 1);
        let u = trim_start_char(s.drop_first(), c);
        let j = choose|j: int| 0 <= j < u.len() && u[j] == s.drop_first()[i - 1];
        assert(trim_start_char(s, c) == u);
        assert(trim_start_char(s, c)[j] == s[i]);
    } else {
        assert(trim_start_char(s, c)[i] == s[i]);
    }
}

/// Uncommenting a commented-out overlay line leaves the overlay name, so
/// the line is not blank; it ends in no whitespace.
proof fn lemma_uncommented_nonempty(l: Seq<char>)
    requires
        disabled_overlay(l),
    ensures
        uncommented(l).len() > 0,
        !is_ws(uncommented(l).last()),
{
    reveal_strlit("vc4-kms-v3d");
    let t = trim(l);
    let w = "vc4-kms-v3d"@;
    let p = choose|p: int| 0 <= p <= t.len() - w.len() && #[trigger] t.subrange(p, p + w.len()) == w;
    assert(t[p] == t.subrange(p, p + w.len())[0]);
    assert(t[p] == 'v');
    lemma_trim_shape(l);
    let (a, b) = choose|a: int, b: int| 0 <= a <= b <= l.len() && trim(l) == l.subrange(a, b);
    assert(l[a + p] == 'v');
    lemma_trim_start_char_keeps(l, '#', a + p);
    let u = trim_start_char(l, '#');
    let j = choose|j: int| 0 <= j < u.len() && u[j] == l[a + p];
    lemma_trim_nonempty(u, j);
    lemma_trim_shape(u);
}

/// A line that enables the overlay does not start with `#`, so uncommenting
/// it only trims it.
proof fn lemma_uncommented_enabling(l: Seq<char>)
    requires
        enables_overlay(l),
    ensures
        uncommented(l) == trim(l),
        trim(l).len() > 0,
        !is_ws(trim(l).last()),
{
    reveal_strlit("#");
    reveal_strlit("vc4-kms-v3d");
    lemma_trim_shape(l);
    assert(trim(l).len() >= "vc4-kms-v3d"@.len());
    if l.len() > 0 && l[0] == '#' {
        assert(!is_ws('#'));
        assert(trim_start(l) == l);
        lemma_trim_end_take(l);
        let k = choose|k: int| 0 <= k <= l.len() && trim_end(l) == l.take(k);
        assert(trim(l) == l.take(k));
        assert(k > 0);
        assert(l.take(k)[0] == l[0]);
        assert(trim(l)[0] == '#');
        assert(trim(l).take(1) =~= "#"@);
    }
    assert(trim_start_char(l, '#') == l);
}

/// A line with the overlay commented out: `#` and the line trimmed, if it
/// enables the overlay; else the line itself.
pub open spec fn commented_overlay(l: Seq<char>) -> Seq<char> {
    if enables_overlay(l) {
        "#"@ + trim(l)
    } else {
        l
    }
}

/// What deactivation writes reads back, for every configuration, as its
/// lines with each line that enables the overlay replaced by `#` and the
/// line trimmed and every other line kept; reading back then does what it
/// does of any text joined with line feeds (`relined`): one trailing
/// carriage return goes from every line but the last, and a blank last line
/// goes.
pub proof fn law_deactivate_lines(config: Seq<char>)
    ensures
        lines(spec_deactivate(config)) == relined(
            lines(config).map_values(|l: Seq<char>| commented_overlay(l)),
        ),
{
    let l0 = lines(config);
    let d = l0.map_values(|l: Seq<char>| deactivated_line(l));
    let e = l0.map_values(|l: Seq<char>| commented_overlay(l));
    reveal_strlit("#");
    lemma_lines_free(config);
    assert forall|i: int| 0 <= i < d.len() implies free_of(#[trigger] d[i], '\n') && d[i] == e[i] by {
        let l = l0[i];
        assert(d[i] == deactivated_line(l) && e[i] == commented_overlay(l));
        if enables_overlay(l) {
            lemma_uncommented_enabling(l);
            lemma_uncommented_free(l);
        }
    }
    assert(d =~= e);
    lemma_lines_join(d);
}

/// Deactivation keeps the number of lines and every line that does not
/// enable the overlay; a line that enables it becomes `#` followed by the
/// line trimmed. Exactly so, line for line, for a configuration whose last
/// line is not blank and whose lines do not end in a carriage return
/// (reading back drops or changes those, as `law_deactivate_lines` says).
pub proof fn law_deactivate_keeps_other_lines(config: Seq<char>)
    requires
        plain_lines(lines(config)),
    ensures
        lines(spec_deactivate(config)).len() == lines(config).len(),
        forall|i: int|
            0 <= i < lines(config).len() ==> #[trigger] lines(spec_deactivate(config))[i] == if enables_overlay(
                lines(config)[i],
            ) {
                "#"@ + trim(lines(config)[i])
            } else {
                lines(config)[i]
            },
{
    reveal_strlit("#");
    let l0 = lines(config);
    let d = l0.map_values(|l: Seq<char>| deactivated_line(l));
    lemma_lines_free(config);
    assert forall|i: int| 0 <= i < d.len() implies free_of(#[trigger] d[i], '\n') && d[i] == (
    if enables_overlay(l0[i]) {
        "#"@ + trim(l0[i])
    } else {
        l0[i]
    }) && strip_cr(d[i]) == d[i] && (d[i].len() > 0) == (l0[i].len() > 0) by {
        let l = l0[i];
        if enables_overlay(l) {
            lemma_uncommented_enabling(l);
            lemma_uncommented_free(l);
            let h = "#"@ + trim(l);
            assert(h.last() == trim(l).last());
            assert(is_ws('\r'));
        }
    }
    lemma_lines_join(d);
    let r = relined(d);
    if d.len() > 0 {
        assert(d.last() == d[d.len() - 1]);
        assert(d.last().len() > 0);
        assert forall|i: int| 0 <= i < l0.len() implies #[trigger] r[i] == d[i] by {
            if i < d.len() - 1 {
                assert(r[i] == strip_cr(d[i]));
            }
        }
    } else {
        assert(r =~= Seq::<Seq<char>>::empty());
    }
}

/// Activation leaves a line that enables the overlay unless the GPU memory
/// edit overwrites it: when a line enables the overlay, one such line is not
/// the first line that sets the GPU memory; when none does, the first
/// commented-out overlay line enables it once uncommented and is then not
/// the first line that sets the GPU memory.
pub open spec fn activation_keeps_overlay(config: Seq<char>) -> bool {
    let l0 = lines(config);
    if overlay_enabled(l0) {
        exists|i: int|
            0 <= i < l0.len() && enables_overlay(#[trigger] l0[i]) && first_index(l0, sets_gpu_mem_fn()) != Some(i)
    } else {
        match first_index(l0, disabled_overlay_fn()) {
            Some(i) => {
                let l1 = l0.update(i, uncommented(l0[i]));
                enables_overlay(l1[i]) && first_index(l1, sets_gpu_mem_fn()) != Some(i)
            },
            None => true,
        }
    }
}

/// After activation the configuration enables the overlay.
pub proof fn law_activate_enables_overlay(config: Seq<char>, m: nat)
    requires
        m <= u32::MAX,
        activation_keeps_overlay(config),
    ensures
        overlay_enabled(lines(spec_activate(config, m))),
{
    let l0 = lines(config);
    let l1 = overlay_enabled_lines(l0);
    let l2 = gpu_mem_set_lines(l1, m);
    lemma_overlay_lines_free(config);
    lemma_gpu_mem_line(m);
    lemma_overlay_line_free();
    lemma_first_index(l1, sets_gpu_mem_fn());
    lemma_first_index(l0, disabled_overlay_fn());
    assert forall|i: int| 0 <= i < l2.len() implies free_of(#[trigger] l2[i], '\n') by {
        if i < l1.len() && l2[i] == l1[i] {
        }
    }
    let k: int = if overlay_enabled(l0) {
        choose|i: int|
            0 <= i < l0.len() && enables_overlay(#[trigger] l0[i]) && first_index(l0, sets_gpu_mem_fn()) != Some(i)
    } else {
        match first_index(l0, disabled_overlay_fn()) {
            Some(i) => i,
            None => l0.len() as int,
        }
    };
    assert(0 <= k < l1.len() && enables_overlay(l1[k]) && first_index(l1, sets_gpu_mem_fn()) != Some(k)) by {
        if !overlay_enabled(l0) && first_index(l0, disabled_overlay_fn()) is None {
            if let Some(f) = first_index(l1, sets_gpu_mem_fn()) {
                if f == k {
                    reveal_strlit("dtoverlay=vc4-kms-v3d");
                    reveal_strlit("gpu_mem=");
                    reveal_strlit("gpu_mem_1024=");
                    assert(sets_gpu_mem_fn()(l1[f]));
                    lemma_trim_fixed(l1[k]);
                    assert(l1[k][0] == 'd');
                }
            }
        }
    }
    assert(l2[k] == l1[k]) by {
        if let Some(i) = first_index(l1, sets_gpu_mem_fn()) {
            assert(i != k);
        }
    }
    lemma_lines_join(l2);
    let r = relined(l2);
    if k < l2.len() - 1 {
        lemma_trim_strip_cr(l2[k]);
        assert(r[k] == strip_cr(l2[k]));
        assert(enables_overlay(r[k]));
    } else {
        assert(l2.last() == l2[k]);
        reveal_strlit("vc4-kms-v3d");
        lemma_trim_shape(l2[k]);
        assert(trim(l2[k]).len() > 0);
        assert(l2[k].len() > 0);
        assert(r[k] == l2[k]);
    }
}

/// The overlay line and the GPU memory line end in no carriage return and
/// are not blank.
proof fn lemma_added_lines_plain(m: nat)
    requires
        m <= u32::MAX,
    ensures
        strip_cr("dtoverlay=vc4-kms-v3d"@) == "dtoverlay=vc4-kms-v3d"@,
        "dtoverlay=vc4-kms-v3d"@.len() > 0,
        strip_cr(gpu_mem_line(m)) == gpu_mem_line(m),
        gpu_mem_line(m).len() > 0,
{
    reveal_strlit("dtoverlay=vc4-kms-v3d");
    lemma_decimal_plain(m);
    assert(gpu_mem_line(m).last() == decimal(m).last());
    assert(decimal(m).len() > 0);
    assert(decimal(m).last() == decimal(m)[decimal(m).len() - 1]);
}

/// Reading back what activation writes gives the edited lines themselves,
/// when the lines of `config.txt` read back as they are written.
proof fn lemma_activate_lines(config: Seq<char>, m: nat)
    requires
        m <= u32::MAX,
        plain_lines(lines(config)),
    ensures
        lines(spec_activate(config, m)) == gpu_mem_set_lines(overlay_enabled_lines(lines(config)), m),
        plain_lines(gpu_mem_set_lines(overlay_enabled_lines(lines(config)), m)),
{
    let l0 = lines(config);
    let l1 = overlay_enabled_lines(l0);
    let l2 = gpu_mem_set_lines(l1, m);
    lemma_overlay_lines_free(config);
    lemma_gpu_mem_line(m);
    lemma_added_lines_plain(m);
    lemma_first_index(l1, sets_gpu_mem_fn());
    lemma_first_index(l0, disabled_overlay_fn());
    assert forall|i: int| 0 <= i < l2.len() implies free_of(#[trigger] l2[i], '\n') by {
        if i < l1.len() && l2[i] == l1[i] {
        }
    }
    let k: int = if !overlay_enabled(l0) && first_index(l0, disabled_overlay_fn()) is Some {
        first_index(l0, disabled_overlay_fn())->0
    } else {
        -1
    };
    if k >= 0 {
        lemma_uncommented_nonempty(l0[k]);
        assert(is_ws('\r'));
    }
    assert(plain_lines(l1)) by {
        assert forall|i: int| 0 <= i < l1.len() implies strip_cr(#[trigger] l1[i]) == l1[i] by {
            if i < l0.len() && i != k {
                assert(l1[i] == l0[i]);
            }
        }
        if l1.len() > 0 && l0.len() > 0 && l1.len() == l0.len() {
            assert(l1.last() == l1[l0.len() - 1]);
            if l0.len() - 1 != k {
                assert(l1[l0.len() - 1] == l0.last());
            }
        }
    }
    assert(plain_lines(l2)) by {
        assert forall|i: int| 0 <= i < l2.len() implies strip_cr(#[trigger] l2[i]) == l2[i] by {
            if i < l1.len() && l2[i] == l1[i] {
            }
        }
        assert(l2.last() == l2[l2.len() - 1]);
        if l2.len() == l1.len() {
            assert(l1.last() == l1[l1.len() - 1]);
        }
    }
    lemma_lines_join(l2);
    assert(relined(l2) =~= l2) by {
        assert(l2.len() > 0);
        assert(l2.last().len() > 0);
        let init = l2.drop_last().map_values(|l: Seq<char>| strip_cr(l));
        assert forall|i: int| 0 <= i < init.len() implies init[i] == l2.drop_last()[i] by {
            assert(l2.drop_last()[i] == l2[i]);
        }
        assert(init =~= l2.drop_last());
    }
}

/// The lines that activation writes: the overlay enabled, then the GPU
/// memory set.
pub open spec fn activated_lines(config: Seq<char>, m: nat) -> Seq<Seq<char>> {
    gpu_mem_set_lines(overlay_enabled_lines(lines(config)), m)
}

/// What activation writes reads back as the lines it wrote, as reading back
/// does of any text joined with line feeds (`relined`).
proof fn lemma_activate_reads_back(config: Seq<char>, m: nat)
    requires
        m <= u32::MAX,
    ensures
        lines(spec_activate(config, m)) == relined(activated_lines(config, m)),
        forall|i: int|
            0 <= i < activated_lines(config, m).len() ==> free_of(
                #[trigger] activated_lines(config, m)[i],
                '\n',
            ),
{
    let l1 = overlay_enabled_lines(lines(config));
    let l2 = gpu_mem_set_lines(l1, m);
    lemma_overlay_lines_free(config);
    lemma_gpu_mem_line(m);
    lemma_first_index(l1, sets_gpu_mem_fn());
    assert forall|i: int| 0 <= i < l2.len() implies free_of(#[trigger] l2[i], '\n') by {
        if i < l1.len() && l2[i] == l1[i] {
        }
    }
    lemma_lines_join(l2);
}

/// Activation keeps every line of `config.txt` but the commented-out
/// overlay line that it uncomments and the first line that sets the GPU
/// memory, which it replaces; what it adds comes after them. What it writes
/// reads back as those lines, for every configuration, up to what reading
/// back does of any text (`relined`: one trailing carriage return goes from
/// every line but the last, and a blank last line goes); for a
/// configuration whose lines read back as they are written, it reads back
/// as exactly those lines.
pub proof fn law_activate_keeps_other_lines(config: Seq<char>, m: nat)
    requires
        m <= u32::MAX,
    ensures
        lines(spec_activate(config, m)) == relined(activated_lines(config, m)),
        activated_lines(config, m).len() >= lines(config).len(),
        forall|j: int|
            0 <= j < lines(config).len() && !(!overlay_enabled(lines(config)) && first_index(
                lines(config),
                disabled_overlay_fn(),
            ) == Some(j)) && first_index(overlay_enabled_lines(lines(config)), sets_gpu_mem_fn())
                != Some(j) ==> #[trigger] activated_lines(config, m)[j] == lines(config)[j],
        plain_lines(lines(config)) ==> lines(spec_activate(config, m)) == activated_lines(config, m),
{
    let l0 = lines(config);
    let l1 = overlay_enabled_lines(l0);
    let l2 = gpu_mem_set_lines(l1, m);
    lemma_activate_reads_back(config, m);
    if plain_lines(l0) {
        lemma_activate_lines(config, m);
    }
    lemma_first_index(l1, sets_gpu_mem_fn());
    lemma_first_index(l0, disabled_overlay_fn());
    assert forall|j: int|
        0 <= j < l0.len() && !(!overlay_enabled(l0) && first_index(l0, disabled_overlay_fn()) == Some(j))
            && first_index(l1, sets_gpu_mem_fn()) != Some(j) implies #[trigger] l2[j] == l0[j] by {
        assert(l1[j] == l0[j]);
        assert(l2[j] == l1[j]);
    }
}

/// A second activation with the same memory makes no edit: it writes back
/// the lines that the first activation's text reads as, for every
/// configuration whose overlay line activation keeps. So, when the lines of
/// the configuration read back as they are written, the second activation
/// gives the very text of the first.
pub proof fn law_activate_idempotent(config: Seq<char>, m: nat)
    requires
        m <= u32::MAX,
        activation_keeps_overlay(config),
    ensures
        spec_activate(spec_activate(config, m), m) == join(lines(spec_activate(config, m)), "\n"@),
        plain_lines(lines(config)) ==> spec_activate(spec_activate(config, m), m) == spec_activate(
            config,
            m,
        ),
{
    let l1 = overlay_enabled_lines(lines(config));
    let l2 = gpu_mem_set_lines(l1, m);
    let a = spec_activate(config, m);
    lemma_activate_reads_back(config, m);
    law_activate_enables_overlay(config, m);
    lemma_gpu_mem_line(m);
    lemma_added_lines_plain(m);
    let r = lines(a);
    assert(r == relined(l2));
    assert(overlay_enabled_lines(r) == r);
    lemma_first_index(l1, sets_gpu_mem_fn());
    // The first line of `l2` that sets the GPU memory is the line of `m` MB.
    let f: int = match first_index(l1, sets_gpu_mem_fn()) {
        Some(i) => i,
        None => l1.len() as int,
    };
    assert(0 <= f < l2.len() && l2[f] == gpu_mem_line(m));
    assert(forall|j: int| 0 <= j < f ==> l2[j] == l1[j] && !sets_gpu_mem_fn()(#[trigger] l1[j]));
    // Reading back keeps it, and keeps each line before it setting no memory.
    assert(r.len() > f && r[f] == gpu_mem_line(m)) by {
        if f < l2.len() - 1 {
            assert(r[f] == strip_cr(l2[f]));
        } else {
            assert(l2.last() == l2[f]);
            assert(r[f] == l2.last());
        }
    }
    assert forall|j: int| 0 <= j < f implies !sets_gpu_mem_fn()(#[trigger] r[j]) by {
        assert(r[j] == strip_cr(l2[j]));
        lemma_trim_strip_cr(l2[j]);
        assert(l2[j] == l1[j]);
        assert(!sets_gpu_mem_fn()(l1[j]));
    }
    lemma_first_index_is(r, sets_gpu_mem_fn(), f);
    assert(gpu_mem_set_lines(r, m) =~= r);
    if plain_lines(lines(config)) {
        lemma_activate_lines(config, m);
        assert(r == l2);
    }
}

/// The driver counts as loaded exactly when some line of `/proc/modules`, at
/// any position, starts with `vc4` or `v3d`; the overlay counts as set
/// exactly when some line of `config.txt`, trimmed, names `vc4-kms-v3d` and
/// does not start with `#`; the GPU memory is what the first line that sets
/// one that parses sets, and there is none when no line does.
pub proof fn law_detect_reads_lines(modules: Seq<char>, config: Seq<char>, firmware_exists: bool, st: GpuStatus)
    requires
        spec_gpu_status(modules, config, firmware_exists, st),
    ensures
        st.driver_loaded <==> exists|i: int|
            0 <= i < lines(modules).len() && (has_prefix(#[trigger] lines(modules)[i], "vc4"@) || has_prefix(
                lines(modules)[i],
                "v3d"@,
            )),
        st.dtoverlay_set <==> exists|i: int|
            0 <= i < lines(config).len() && has_infix(trim(#[trigger] lines(config)[i]), "vc4-kms-v3d"@)
                && !has_prefix(trim(lines(config)[i]), "#"@),
        match st.gpu_mem_mb {
            Some(v) => exists|i: int|
                0 <= i < lines(config).len() && gpu_mem_of_line(#[trigger] lines(config)[i]) == Some(v as nat)
                    && forall|j: int| 0 <= j < i ==> gpu_mem_of_line(#[trigger] lines(config)[j]) is None,
            None => forall|i: int|
                0 <= i < lines(config).len() ==> gpu_mem_of_line(#[trigger] lines(config)[i]) is None,
        },
        st.firmware_exists == firmware_exists,
{
    let ms = lines(modules);
    if st.driver_loaded {
        let i = choose|i: int| 0 <= i < ms.len() && is_gpu_module_line(#[trigger] ms[i]);
        assert(has_prefix(ms[i], "vc4"@) || has_prefix(ms[i], "v3d"@));
    }
    if exists|i: int| 0 <= i < ms.len() && (has_prefix(#[trigger] ms[i], "vc4"@) || has_prefix(ms[i], "v3d"@)) {
        let i = choose|i: int| 0 <= i < ms.len() && (has_prefix(#[trigger] ms[i], "vc4"@) || has_prefix(ms[i], "v3d"@));
        assert(is_gpu_module_line(ms[i]));
    }
    let cs = lines(config);
    if st.dtoverlay_set {
        let i = choose|i: int| 0 <= i < cs.len() && enables_overlay(#[trigger] cs[i]);
        assert(has_infix(trim(cs[i]), "vc4-kms-v3d"@) && !has_prefix(trim(cs[i]), "#"@));
    }
    if exists|i: int| 0 <= i < cs.len() && has_infix(trim(#[trigger] cs[i]), "vc4-kms-v3d"@) && !has_prefix(trim(cs[i]), "#"@) {
        let i = choose|i: int| 0 <= i < cs.len() && has_infix(trim(#[trigger] cs[i]), "vc4-kms-v3d"@) && !has_prefix(trim(cs[i]), "#"@);
        assert(enables_overlay(cs[i]));
    }
    lemma_config_gpu_mem_first(cs);
}

/// The GPU memory of a list of lines is that of its first line that sets one.
proof fn lemma_config_gpu_mem_first(ls: Seq<Seq<char>>)
    ensures
        match config_gpu_mem(ls) {
            Some(v) => exists|i: int|
                0 <= i < ls.len() && gpu_mem_of_line(#[trigger] ls[i]) == Some(v) && forall|j: int|
                    0 <= j < i ==> gpu_mem_of_line(#[trigger] ls[j]) is None,
            None => forall|i: int| 0 <= i < ls.len() ==> gpu_mem_of_line(#[trigger] ls[i]) is None,
        },
    decreases ls.len(),
{
    if ls.len() > 0 {
        let t = ls.drop_first();
        lemma_config_gpu_mem_first(t);
        match gpu_mem_of_line(ls[0]) {
            Some(v) => {
                assert(gpu_mem_of_line(ls[0]) == Some(v));
            },
            None => {
                match config_gpu_mem(t) {
                    Some(v) => {
                        let k = choose|k: int|
                            0 <= k < t.len() && gpu_mem_of_line(#[trigger] t[k]) == Some(v) && forall|j: int|
                                0 <= j < k ==> gpu_mem_of_line(#[trigger] t[j]) is None;
                        assert(ls[k + 1] == t[k]);
                        assert forall|j: int| 0 <= j < k + 1 implies gpu_mem_of_line(#[trigger] ls[j]) is None by {
                            if j > 0 {
                                assert(ls[j] == t[j - 1]);
                            }
                        }
                    },
                    None => {
                        assert forall|i: int| 0 <= i < ls.len() implies gpu_mem_of_line(#[trigger] ls[i]) is None by {
                            if i > 0 {
                                assert(ls[i] == t[i - 1]);
                            }
                        }
                    },
                }
            },
        }
    }
}

/// Every parameter that `cmdline.txt` had is kept, in order, and one of the
/// parameters afterwards sizes the CMA pool.
pub proof fn law_cmdline_tweak_sizes_cma(cmdline: Seq<char>)
    ensures
        exists|i: int| 0 <= i < cmdline_tweaked_words(cmdline).len() && is_cma_param(
            #[trigger] cmdline_tweaked_words(cmdline)[i],
        ),
        cmdline_tweaked_words(cmdline).take(words(cmdline).len() as int) == words(cmdline),
{
    reveal_strlit("cma=512M");
    reveal_strlit("cma=");
    let w = words(cmdline);
    let t = cmdline_tweaked_words(cmdline);
    if !(exists|i: int| 0 <= i < w.len() && is_cma_param(#[trigger] w[i])) {
        assert(t[w.len() as int] == "cma=512M"@);
        assert("cma=512M"@.take(4) == "cma="@);
        assert(is_cma_param(t[w.len() as int]));
    }
    assert(t.take(w.len() as int) == w);
}


/// The CMA tweak is idempotent: tweaking `cmdline.txt` a second time, as
/// the optimisation does at every boot, leaves it as the first time did.
pub proof fn law_cmdline_tweak_idempotent(cmdline: Seq<char>)
    ensures
        spec_cmdline_tweak(spec_cmdline_tweak(cmdline)) == spec_cmdline_tweak(cmdline),
{
    reveal_strlit("cma=512M");
    let t = cmdline_tweaked_words(cmdline);
    let w = words(cmdline);
    lemma_words_are_words(cmdline);
    assert forall|i: int| 0 <= i < t.len() implies is_word(#[trigger] t[i]) by {
        if i < w.len() {
            assert(t[i] == w[i]);
        } else {
            assert(t[i] == "cma=512M"@);
        }
    }
    lemma_words_join(t);
    law_cmdline_tweak_sizes_cma(cmdline);
    assert(words(spec_cmdline_tweak(cmdline)) == t);
    let i = choose|i: int| 0 <= i < t.len() && is_cma_param(#[trigger] t[i]);
    assert(cmdline_tweaked_words(spec_cmdline_tweak(cmdline)) == t);
}

} // verus!
