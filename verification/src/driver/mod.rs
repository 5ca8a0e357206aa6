//! Kernel modules: what `/proc/modules` lists.
pub mod blacklist;
pub mod selection_law;
pub mod tui;

use vstd::prelude::*;

use crate::text::{
    chars_of, cseqs, keep, lines, nonempty_fn, parse_or_zero, parse_unsigned, push_str_item, replace_char,
    replace_chars, split, split_chars, split_chars_n, split_lines, split_n, string_of, strs, trim,
    trimmed,
};

verus! {

/// A loaded kernel module.
#[derive(Debug, Clone)]
pub struct ModuleInfo {
    pub name: String,
    pub size: u64,
    pub used_count: u32,
    pub used_by: Vec<String>,
}

/// A module name as the tool shows it: underscores become dashes.
pub open spec fn dashed(s: Seq<char>) -> Seq<char> {
    replace_char(s, '_', '-')
}

/// The number that `s` holds, or 0 when it holds none that fits below `max`.
pub open spec fn number_or_zero(s: Seq<char>, max: nat) -> nat {
    match parse_unsigned(s, max) {
        Some(n) => n,
        None => 0,
    }
}

/// The fields of a `/proc/modules` line, split at the first three spaces.
pub open spec fn fields(l: Seq<char>) -> Seq<Seq<char>> {
    split_n(l, ' ', 4)
}

/// A line that names a module: it has at least two fields.
pub open spec fn names_module(l: Seq<char>) -> bool {
    fields(l).len() >= 2
}

pub open spec fn names_module_fn() -> spec_fn(Seq<char>) -> bool {
    |l: Seq<char>| names_module(l)
}

/// The modules that use a module, from the rest of its line: what comes
/// before the first `-`, split at commas, without empty pieces, each
/// trimmed and dashed.
pub open spec fn users_of(rest: Seq<char>) -> Seq<Seq<char>> {
    keep(split(split(rest, '-')[0], ','), nonempty_fn()).map_values(|s: Seq<char>| dashed(trim(s)))
}

/// `m` is what the module line `l` says.
pub open spec fn module_from_line(m: ModuleInfo, l: Seq<char>) -> bool {
    let f = fields(l);
    &&& m.name@ == dashed(f[0])
    &&& m.size == number_or_zero(f[1], u64::MAX as nat)
    &&& m.used_count == if f.len() > 2 {
        number_or_zero(f[2], u32::MAX as nat)
    } else {
        0
    }
    &&& strs(m.used_by@) == if f.len() > 3 {
        users_of(f[3])
    } else {
        Seq::empty()
    }
}

/// The modules that the text of `/proc/modules` lists.
pub open spec fn spec_modules(content: Seq<char>, ms: Seq<ModuleInfo>) -> bool {
    let ls = keep(lines(content), names_module_fn());
    &&& ms.len() == ls.len()
    &&& forall|i: int| 0 <= i < ms.len() ==> module_from_line(#[trigger] ms[i], ls[i])
}

fn users_exec(rest: &Vec<char>) -> (r: Vec<String>)
    ensures
        strs(r@) == users_of(rest@),
{
    let by_dash = split_chars(rest, '-');
    proof {
        crate::text::lemma_split_n_len(rest@, '-', rest@.len() + 1);
    }
    assert(cseqs(by_dash@)[0] == by_dash@[0]@);
    let pieces = split_chars(&by_dash[0], ',');
    let ghost ps = cseqs(pieces@);
    let mut r: Vec<String> = Vec::new();
    let mut i: usize = 0;
    while i < pieces.len()
        invariant
            ps == cseqs(pieces@),
            0 <= i <= pieces@.len(),
            strs(r@) == keep(ps.take(i as int), nonempty_fn()).map_values(
                |s: Seq<char>| dashed(trim(s)),
            ),
        decreases pieces@.len() - i,
    {
        let p = &pieces[i];
        assert(ps.take(i + 1).drop_last() == ps.take(i as int));
        assert(ps.take(i + 1).last() == p@);
        if p.len() > 0 {
            let t = trimmed(p);
            let d = replace_chars(&t, '_', '-');
            let ghost r0 = strs(r@);
            r.push(string_of(&d));
            assert(strs(r@) =~= r0.push(dashed(trim(p@))));
            assert(keep(ps.take(i + 1), nonempty_fn()) == keep(ps.take(i as int), nonempty_fn()).push(p@));
            assert(keep(ps.take(i + 1), nonempty_fn()).map_values(|s: Seq<char>| dashed(trim(s)))
                =~= keep(ps.take(i as int), nonempty_fn()).map_values(|s: Seq<char>| dashed(trim(s))).push(
                dashed(trim(p@)),
            ));
        } else {
            assert(keep(ps.take(i + 1), nonempty_fn()) == keep(ps.take(i as int), nonempty_fn()));
        }
        i += 1;
    }
    assert(ps.take(ps.len() as int) == ps);
    r
}

/// The modules that the text of `/proc/modules` lists.
pub fn list_loaded(content: &str) -> (ms: Vec<ModuleInfo>)
    ensures
        spec_modules(content@, ms@),
{
    let ls = split_lines(&chars_of(content));
    let ghost all = cseqs(ls@);
    let mut ms: Vec<ModuleInfo> = Vec::new();
    let mut i: usize = 0;
    while i < ls.len()
        invariant
            all == cseqs(ls@),
            0 <= i <= ls@.len(),
            ms@.len() == keep(all.take(i as int), names_module_fn()).len(),
            forall|j: int| 0 <= j < ms@.len() ==> module_from_line(#[trigger] ms@[j], keep(all.take(i as int), names_module_fn())[j]),
        decreases ls@.len() - i,
    {
        let l = &ls[i];
        assert(all.take(i + 1).drop_last() == all.take(i as int));
        assert(all.take(i + 1).last() == l@);
        let parts = split_chars_n(l, ' ', 4);
        let ghost f = cseqs(parts@);
        assert(f == fields(l@));
        if parts.len() >= 2 {
            assert(f[0] == parts@[0]@ && f[1] == parts@[1]@);
            let name = string_of(&replace_chars(&parts[0], '_', '-'));
            let size = parse_or_zero(&parts[1], 0xffff_ffff_ffff_ffff);
            let used_count: u32 = if parts.len() > 2 {
                assert(f[2] == parts@[2]@);
                parse_or_zero(&parts[2], 0xffff_ffff) as u32
            } else {
                0
            };
            let used_by: Vec<String> = if parts.len() > 3 {
                assert(f[3] == parts@[3]@);
                users_exec(&parts[3])
            } else {
                let e: Vec<String> = Vec::new();
                assert(strs(e@) =~= Seq::<Seq<char>>::empty());
                e
            };
            let m = ModuleInfo { name, size, used_count, used_by };
            assert(module_from_line(m, l@));
            let ghost k0 = keep(all.take(i as int), names_module_fn());
            ms.push(m);
            assert(keep(all.take(i + 1), names_module_fn()) == k0.push(l@));
            assert forall|j: int| 0 <= j < ms@.len() implies module_from_line(
                #[trigger] ms@[j],
                keep(all.take(i + 1), names_module_fn())[j],
            ) by {
                if j < ms@.len() - 1 {
                    assert(keep(all.take(i + 1), names_module_fn())[j] == k0[j]);
                }
            }
        } else {
            assert(keep(all.take(i + 1), names_module_fn()) == keep(all.take(i as int), names_module_fn()));
        }
        i += 1;
    }
    assert(all.take(all.len() as int) == all);
    ms
}


/// The arguments of `modprobe` that load `module`.
pub fn load_module(module: &str) -> (args: Vec<String>)
    ensures
        strs(args@) == seq![module@],
{
    let mut args: Vec<String> = Vec::new();
    push_str_item(&mut args, module);
    assert(strs(args@) =~= seq![module@]);
    args
}

/// The arguments of `modprobe` that unload `module`.
pub fn unload_module(module: &str) -> (args: Vec<String>)
    ensures
        strs(args@) == seq!["-r"@, module@],
{
    let mut args: Vec<String> = Vec::new();
    push_str_item(&mut args, "-r");
    push_str_item(&mut args, module);
    assert(strs(args@) =~= seq!["-r"@, module@]);
    args
}

} // verus!
