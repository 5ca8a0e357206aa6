//! The packages that streaming needs, and what the package database says of them.
use vstd::prelude::*;

use crate::text::{
    chars_of, opt_str, push_str_item, push_string_item, str_eq, str_trim, strs, trim,
};

verus! {

/// The packages that streaming needs.
pub open spec fn spec_required_packages() -> Seq<Seq<char>> {
    seq!["mpv"@, "ffmpeg"@, "libraspberrypi0"@, "libdrm2"@, "mesa-utils"@, "firmware-linux-nonfree"@]
}

/// The packages that help but are not needed.
pub open spec fn spec_optional_packages() -> Seq<Seq<char>> {
    seq!["v4l-utils"@, "libva2"@, "i965-va-driver"@]
}

pub open spec fn views(v: Seq<&str>) -> Seq<Seq<char>> {
    v.map_values(|s: &str| s@)
}

pub fn required_packages() -> (v: Vec<&'static str>)
    ensures
        views(v@) == spec_required_packages(),
{
    let v = vec!["mpv", "ffmpeg", "libraspberrypi0", "libdrm2", "mesa-utils", "firmware-linux-nonfree"];
    assert(views(v@) =~= spec_required_packages());
    v
}

pub fn optional_packages() -> (v: Vec<&'static str>)
    ensures
        views(v@) == spec_optional_packages(),
{
    let v = vec!["v4l-utils", "libva2", "i965-va-driver"];
    assert(views(v@) =~= spec_optional_packages());
    v
}

/// Every package, the required ones first.
pub fn all_packages() -> (v: Vec<&'static str>)
    ensures
        views(v@) == spec_required_packages() + spec_optional_packages(),
{
    let mut v = required_packages();
    let o = optional_packages();
    let ghost v0 = views(v@);
    let mut i: usize = 0;
    while i < o.len()
        invariant
            0 <= i <= o@.len(),
            views(o@) == spec_optional_packages(),
            views(v@) == v0 + views(o@).take(i as int),
        decreases o@.len() - i,
    {
        let ghost b0 = views(v@);
        v.push(o[i]);
        assert(views(v@) =~= b0.push(o@[i as int]@));
        assert(views(o@).take(i + 1) =~= views(o@).take(i as int).push(o@[i as int]@));
        i += 1;
    }
    assert(views(o@).take(o@.len() as int) == views(o@));
    v
}

/// What the package database says of a package.
#[derive(Debug, Clone)]
pub struct DepStatus {
    pub name: String,
    pub installed: bool,
    pub version: Option<String>,
}

/// The status of package `name` from the outcome of querying its version:
/// installed when the query succeeded, with the printed version, trimmed,
/// unless that is empty.
pub fn dep_status(name: &str, query_ok: bool, stdout: &str) -> (d: DepStatus)
    ensures
        d.name@ == name@,
        d.installed == query_ok,
        opt_str(d.version) == if query_ok && trim(stdout@).len() > 0 {
            Some(trim(stdout@))
        } else {
            None
        },
{
    let version = if query_ok {
        let t = str_trim(stdout);
        if chars_of(t.as_str()).len() == 0 {
            None
        } else {
            Some(t)
        }
    } else {
        None
    };
    DepStatus { name: String::from_str(name), installed: query_ok, version }
}

/// The required packages that are not installed, in the order of `statuses`.
pub open spec fn spec_missing(statuses: Seq<DepStatus>) -> Seq<Seq<char>>
    decreases statuses.len(),
{
    if statuses.len() == 0 {
        Seq::empty()
    } else {
        let s = statuses.last();
        let rest = spec_missing(statuses.drop_last());
        if !s.installed && spec_required_packages().contains(s.name@) {
            rest.push(s.name@)
        } else {
            rest
        }
    }
}

fn is_required(name: &str) -> (b: bool)
    ensures
        b == spec_required_packages().contains(name@),
{
    let req = required_packages();
    let mut i: usize = 0;
    while i < req.len()
        invariant
            0 <= i <= req@.len(),
            views(req@) == spec_required_packages(),
            forall|j: int| 0 <= j < i ==> spec_required_packages()[j] != name@,
        decreases req@.len() - i,
    {
        if str_eq(req[i], name) {
            assert(spec_required_packages()[i as int] == name@);
            return true;
        }
        i += 1;
    }
    false
}

/// The required packages that are not installed.
pub fn missing_required(statuses: &Vec<DepStatus>) -> (m: Vec<String>)
    ensures
        strs(m@) == spec_missing(statuses@),
{
    let mut m: Vec<String> = Vec::new();
    let mut i: usize = 0;
    while i < statuses.len()
        invariant
            0 <= i <= statuses@.len(),
            strs(m@) == spec_missing(statuses@.take(i as int)),
        decreases statuses@.len() - i,
    {
        let s = &statuses[i];
        assert(statuses@.take(i + 1).drop_last() == statuses@.take(i as int));
        assert(statuses@.take(i + 1).last() == *s);
        if !s.installed && is_required(s.name.as_str()) {
            push_str_item(&mut m, s.name.as_str());
        }
        i += 1;
    }
    assert(statuses@.take(statuses@.len() as int) == statuses@);
    m
}

/// The number of packages that are not installed.
pub open spec fn spec_not_installed(statuses: Seq<DepStatus>) -> nat
    decreases statuses.len(),
{
    if statuses.len() == 0 {
        0
    } else {
        spec_not_installed(statuses.drop_last()) + if statuses.last().installed {
            0nat
        } else {
            1nat
        }
    }
}

/// The number of packages that are not installed.
pub fn not_installed_count(statuses: &Vec<DepStatus>) -> (n: usize)
    ensures
        n == spec_not_installed(statuses@),
{
    let mut n: usize = 0;
    let mut i: usize = 0;
    while i < statuses.len()
        invariant
            0 <= i <= statuses@.len(),
            n == spec_not_installed(statuses@.take(i as int)),
            n <= i,
        decreases statuses@.len() - i,
    {
        assert(statuses@.take(i + 1).drop_last() == statuses@.take(i as int));
        assert(statuses@.take(i + 1).last() == statuses@[i as int]);
        if !statuses[i].installed {
            n += 1;
        }
        i += 1;
    }
    assert(statuses@.take(statuses@.len() as int) == statuses@);
    n
}

/// The arguments of `sudo` that install `packages` with apt.
pub fn apt_install_args(packages: &Vec<String>) -> (args: Vec<String>)
    ensures
        strs(args@) == seq!["apt"@, "install"@, "-y"@] + strs(packages@),
{
    let mut args: Vec<String> = Vec::new();
    push_str_item(&mut args, "apt");
    push_str_item(&mut args, "install");
    push_str_item(&mut args, "-y");
    crate::text::extend_strings(&mut args, packages);
    args
}

} // verus!
