//! What applying a selection does to the blacklist file: afterwards the file
//! lists exactly the selected modules.
use vstd::prelude::*;

use crate::driver::blacklist::{
    absent_from_fn, after_removals, append_one, appended, blacklist_line_fn, entry_line, has_entry,
    is_blacklist_line, listed_module, not_entry_fn, spec_conf_modules, spec_plan, spec_remove_entry,
    text_or_empty, BlacklistPlan,
};
use crate::text::{
    lemma_trim_end_append, lemma_trim_end_prefix, trim_end, trim_start, free_of, has_prefix, has_suffix, is_ws, join, keep, lemma_join_has, lemma_keep_contains,
    lemma_lines_append_after_feed, lemma_lines_append_line, lemma_lines_free, lemma_lines_join_feed,
    lemma_trim_fixed, lemma_trim_nonempty, lemma_trim_shape, lemma_trim_strip_cr, lines, nonempty_fn,
    opt_str, strip_cr, trim, trim_start_str,
};

verus! {

/// A module name that the file holds as it is: not empty, no whitespace at
/// either end, no line feed, and not itself starting with `blacklist `
/// (the file reader strips that prefix again). Whitespace inside the name
/// is allowed.
pub open spec fn clean_module(m: Seq<char>) -> bool {
    &&& m.len() > 0
    &&& !is_ws(m[0])
    &&& !is_ws(m.last())
    &&& free_of(m, '\n')
    &&& !has_prefix(m, "blacklist "@)
}

/// The name on a line that starts with `blacklist `: the rest of the line
/// without trailing whitespace.
pub open spec fn entry_name(l: Seq<char>) -> Seq<char> {
    trim_end(l.skip(10))
}

/// A line that blacklists a module is `blacklist NAME`, with a clean name,
/// perhaps followed by whitespace (a name `blacklist` followed by whitespace
/// is not canonical: the file reader strips it as a second prefix).
pub open spec fn canonical_line(l: Seq<char>) -> bool {
    is_blacklist_line(l) ==> {
        &&& has_prefix(l, "blacklist "@)
        &&& clean_module(entry_name(l))
        &&& !has_prefix(l.skip(10), "blacklist "@)
    }
}

/// Every line of the file that blacklists a module is canonical.
pub open spec fn canonical_file(c: Seq<char>) -> bool {
    forall|i: int| 0 <= i < lines(c).len() ==> canonical_line(#[trigger] lines(c)[i])
}

/// Some line of `c` blacklists the module `m`.
pub open spec fn lists(c: Seq<char>, m: Seq<char>) -> bool {
    exists|i: int|
        0 <= i < lines(c).len() && is_blacklist_line(#[trigger] lines(c)[i]) && listed_module(lines(c)[i]) == m
            && m.len() > 0
}

proof fn lemma_prefix_chars()
    ensures
        "blacklist "@.len() == 10,
        "blacklist "@[0] == 'b',
        "blacklist "@[9] == ' ',
        "#"@ == seq!['#'],
{
    reveal_strlit("blacklist ");
    reveal_strlit("#");
}

/// The modules that the file lists are those of its blacklist lines.
proof fn lemma_conf_contains(c: Seq<char>, m: Seq<char>)
    ensures
        spec_conf_modules(c).contains(m) <==> lists(c, m),
{
    let ls = lines(c);
    let bl = keep(ls, blacklist_line_fn());
    let mapped = bl.map_values(|l: Seq<char>| listed_module(l));
    lemma_keep_contains(mapped, nonempty_fn(), m);
    if spec_conf_modules(c).contains(m) {
        let j = choose|j: int| 0 <= j < mapped.len() && mapped[j] == m;
        lemma_keep_contains(ls, blacklist_line_fn(), bl[j]);
        assert(bl.contains(bl[j]));
        let i = choose|i: int| 0 <= i < ls.len() && ls[i] == bl[j];
        assert(is_blacklist_line(ls[i]) && listed_module(ls[i]) == m);
    }
    if lists(c, m) {
        let i = choose|i: int|
            0 <= i < lines(c).len() && is_blacklist_line(#[trigger] lines(c)[i]) && listed_module(lines(c)[i]) == m
                && m.len() > 0;
        assert(ls.contains(ls[i]));
        lemma_keep_contains(ls, blacklist_line_fn(), ls[i]);
        let j = choose|j: int| 0 <= j < bl.len() && bl[j] == ls[i];
        assert(mapped[j] == m);
        assert(mapped.contains(m));
    }
}

/// A canonical blacklist line trims to `blacklist NAME` and names NAME.
proof fn lemma_canonical_line(l: Seq<char>)
    requires
        canonical_line(l),
        is_blacklist_line(l),
    ensures
        clean_module(entry_name(l)),
        trim(l) == entry_line(entry_name(l)),
        listed_module(l) == entry_name(l),
        l.len() > 10 && l[0] == 'b',
{
    lemma_prefix_chars();
    let p = "blacklist "@;
    let x = l.skip(10);
    let m = entry_name(l);
    assert(l =~= p + x);
    lemma_trim_end_prefix(x);
    assert(x[0] == m[0]);
    assert(!is_ws(x[0]));
    assert(trim_start(x) == x);
    assert(l.skip(p.len() as int) == x);
    assert(trim_start_str(x, p) == x);
    assert(trim_start_str(l, p) == x);
    assert(trim(x) == m);
    assert(l[0] == p[0]);
    assert(trim_start(l) == l);
    lemma_trim_end_append(p, x);
}

/// The line that blacklists a clean module is a canonical blacklist line
/// that names it.
proof fn lemma_entry_line(m: Seq<char>)
    requires
        clean_module(m),
    ensures
        is_blacklist_line(entry_line(m)),
        canonical_line(entry_line(m)),
        entry_line(m).skip(10) == m,
        entry_name(entry_line(m)) == m,
        listed_module(entry_line(m)) == m,
        free_of(entry_line(m), '\n'),
        strip_cr(entry_line(m)) == entry_line(m),
{
    lemma_prefix_chars();
    let l = entry_line(m);
    assert(l.skip(10) =~= m);
    assert(l.last() == m.last());
    assert(!is_ws(l[0]));
    lemma_trim_fixed(l);
    assert(trim_end(m) == m);
    assert(has_prefix(l, "blacklist "@)) by {
        assert(l.take(10) =~= "blacklist "@);
    }
    assert(!has_prefix(l, "#"@));
    assert(!has_prefix(m, "blacklist "@)) by {
        if has_prefix(m, "blacklist "@) {
            assert(m[9] == "blacklist "@[9]);
        }
    }
    lemma_canonical_line(l);
    assert(free_of(l, '\n')) by {
        assert forall|i: int| 0 <= i < l.len() implies l[i] != '\n' by {
            if i >= 10 {
                assert(l[i] == m[i - 10]);
                assert(is_ws('\n'));
            } else {
                reveal_strlit("blacklist ");
            }
        }
    }
    assert(is_ws('\r'));
}

/// Dropping a trailing carriage return keeps a line canonical, blacklisting
/// or not, and keeps the name that a blacklist line gives.
proof fn lemma_strip_canonical(l: Seq<char>)
    requires
        canonical_line(l),
    ensures
        canonical_line(strip_cr(l)),
        is_blacklist_line(strip_cr(l)) == is_blacklist_line(l),
        is_blacklist_line(l) ==> listed_module(strip_cr(l)) == listed_module(l),
{
    lemma_trim_strip_cr(l);
    if is_blacklist_line(l) && l.len() > 0 && l.last() == '\r' {
        lemma_canonical_line(l);
        lemma_prefix_chars();
        let p = "blacklist "@;
        let l2 = l.drop_last();
        let x = l.skip(10);
        assert(is_ws('\r'));
        assert(x.len() > 0 && x.last() == '\r');
        assert(l2.skip(10) =~= x.drop_last());
        assert(entry_name(l2) == entry_name(l));
        lemma_trim_end_prefix(x);
        assert(entry_name(l).len() <= x.drop_last().len());
        assert(l2.len() >= 10);
        assert(has_prefix(l2, p)) by {
            assert(l2.take(10) =~= l.take(10));
        }
        assert(!has_prefix(l2.skip(10), p)) by {
            if has_prefix(x.drop_last(), p) {
                assert(x.take(10) =~= x.drop_last().take(10));
            }
        }
        assert(canonical_line(l2));
        lemma_canonical_line(l2);
    }
}

/// In a canonical file, a line reads `blacklist m` exactly when the file
/// lists `m`.
proof fn lemma_has_entry_lists(c: Seq<char>, m: Seq<char>)
    requires
        canonical_file(c),
        clean_module(m),
    ensures
        has_entry(c, m) <==> lists(c, m),
{
    lemma_entry_line(m);
    lemma_prefix_chars();
    if has_entry(c, m) {
        let i = choose|i: int| 0 <= i < lines(c).len() && trim(#[trigger] lines(c)[i]) == entry_line(m);
        let l = lines(c)[i];
        lemma_trim_fixed(entry_line(m));
        assert(is_blacklist_line(l));
        lemma_canonical_line(l);
        assert(entry_name(l) == m) by {
            assert(entry_line(entry_name(l)).skip(10) =~= entry_name(l));
            assert(entry_line(m).skip(10) =~= m);
        }
        assert(lines(c)[i] == l);
    }
    if lists(c, m) {
        let i = choose|i: int|
            0 <= i < lines(c).len() && is_blacklist_line(#[trigger] lines(c)[i]) && listed_module(lines(c)[i]) == m
                && m.len() > 0;
        lemma_canonical_line(lines(c)[i]);
        assert(trim(lines(c)[i]) == entry_line(m));
    }
}

/// What a canonical file lists is clean.
proof fn lemma_listed_clean(c: Seq<char>, m: Seq<char>)
    requires
        canonical_file(c),
        lists(c, m),
    ensures
        clean_module(m),
{
    let i = choose|i: int|
        0 <= i < lines(c).len() && is_blacklist_line(#[trigger] lines(c)[i]) && listed_module(lines(c)[i]) == m
            && m.len() > 0;
    lemma_canonical_line(lines(c)[i]);
}

/// The empty text has no lines.
proof fn lemma_no_lines()
    ensures
        lines(Seq::<char>::empty()).len() == 0,
{
    assert(crate::text::split(Seq::<char>::empty(), '\n') == seq![Seq::<char>::empty()]);
    assert(seq![Seq::<char>::empty()].drop_last().map_values(|l: Seq<char>| strip_cr(l))
        =~= Seq::<Seq<char>>::empty());
}

/// Removing the lines that blacklist `r` from a canonical file: the file
/// that is left is canonical and lists what it listed but `r`; when no file
/// is left, it listed nothing but `r`.
proof fn lemma_remove_entry(c: Seq<char>, r: Seq<char>)
    requires
        canonical_file(c),
        clean_module(r),
    ensures
        match spec_remove_entry(c, r) {
            Some(c2) => canonical_file(c2) && forall|m: Seq<char>| #[trigger] lists(c2, m) <==> (lists(c, m) && m != r),
            None => forall|m: Seq<char>| #[trigger] lists(c, m) ==> m == r,
        },
{
    let ls = lines(c);
    let kept = keep(ls, not_entry_fn(r));
    let joined = join(kept, "\n"@);
    lemma_lines_free(c);
    lemma_entry_line(r);
    // The kept lines are lines of `c`, and each is kept for not reading `blacklist r`.
    assert forall|j: int| 0 <= j < kept.len() implies ls.contains(#[trigger] kept[j]) && trim(kept[j]) != entry_line(r) by {
        assert(kept.contains(kept[j]));
        lemma_keep_contains(ls, not_entry_fn(r), kept[j]);
    }
    assert forall|j: int| 0 <= j < kept.len() implies canonical_line(#[trigger] kept[j]) && free_of(kept[j], '\n') by {
        assert(ls.contains(kept[j]));
        let i = choose|i: int| 0 <= i < ls.len() && ls[i] == kept[j];
        assert(canonical_line(ls[i]));
        assert(free_of(ls[i], '\n'));
    }
    // A blacklist line of `c` that names another module is kept.
    assert forall|m: Seq<char>| #[trigger] lists(c, m) && m != r implies exists|j: int|
        0 <= j < kept.len() && is_blacklist_line(#[trigger] kept[j]) && listed_module(kept[j]) == m by {
        let i = choose|i: int|
            0 <= i < lines(c).len() && is_blacklist_line(#[trigger] lines(c)[i]) && listed_module(lines(c)[i]) == m
                && m.len() > 0;
        let l = ls[i];
        lemma_canonical_line(l);
        assert(trim(l) == entry_line(m));
        assert(trim(l) != entry_line(r)) by {
            lemma_prefix_chars();
            assert(entry_line(r).skip(10) =~= r);
            assert(entry_line(m).skip(10) =~= m);
        }
        assert(ls.contains(l));
        lemma_keep_contains(ls, not_entry_fn(r), l);
        assert(kept.contains(l));
        let j = choose|j: int| 0 <= j < kept.len() && kept[j] == l;
        assert(is_blacklist_line(kept[j]) && listed_module(kept[j]) == m);
    }
    match spec_remove_entry(c, r) {
        Some(c2) => {
            assert(c2 == joined + "\n"@);
            assert(kept.len() > 0) by {
                if kept.len() == 0 {
                    assert(joined == Seq::<char>::empty());
                    assert(trim(joined) =~= Seq::<char>::empty());
                }
            }
            lemma_lines_join_feed(kept);
            let l2 = lines(c2);
            assert(l2 == kept.map_values(|l: Seq<char>| strip_cr(l)));
            assert forall|j: int| 0 <= j < l2.len() implies canonical_line(#[trigger] l2[j]) by {
                assert(l2[j] == strip_cr(kept[j]));
                lemma_strip_canonical(kept[j]);
            }
            assert forall|m: Seq<char>| #[trigger] lists(c2, m) <==> (lists(c, m) && m != r) by {
                if lists(c2, m) {
                    let j = choose|j: int|
                        0 <= j < lines(c2).len() && is_blacklist_line(#[trigger] lines(c2)[j]) && listed_module(
                            lines(c2)[j],
                        ) == m && m.len() > 0;
                    assert(l2[j] == strip_cr(kept[j]));
                    lemma_strip_canonical(kept[j]);
                    let k = kept[j];
                    assert(ls.contains(k));
                    let i = choose|i: int| 0 <= i < ls.len() && ls[i] == k;
                    assert(is_blacklist_line(lines(c)[i]) && listed_module(lines(c)[i]) == m);
                    lemma_canonical_line(k);
                    assert(trim(k) == entry_line(m));
                    assert(m != r);
                }
                if lists(c, m) && m != r {
                    let j = choose|j: int|
                        0 <= j < kept.len() && is_blacklist_line(#[trigger] kept[j]) && listed_module(kept[j]) == m;
                    assert(l2[j] == strip_cr(kept[j]));
                    lemma_strip_canonical(kept[j]);
                    assert(is_blacklist_line(lines(c2)[j]) && listed_module(lines(c2)[j]) == m);
                }
            }
        },
        None => {
            assert(trim(joined).len() == 0);
            assert forall|m: Seq<char>| #[trigger] lists(c, m) implies m == r by {
                if m != r {
                    let j = choose|j: int|
                        0 <= j < kept.len() && is_blacklist_line(#[trigger] kept[j]) && listed_module(kept[j]) == m;
                    lemma_canonical_line(kept[j]);
                    assert(kept[j][0] == 'b');
                    lemma_join_has(kept, "\n"@, j, 0);
                    let q = choose|q: int| 0 <= q < joined.len() && joined[q] == kept[j][0];
                    lemma_trim_nonempty(joined, q);
                }
            }
        },
    }
}


/// Appending the line of a clean module to a canonical file: the file stays
/// canonical and lists one module more, if it did not list it already.
proof fn lemma_append_one(c: Seq<char>, m: Seq<char>)
    requires
        canonical_file(c),
        clean_module(m),
    ensures
        canonical_file(append_one(c, m)),
        forall|x: Seq<char>| #[trigger] lists(append_one(c, m), x) <==> (lists(c, x) || x == m),
{
    lemma_has_entry_lists(c, m);
    if !has_entry(c, m) {
        let e = entry_line(m);
        lemma_entry_line(m);
        reveal_strlit("\n");
        let c2 = append_one(c, m);
        let l1 = lines(c);
        let l2 = lines(c2);
        // The lines of the new text: those of `c` (the last one perhaps
        // without a trailing carriage return), then `e`.
        assert(l2.len() == l1.len() + 1 && l2[l1.len() as int] == e && forall|i: int|
            0 <= i < l1.len() ==> #[trigger] l2[i] == l1[i] || l2[i] == strip_cr(l1[i])) by {
            assert(strip_cr(e) == e);
            if c.len() > 0 && c.last() != '\n' {
                assert(!has_suffix(c, "\n"@)) by {
                    if has_suffix(c, "\n"@) {
                        assert(c.skip(c.len() - 1)[0] == c.last());
                    }
                }
                assert(c2 == c.push('\n') + e + "\n"@);
                lemma_lines_append_after_feed(c, e);
                let u = l1.update(l1.len() - 1, strip_cr(l1.last()));
                assert(l2 == u.push(e));
                assert forall|i: int| 0 <= i < l1.len() implies #[trigger] l2[i] == l1[i] || l2[i] == strip_cr(l1[i]) by {
                    assert(l2[i] == u[i]);
                }
            } else {
                if c.len() > 0 {
                    assert(has_suffix(c, "\n"@)) by {
                        assert(c.skip(c.len() - 1) =~= "\n"@);
                    }
                }
                assert(c2 == c + e + "\n"@);
                lemma_lines_append_line(c, e);
                assert(l2 == l1.push(e));
                assert forall|i: int| 0 <= i < l1.len() implies #[trigger] l2[i] == l1[i] || l2[i] == strip_cr(l1[i]) by {
                    assert(l2[i] == l1[i]);
                }
            }
        }
        assert forall|i: int| 0 <= i < l2.len() implies canonical_line(#[trigger] l2[i]) by {
            if i < l1.len() {
                lemma_strip_canonical(l1[i]);
            }
        }
        assert forall|x: Seq<char>| #[trigger] lists(c2, x) <==> (lists(c, x) || x == m) by {
            if lists(c2, x) {
                let i = choose|i: int|
                    0 <= i < lines(c2).len() && is_blacklist_line(#[trigger] lines(c2)[i]) && listed_module(
                        lines(c2)[i],
                    ) == x && x.len() > 0;
                if i < l1.len() {
                    lemma_strip_canonical(l1[i]);
                    assert(l2[i] == l1[i] || l2[i] == strip_cr(l1[i]));
                    assert(is_blacklist_line(lines(c)[i]) && listed_module(lines(c)[i]) == x);
                }
            }
            if lists(c, x) {
                let i = choose|i: int|
                    0 <= i < lines(c).len() && is_blacklist_line(#[trigger] lines(c)[i]) && listed_module(
                        lines(c)[i],
                    ) == x && x.len() > 0;
                lemma_strip_canonical(l1[i]);
                assert(l2[i] == l1[i] || l2[i] == strip_cr(l1[i]));
                assert(is_blacklist_line(lines(c2)[i]) && listed_module(lines(c2)[i]) == x);
            }
            if x == m {
                assert(is_blacklist_line(lines(c2)[l1.len() as int]) && listed_module(lines(c2)[l1.len() as int]) == x);
            }
        }
    }
}

/// Appending the lines of clean modules one after the other.
proof fn lemma_appended(c: Seq<char>, ms: Seq<Seq<char>>)
    requires
        canonical_file(c),
        forall|i: int| 0 <= i < ms.len() ==> clean_module(#[trigger] ms[i]),
    ensures
        canonical_file(appended(c, ms)),
        forall|x: Seq<char>| #[trigger] lists(appended(c, ms), x) <==> (lists(c, x) || ms.contains(x)),
    decreases ms.len(),
{
    if ms.len() > 0 {
        let init = ms.drop_last();
        assert forall|i: int| 0 <= i < init.len() implies clean_module(#[trigger] init[i]) by {
            assert(init[i] == ms[i]);
        }
        lemma_appended(c, init);
        assert(clean_module(ms[ms.len() - 1]));
        lemma_append_one(appended(c, init), ms.last());
        assert forall|x: Seq<char>| #[trigger] lists(appended(c, ms), x) <==> (lists(c, x) || ms.contains(x)) by {
            if init.contains(x) {
                let i = choose|i: int| 0 <= i < init.len() && init[i] == x;
                assert(ms[i] == x);
            }
            if ms.contains(x) {
                let i = choose|i: int| 0 <= i < ms.len() && ms[i] == x;
                if i < ms.len() - 1 {
                    assert(init[i] == x);
                }
            }
        }
    }
}

/// Removing the lines of clean modules one after the other; `None` stands
/// for no file.
proof fn lemma_after_removals(file: Option<Seq<char>>, rm: Seq<Seq<char>>)
    requires
        canonical_file(text_or_empty(file)),
        forall|i: int| 0 <= i < rm.len() ==> clean_module(#[trigger] rm[i]),
    ensures
        canonical_file(text_or_empty(after_removals(file, rm))),
        forall|x: Seq<char>|
            #[trigger] lists(text_or_empty(after_removals(file, rm)), x) <==> (lists(text_or_empty(file), x)
                && !rm.contains(x)),
    decreases rm.len(),
{
    lemma_no_lines();
    if rm.len() > 0 {
        let init = rm.drop_last();
        let r = rm.last();
        assert forall|i: int| 0 <= i < init.len() implies clean_module(#[trigger] init[i]) by {
            assert(init[i] == rm[i]);
        }
        lemma_after_removals(file, init);
        assert(clean_module(rm[rm.len() - 1]));
        assert forall|x: Seq<char>| rm.contains(x) <==> (init.contains(x) || x == r) by {
            if init.contains(x) {
                let i = choose|i: int| 0 <= i < init.len() && init[i] == x;
                assert(rm[i] == x);
            }
            if rm.contains(x) {
                let i = choose|i: int| 0 <= i < rm.len() && rm[i] == x;
                if i < rm.len() - 1 {
                    assert(init[i] == x);
                }
            }
            if x == r {
                assert(rm[rm.len() - 1] == x);
            }
        }
        match after_removals(file, init) {
            Some(c) => {
                lemma_remove_entry(c, r);
            },
            None => {},
        }
        assert forall|x: Seq<char>|
            #[trigger] lists(text_or_empty(after_removals(file, rm)), x) <==> (lists(text_or_empty(file), x)
                && !rm.contains(x)) by {
            assert(!lists(Seq::<char>::empty(), x));
            match after_removals(file, init) {
                Some(c) => {
                    assert(lists(c, x) <==> (lists(text_or_empty(file), x) && !init.contains(x)));
                },
                None => {
                    assert(!lists(text_or_empty(after_removals(file, init)), x));
                },
            }
        }
        assert(canonical_file(Seq::<char>::empty()));
    }
}

/// Applying a selection to a blacklist file whose blacklist lines are all
/// `blacklist NAME` (perhaps followed by whitespace or a carriage return),
/// with module names as `clean_module` describes: afterwards the file lists
/// exactly the selected modules, and its blacklist lines are still of that
/// form.
pub proof fn law_apply_selection_lists_selected(file: Option<Seq<char>>, modules: Seq<Seq<char>>, plan: BlacklistPlan)
    requires
        spec_plan(file, modules, plan),
        canonical_file(text_or_empty(file)),
        forall|i: int| 0 <= i < modules.len() ==> clean_module(#[trigger] modules[i]),
    ensures
        forall|m: Seq<char>|
            #[trigger] spec_conf_modules(text_or_empty(opt_str(plan.file))).contains(m) <==> modules.contains(m),
        canonical_file(text_or_empty(opt_str(plan.file))),
{
    let f = text_or_empty(file);
    let current = spec_conf_modules(f);
    let to_add = keep(modules, absent_from_fn(current));
    let to_remove = keep(current, absent_from_fn(modules));
    let after = after_removals(file, to_remove);
    assert forall|x: Seq<char>| #[trigger] current.contains(x) <==> lists(f, x) by {
        lemma_conf_contains(f, x);
    }
    assert forall|x: Seq<char>| #[trigger] to_remove.contains(x) <==> (lists(f, x) && !modules.contains(x)) by {
        lemma_keep_contains(current, absent_from_fn(modules), x);
    }
    assert forall|x: Seq<char>| #[trigger] to_add.contains(x) <==> (modules.contains(x) && !lists(f, x)) by {
        lemma_keep_contains(modules, absent_from_fn(current), x);
    }
    assert forall|i: int| 0 <= i < to_remove.len() implies clean_module(#[trigger] to_remove[i]) by {
        assert(to_remove.contains(to_remove[i]));
        lemma_listed_clean(f, to_remove[i]);
    }
    assert forall|i: int| 0 <= i < to_add.len() implies clean_module(#[trigger] to_add[i]) by {
        assert(to_add.contains(to_add[i]));
        let k = choose|k: int| 0 <= k < modules.len() && modules[k] == to_add[i];
    }
    lemma_after_removals(file, to_remove);
    let a = text_or_empty(after);
    let out = text_or_empty(opt_str(plan.file));
    if to_add.len() > 0 {
        assert(opt_str(plan.file) == Some(appended(a, to_add)));
        lemma_appended(a, to_add);
    } else {
        assert(opt_str(plan.file) == after);
        assert forall|x: Seq<char>| modules.contains(x) implies lists(f, x) by {
            if !lists(f, x) {
                assert(to_add.contains(x));
            }
        }
    }
    assert forall|m: Seq<char>| #[trigger] spec_conf_modules(out).contains(m) <==> modules.contains(m) by {
        lemma_conf_contains(out, m);
    }
}


/// Applying the same selection a second time, to the file that the first
/// application left, changes nothing: no module is added or removed and the
/// file stays as it was (under the same conditions as the law above).
pub proof fn law_apply_selection_idempotent(
    file: Option<Seq<char>>,
    modules: Seq<Seq<char>>,
    first: BlacklistPlan,
    second: BlacklistPlan,
)
    requires
        spec_plan(file, modules, first),
        spec_plan(opt_str(first.file), modules, second),
        canonical_file(text_or_empty(file)),
        forall|i: int| 0 <= i < modules.len() ==> clean_module(#[trigger] modules[i]),
    ensures
        second.to_add@.len() == 0,
        second.to_remove@.len() == 0,
        opt_str(second.file) == opt_str(first.file),
{
    law_apply_selection_lists_selected(file, modules, first);
    let f2 = opt_str(first.file);
    let current = spec_conf_modules(text_or_empty(f2));
    let to_add = keep(modules, absent_from_fn(current));
    let to_remove = keep(current, absent_from_fn(modules));
    if to_add.len() > 0 {
        lemma_keep_contains(modules, absent_from_fn(current), to_add[0]);
        assert(to_add.contains(to_add[0]));
    }
    if to_remove.len() > 0 {
        lemma_keep_contains(current, absent_from_fn(modules), to_remove[0]);
        assert(to_remove.contains(to_remove[0]));
    }
    assert(to_remove =~= Seq::<Seq<char>>::empty());
    assert(after_removals(f2, to_remove) == f2);
}

// ---------------------------------------------------------------------------
// Lines that are not entries
// ---------------------------------------------------------------------------

/// A line that is kept as it is through the edits: it blacklists nothing,
/// holds something besides whitespace, and does not end in a carriage
/// return.
pub open spec fn plain_line(l: Seq<char>) -> bool {
    &&& !is_blacklist_line(l)
    &&& trim(l).len() > 0
    &&& strip_cr(l) == l
}

/// A line that trims to `blacklist r` is a blacklist line.
proof fn lemma_entry_trim_is_blacklist(l: Seq<char>, r: Seq<char>)
    requires
        trim(l) == entry_line(r),
    ensures
        is_blacklist_line(l),
{
    lemma_prefix_chars();
    let t = trim(l);
    assert(t.take(10) =~= "blacklist "@);
    assert(t[0] == 'b');
    assert(!has_prefix(t, "#"@)) by {
        if has_prefix(t, "#"@) {
            assert(t.take(1)[0] == t[0]);
        }
    }
}

/// Removing the entries of a module keeps a file that has a plain line, and
/// keeps that line.
proof fn lemma_remove_keeps_line(c: Seq<char>, r: Seq<char>, l: Seq<char>)
    requires
        lines(c).contains(l),
        plain_line(l),
    ensures
        spec_remove_entry(c, r) is Some,
        lines(spec_remove_entry(c, r)->0).contains(l),
{
    let ls = lines(c);
    let kept = keep(ls, not_entry_fn(r));
    let joined = join(kept, "\n"@);
    lemma_lines_free(c);
    if trim(l) == entry_line(r) {
        lemma_entry_trim_is_blacklist(l, r);
    }
    lemma_keep_contains(ls, not_entry_fn(r), l);
    assert(kept.contains(l));
    let j = choose|j: int| 0 <= j < kept.len() && kept[j] == l;
    lemma_trim_shape(l);
    let (a, b) = choose|a: int, b: int| 0 <= a <= b <= l.len() && trim(l) == l.subrange(a, b);
    assert(l[a] == trim(l)[0]);
    lemma_join_has(kept, "\n"@, j, a);
    let q = choose|q: int| 0 <= q < joined.len() && joined[q] == kept[j][a];
    lemma_trim_nonempty(joined, q);
    assert forall|k: int| 0 <= k < kept.len() implies free_of(#[trigger] kept[k], '\n') by {
        assert(kept.contains(kept[k]));
        lemma_keep_contains(ls, not_entry_fn(r), kept[k]);
    }
    lemma_lines_join_feed(kept);
    let c2 = joined + "\n"@;
    assert(spec_remove_entry(c, r) == Some(c2));
    assert(lines(c2)[j] == strip_cr(kept[j]));
    assert(lines(c2).contains(l));
}

/// Removing the entries of modules one after the other keeps a plain line.
proof fn lemma_removals_keep_line(c: Seq<char>, rm: Seq<Seq<char>>, l: Seq<char>)
    requires
        lines(c).contains(l),
        plain_line(l),
    ensures
        after_removals(Some(c), rm) is Some,
        lines(after_removals(Some(c), rm)->0).contains(l),
    decreases rm.len(),
{
    if rm.len() > 0 {
        lemma_removals_keep_line(c, rm.drop_last(), l);
        lemma_remove_keeps_line(after_removals(Some(c), rm.drop_last())->0, rm.last(), l);
    }
}

/// Appending the line of a module whose name holds no line feed keeps every
/// line that does not end in a carriage return.
proof fn lemma_append_keeps_line(c: Seq<char>, m: Seq<char>, l: Seq<char>)
    requires
        lines(c).contains(l),
        strip_cr(l) == l,
        free_of(m, '\n'),
    ensures
        lines(append_one(c, m)).contains(l),
{
    if !has_entry(c, m) {
        let e = entry_line(m);
        reveal_strlit("\n");
        lemma_prefix_chars();
        assert(free_of(e, '\n')) by {
            assert forall|i: int| 0 <= i < e.len() implies e[i] != '\n' by {
                if i >= 10 {
                    assert(e[i] == m[i - 10]);
                } else {
                    reveal_strlit("blacklist ");
                }
            }
        }
        let l1 = lines(c);
        let i = choose|i: int| 0 <= i < l1.len() && l1[i] == l;
        let l2 = lines(append_one(c, m));
        if c.len() > 0 && c.last() != '\n' {
            assert(!has_suffix(c, "\n"@)) by {
                if has_suffix(c, "\n"@) {
                    assert(c.skip(c.len() - 1)[0] == c.last());
                }
            }
            assert(append_one(c, m) == c.push('\n') + e + "\n"@);
            lemma_lines_append_after_feed(c, e);
            assert(l2[i] == l1.update(l1.len() - 1, strip_cr(l1.last()))[i]);
        } else {
            if c.len() > 0 {
                assert(has_suffix(c, "\n"@)) by {
                    assert(c.skip(c.len() - 1) =~= "\n"@);
                }
            }
            assert(append_one(c, m) == c + e + "\n"@);
            lemma_lines_append_line(c, e);
            assert(l2[i] == l1[i]);
        }
        assert(l2[i] == l);
    }
}

/// Appending the lines of modules one after the other.
proof fn lemma_appended_keeps_line(c: Seq<char>, ms: Seq<Seq<char>>, l: Seq<char>)
    requires
        lines(c).contains(l),
        strip_cr(l) == l,
        forall|i: int| 0 <= i < ms.len() ==> free_of(#[trigger] ms[i], '\n'),
    ensures
        lines(appended(c, ms)).contains(l),
    decreases ms.len(),
{
    if ms.len() > 0 {
        let init = ms.drop_last();
        assert forall|i: int| 0 <= i < init.len() implies free_of(#[trigger] init[i], '\n') by {
            assert(init[i] == ms[i]);
        }
        lemma_appended_keeps_line(c, init, l);
        assert(free_of(ms[ms.len() - 1], '\n'));
        lemma_append_keeps_line(appended(c, init), ms.last(), l);
    }
}

/// Applying a selection keeps every line of the blacklist file that
/// blacklists nothing (comments, other settings): the file stays and still
/// holds the line. This holds of a line that is not blank and does not end
/// in a carriage return (rewriting drops blank lines at the end and such
/// carriage returns), with selected names that hold no line feed.
pub proof fn law_apply_selection_keeps_other_lines(
    file: Option<Seq<char>>,
    modules: Seq<Seq<char>>,
    plan: BlacklistPlan,
    l: Seq<char>,
)
    requires
        spec_plan(file, modules, plan),
        lines(text_or_empty(file)).contains(l),
        plain_line(l),
        forall|i: int| 0 <= i < modules.len() ==> free_of(#[trigger] modules[i], '\n'),
    ensures
        opt_str(plan.file) is Some,
        lines(text_or_empty(opt_str(plan.file))).contains(l),
{
    lemma_no_lines();
    let f = text_or_empty(file);
    let current = spec_conf_modules(f);
    let to_add = keep(modules, absent_from_fn(current));
    let to_remove = keep(current, absent_from_fn(modules));
    assert(file is Some);
    let c = file->0;
    lemma_removals_keep_line(c, to_remove, l);
    let a = after_removals(file, to_remove)->0;
    if to_add.len() > 0 {
        assert forall|i: int| 0 <= i < to_add.len() implies free_of(#[trigger] to_add[i], '\n') by {
            assert(to_add.contains(to_add[i]));
            lemma_keep_contains(modules, absent_from_fn(current), to_add[i]);
            let k = choose|k: int| 0 <= k < modules.len() && modules[k] == to_add[i];
        }
        lemma_appended_keeps_line(a, to_add, l);
    }
}

} // verus!
