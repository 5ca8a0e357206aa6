//! The commands of the numbered selection lists: numbers and ranges that
//! toggle items, and the single-letter commands.
use vstd::prelude::*;

use crate::text::{
    chars_of, contains, cseqs, free_of, has_infix, join, lemma_join_split, lemma_split_free,
    lemma_split_join, lemma_split_n_len, parse_uint, parse_unsigned, spec_to_lowercase, split,
    split_chars, split_words, str_eq, str_trim, to_lowercase, trim, words,
};

verus! {

/// A range in a selection did not hold two numbers.
#[derive(Debug, Clone, Copy, PartialEq, Eq)]
pub enum SelectionError {
    InvalidRange,
}

pub open spec fn min(a: nat, b: nat) -> nat {
    if a <= b {
        a
    } else {
        b
    }
}

/// The zero-based indices of the items `start..=hi` (counted from one),
/// leaving out item 0, which does not exist.
pub open spec fn range_indices(start: nat, hi: nat) -> Seq<usize> {
    let lo: nat = if start == 0 {
        1
    } else {
        start
    };
    if hi >= lo {
        Seq::new((hi + 1 - lo) as nat, |k: int| (lo + k - 1) as usize)
    } else {
        Seq::empty()
    }
}

/// The indices that one word of a selection names: a range `a-b` gives
/// items `a` to `b` (up to `max`), a number `n` gives item `n` when it is
/// between 1 and `max`, and anything else nothing.  A word with a dash that
/// splits into two parts that are not both numbers is an error.
pub open spec fn word_indices(w: Seq<char>, max: nat) -> Option<Seq<usize>> {
    if has_infix(w, "-"@) {
        let r = split(w, '-');
        if r.len() == 2 {
            match (parse_unsigned(r[0], usize::MAX as nat), parse_unsigned(r[1], usize::MAX as nat)) {
                (Some(s), Some(e)) => Some(range_indices(s, min(e, max))),
                _ => None,
            }
        } else {
            Some(Seq::empty())
        }
    } else {
        match parse_unsigned(w, usize::MAX as nat) {
            Some(n) => if 0 < n <= max {
                Some(seq![(n - 1) as usize])
            } else {
                Some(Seq::empty())
            },
            None => Some(Seq::empty()),
        }
    }
}

/// The indices that the words `ws` name, in order; an error if any word is one.
pub open spec fn words_indices(ws: Seq<Seq<char>>, max: nat) -> Option<Seq<usize>>
    decreases ws.len(),
{
    if ws.len() == 0 {
        Some(Seq::empty())
    } else {
        match (words_indices(ws.drop_last(), max), word_indices(ws.last(), max)) {
            (Some(a), Some(b)) => Some(a + b),
            _ => None,
        }
    }
}

/// The indices that a selection names.
pub open spec fn spec_parse_selection(input: Seq<char>, max: nat) -> Option<Seq<usize>> {
    words_indices(words(input), max)
}

pub proof fn lemma_words_indices_bound(ws: Seq<Seq<char>>, max: nat, ix: Seq<usize>)
    requires
        words_indices(ws, max) == Some(ix),
    ensures
        forall|k: int| 0 <= k < ix.len() ==> #[trigger] ix[k] < max,
    decreases ws.len(),
{
    if ws.len() > 0 {
        let a = words_indices(ws.drop_last(), max)->0;
        let b = word_indices(ws.last(), max)->0;
        lemma_words_indices_bound(ws.drop_last(), max, a);
        assert(ix == a + b);
        assert forall|k: int| 0 <= k < ix.len() implies #[trigger] ix[k] < max by {
            if k >= a.len() {
                assert(ix[k] == b[k - a.len()]);
                let w = ws.last();
                if has_infix(w, "-"@) && split(w, '-').len() == 2 {
                    let r = split(w, '-');
                    let s = parse_unsigned(r[0], usize::MAX as nat)->0;
                    let e = parse_unsigned(r[1], usize::MAX as nat)->0;
                    let lo: nat = if s == 0 { 1 } else { s };
                    assert(b == range_indices(s, min(e, max)));
                    assert(b[k - a.len()] == (lo + (k - a.len()) - 1) as usize);
                }
            } else {
                assert(ix[k] == a[k]);
            }
        }
    }
}

fn push_range(out: &mut Vec<usize>, start: usize, hi: usize)
    ensures
        final(out)@ == old(out)@ + range_indices(start as nat, hi as nat),
{
    let ghost o = old(out)@;
    let lo: usize = if start == 0 {
        1
    } else {
        start
    };
    if hi < lo {
        assert(range_indices(start as nat, hi as nat) == Seq::<usize>::empty());
        assert(out@ =~= o + Seq::<usize>::empty());
        return;
    }
    let ghost r = range_indices(start as nat, hi as nat);
    let mut i: usize = lo;
    assert(out@ =~= o + r.take(0));
    loop
        invariant
            o == old(out)@,
            lo <= i <= hi,
            lo >= 1,
            r == range_indices(start as nat, hi as nat),
            r.len() == hi + 1 - lo,
            out@ == o + r.take(i - lo),
        decreases hi - i,
    {
        out.push(i - 1);
        assert(r[i - lo] == (i - 1) as usize);
        assert(r.take(i - lo + 1) == r.take(i - lo).push(r[i - lo]));
        assert(out@ =~= o + r.take(i - lo + 1));
        if i == hi {
            assert(r.take(i - lo + 1) == r);
            return;
        }
        i += 1;
    }
}

fn word_indices_exec(w: &Vec<char>, max: usize) -> (r: Result<Vec<usize>, SelectionError>)
    ensures
        match r {
            Ok(ix) => word_indices(w@, max as nat) == Some(ix@),
            Err(_) => word_indices(w@, max as nat) is None,
        },
{
    let mut out: Vec<usize> = Vec::new();
    let dash = chars_of("-");
    proof {
        reveal_strlit("-");
    }
    if contains(w, &dash) {
        let parts = split_chars(w, '-');
        let ghost rs = cseqs(parts@);
        if parts.len() == 2 {
            assert(rs[0] == parts@[0]@ && rs[1] == parts@[1]@);
            assert(parts@[0]@.subrange(0, parts@[0]@.len() as int) == parts@[0]@);
            assert(parts@[1]@.subrange(0, parts@[1]@.len() as int) == parts@[1]@);
            let s = parse_uint(&parts[0], 0, parts[0].len(), usize::MAX as u64);
            let e = parse_uint(&parts[1], 0, parts[1].len(), usize::MAX as u64);
            match (s, e) {
                (Some(s), Some(e)) => {
                    let hi: usize = if (e as usize) < max {
                        e as usize
                    } else {
                        max
                    };
                    push_range(&mut out, s as usize, hi);
                    assert(out@ =~= range_indices(s as nat, min(e as nat, max as nat)));
                    Ok(out)
                },
                _ => Err(SelectionError::InvalidRange),
            }
        } else {
            assert(out@ =~= Seq::<usize>::empty());
            Ok(out)
        }
    } else {
        assert(w@.subrange(0, w@.len() as int) == w@);
        match parse_uint(w, 0, w.len(), usize::MAX as u64) {
            Some(n) => {
                if 0 < n && n <= max as u64 {
                    out.push((n - 1) as usize);
                    assert(out@ =~= seq![(n - 1) as usize]);
                } else {
                    assert(out@ =~= Seq::<usize>::empty());
                }
                Ok(out)
            },
            None => {
                assert(out@ =~= Seq::<usize>::empty());
                Ok(out)
            },
        }
    }
}

/// The zero-based indices of the items, out of `max`, that a selection names.
pub fn parse_selection(input: &str, max: usize) -> (r: Result<Vec<usize>, SelectionError>)
    ensures
        match r {
            Ok(ix) => spec_parse_selection(input@, max as nat) == Some(ix@),
            Err(_) => spec_parse_selection(input@, max as nat) is None,
        },
        r matches Ok(ix) ==> forall|k: int| 0 <= k < ix@.len() ==> #[trigger] ix@[k] < max,
{
    let ws = split_words(&chars_of(input));
    let ghost all = cseqs(ws@);
    let mut out: Vec<usize> = Vec::new();
    let mut i: usize = 0;
    while i < ws.len()
        invariant
            all == cseqs(ws@),
            all == words(input@),
            0 <= i <= ws@.len(),
            words_indices(all.take(i as int), max as nat) == Some(out@),
        decreases ws@.len() - i,
    {
        assert(all.take(i + 1).drop_last() == all.take(i as int));
        assert(all.take(i + 1).last() == ws@[i as int]@);
        match word_indices_exec(&ws[i], max) {
            Ok(ix) => {
                let mut j: usize = 0;
                let ghost o0 = out@;
                while j < ix.len()
                    invariant
                        0 <= j <= ix@.len(),
                        out@ == o0 + ix@.take(j as int),
                    decreases ix@.len() - j,
                {
                    out.push(ix[j]);
                    assert(ix@.take(j + 1) == ix@.take(j as int).push(ix@[j as int]));
                    j += 1;
                }
                assert(ix@.take(ix@.len() as int) == ix@);
            },
            Err(e) => {
                proof {
                    lemma_words_indices_none(all, i as int + 1, max as nat);
                }
                assert(all.take(all.len() as int) == all);
                return Err(e);
            },
        }
        i += 1;
    }
    assert(all.take(all.len() as int) == all);
    proof {
        assert(words_indices(all, max as nat) == Some(out@));
        lemma_words_indices_bound(all, max as nat, out@);
        assert(forall|k: int| 0 <= k < out@.len() ==> #[trigger] out@[k] < max);
    }
    Ok(out)
}

proof fn lemma_words_indices_none(ws: Seq<Seq<char>>, k: int, max: nat)
    requires
        0 <= k <= ws.len(),
        words_indices(ws.take(k), max) is None,
    ensures
        words_indices(ws, max) is None,
    decreases ws.len() - k,
{
    if k < ws.len() {
        assert(ws.take(k + 1).drop_last() == ws.take(k));
        lemma_words_indices_none(ws, k + 1, max);
    } else {
        assert(ws.take(k) == ws);
    }
}

/// A word with a single dash, at `i`, and a side of it that is no number.
pub open spec fn bad_range_at(w: Seq<char>, i: int) -> bool {
    &&& 0 <= i < w.len()
    &&& w[i] == '-'
    &&& free_of(w.take(i), '-')
    &&& free_of(w.skip(i + 1), '-')
    &&& (parse_unsigned(w.take(i), usize::MAX as nat) is None || parse_unsigned(
        w.skip(i + 1),
        usize::MAX as nat,
    ) is None)
}

/// A word with a single dash and a side of it that is no number, such as
/// `a-3`, `-3` or `3-`.
pub open spec fn bad_range(w: Seq<char>) -> bool {
    exists|i: int| bad_range_at(w, i)
}

proof fn lemma_join_two(a: Seq<char>, b: Seq<char>)
    ensures
        join(seq![a, b], seq!['-']) == a + seq!['-'] + b,
{
    let ls = seq![a, b];
    assert(ls.drop_last() =~= seq![a]);
    assert(join(ls.drop_last(), seq!['-']) == a);
}

proof fn lemma_refused_is_bad_range(w: Seq<char>, max: nat)
    requires
        word_indices(w, max) is None,
    ensures
        bad_range(w),
{
    let r = split(w, '-');
    lemma_split_n_len(w, '-', w.len() + 1);
    lemma_split_free(w, '-', w.len() + 1);
    lemma_join_split(w, '-');
    assert(r.len() == 2);
    assert(free_of(r[0], '-') && free_of(r[1], '-'));
    assert(r =~= seq![r[0], r[1]]);
    lemma_join_two(r[0], r[1]);
    let i = r[0].len() as int;
    assert(w =~= r[0] + seq!['-'] + r[1]);
    assert(w.take(i) =~= r[0]);
    assert(w.skip(i + 1) =~= r[1]);
    assert(w[i] == '-');
    assert(bad_range_at(w, i));
}

proof fn lemma_bad_range_refused(w: Seq<char>, max: nat)
    requires
        bad_range(w),
    ensures
        word_indices(w, max) is None,
{
    reveal_strlit("-");
    assert("-"@ == seq!['-']);
    let i = choose|i: int| bad_range_at(w, i);
    let a = w.take(i);
    let b = w.skip(i + 1);
    let ls = seq![a, b];
    lemma_join_two(a, b);
    assert(a + seq!['-'] + b =~= w);
    assert forall|k: int| 0 <= k < ls.len() implies free_of(#[trigger] ls[k], '-') by {
        if k == 0 {
            assert(ls[k] == a);
        } else {
            assert(ls[k] == b);
        }
    }
    lemma_split_join(ls, '-');
    assert(split(w, '-') == ls);
    assert(w.subrange(i, i + 1) =~= "-"@);
    assert(has_infix(w, "-"@));
}

proof fn lemma_word_refused(w: Seq<char>, max: nat)
    ensures
        word_indices(w, max) is None <==> bad_range(w),
{
    if word_indices(w, max) is None {
        lemma_refused_is_bad_range(w, max);
    }
    if bad_range(w) {
        lemma_bad_range_refused(w, max);
    }
}

proof fn lemma_words_refused(ws: Seq<Seq<char>>, max: nat)
    ensures
        words_indices(ws, max) is None <==> exists|k: int|
            0 <= k < ws.len() && bad_range(#[trigger] ws[k]),
    decreases ws.len(),
{
    if ws.len() > 0 {
        let init = ws.drop_last();
        lemma_words_refused(init, max);
        lemma_word_refused(ws.last(), max);
        if exists|k: int| 0 <= k < init.len() && bad_range(#[trigger] init[k]) {
            let k = choose|k: int| 0 <= k < init.len() && bad_range(#[trigger] init[k]);
            assert(ws[k] == init[k]);
        }
        if exists|k: int| 0 <= k < ws.len() && bad_range(#[trigger] ws[k]) {
            let k = choose|k: int| 0 <= k < ws.len() && bad_range(#[trigger] ws[k]);
            if k < init.len() {
                assert(init[k] == ws[k]);
            }
        }
        if bad_range(ws.last()) {
            assert(ws[ws.len() - 1] == ws.last());
        }
    }
}

/// A selection is refused exactly when one of its words holds a single dash
/// with a side that is not a number; otherwise every index it names is
/// below `max`.
pub proof fn law_selection_refused(input: Seq<char>, max: nat)
    ensures
        spec_parse_selection(input, max) is None <==> exists|k: int|
            0 <= k < words(input).len() && bad_range(#[trigger] words(input)[k]),
        spec_parse_selection(input, max) matches Some(ix) ==> forall|k: int|
            0 <= k < ix.len() ==> #[trigger] ix[k] < max,
{
    lemma_words_refused(words(input), max);
    if let Some(ix) = spec_parse_selection(input, max) {
        lemma_words_indices_bound(words(input), max, ix);
    }
}

// ---------------------------------------------------------------------------
// Commands
// ---------------------------------------------------------------------------

/// A command of a selection list.
#[derive(Debug, Clone)]
pub enum SelectCommand {
    /// `q`: leave without changes.
    Quit,
    /// `d`: apply the selection.
    Done,
    /// `r`: select the recommended items.
    Recommended,
    /// `a`: select every item.
    All,
    /// `n`: select no item.
    Clear,
    /// Numbers and ranges: toggle those items.
    Toggle(Vec<usize>),
    /// Anything that is none of these.
    Ignore,
}

/// What a command asks an editor to do next.
#[derive(Debug, Clone, Copy, PartialEq, Eq)]
pub enum SelectionStep {
    /// Show the list again.
    Continue,
    /// Apply the selection.
    Apply,
    /// Leave without changes.
    Cancel,
}

/// The command that an input line gives, for a list of `max` items.
pub open spec fn spec_command(input: Seq<char>, max: nat, c: SelectCommand) -> bool {
    let t = spec_to_lowercase(trim(input));
    if t == "q"@ {
        c is Quit
    } else if t == "d"@ {
        c is Done
    } else if t == "r"@ {
        c is Recommended
    } else if t == "a"@ {
        c is All
    } else if t == "n"@ {
        c is Clear
    } else {
        match spec_parse_selection(t, max) {
            Some(ix) => c matches SelectCommand::Toggle(v) && v@ == ix,
            None => c is Ignore,
        }
    }
}

/// The command that an input line gives, for a list of `max` items.
pub fn parse_command(input: &str, max: usize) -> (c: SelectCommand)
    ensures
        spec_command(input@, max as nat, c),
        c matches SelectCommand::Toggle(v) ==> forall|k: int| 0 <= k < v@.len() ==> #[trigger] v@[k] < max,
{
    let t = to_lowercase(str_trim(input).as_str());
    let s = t.as_str();
    if str_eq(s, "q") {
        SelectCommand::Quit
    } else if str_eq(s, "d") {
        SelectCommand::Done
    } else if str_eq(s, "r") {
        SelectCommand::Recommended
    } else if str_eq(s, "a") {
        SelectCommand::All
    } else if str_eq(s, "n") {
        SelectCommand::Clear
    } else {
        match parse_selection(s, max) {
            Ok(ix) => SelectCommand::Toggle(ix),
            Err(_) => SelectCommand::Ignore,
        }
    }
}

// ---------------------------------------------------------------------------
// Toggling
// ---------------------------------------------------------------------------

/// How often `j` occurs in `ix`.
pub open spec fn occurrences(ix: Seq<usize>, j: int) -> nat
    decreases ix.len(),
{
    if ix.len() == 0 {
        0
    } else {
        occurrences(ix.drop_last(), j) + if ix.last() == j {
            1nat
        } else {
            0nat
        }
    }
}

/// `sel` with each item flipped once for every time `ix` names it.
pub open spec fn toggled(sel: Seq<bool>, ix: Seq<usize>) -> Seq<bool> {
    Seq::new(sel.len(), |j: int| sel[j] != (occurrences(ix, j) % 2 == 1))
}

/// Flips the items that `ix` names, once per mention.
pub fn toggle_items(selected: &mut Vec<bool>, ix: &Vec<usize>)
    requires
        forall|k: int| 0 <= k < ix@.len() ==> #[trigger] ix@[k] < old(selected)@.len(),
    ensures
        final(selected)@ == toggled(old(selected)@, ix@),
{
    let ghost s0 = selected@;
    let mut k: usize = 0;
    assert(selected@ =~= toggled(s0, ix@.take(0)));
    while k < ix.len()
        invariant
            0 <= k <= ix@.len(),
            selected@.len() == s0.len(),
            forall|q: int| 0 <= q < ix@.len() ==> #[trigger] ix@[q] < s0.len(),
            selected@ == toggled(s0, ix@.take(k as int)),
        decreases ix@.len() - k,
    {
        let idx = ix[k];
        assert(ix@[k as int] < s0.len());
        let v = selected[idx];
        selected.set(idx, !v);
        let ghost t = ix@.take(k + 1);
        assert(t.drop_last() == ix@.take(k as int));
        assert(t.last() == idx);
        assert(selected@ =~= toggled(s0, t));
        k += 1;
    }
    assert(ix@.take(ix@.len() as int) == ix@);
}

/// Every item selected, or none.
pub fn set_all(selected: &mut Vec<bool>, value: bool)
    ensures
        final(selected)@ == Seq::new(old(selected)@.len(), |j: int| value),
{
    let mut i: usize = 0;
    let ghost n = selected@.len();
    while i < selected.len()
        invariant
            selected@.len() == n,
            0 <= i <= n,
            forall|j: int| 0 <= j < i ==> selected@[j] == value,
        decreases n - i,
    {
        selected.set(i, value);
        i += 1;
    }
    assert(selected@ =~= Seq::new(n, |j: int| value));
}

/// Toggling the same items twice gives the selection back.
pub proof fn law_toggle_twice(sel: Seq<bool>, ix: Seq<usize>)
    ensures
        toggled(toggled(sel, ix), ix) == sel,
{
    assert(toggled(toggled(sel, ix), ix) =~= sel);
}

} // verus!
