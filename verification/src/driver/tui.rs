//! The full-screen blacklist editor: its state and what each key does to
//! it.  Drawing the screen and reading the keys are left to the caller.
use vstd::prelude::*;

use crate::driver::blacklist::BlacklistEntry;
use crate::selection::set_all;
use crate::sort::{lemma_str_lt_irreflexive, lemma_str_lt_total, lemma_str_lt_transitive};
use crate::text::{chars_of, lt_chars, opt_str, str_eq, str_lt, strs};

verus! {

/// Whether the list or the help window has the keys.
#[derive(Debug, Clone, Copy, PartialEq, Eq, Structural)]
pub enum Mode {
    Select,
    Help,
}

/// A key press, as far as the editor tells keys apart.
#[derive(Debug, Clone, Copy, PartialEq, Eq, Structural)]
pub enum Key {
    Char(char),
    Esc,
    Enter,
    Up,
    Down,
    Other,
}

/// What the editor asks of its caller after a key.
#[derive(Debug, Clone, Copy, PartialEq, Eq, Structural)]
pub enum TuiAction {
    /// Draw the screen again and read the next key.
    Continue,
    /// Leave without changes.
    Quit,
    /// Leave and apply the selection.
    Apply,
}

/// The state of the editor: the listing, which entries are selected, the
/// cursor's position in the shown list, the mode and the category shown
/// (`None`: all).
pub struct App {
    pub entries: Vec<BlacklistEntry>,
    pub selected: Vec<bool>,
    pub cursor: Option<usize>,
    pub mode: Mode,
    pub category_filter: Option<String>,
}

/// Whether entry `i` is shown under the category filter `filter`.
pub open spec fn shown(entries: Seq<BlacklistEntry>, filter: Option<Seq<char>>, i: int) -> bool {
    match filter {
        None => true,
        Some(c) => entries[i].category@ == c,
    }
}

/// The positions of the shown entries among the first `n`, in order.
pub open spec fn shown_positions(entries: Seq<BlacklistEntry>, filter: Option<Seq<char>>, n: nat) -> Seq<usize>
    decreases n,
{
    if n == 0 {
        Seq::empty()
    } else {
        let rest = shown_positions(entries, filter, (n - 1) as nat);
        if shown(entries, filter, n - 1) {
            rest.push((n - 1) as usize)
        } else {
            rest
        }
    }
}

pub proof fn lemma_shown_positions_bound(entries: Seq<BlacklistEntry>, filter: Option<Seq<char>>, n: nat)
    requires
        n <= usize::MAX,
    ensures
        forall|k: int| 0 <= k < shown_positions(entries, filter, n).len() ==> #[trigger] shown_positions(entries, filter, n)[k] < n,
    decreases n,
{
    if n > 0 {
        lemma_shown_positions_bound(entries, filter, (n - 1) as nat);
        let rest = shown_positions(entries, filter, (n - 1) as nat);
        if shown(entries, filter, n - 1) {
            assert(shown_positions(entries, filter, n) == rest.push((n - 1) as usize));
        }
    }
}

/// The cursor one line up: none above the first line.
pub open spec fn cursor_up(c: Option<usize>) -> Option<usize> {
    match c {
        Some(s) => if s > 0 {
            Some((s - 1) as usize)
        } else {
            None
        },
        None => None,
    }
}

/// The cursor one line down in a list of `n` lines: none below the last.
pub open spec fn cursor_down(c: Option<usize>, n: nat) -> Option<usize> {
    let max: int = if n > 0 {
        n - 1
    } else {
        0
    };
    match c {
        Some(s) => if s < max {
            Some((s + 1) as usize)
        } else {
            None
        },
        None => None,
    }
}

/// The number of selected entries.
pub open spec fn count_true(sel: Seq<bool>) -> nat
    decreases sel.len(),
{
    if sel.len() == 0 {
        0
    } else {
        count_true(sel.drop_last()) + if sel.last() {
            1nat
        } else {
            0nat
        }
    }
}

impl App {
    /// Each entry has its selection flag.
    pub open spec fn wf(&self) -> bool {
        self.selected@.len() == self.entries@.len()
    }

    pub open spec fn filter_view(&self) -> Option<Seq<char>> {
        opt_str(self.category_filter)
    }

    /// The positions of the entries shown.
    pub open spec fn shown_view(&self) -> Seq<usize> {
        shown_positions(self.entries@, self.filter_view(), self.entries@.len())
    }

    /// The entry under the cursor.
    pub open spec fn current_view(&self) -> Option<usize> {
        match self.cursor {
            Some(p) => if p < self.shown_view().len() {
                Some(self.shown_view()[p as int])
            } else {
                None
            },
            None => None,
        }
    }

    /// The selection after the space key: the entry under the cursor
    /// flipped.
    pub open spec fn toggled_view(&self) -> Seq<bool> {
        match self.current_view() {
            Some(i) => self.selected@.update(i as int, !self.selected@[i as int]),
            None => self.selected@,
        }
    }

    /// The editor at the start: the entries that the blacklist file lists
    /// are selected, the cursor is on the first line, all categories shown.
    pub fn new(entries: Vec<BlacklistEntry>) -> (app: App)
        ensures
            app.wf(),
            app.entries@ == entries@,
            app.selected@ == entries@.map_values(|e: BlacklistEntry| e.currently_blacklisted),
            app.cursor == Some(0usize),
            app.mode == Mode::Select,
            app.category_filter is None,
    {
        let selected = crate::driver::blacklist::initial_selection(&entries);
        App { entries, selected, cursor: Some(0), mode: Mode::Select, category_filter: None }
    }

    /// The positions of the entries that the category filter shows.
    pub fn filtered_indices(&self) -> (r: Vec<usize>)
        ensures
            r@ == self.shown_view(),
            forall|k: int| 0 <= k < r@.len() ==> #[trigger] r@[k] < self.entries@.len(),
    {
        let mut r: Vec<usize> = Vec::new();
        let mut i: usize = 0;
        while i < self.entries.len()
            invariant
                0 <= i <= self.entries@.len(),
                r@ == shown_positions(self.entries@, self.filter_view(), i as nat),
            decreases self.entries@.len() - i,
        {
            let show = match &self.category_filter {
                None => true,
                Some(c) => str_eq(self.entries[i].category.as_str(), c.as_str()),
            };
            if show {
                r.push(i);
            }
            i += 1;
        }
        proof {
            lemma_shown_positions_bound(self.entries@, self.filter_view(), self.entries@.len());
        }
        r
    }

    /// The position, in the listing, of the entry under the cursor.
    pub fn current_index(&self) -> (r: Option<usize>)
        ensures
            r == self.current_view(),
            r matches Some(i) ==> i < self.entries@.len(),
    {
        let filtered = self.filtered_indices();
        match self.cursor {
            Some(p) => if p < filtered.len() {
                Some(filtered[p])
            } else {
                None
            },
            None => None,
        }
    }

    /// Flips the selection of the entry under the cursor.
    pub fn toggle(&mut self)
        requires
            old(self).wf(),
        ensures
            final(self).wf(),
            final(self).selected@ == old(self).toggled_view(),
            final(self).entries@ == old(self).entries@,
            final(self).cursor == old(self).cursor,
            final(self).mode == old(self).mode,
            final(self).category_filter == old(self).category_filter,
    {
        if let Some(idx) = self.current_index() {
            let v = !self.selected[idx];
            self.selected.set(idx, v);
        }
    }

    /// Selects every entry.
    pub fn select_all(&mut self)
        requires
            old(self).wf(),
        ensures
            final(self).wf(),
            final(self).selected@ == Seq::new(old(self).selected@.len(), |i: int| true),
            final(self).entries@ == old(self).entries@,
            final(self).cursor == old(self).cursor,
            final(self).mode == old(self).mode,
            final(self).category_filter == old(self).category_filter,
    {
        set_all(&mut self.selected, true);
    }

    /// Selects no entry.
    pub fn deselect_all(&mut self)
        requires
            old(self).wf(),
        ensures
            final(self).wf(),
            final(self).selected@ == Seq::new(old(self).selected@.len(), |i: int| false),
            final(self).entries@ == old(self).entries@,
            final(self).cursor == old(self).cursor,
            final(self).mode == old(self).mode,
            final(self).category_filter == old(self).category_filter,
    {
        set_all(&mut self.selected, false);
    }

    /// Selects exactly the recommended entries.
    pub fn apply_recommended(&mut self)
        requires
            old(self).wf(),
        ensures
            final(self).wf(),
            final(self).selected@ == old(self).entries@.map_values(|e: BlacklistEntry| e.recommended),
            final(self).entries@ == old(self).entries@,
            final(self).cursor == old(self).cursor,
            final(self).mode == old(self).mode,
            final(self).category_filter == old(self).category_filter,
    {
        let mut i: usize = 0;
        while i < self.entries.len()
            invariant
                self.selected@.len() == self.entries@.len(),
                self.entries@ == old(self).entries@,
                self.cursor == old(self).cursor,
                self.mode == old(self).mode,
                self.category_filter == old(self).category_filter,
                0 <= i <= self.entries@.len(),
                forall|j: int| 0 <= j < i ==> self.selected@[j] == self.entries@[j].recommended,
            decreases self.entries@.len() - i,
        {
            let r = self.entries[i].recommended;
            self.selected.set(i, r);
            i += 1;
        }
        assert(self.selected@ =~= self.entries@.map_values(|e: BlacklistEntry| e.recommended));
    }

    /// Shows the category `cat` (`None`: all) and puts the cursor on the
    /// first line.
    pub fn set_category(&mut self, cat: Option<&str>)
        requires
            old(self).wf(),
        ensures
            final(self).wf(),
            final(self).filter_view() == match cat {
                Some(c) => Some(c@),
                None => None::<Seq<char>>,
            },
            final(self).cursor == Some(0usize),
            final(self).selected@ == old(self).selected@,
            final(self).entries@ == old(self).entries@,
            final(self).mode == old(self).mode,
    {
        self.category_filter = match cat {
            Some(c) => Some(String::from_str(c)),
            None => None,
        };
        self.cursor = Some(0);
    }

    /// The number of selected entries.
    pub fn count_selected(&self) -> (n: usize)
        ensures
            n == count_true(self.selected@),
    {
        let mut n: usize = 0;
        let mut i: usize = 0;
        while i < self.selected.len()
            invariant
                0 <= i <= self.selected@.len(),
                n == count_true(self.selected@.take(i as int)),
                n <= i,
            decreases self.selected@.len() - i,
        {
            assert(self.selected@.take(i + 1).drop_last() == self.selected@.take(i as int));
            if self.selected[i] {
                n += 1;
            }
            i += 1;
        }
        assert(self.selected@.take(self.selected@.len() as int) == self.selected@);
        n
    }
}


// ---------------------------------------------------------------------------
// Categories
// ---------------------------------------------------------------------------

/// Some entry has the category `c`.
pub open spec fn has_category(entries: Seq<BlacklistEntry>, c: Seq<char>) -> bool {
    exists|i: int| 0 <= i < entries.len() && #[trigger] entries[i].category@ == c
}

/// Each string comes before the next.
pub open spec fn strictly_sorted(s: Seq<Seq<char>>) -> bool {
    forall|i: int, j: int| 0 <= i < j < s.len() ==> str_lt(#[trigger] s[i], #[trigger] s[j])
}

/// `cats` is the categories of the entries, sorted, each once.
pub open spec fn is_category_list(entries: Seq<BlacklistEntry>, cats: Seq<Seq<char>>) -> bool {
    &&& strictly_sorted(cats)
    &&& forall|c: Seq<char>| #[trigger] cats.contains(c) <==> has_category(entries, c)
}

/// Two sorted lists of the same strings, each once, are equal: the category
/// list of a listing is unique.
pub proof fn lemma_sorted_unique(a: Seq<Seq<char>>, b: Seq<Seq<char>>)
    requires
        strictly_sorted(a),
        strictly_sorted(b),
        forall|c: Seq<char>| #[trigger] a.contains(c) <==> b.contains(c),
    ensures
        a == b,
    decreases a.len(),
{
    if a.len() == 0 || b.len() == 0 {
        if b.len() > 0 {
            assert(b.contains(b[0]));
            assert(a.contains(b[0]));
        }
        if a.len() > 0 {
            assert(a.contains(a[0]));
            assert(b.contains(a[0]));
        }
        assert(a =~= b);
    } else {
        assert(a[0] == b[0]) by {
            assert(a.contains(a[0]));
            assert(b.contains(a[0]));
            assert(b.contains(b[0]));
            assert(a.contains(b[0]));
            let ia = choose|i: int| 0 <= i < a.len() && a[i] == b[0];
            let ib = choose|i: int| 0 <= i < b.len() && b[i] == a[0];
            if a[0] != b[0] {
                assert(ia > 0 && ib > 0);
                assert(str_lt(a[0], a[ia]));
                assert(str_lt(b[0], b[ib]));
                lemma_str_lt_total(a[0], b[0]);
            }
        }
        let a1 = a.drop_first();
        let b1 = b.drop_first();
        assert forall|c: Seq<char>| #[trigger] a1.contains(c) <==> b1.contains(c) by {
            if a1.contains(c) {
                let i = choose|i: int| 0 <= i < a1.len() && a1[i] == c;
                assert(a[i + 1] == c);
                assert(str_lt(a[0], a[i + 1]));
                lemma_str_lt_irreflexive(c);
                assert(a.contains(c));
                assert(b.contains(c));
                let j = choose|j: int| 0 <= j < b.len() && b[j] == c;
                assert(j != 0);
                assert(b1[j - 1] == c);
            }
            if b1.contains(c) {
                let i = choose|i: int| 0 <= i < b1.len() && b1[i] == c;
                assert(b[i + 1] == c);
                assert(str_lt(b[0], b[i + 1]));
                lemma_str_lt_irreflexive(c);
                assert(a.contains(c));
                let j = choose|j: int| 0 <= j < a.len() && a[j] == c;
                assert(j != 0);
                assert(a1[j - 1] == c);
            }
        }
        assert forall|i: int, j: int| 0 <= i < j < a1.len() implies str_lt(#[trigger] a1[i], #[trigger] a1[j]) by {
            assert(a1[i] == a[i + 1] && a1[j] == a[j + 1]);
        }
        assert forall|i: int, j: int| 0 <= i < j < b1.len() implies str_lt(#[trigger] b1[i], #[trigger] b1[j]) by {
            assert(b1[i] == b[i + 1] && b1[j] == b[j + 1]);
        }
        lemma_sorted_unique(a1, b1);
        assert(a =~= seq![a[0]] + a1);
        assert(b =~= seq![b[0]] + b1);
    }
}

impl App {
    /// The categories of the listing, sorted, each once.
    pub fn categories(&self) -> (cats: Vec<String>)
        ensures
            is_category_list(self.entries@, strs(cats@)),
    {
        let ghost es = self.entries@;
        let mut cats: Vec<String> = Vec::new();
        let mut i: usize = 0;
        while i < self.entries.len()
            invariant
                es == self.entries@,
                0 <= i <= es.len(),
                strictly_sorted(strs(cats@)),
                forall|c: Seq<char>| #[trigger] strs(cats@).contains(c) <==> has_category(es.take(i as int), c),
            decreases es.len() - i,
        {
            let c = &self.entries[i].category;
            let cv = chars_of(c.as_str());
            let ghost old_cats = strs(cats@);
            let mut j: usize = 0;
            while j < cats.len() && lt_chars(&chars_of(cats[j].as_str()), &cv)
                invariant
                    old_cats == strs(cats@),
                    cv@ == c@,
                    0 <= j <= cats@.len(),
                    forall|k: int| 0 <= k < j ==> str_lt(#[trigger] old_cats[k], c@),
                decreases cats@.len() - j,
            {
                j += 1;
            }
            assert forall|x: Seq<char>| has_category(es.take(i + 1), x) <==> (has_category(es.take(i as int), x) || x
                == c@) by {
                if has_category(es.take(i + 1), x) {
                    let k = choose|k: int| 0 <= k < es.take(i + 1).len() && #[trigger] es.take(i + 1)[k].category@ == x;
                    if k < i {
                        assert(es.take(i as int)[k] == es.take(i + 1)[k]);
                    }
                }
                if has_category(es.take(i as int), x) {
                    let k = choose|k: int| 0 <= k < es.take(i as int).len() && #[trigger] es.take(i as int)[k].category@ == x;
                    assert(es.take(i + 1)[k] == es.take(i as int)[k]);
                }
                if x == c@ {
                    assert(es.take(i + 1)[i as int].category@ == x);
                }
            }
            if j < cats.len() && str_eq(cats[j].as_str(), c.as_str()) {
                assert(old_cats[j as int] == c@);
                assert(old_cats.contains(c@));
            } else {
                proof {
                    if j < old_cats.len() {
                        lemma_str_lt_total(old_cats[j as int], c@);
                    }
                }
                cats.insert(j, c.clone());
                let ghost nc = strs(cats@);
                assert(nc =~= old_cats.insert(j as int, c@));
                assert forall|a: int, b: int| 0 <= a < b < nc.len() implies str_lt(#[trigger] nc[a], #[trigger] nc[b]) by {
                    if b < j {
                        assert(nc[a] == old_cats[a] && nc[b] == old_cats[b]);
                    } else if b == j {
                        assert(nc[a] == old_cats[a]);
                    } else if a == j {
                        assert(nc[b] == old_cats[b - 1]);
                        if b - 1 > j {
                            assert(str_lt(old_cats[j as int], old_cats[b - 1]));
                            lemma_str_lt_transitive(c@, old_cats[j as int], old_cats[b - 1]);
                        }
                    } else if a < j {
                        assert(nc[a] == old_cats[a] && nc[b] == old_cats[b - 1]);
                        if b - 1 >= j {
                            lemma_str_lt_transitive(old_cats[a], c@, old_cats[j as int]);
                            if b - 1 > j {
                                lemma_str_lt_transitive(old_cats[a], old_cats[j as int], old_cats[b - 1]);
                            }
                        }
                    } else {
                        assert(nc[a] == old_cats[a - 1] && nc[b] == old_cats[b - 1]);
                    }
                }
                assert forall|x: Seq<char>| #[trigger] nc.contains(x) <==> (old_cats.contains(x) || x == c@) by {
                    if nc.contains(x) {
                        let k = choose|k: int| 0 <= k < nc.len() && nc[k] == x;
                        if k < j {
                            assert(old_cats[k] == x);
                        } else if k > j {
                            assert(old_cats[k - 1] == x);
                        }
                    }
                    if old_cats.contains(x) {
                        let k = choose|k: int| 0 <= k < old_cats.len() && old_cats[k] == x;
                        if k < j {
                            assert(nc[k] == x);
                        } else {
                            assert(nc[k + 1] == x);
                        }
                    }
                    if x == c@ {
                        assert(nc[j as int] == x);
                    }
                }
            }
            i += 1;
        }
        assert(es.take(es.len() as int) == es);
        cats
    }
}


// ---------------------------------------------------------------------------
// Keys
// ---------------------------------------------------------------------------

/// `b` has the listing `entries`, the selection `sel`, the cursor `cursor`,
/// the mode `mode` and the category filter `filter`.
pub open spec fn app_is(
    b: App,
    entries: Seq<BlacklistEntry>,
    sel: Seq<bool>,
    cursor: Option<usize>,
    mode: Mode,
    filter: Option<Seq<char>>,
) -> bool {
    &&& b.entries@ == entries
    &&& b.selected@ == sel
    &&& b.cursor == cursor
    &&& b.mode == mode
    &&& b.filter_view() == filter
}

/// A digit key from `2` to `9`: it shows one category.
pub open spec fn is_category_key(key: Key) -> bool {
    key is Char && '2' <= key->0 <= '9'
}

/// The editor `b` and the action `act` after the key `key` in the editor
/// `a`.  In the list: `q`/Esc leave, `d`/Enter apply, space flips the entry
/// under the cursor, `a` selects all, `n` none, `r` the recommended ones,
/// `h` opens the help, up/`k` and down/`j` move the cursor, `1` shows every
/// category and `2` to `9` the categories in their sorted order.  In the
/// help, `q`, Esc and `h` go back to the list.
pub open spec fn spec_key(a: App, key: Key, b: App, act: TuiAction) -> bool {
    let e = a.entries@;
    let s = a.selected@;
    let c = a.cursor;
    let f = a.filter_view();
    match a.mode {
        Mode::Help => act == TuiAction::Continue && if key == Key::Char('q') || key == Key::Esc || key == Key::Char(
            'h',
        ) {
            app_is(b, e, s, c, Mode::Select, f)
        } else {
            app_is(b, e, s, c, Mode::Help, f)
        },
        Mode::Select => if key == Key::Char('q') || key == Key::Esc {
            act == TuiAction::Quit && app_is(b, e, s, c, Mode::Select, f)
        } else if key == Key::Char('d') || key == Key::Enter {
            act == TuiAction::Apply && app_is(b, e, s, c, Mode::Select, f)
        } else {
            act == TuiAction::Continue && if key == Key::Char(' ') {
                app_is(b, e, a.toggled_view(), c, Mode::Select, f)
            } else if key == Key::Char('a') {
                app_is(b, e, Seq::new(s.len(), |i: int| true), c, Mode::Select, f)
            } else if key == Key::Char('n') {
                app_is(b, e, Seq::new(s.len(), |i: int| false), c, Mode::Select, f)
            } else if key == Key::Char('r') {
                app_is(b, e, e.map_values(|x: BlacklistEntry| x.recommended), c, Mode::Select, f)
            } else if key == Key::Char('h') {
                app_is(b, e, s, c, Mode::Help, f)
            } else if key == Key::Up || key == Key::Char('k') {
                app_is(b, e, s, cursor_up(c), Mode::Select, f)
            } else if key == Key::Down || key == Key::Char('j') {
                app_is(b, e, s, cursor_down(c, a.shown_view().len()), Mode::Select, f)
            } else if key == Key::Char('1') {
                app_is(b, e, s, Some(0usize), Mode::Select, None)
            } else if is_category_key(key) {
                forall|cats: Seq<Seq<char>>|
                    #![trigger is_category_list(a.entries@, cats)]
                    is_category_list(a.entries@, cats) ==> {
                        let idx = key->0 as int - '2' as int;
                        if idx < cats.len() {
                            app_is(b, e, s, Some(0usize), Mode::Select, Some(cats[idx]))
                        } else {
                            app_is(b, e, s, c, Mode::Select, f)
                        }
                    }
            } else {
                app_is(b, e, s, c, Mode::Select, f)
            }
        },
    }
}

fn digit_offset(ch: char) -> (r: usize)
    requires
        '2' <= ch <= '9',
    ensures
        r == ch as int - '2' as int,
{
    let u = ch as u32;
    (u - 50) as usize
}

impl App {
    /// What the key `key` does to the editor.
    pub fn handle_key(&mut self, key: Key) -> (act: TuiAction)
        requires
            old(self).wf(),
        ensures
            final(self).wf(),
            spec_key(*old(self), key, *final(self), act),
    {
        match self.mode {
            Mode::Help => {
                if key == Key::Char('q') || key == Key::Esc || key == Key::Char('h') {
                    self.mode = Mode::Select;
                }
                TuiAction::Continue
            },
            Mode::Select => {
                if key == Key::Char('q') || key == Key::Esc {
                    return TuiAction::Quit;
                }
                if key == Key::Char('d') || key == Key::Enter {
                    return TuiAction::Apply;
                }
                if key == Key::Char(' ') {
                    self.toggle();
                } else if key == Key::Char('a') {
                    self.select_all();
                } else if key == Key::Char('n') {
                    self.deselect_all();
                } else if key == Key::Char('r') {
                    self.apply_recommended();
                } else if key == Key::Char('h') {
                    self.mode = Mode::Help;
                } else if key == Key::Up || key == Key::Char('k') {
                    self.cursor = match self.cursor {
                        Some(p) => if p > 0 {
                            Some(p - 1)
                        } else {
                            None
                        },
                        None => None,
                    };
                } else if key == Key::Down || key == Key::Char('j') {
                    let n = self.filtered_indices().len();
                    let max: usize = if n > 0 {
                        n - 1
                    } else {
                        0
                    };
                    self.cursor = match self.cursor {
                        Some(p) => if p < max {
                            Some(p + 1)
                        } else {
                            None
                        },
                        None => None,
                    };
                } else if key == Key::Char('1') {
                    self.set_category(None);
                } else if let Key::Char(ch) = key {
                    if '2' <= ch && ch <= '9' {
                        let cats = self.categories();
                        let idx = digit_offset(ch);
                        let ghost old_app = *self;
                        if idx < cats.len() {
                            self.set_category(Some(cats[idx].as_str()));
                            proof {
                                assert forall|cs: Seq<Seq<char>>| is_category_list(old_app.entries@, cs) implies cs
                                    == strs(cats@) by {
                                    lemma_sorted_unique(cs, strs(cats@));
                                }
                            }
                        } else {
                            proof {
                                assert forall|cs: Seq<Seq<char>>| is_category_list(old_app.entries@, cs) implies cs
                                    == strs(cats@) by {
                                    lemma_sorted_unique(cs, strs(cats@));
                                }
                            }
                        }
                    }
                }
                TuiAction::Continue
            },
        }
    }
}

// ---------------------------------------------------------------------------
// The help window
// ---------------------------------------------------------------------------

/// A rectangle of the screen.
#[derive(Debug, Clone, Copy, PartialEq, Eq, Structural)]
pub struct Area {
    pub x: u16,
    pub y: u16,
    pub width: u16,
    pub height: u16,
}

/// The help window: `percent_x` percent of the screen's width but at most
/// 60 columns, `height` lines, centred on the screen `r` (whose origin it
/// takes as the top left corner).
pub open spec fn spec_centered_rect(percent_x: u16, height: u16, r: Area) -> Area {
    let w0 = r.width * percent_x / 100;
    let w = if w0 < 60 {
        w0
    } else {
        60
    };
    let x = if r.width >= w {
        (r.width - w) / 2
    } else {
        0
    };
    let y = if r.height >= height {
        (r.height - height) / 2
    } else {
        0
    };
    Area { x: x as u16, y: y as u16, width: w as u16, height }
}

/// The area of the help window on the screen `r`.
pub fn centered_rect(percent_x: u16, height: u16, r: Area) -> (a: Area)
    requires
        r.width * percent_x <= u16::MAX,
    ensures
        a == spec_centered_rect(percent_x, height, r),
        percent_x <= 100 ==> a.x + a.width <= r.width,
        height <= r.height ==> a.y + a.height <= r.height,
{
    let w0 = r.width * percent_x / 100;
    let popup_width = if w0 < 60 {
        w0
    } else {
        60
    };
    let x = r.width.saturating_sub(popup_width) / 2;
    let y = r.height.saturating_sub(height) / 2;
    proof {
        if percent_x <= 100 {
            assert(w0 <= r.width) by (nonlinear_arith)
                requires
                    w0 == r.width * percent_x / 100,
                    percent_x <= 100,
            ;
        }
    }
    Area { x, y, width: popup_width, height }
}


// ---------------------------------------------------------------------------
// Laws of the editor
// ---------------------------------------------------------------------------

/// Space pressed twice, with nothing else changed in between, gives the
/// selection back.
pub proof fn law_toggle_twice_restores(a: App, b: App)
    requires
        a.wf(),
        b.entries@ == a.entries@,
        b.cursor == a.cursor,
        b.category_filter == a.category_filter,
        b.selected@ == a.toggled_view(),
    ensures
        b.toggled_view() == a.selected@,
{
    assert(a.entries@.len() == a.entries.len());
    lemma_shown_positions_bound(a.entries@, a.filter_view(), a.entries@.len());
    assert(b.shown_view() == a.shown_view());
    match a.current_view() {
        Some(i) => {
            assert(a.shown_view().contains(i));
            assert(b.toggled_view() =~= a.selected@);
        },
        None => {},
    }
}

/// After `a` every entry counts as selected.
pub proof fn law_select_all_counts_all(n: nat)
    ensures
        count_true(Seq::new(n, |i: int| true)) == n,
    decreases n,
{
    if n > 0 {
        assert(Seq::new(n, |i: int| true).drop_last() =~= Seq::new((n - 1) as nat, |i: int| true));
        law_select_all_counts_all((n - 1) as nat);
    }
}

} // verus!
