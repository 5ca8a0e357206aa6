//! Text model shared by the whole library: strings are viewed as `Seq<char>`,
//! and the operations that the configuration editors and argument builders
//! need (trimming, line and word splitting, prefixes, integer parsing and
//! printing, joining) are stated as spec functions and implemented here.
use vstd::prelude::*;

verus! {

// ---------------------------------------------------------------------------
// Characters
// ---------------------------------------------------------------------------

/// The Unicode `White_Space` property, the set that `char::is_whitespace` uses.
pub open spec fn is_ws(c: char) -> bool {
    let u = c as u32;
    ||| 0x9 <= u <= 0xd
    ||| u == 0x20
    ||| u == 0x85
    ||| u == 0xa0
    ||| u == 0x1680
    ||| 0x2000 <= u <= 0x200a
    ||| u == 0x2028
    ||| u == 0x2029
    ||| u == 0x202f
    ||| u == 0x205f
    ||| u == 0x3000
}

pub fn is_whitespace(c: char) -> (b: bool)
    ensures
        b == is_ws(c),
{
    let u = c as u32;
    (0x9 <= u && u <= 0xd) || u == 0x20 || u == 0x85 || u == 0xa0 || u == 0x1680 || (0x2000 <= u
        && u <= 0x200a) || u == 0x2028 || u == 0x2029 || u == 0x202f || u == 0x205f || u == 0x3000
}

/// An ASCII decimal digit, `'0'..='9'`.
pub open spec fn is_digit(c: char) -> bool {
    48 <= c as u32 <= 57
}

pub open spec fn digit_value(c: char) -> nat {
    (c as u32 - 48) as nat
}

/// The ASCII digit for `d < 10`.
pub open spec fn digit_char(d: nat) -> char {
    (d + 48) as char
}

// ---------------------------------------------------------------------------
// Conversions between `String` and `Vec<char>`
// ---------------------------------------------------------------------------

/// The characters of a string, in order.
pub fn chars_of(s: &str) -> (v: Vec<char>)
    ensures
        v@ == s@,
{
    let mut v: Vec<char> = Vec::new();
    for c in it: s.chars()
        invariant
            v@ == it.seq().take(it.index() as int),
            it.seq() == s@,
    {
        v.push(c);
    }
    v
}

/// `String::push`: appends one character.
#[verifier::external_body]
pub(crate) fn push_char(s: &mut String, c: char)
    ensures
        final(s)@ == old(s)@.push(c),
{
    s.push(c);
}

/// The string made of `v[lo..hi]`.
pub fn string_from(v: &Vec<char>, lo: usize, hi: usize) -> (s: String)
    requires
        lo <= hi <= v@.len(),
    ensures
        s@ == v@.subrange(lo as int, hi as int),
{
    let mut s = String::new();
    let mut i = lo;
    while i < hi
        invariant
            lo <= i <= hi <= v@.len(),
            s@ == v@.subrange(lo as int, i as int),
        decreases hi - i,
    {
        push_char(&mut s, v[i]);
        assert(v@.subrange(lo as int, i + 1) == v@.subrange(lo as int, i as int).push(v@[i as int]));
        i += 1;
    }
    s
}


/// The characters of a `Vec<String>`, one sequence per element.
pub open spec fn strs(v: Seq<String>) -> Seq<Seq<char>> {
    v.map_values(|s: String| s@)
}

/// The characters of a `Vec<Vec<char>>`, one sequence per element.
pub open spec fn cseqs(v: Seq<Vec<char>>) -> Seq<Seq<char>> {
    v.map_values(|s: Vec<char>| s@)
}

// ---------------------------------------------------------------------------
// Trimming
// ---------------------------------------------------------------------------

/// `str::trim_start`
pub open spec fn trim_start(s: Seq<char>) -> Seq<char>
    decreases s.len(),
{
    if s.len() > 0 && is_ws(s[0]) {
        trim_start(s.drop_first())
    } else {
        s
    }
}

/// `str::trim_end`
pub open spec fn trim_end(s: Seq<char>) -> Seq<char>
    decreases s.len(),
{
    if s.len() > 0 && is_ws(s.last()) {
        trim_end(s.drop_last())
    } else {
        s
    }
}

/// `str::trim`
pub open spec fn trim(s: Seq<char>) -> Seq<char> {
    trim_end(trim_start(s))
}

/// Bounds `(a, b)` such that `v[a..b]` is `v[lo..hi]` trimmed.
pub fn trim_bounds(v: &Vec<char>, lo: usize, hi: usize) -> (r: (usize, usize))
    requires
        lo <= hi <= v@.len(),
    ensures
        lo <= r.0 <= r.1 <= hi,
        v@.subrange(r.0 as int, r.1 as int) == trim(v@.subrange(lo as int, hi as int)),
{
    let mut a = lo;
    while a < hi && is_whitespace(v[a])
        invariant
            lo <= a <= hi <= v@.len(),
            trim_start(v@.subrange(lo as int, hi as int)) == trim_start(v@.subrange(a as int, hi as int)),
        decreases hi - a,
    {
        assert(v@.subrange(a as int, hi as int).drop_first() == v@.subrange(a + 1, hi as int));
        a += 1;
    }
    let mut b = hi;
    while b > a && is_whitespace(v[b - 1])
        invariant
            lo <= a <= b <= hi <= v@.len(),
            trim_start(v@.subrange(lo as int, hi as int)) == v@.subrange(a as int, hi as int),
            trim(v@.subrange(lo as int, hi as int)) == trim_end(v@.subrange(a as int, b as int)),
        decreases b - a,
    {
        assert(v@.subrange(a as int, b as int).drop_last() == v@.subrange(a as int, b - 1));
        b -= 1;
    }
    (a, b)
}

/// A copy of `v[lo..hi]`.
pub fn copy_range(v: &Vec<char>, lo: usize, hi: usize) -> (r: Vec<char>)
    requires
        lo <= hi <= v@.len(),
    ensures
        r@ == v@.subrange(lo as int, hi as int),
{
    let mut r: Vec<char> = Vec::new();
    let mut i = lo;
    while i < hi
        invariant
            lo <= i <= hi <= v@.len(),
            r@ == v@.subrange(lo as int, i as int),
        decreases hi - i,
    {
        r.push(v[i]);
        assert(v@.subrange(lo as int, i + 1) == v@.subrange(lo as int, i as int).push(v@[i as int]));
        i += 1;
    }
    r
}

/// `v` trimmed, as a new vector.
pub fn trimmed(v: &Vec<char>) -> (r: Vec<char>)
    ensures
        r@ == trim(v@),
{
    let (a, b) = trim_bounds(v, 0, v.len());
    assert(v@.subrange(0, v@.len() as int) == v@);
    copy_range(v, a, b)
}

// ---------------------------------------------------------------------------
// Prefixes, suffixes and substrings
// ---------------------------------------------------------------------------

/// `str::starts_with`
pub open spec fn has_prefix(s: Seq<char>, p: Seq<char>) -> bool {
    p.len() <= s.len() && s.take(p.len() as int) == p
}

/// `str::ends_with`
pub open spec fn has_suffix(s: Seq<char>, p: Seq<char>) -> bool {
    p.len() <= s.len() && s.skip(s.len() - p.len()) == p
}

/// `str::contains` with a string pattern.
pub open spec fn has_infix(s: Seq<char>, p: Seq<char>) -> bool {
    exists|i: int| 0 <= i <= s.len() - p.len() && #[trigger] s.subrange(i, i + p.len()) == p
}

pub fn starts_with(s: &Vec<char>, p: &Vec<char>) -> (b: bool)
    ensures
        b == has_prefix(s@, p@),
{
    if p.len() > s.len() {
        return false;
    }
    let mut i: usize = 0;
    while i < p.len()
        invariant
            p@.len() <= s@.len(),
            0 <= i <= p@.len(),
            s@.take(i as int) == p@.take(i as int),
        decreases p@.len() - i,
    {
        if s[i] != p[i] {
            assert(s@.take(p@.len() as int)[i as int] != p@[i as int]);
            return false;
        }
        assert(s@.take(i + 1) == s@.take(i as int).push(s@[i as int]));
        assert(p@.take(i + 1) == p@.take(i as int).push(p@[i as int]));
        i += 1;
    }
    assert(p@.take(p@.len() as int) == p@);
    true
}

pub fn ends_with(s: &Vec<char>, p: &Vec<char>) -> (b: bool)
    ensures
        b == has_suffix(s@, p@),
{
    if p.len() > s.len() {
        return false;
    }
    let n: usize = s.len();
    let off: usize = s.len() - p.len();
    let mut i: usize = 0;
    while i < p.len()
        invariant
            n == s@.len(),
            p@.len() <= s@.len(),
            off == s@.len() - p@.len(),
            0 <= i <= p@.len(),
            s@.subrange(off as int, off + i) == p@.take(i as int),
        decreases p@.len() - i,
    {
        if s[off + i] != p[i] {
            assert(s@.skip(off as int)[i as int] != p@[i as int]);
            return false;
        }
        assert(s@.subrange(off as int, off + i + 1) == s@.subrange(off as int, off + i).push(s@[off + i]));
        assert(p@.take(i + 1) == p@.take(i as int).push(p@[i as int]));
        i += 1;
    }
    assert(p@.take(p@.len() as int) == p@);
    assert(s@.subrange(off as int, off + p@.len()) == s@.skip(off as int));
    true
}

/// Whether `p` occurs in `s` at position `at`.
pub fn occurs_at(s: &Vec<char>, p: &Vec<char>, at: usize) -> (b: bool)
    requires
        at <= s@.len(),
    ensures
        b == (at + p@.len() <= s@.len() && s@.subrange(at as int, at + p@.len()) == p@),
{
    if p.len() > s.len() - at {
        return false;
    }
    let n: usize = s.len();
    let mut i: usize = 0;
    while i < p.len()
        invariant
            n == s@.len(),
            at + p@.len() <= s@.len(),
            0 <= i <= p@.len(),
            s@.subrange(at as int, at + i) == p@.take(i as int),
        decreases p@.len() - i,
    {
        if s[at + i] != p[i] {
            assert(s@.subrange(at as int, at + p@.len())[i as int] != p@[i as int]);
            return false;
        }
        assert(s@.subrange(at as int, at + i + 1) == s@.subrange(at as int, at + i).push(s@[at + i]));
        assert(p@.take(i + 1) == p@.take(i as int).push(p@[i as int]));
        i += 1;
    }
    assert(p@.take(p@.len() as int) == p@);
    true
}

pub fn contains(s: &Vec<char>, p: &Vec<char>) -> (b: bool)
    ensures
        b == has_infix(s@, p@),
{
    if p.len() > s.len() {
        return false;
    }
    let last: usize = s.len() - p.len();
    let mut i: usize = 0;
    while i <= last
        invariant
            p@.len() <= s@.len(),
            last == s@.len() - p@.len(),
            0 <= i <= last + 1,
            forall|j: int| 0 <= j < i ==> #[trigger] s@.subrange(j, j + p@.len()) != p@,
        decreases last + 1 - i,
    {
        if occurs_at(s, p, i) {
            return true;
        }
        if i == last {
            return false;
        }
        i += 1;
    }
    false
}

// ---------------------------------------------------------------------------
// Splitting
// ---------------------------------------------------------------------------

/// `str::splitn(n, c)`: the pieces between occurrences of `c`, at most `n`
/// of them (`n >= 1`); the last piece holds the rest of the string.
pub open spec fn split_n(s: Seq<char>, c: char, n: nat) -> Seq<Seq<char>>
    decreases s.len(),
{
    if s.len() == 0 {
        seq![Seq::empty()]
    } else {
        let r = split_n(s.drop_last(), c, n);
        if s.last() == c && r.len() < n {
            r.push(Seq::empty())
        } else {
            r.update(r.len() - 1, r.last().push(s.last()))
        }
    }
}

/// `str::split(c)`: the pieces between occurrences of `c`.
pub open spec fn split(s: Seq<char>, c: char) -> Seq<Seq<char>> {
    split_n(s, c, s.len() + 1)
}

pub proof fn lemma_split_n_len(s: Seq<char>, c: char, n: nat)
    requires
        n >= 1,
    ensures
        1 <= split_n(s, c, n).len() <= n,
        split_n(s, c, n).len() <= s.len() + 1,
    decreases s.len(),
{
    if s.len() > 0 {
        lemma_split_n_len(s.drop_last(), c, n);
    }
}

/// The pieces of `v` between occurrences of `c`, at most `n` of them.
pub fn split_chars_n(v: &Vec<char>, c: char, n: usize) -> (r: Vec<Vec<char>>)
    requires
        n >= 1,
    ensures
        cseqs(r@) == split_n(v@, c, n as nat),
{
    let mut done: Vec<Vec<char>> = Vec::new();
    let mut cur: Vec<char> = Vec::new();
    let mut i: usize = 0;
    while i < v.len()
        invariant
            n >= 1,
            0 <= i <= v@.len(),
            cseqs(done@).push(cur@) == split_n(v@.take(i as int), c, n as nat),
        decreases v@.len() - i,
    {
        proof {
            lemma_split_n_len(v@.take(i as int), c, n as nat);
            assert(v@.take(i + 1).drop_last() == v@.take(i as int));
        }
        let ch = v[i];
        let ghost before = cseqs(done@).push(cur@);
        if ch == c && done.len() + 1 < n {
            done.push(cur);
            cur = Vec::new();
            assert(cseqs(done@).push(cur@) =~= before.push(Seq::empty()));
        } else {
            cur.push(ch);
            assert(cseqs(done@).push(cur@) =~= before.update(before.len() - 1, before.last().push(ch)));
        }
        i += 1;
    }
    assert(v@.take(v@.len() as int) == v@);
    let mut out = done;
    out.push(cur);
    out
}

/// The pieces of `v` between occurrences of `c`.
pub fn split_chars(v: &Vec<char>, c: char) -> (r: Vec<Vec<char>>)
    ensures
        cseqs(r@) == split(v@, c),
{
    let mut done: Vec<Vec<char>> = Vec::new();
    let mut cur: Vec<char> = Vec::new();
    let mut i: usize = 0;
    while i < v.len()
        invariant
            0 <= i <= v@.len(),
            cseqs(done@).push(cur@) == split_n(v@.take(i as int), c, v@.len() + 1),
        decreases v@.len() - i,
    {
        proof {
            lemma_split_n_len(v@.take(i as int), c, v@.len() + 1);
            assert(v@.take(i + 1).drop_last() == v@.take(i as int));
        }
        let ch = v[i];
        let ghost before = cseqs(done@).push(cur@);
        if ch == c {
            done.push(cur);
            cur = Vec::new();
            assert(cseqs(done@).push(cur@) =~= before.push(Seq::empty()));
        } else {
            cur.push(ch);
            assert(cseqs(done@).push(cur@) =~= before.update(before.len() - 1, before.last().push(ch)));
        }
        i += 1;
    }
    assert(v@.take(v@.len() as int) == v@);
    let mut out = done;
    out.push(cur);
    out
}

/// Drops one trailing carriage return.
pub open spec fn strip_cr(l: Seq<char>) -> Seq<char> {
    if l.len() > 0 && l.last() == '\r' {
        l.drop_last()
    } else {
        l
    }
}

/// `str::lines`: lines end at `\n` or `\r\n`; a final line ending is optional.
pub open spec fn lines(s: Seq<char>) -> Seq<Seq<char>> {
    let p = split(s, '\n');
    let init = p.drop_last().map_values(|l: Seq<char>| strip_cr(l));
    if p.last().len() == 0 {
        init
    } else {
        init.push(p.last())
    }
}

pub fn split_lines(v: &Vec<char>) -> (r: Vec<Vec<char>>)
    ensures
        cseqs(r@) == lines(v@),
{
    let p = split_chars(v, '\n');
    proof {
        lemma_split_n_len(v@, '\n', v@.len() + 1);
    }
    let ghost ps = cseqs(p@);
    let mut r: Vec<Vec<char>> = Vec::new();
    let mut i: usize = 0;
    let last: usize = p.len() - 1;
    while i < last
        invariant
            ps == cseqs(p@),
            last + 1 == p@.len(),
            0 <= i <= last,
            cseqs(r@) == ps.take(i as int).map_values(|l: Seq<char>| strip_cr(l)),
        decreases last - i,
    {
        let l = &p[i];
        let n = l.len();
        let stripped = if n > 0 && l[n - 1] == '\r' {
            copy_range(l, 0, n - 1)
        } else {
            copy_range(l, 0, n)
        };
        assert(ps[i as int] == l@);
        if n > 0 {
            assert(l@.drop_last() =~= l@.subrange(0, n - 1));
        }
        assert(l@.subrange(0, n as int) == l@);
        assert(stripped@ == strip_cr(ps[i as int]));
        let ghost old_r = cseqs(r@);
        let ghost sv = stripped@;
        r.push(stripped);
        assert(cseqs(r@) =~= old_r.push(sv));
        assert(ps.take(i + 1).map_values(|l: Seq<char>| strip_cr(l)) =~= ps.take(
            i as int,
        ).map_values(|l: Seq<char>| strip_cr(l)).push(strip_cr(ps[i as int])));
        i += 1;
    }
    assert(ps.take(last as int) == ps.drop_last());
    let tail = &p[last];
    if tail.len() > 0 {
        let t = copy_range(tail, 0, tail.len());
        assert(tail@.subrange(0, tail@.len() as int) == tail@);
        r.push(t);
        assert(cseqs(r@) =~= ps.drop_last().map_values(|l: Seq<char>| strip_cr(l)).push(ps.last()));
    }
    r
}

/// `str::split_whitespace`: the maximal runs of non-whitespace characters.
pub open spec fn words(s: Seq<char>) -> Seq<Seq<char>>
    decreases s.len(),
{
    if s.len() == 0 {
        Seq::empty()
    } else {
        let r = words(s.drop_last());
        let c = s.last();
        if is_ws(c) {
            r
        } else if s.len() >= 2 && !is_ws(s[s.len() - 2]) {
            r.update(r.len() - 1, r.last().push(c))
        } else {
            r.push(seq![c])
        }
    }
}

pub proof fn lemma_words_nonempty(s: Seq<char>)
    requires
        s.len() > 0,
        !is_ws(s.last()),
    ensures
        words(s).len() > 0,
    decreases s.len(),
{
    if s.len() >= 2 && !is_ws(s[s.len() - 2]) {
        assert(s.drop_last().last() == s[s.len() - 2]);
        lemma_words_nonempty(s.drop_last());
    }
}

pub fn split_words(v: &Vec<char>) -> (r: Vec<Vec<char>>)
    ensures
        cseqs(r@) == words(v@),
{
    let mut done: Vec<Vec<char>> = Vec::new();
    let mut cur: Vec<char> = Vec::new();
    let mut i: usize = 0;
    while i < v.len()
        invariant
            0 <= i <= v@.len(),
            words(v@.take(i as int)) == if cur@.len() == 0 {
                cseqs(done@)
            } else {
                cseqs(done@).push(cur@)
            },
            cur@.len() > 0 <==> (i > 0 && !is_ws(v@[i - 1])),
        decreases v@.len() - i,
    {
        let ch = v[i];
        let ghost t = v@.take(i + 1);
        assert(t.drop_last() == v@.take(i as int));
        assert(t.last() == ch);
        if i > 0 {
            assert(t[t.len() - 2] == v@[i - 1]);
        }
        let ghost before = cseqs(done@).push(cur@);
        if is_whitespace(ch) {
            if cur.len() > 0 {
                done.push(cur);
                cur = Vec::new();
                assert(cseqs(done@) =~= before);
            }
        } else {
            let ghost was_empty = cur@.len() == 0;
            let ghost old_done = cseqs(done@);
            cur.push(ch);
            assert(cseqs(done@).push(cur@) =~= before.update(before.len() - 1, before.last().push(ch)));
            proof {
                if was_empty {
                    assert(cur@ =~= seq![ch]);
                    assert(cseqs(done@).push(cur@) =~= old_done.push(seq![ch]));
                }
            }
        }
        i += 1;
    }
    assert(v@.take(v@.len() as int) == v@);
    if cur.len() > 0 {
        done.push(cur);
    }
    done
}

// ---------------------------------------------------------------------------
// Joining
// ---------------------------------------------------------------------------

/// `[String]::join(sep)`
pub open spec fn join(parts: Seq<Seq<char>>, sep: Seq<char>) -> Seq<char>
    decreases parts.len(),
{
    if parts.len() == 0 {
        Seq::empty()
    } else if parts.len() == 1 {
        parts[0]
    } else {
        join(parts.drop_last(), sep) + sep + parts.last()
    }
}

pub fn join_strings(parts: &Vec<String>, sep: &str) -> (r: String)
    ensures
        r@ == join(strs(parts@), sep@),
{
    let mut r = String::new();
    let mut i: usize = 0;
    while i < parts.len()
        invariant
            0 <= i <= parts@.len(),
            r@ == join(strs(parts@).take(i as int), sep@),
        decreases parts@.len() - i,
    {
        let ghost ps = strs(parts@);
        assert(ps.take(i + 1).drop_last() == ps.take(i as int));
        if i > 0 {
            r.append(sep);
        }
        r.append(parts[i].as_str());
        i += 1;
    }
    assert(strs(parts@).take(parts@.len() as int) == strs(parts@));
    r
}

// ---------------------------------------------------------------------------
// Integers
// ---------------------------------------------------------------------------

/// The value of a run of decimal digits.
pub open spec fn digits_value(d: Seq<char>) -> nat
    decreases d.len(),
{
    if d.len() == 0 {
        0
    } else {
        digits_value(d.drop_last()) * 10 + digit_value(d.last())
    }
}

pub open spec fn all_digits(d: Seq<char>) -> bool {
    forall|i: int| 0 <= i < d.len() ==> is_digit(#[trigger] d[i])
}

/// The digits after an optional leading `+`.
pub open spec fn unsigned_digits(s: Seq<char>) -> Seq<char> {
    if s.len() > 0 && s[0] == '+' {
        s.drop_first()
    } else {
        s
    }
}

/// `str::parse` for an unsigned integer type whose largest value is `max`:
/// an optional `+`, then one or more ASCII digits, without overflow.
pub open spec fn parse_unsigned(s: Seq<char>, max: nat) -> Option<nat> {
    let d = unsigned_digits(s);
    if d.len() > 0 && all_digits(d) && digits_value(d) <= max {
        Some(digits_value(d))
    } else {
        None
    }
}

proof fn lemma_digits_value_grows(d: Seq<char>, k: int)
    requires
        0 <= k <= d.len(),
        all_digits(d),
    ensures
        digits_value(d.take(k)) <= digits_value(d),
    decreases d.len() - k,
{
    if k < d.len() {
        let t = d.take(k + 1);
        assert(t.drop_last() == d.take(k));
        lemma_digits_value_grows(d, k + 1);
    } else {
        assert(d.take(k) == d);
    }
}

/// Parses `v[lo..hi]` as an unsigned integer no larger than `max`.
pub fn parse_uint(v: &Vec<char>, lo: usize, hi: usize, max: u64) -> (r: Option<u64>)
    requires
        lo <= hi <= v@.len(),
    ensures
        r matches Some(x) ==> parse_unsigned(v@.subrange(lo as int, hi as int), max as nat) == Some(x as nat),
        r is None ==> parse_unsigned(v@.subrange(lo as int, hi as int), max as nat) is None,
{
    let ghost s = v@.subrange(lo as int, hi as int);
    let mut start = lo;
    if lo < hi && v[lo] == '+' {
        start = lo + 1;
        assert(s.drop_first() == v@.subrange(start as int, hi as int));
    }
    let ghost d = v@.subrange(start as int, hi as int);
    assert(unsigned_digits(s) == d);
    if start == hi {
        return None;
    }
    let mut acc: u64 = 0;
    let mut i = start;
    while i < hi
        invariant
            lo <= start <= i <= hi <= v@.len(),
            d == v@.subrange(start as int, hi as int),
            s == v@.subrange(lo as int, hi as int),
            unsigned_digits(s) == d,
            d.len() > 0,
            all_digits(d.take(i - start)),
            acc as nat == digits_value(d.take(i - start)),
            acc <= max,
        decreases hi - i,
    {
        let c = v[i];
        let ghost t = d.take(i - start + 1);
        assert(t.drop_last() == d.take(i - start));
        assert(t.last() == c);
        if !(48 <= c as u32 && c as u32 <= 57) {
            assert(!is_digit(d[i - start]));
            return None;
        }
        let dv = (c as u32 - 48) as u64;
        if dv > max || acc > (max - dv) / 10 {
            proof {
                assert(acc * 10 + dv > max) by (nonlinear_arith)
                    requires
                        dv > max || acc > (max - dv) / 10,
                ;
                assert(digits_value(t) == acc * 10 + dv);
                if all_digits(d) {
                    lemma_digits_value_grows(d, i - start + 1);
                }
            }
            return None;
        }
        assert(acc * 10 + dv <= max) by (nonlinear_arith)
            requires
                acc <= (max - dv) / 10,
                dv <= max,
        ;
        acc = acc * 10 + dv;
        assert(all_digits(t));
        i += 1;
    }
    assert(d.take(hi - start) == d);
    Some(acc)
}

/// The decimal representation of `n`, as `u64::to_string` prints it.
pub open spec fn decimal(n: nat) -> Seq<char>
    decreases n,
{
    if n < 10 {
        seq![digit_char(n)]
    } else {
        decimal(n / 10).push(digit_char(n % 10))
    }
}

/// Appends the decimal representation of `n`.
pub fn push_decimal(s: &mut String, n: u64)
    ensures
        final(s)@ == old(s)@ + decimal(n as nat),
    decreases n,
{
    if n >= 10 {
        push_decimal(s, n / 10);
    }
    let d: u8 = (n % 10) as u8;
    let c: char = (d + 48) as char;
    assert(c == digit_char((n % 10) as nat));
    push_char(s, c);
}

/// The decimal representation of `n` is a run of digits worth `n`.
pub proof fn lemma_decimal_digits(n: nat)
    ensures
        decimal(n).len() > 0,
        all_digits(decimal(n)),
        digits_value(decimal(n)) == n,
        decimal(n)[0] != '+',
    decreases n,
{
    let k = n % 10;
    assert(digit_value(digit_char(k)) == k && is_digit(digit_char(k)));
    if n < 10 {
        let d = decimal(n);
        assert(d == seq![digit_char(n)]);
        assert(d.drop_last() =~= Seq::<char>::empty());
        assert(k == n);
        assert(digits_value(d) == digits_value(d.drop_last()) * 10 + digit_value(d.last()));
    }
    if n >= 10 {
        lemma_decimal_digits(n / 10);
        let d = decimal(n);
        assert(d.drop_last() == decimal(n / 10));
        assert(d.last() == digit_char(k));
        assert(digits_value(d) == digits_value(decimal(n / 10)) * 10 + k);
        assert((n / 10) * 10 + k == n);
        assert forall|i: int| 0 <= i < d.len() implies is_digit(#[trigger] d[i]) by {
            if i < d.len() - 1 {
                assert(d[i] == decimal(n / 10)[i]);
            }
        }
    }
}

/// Printing a number and parsing it back gives the number.
pub proof fn lemma_parse_decimal(n: nat, max: nat)
    requires
        n <= max,
    ensures
        parse_unsigned(decimal(n), max) == Some(n),
{
    lemma_decimal_digits(n);
}

// ---------------------------------------------------------------------------
// Replacing
// ---------------------------------------------------------------------------

/// `str::replace(from, to)` with one character replaced by one character.
pub open spec fn replace_char(s: Seq<char>, from: char, to: char) -> Seq<char> {
    s.map_values(|c: char| if c == from { to } else { c })
}

pub fn replace_chars(v: &Vec<char>, from: char, to: char) -> (r: Vec<char>)
    ensures
        r@ == replace_char(v@, from, to),
{
    let mut r: Vec<char> = Vec::new();
    let mut i: usize = 0;
    while i < v.len()
        invariant
            0 <= i <= v@.len(),
            r@ == replace_char(v@.take(i as int), from, to),
        decreases v@.len() - i,
    {
        let c = v[i];
        r.push(if c == from { to } else { c });
        assert(replace_char(v@.take(i + 1), from, to) =~= replace_char(v@.take(i as int), from, to).push(
            if c == from { to } else { c },
        ));
        i += 1;
    }
    assert(v@.take(v@.len() as int) == v@);
    r
}

// ---------------------------------------------------------------------------
// Comparing
// ---------------------------------------------------------------------------

pub fn eq_chars(a: &Vec<char>, b: &Vec<char>) -> (r: bool)
    ensures
        r == (a@ == b@),
{
    if a.len() != b.len() {
        return false;
    }
    let mut i: usize = 0;
    while i < a.len()
        invariant
            a@.len() == b@.len(),
            0 <= i <= a@.len(),
            a@.take(i as int) == b@.take(i as int),
        decreases a@.len() - i,
    {
        if a[i] != b[i] {
            return false;
        }
        assert(a@.take(i + 1) == a@.take(i as int).push(a@[i as int]));
        assert(b@.take(i + 1) == b@.take(i as int).push(b@[i as int]));
        i += 1;
    }
    assert(a@.take(a@.len() as int) == a@);
    assert(b@.take(b@.len() as int) == b@);
    true
}

/// Whether `a` sorts strictly before `b`, as `str::cmp` orders strings: the
/// byte order of UTF-8, which is the order of the characters' code points.
pub open spec fn str_lt(a: Seq<char>, b: Seq<char>) -> bool
    decreases a.len(),
{
    if a.len() == 0 {
        b.len() > 0
    } else if b.len() == 0 {
        false
    } else if a[0] != b[0] {
        a[0] < b[0]
    } else {
        str_lt(a.drop_first(), b.drop_first())
    }
}

pub fn lt_chars(a: &Vec<char>, b: &Vec<char>) -> (r: bool)
    ensures
        r == str_lt(a@, b@),
{
    let mut i: usize = 0;
    assert(a@.skip(0) == a@);
    assert(b@.skip(0) == b@);
    while i < a.len() && i < b.len()
        invariant
            0 <= i <= a@.len(),
            i <= b@.len(),
            a@.take(i as int) == b@.take(i as int),
            str_lt(a@, b@) == str_lt(a@.skip(i as int), b@.skip(i as int)),
        decreases a@.len() - i,
    {
        if a[i] != b[i] {
            return a[i] < b[i];
        }
        assert(a@.skip(i as int).drop_first() == a@.skip(i + 1));
        assert(b@.skip(i as int).drop_first() == b@.skip(i + 1));
        assert(a@.take(i + 1) == a@.take(i as int).push(a@[i as int]));
        assert(b@.take(i + 1) == b@.take(i as int).push(b@[i as int]));
        i += 1;
    }
    i < b.len()
}

// ---------------------------------------------------------------------------
// Searching sequences of lines
// ---------------------------------------------------------------------------

/// The position of the first element of `ls` that satisfies `p`, if any.
pub open spec fn first_index(ls: Seq<Seq<char>>, p: spec_fn(Seq<char>) -> bool) -> Option<int>
    decreases ls.len(),
{
    if ls.len() == 0 {
        None
    } else if p(ls[0]) {
        Some(0)
    } else {
        match first_index(ls.drop_first(), p) {
            Some(i) => Some(i + 1),
            None => None,
        }
    }
}

pub proof fn lemma_first_index(ls: Seq<Seq<char>>, p: spec_fn(Seq<char>) -> bool)
    ensures
        first_index(ls, p) matches Some(i) ==> 0 <= i < ls.len() && p(ls[i]) && forall|j: int|
            0 <= j < i ==> !p(#[trigger] ls[j]),
        first_index(ls, p) is None ==> forall|j: int| 0 <= j < ls.len() ==> !p(#[trigger] ls[j]),
    decreases ls.len(),
{
    if ls.len() > 0 {
        lemma_first_index(ls.drop_first(), p);
        assert forall|j: int| 1 <= j < ls.len() implies ls[j] == ls.drop_first()[j - 1] by {}
    }
}

/// `first_index` is the position `i` when `i` satisfies `p` and none before it does.
pub proof fn lemma_first_index_is(ls: Seq<Seq<char>>, p: spec_fn(Seq<char>) -> bool, i: int)
    requires
        0 <= i <= ls.len(),
        forall|j: int| 0 <= j < i ==> !p(#[trigger] ls[j]),
        i < ls.len() ==> p(ls[i]),
    ensures
        first_index(ls, p) == if i < ls.len() { Some(i) } else { None::<int> },
    decreases i,
{
    if i > 0 {
        assert(!p(ls[0]));
        assert forall|j: int| 0 <= j < i - 1 implies !p(#[trigger] ls.drop_first()[j]) by {
            assert(ls.drop_first()[j] == ls[j + 1]);
        }
        if i < ls.len() {
            assert(ls.drop_first()[i - 1] == ls[i]);
        }
        lemma_first_index_is(ls.drop_first(), p, i - 1);
    }
}

/// Joins `ls` with the separator character `sep`.
pub fn join_chars(ls: &Vec<Vec<char>>, sep: char) -> (r: String)
    ensures
        r@ == join(cseqs(ls@), seq![sep]),
{
    let mut r = String::new();
    let mut i: usize = 0;
    while i < ls.len()
        invariant
            0 <= i <= ls@.len(),
            r@ == join(cseqs(ls@).take(i as int), seq![sep]),
        decreases ls@.len() - i,
    {
        let ghost ps = cseqs(ls@);
        assert(ps.take(i + 1).drop_last() == ps.take(i as int));
        let ghost r0 = r@;
        if i > 0 {
            push_char(&mut r, sep);
        }
        let ghost r1 = r@;
        let l = &ls[i];
        let mut j: usize = 0;
        while j < l.len()
            invariant
                0 <= j <= l@.len(),
                r@ == r1 + l@.take(j as int),
            decreases l@.len() - j,
        {
            push_char(&mut r, l[j]);
            assert(l@.take(j + 1) == l@.take(j as int).push(l@[j as int]));
            j += 1;
        }
        assert(l@.take(l@.len() as int) == l@);
        assert(ps[i as int] == l@);
        if i > 0 {
            assert(r@ == r0 + seq![sep] + l@);
        } else {
            assert(r0 == Seq::<char>::empty());
            assert(r@ =~= l@);
        }
        i += 1;
    }
    assert(cseqs(ls@).take(ls@.len() as int) == cseqs(ls@));
    r
}

/// `str::trim_start_matches` with a character pattern.
pub open spec fn trim_start_char(s: Seq<char>, c: char) -> Seq<char>
    decreases s.len(),
{
    if s.len() > 0 && s[0] == c {
        trim_start_char(s.drop_first(), c)
    } else {
        s
    }
}

pub fn trim_start_char_exec(v: &Vec<char>, c: char) -> (r: Vec<char>)
    ensures
        r@ == trim_start_char(v@, c),
{
    let mut a: usize = 0;
    assert(v@.subrange(0, v@.len() as int) == v@);
    while a < v.len() && v[a] == c
        invariant
            0 <= a <= v@.len(),
            trim_start_char(v@, c) == trim_start_char(v@.subrange(a as int, v@.len() as int), c),
        decreases v@.len() - a,
    {
        assert(v@.subrange(a as int, v@.len() as int).drop_first() == v@.subrange(a + 1, v@.len() as int));
        a += 1;
    }
    copy_range(v, a, v.len())
}

pub open spec fn opt_index(o: Option<usize>) -> Option<int> {
    match o {
        Some(i) => Some(i as int),
        None => None,
    }
}

// ---------------------------------------------------------------------------
// Splitting what was joined
// ---------------------------------------------------------------------------

/// `c` does not occur in `s`.
pub open spec fn free_of(s: Seq<char>, c: char) -> bool {
    forall|i: int| 0 <= i < s.len() ==> s[i] != c
}

proof fn lemma_split_n_append_plain(a: Seq<char>, b: Seq<char>, c: char, n: nat)
    requires
        n >= 1,
        free_of(b, c),
    ensures
        split_n(a + b, c, n) == split_n(a, c, n).update(
            split_n(a, c, n).len() - 1,
            split_n(a, c, n).last() + b,
        ),
    decreases b.len(),
{
    lemma_split_n_len(a, c, n);
    let r = split_n(a, c, n);
    if b.len() == 0 {
        assert(a + b == a);
        assert(r.last() + b == r.last());
        assert(r.update(r.len() - 1, r.last()) =~= r);
    } else {
        let b0 = b.drop_last();
        lemma_split_n_append_plain(a, b0, c, n);
        let s = a + b;
        assert(s.drop_last() == a + b0);
        assert(s.last() == b.last());
        assert(b.last() != c);
        lemma_split_n_len(a + b0, c, n);
        let r0 = split_n(a + b0, c, n);
        assert(r0.last() == r.last() + b0);
        assert((r.last() + b0).push(b.last()) == r.last() + b);
        assert(split_n(s, c, n) =~= r.update(r.len() - 1, r.last() + b));
    }
}

proof fn lemma_join_len(ls: Seq<Seq<char>>, c: char)
    ensures
        join(ls, seq![c]).len() + 1 >= ls.len(),
    decreases ls.len(),
{
    if ls.len() >= 2 {
        lemma_join_len(ls.drop_last(), c);
    }
}

proof fn lemma_split_n_join(ls: Seq<Seq<char>>, c: char, n: nat)
    requires
        1 <= ls.len() <= n,
        forall|i: int| 0 <= i < ls.len() ==> free_of(#[trigger] ls[i], c),
    ensures
        split_n(join(ls, seq![c]), c, n) == ls,
    decreases ls.len(),
{
    if ls.len() == 1 {
        let e = Seq::<char>::empty();
        assert(e + ls[0] == ls[0]);
        lemma_split_n_append_plain(e, ls[0], c, n);
        assert(split_n(e, c, n) == seq![e]);
        assert(seq![e].update(0, e + ls[0]) =~= ls);
    } else {
        let init = ls.drop_last();
        assert forall|i: int| 0 <= i < init.len() implies free_of(#[trigger] init[i], c) by {
            assert(init[i] == ls[i]);
        }
        lemma_split_n_join(init, c, n);
        let a = join(init, seq![c]);
        let ac = a.push(c);
        assert(ac.drop_last() == a);
        assert(split_n(ac, c, n) == init.push(Seq::empty()));
        assert(free_of(ls.last(), c));
        lemma_split_n_append_plain(ac, ls.last(), c, n);
        assert(join(ls, seq![c]) == a + seq![c] + ls.last());
        assert(a + seq![c] + ls.last() == ac + ls.last());
        assert(Seq::<char>::empty() + ls.last() == ls.last());
        assert(init.push(Seq::empty()).update(init.len() as int, Seq::<char>::empty() + ls.last())
            =~= ls);
    }
}

/// Splitting a joined sequence at its separator gives the pieces back.
pub proof fn lemma_split_join(ls: Seq<Seq<char>>, c: char)
    requires
        ls.len() >= 1,
        forall|i: int| 0 <= i < ls.len() ==> free_of(#[trigger] ls[i], c),
    ensures
        split(join(ls, seq![c]), c) == ls,
{
    lemma_join_len(ls, c);
    lemma_split_n_join(ls, c, join(ls, seq![c]).len() + 1);
}

/// What `lines` gives back of lines joined with `\n`: a trailing carriage
/// return goes from every line but the last, and a last empty line goes.
pub open spec fn relined(ls: Seq<Seq<char>>) -> Seq<Seq<char>> {
    if ls.len() == 0 {
        Seq::empty()
    } else {
        let init = ls.drop_last().map_values(|l: Seq<char>| strip_cr(l));
        if ls.last().len() == 0 {
            init
        } else {
            init.push(ls.last())
        }
    }
}

pub proof fn lemma_lines_join(ls: Seq<Seq<char>>)
    requires
        forall|i: int| 0 <= i < ls.len() ==> free_of(#[trigger] ls[i], '\n'),
    ensures
        lines(join(ls, "\n"@)) == relined(ls),
{
    reveal_strlit("\n");
    assert("\n"@ == seq!['\n']);
    if ls.len() == 0 {
        assert(join(ls, "\n"@) == Seq::<char>::empty());
        assert(split(Seq::<char>::empty(), '\n') == seq![Seq::<char>::empty()]);
        assert(seq![Seq::<char>::empty()].drop_last().map_values(|l: Seq<char>| strip_cr(l))
            =~= Seq::<Seq<char>>::empty());
    } else {
        lemma_split_join(ls, '\n');
    }
}

/// The lines of any text hold no line feed.
pub proof fn lemma_lines_free(s: Seq<char>)
    ensures
        forall|i: int| 0 <= i < lines(s).len() ==> free_of(#[trigger] lines(s)[i], '\n'),
{
    lemma_split_free(s, '\n', s.len() + 1);
    lemma_split_n_len(s, '\n', s.len() + 1);
    let p = split(s, '\n');
    assert forall|i: int| 0 <= i < lines(s).len() implies free_of(#[trigger] lines(s)[i], '\n') by {
        if i < p.len() - 1 {
            assert(lines(s)[i] == strip_cr(p[i]));
            assert(free_of(p[i], '\n'));
        } else {
            assert(lines(s)[i] == p.last());
        }
    }
}

/// No piece of `s` split at `c` holds `c`.
pub proof fn lemma_split_free(s: Seq<char>, c: char, n: nat)
    requires
        n >= s.len() + 1,
    ensures
        forall|i: int| 0 <= i < split_n(s, c, n).len() ==> free_of(#[trigger] split_n(s, c, n)[i], c),
    decreases s.len(),
{
    if s.len() > 0 {
        lemma_split_free(s.drop_last(), c, n);
        lemma_split_n_len(s.drop_last(), c, n);
        let r = split_n(s.drop_last(), c, n);
        let t = split_n(s, c, n);
        assert forall|i: int| 0 <= i < t.len() implies free_of(#[trigger] t[i], c) by {
            if s.last() == c {
                assert(t == r.push(Seq::<char>::empty()));
                if i < r.len() {
                    assert(t[i] == r[i]);
                }
            } else {
                if i < r.len() - 1 {
                    assert(t[i] == r[i]);
                } else {
                    assert(t[i] == r.last().push(s.last()));
                    assert(free_of(r[r.len() - 1], c));
                }
            }
        }
    }
}

proof fn lemma_join_split_n(s: Seq<char>, c: char, n: nat)
    requires
        n >= 1,
    ensures
        join(split_n(s, c, n), seq![c]) == s,
    decreases s.len(),
{
    lemma_split_n_len(s, c, n);
    if s.len() > 0 {
        let s0 = s.drop_last();
        lemma_join_split_n(s0, c, n);
        lemma_split_n_len(s0, c, n);
        let r = split_n(s0, c, n);
        if s.last() == c && r.len() < n {
            let r2 = r.push(Seq::<char>::empty());
            assert(r2.drop_last() == r);
            assert(join(r2, seq![c]) =~= s);
        } else {
            let r2 = r.update(r.len() - 1, r.last().push(s.last()));
            if r.len() == 1 {
                assert(join(r2, seq![c]) =~= s);
            } else {
                assert(r2.drop_last() =~= r.drop_last());
                assert(join(r2, seq![c]) == join(r.drop_last(), seq![c]) + seq![c] + r.last().push(s.last()));
                assert(s0 == join(r.drop_last(), seq![c]) + seq![c] + r.last());
                assert(s =~= s0.push(s.last()));
                assert(join(r2, seq![c]) =~= s);
            }
        }
    }
}

/// Joining the pieces of `s` at `c` with `c` gives `s` back.
pub proof fn lemma_join_split(s: Seq<char>, c: char)
    ensures
        join(split(s, c), seq![c]) == s,
{
    lemma_join_split_n(s, c, s.len() + 1);
}

/// The last piece of `s` split at `c` is empty exactly when `s` is empty or
/// ends with `c`.
proof fn lemma_split_last(s: Seq<char>, c: char)
    ensures
        split(s, c).len() >= 1,
        (split(s, c).last().len() == 0) == (s.len() == 0 || s.last() == c),
{
    lemma_split_n_len(s, c, s.len() + 1);
    if s.len() > 0 {
        lemma_split_n_len(s.drop_last(), c, s.len() + 1);
    }
}

/// A line `e` appended to a text that is empty or ends with a line feed:
/// the lines of the text, then `e`.
pub proof fn lemma_lines_append_line(c: Seq<char>, e: Seq<char>)
    requires
        free_of(e, '\n'),
        c.len() == 0 || c.last() == '\n',
    ensures
        lines(c + e + "\n"@) == lines(c).push(strip_cr(e)),
{
    reveal_strlit("\n");
    assert("\n"@ == seq!['\n']);
    let p = split(c, '\n');
    lemma_split_last(c, '\n');
    lemma_join_split(c, '\n');
    lemma_split_free(c, '\n', c.len() + 1);
    let q = p.update(p.len() - 1, e).push(Seq::<char>::empty());
    let pe = p.update(p.len() - 1, e);
    assert(q.drop_last() == pe);
    assert(join(q, seq!['\n']) == join(pe, seq!['\n']) + seq!['\n'] + Seq::<char>::empty());
    if p.len() == 1 {
        assert(join(pe, seq!['\n']) == e);
        assert(c == p[0]);
        assert(c =~= Seq::<char>::empty());
    } else {
        assert(pe.drop_last() =~= p.drop_last());
        assert(join(pe, seq!['\n']) == join(p.drop_last(), seq!['\n']) + seq!['\n'] + e);
        assert(c == join(p.drop_last(), seq!['\n']) + seq!['\n'] + p.last());
        assert(p.last() =~= Seq::<char>::empty());
    }
    assert(join(q, seq!['\n']) =~= c + e + "\n"@);
    assert forall|i: int| 0 <= i < q.len() implies free_of(#[trigger] q[i], '\n') by {
        if i < p.len() - 1 {
            assert(q[i] == p[i]);
        }
    }
    lemma_lines_join(q);
    assert(relined(q) =~= lines(c).push(strip_cr(e)));
}

/// A line feed and then a line `e` appended to a text that neither is empty
/// nor ends with a line feed: the lines of the text, the last without a
/// trailing carriage return, then `e`.
pub proof fn lemma_lines_append_after_feed(c: Seq<char>, e: Seq<char>)
    requires
        free_of(e, '\n'),
        c.len() > 0,
        c.last() != '\n',
    ensures
        lines(c).len() >= 1,
        lines(c.push('\n') + e + "\n"@) == lines(c).update(
            lines(c).len() - 1,
            strip_cr(lines(c).last()),
        ).push(strip_cr(e)),
{
    reveal_strlit("\n");
    assert("\n"@ == seq!['\n']);
    let p = split(c, '\n');
    lemma_split_last(c, '\n');
    lemma_join_split(c, '\n');
    lemma_split_free(c, '\n', c.len() + 1);
    let q = p.push(e).push(Seq::<char>::empty());
    assert(q.drop_last() == p.push(e));
    assert(p.push(e).drop_last() == p);
    assert(join(q, seq!['\n']) == join(p.push(e), seq!['\n']) + seq!['\n'] + Seq::<char>::empty());
    assert(join(p.push(e), seq!['\n']) == c + seq!['\n'] + e);
    assert(join(q, seq!['\n']) =~= c.push('\n') + e + "\n"@);
    assert forall|i: int| 0 <= i < q.len() implies free_of(#[trigger] q[i], '\n') by {
        if i < p.len() {
            assert(q[i] == p[i]);
        }
    }
    lemma_lines_join(q);
    assert(relined(q) =~= lines(c).update(lines(c).len() - 1, strip_cr(lines(c).last())).push(strip_cr(e)));
}

/// Lines joined with line feeds, with a last line feed: `lines` gives them
/// back without trailing carriage returns.
pub proof fn lemma_lines_join_feed(ls: Seq<Seq<char>>)
    requires
        ls.len() > 0,
        forall|i: int| 0 <= i < ls.len() ==> free_of(#[trigger] ls[i], '\n'),
    ensures
        lines(join(ls, "\n"@) + "\n"@) == ls.map_values(|l: Seq<char>| strip_cr(l)),
{
    reveal_strlit("\n");
    assert("\n"@ == seq!['\n']);
    let q = ls.push(Seq::<char>::empty());
    assert(q.drop_last() == ls);
    assert(join(q, seq!['\n']) == join(ls, seq!['\n']) + seq!['\n'] + Seq::<char>::empty());
    assert(join(q, seq!['\n']) =~= join(ls, "\n"@) + "\n"@);
    assert forall|i: int| 0 <= i < q.len() implies free_of(#[trigger] q[i], '\n') by {
        if i < ls.len() {
            assert(q[i] == ls[i]);
        }
    }
    lemma_lines_join(q);
    assert(relined(q) =~= ls.map_values(|l: Seq<char>| strip_cr(l)));
}

/// A character of one of the pieces occurs in the joined text.
pub proof fn lemma_join_has(ls: Seq<Seq<char>>, sep: Seq<char>, k: int, j: int)
    requires
        0 <= k < ls.len(),
        0 <= j < ls[k].len(),
    ensures
        exists|p: int| 0 <= p < join(ls, sep).len() && join(ls, sep)[p] == ls[k][j],
    decreases ls.len(),
{
    if ls.len() == 1 {
        assert(join(ls, sep)[j] == ls[k][j]);
    } else {
        let init = join(ls.drop_last(), sep);
        if k == ls.len() - 1 {
            assert(join(ls, sep)[init.len() + sep.len() + j] == ls[k][j]);
        } else {
            lemma_join_has(ls.drop_last(), sep, k, j);
            let p = choose|p: int| 0 <= p < init.len() && init[p] == ls.drop_last()[k][j];
            assert(join(ls, sep)[p] == init[p]);
        }
    }
}

// ---------------------------------------------------------------------------
// Facts about trimming
// ---------------------------------------------------------------------------

proof fn lemma_trim_start_skip(s: Seq<char>)
    ensures
        exists|k: int| 0 <= k <= s.len() && trim_start(s) == s.skip(k),
        trim_start(s).len() > 0 ==> !is_ws(trim_start(s)[0]),
    decreases s.len(),
{
    if s.len() > 0 && is_ws(s[0]) {
        lemma_trim_start_skip(s.drop_first());
        let k = choose|k: int| 0 <= k <= s.drop_first().len() && trim_start(s.drop_first()) == s.drop_first().skip(k);
        assert(s.drop_first().skip(k) == s.skip(k + 1));
    } else {
        assert(s.skip(0) == s);
    }
}

/// `trim_end` keeps a prefix, which ends in a non-space when not empty.
pub proof fn lemma_trim_end_take(s: Seq<char>)
    ensures
        exists|k: int| 0 <= k <= s.len() && trim_end(s) == s.take(k),
        trim_end(s).len() > 0 ==> !is_ws(trim_end(s).last()),
    decreases s.len(),
{
    if s.len() > 0 && is_ws(s.last()) {
        lemma_trim_end_take(s.drop_last());
        let k = choose|k: int| 0 <= k <= s.drop_last().len() && trim_end(s.drop_last()) == s.drop_last().take(k);
        assert(s.drop_last().take(k) == s.take(k));
    } else {
        assert(s.take(s.len() as int) == s);
    }
}

/// A trimmed string is a piece of the string that neither starts nor ends
/// with whitespace.
pub proof fn lemma_trim_shape(s: Seq<char>)
    ensures
        exists|a: int, b: int| 0 <= a <= b <= s.len() && trim(s) == s.subrange(a, b),
        trim(s).len() > 0 ==> !is_ws(trim(s)[0]) && !is_ws(trim(s).last()),
{
    lemma_trim_start_skip(s);
    let a = choose|k: int| 0 <= k <= s.len() && trim_start(s) == s.skip(k);
    let t = trim_start(s);
    lemma_trim_end_take(t);
    let k = choose|k: int| 0 <= k <= t.len() && trim_end(t) == t.take(k);
    assert(t.take(k) == s.subrange(a, a + k));
    if trim(s).len() > 0 {
        assert(trim(s)[0] == t[0]);
    }
}

/// A string that neither starts nor ends with whitespace is its own trim.
pub proof fn lemma_trim_fixed(s: Seq<char>)
    requires
        s.len() > 0 ==> !is_ws(s[0]) && !is_ws(s.last()),
    ensures
        trim(s) == s,
{
}

/// Trimming keeps a string free of a character.
pub proof fn lemma_trim_free(s: Seq<char>, c: char)
    requires
        free_of(s, c),
    ensures
        free_of(trim(s), c),
{
    lemma_trim_shape(s);
    let (a, b) = choose|a: int, b: int| 0 <= a <= b <= s.len() && trim(s) == s.subrange(a, b);
    assert forall|i: int| 0 <= i < trim(s).len() implies trim(s)[i] != c by {
        assert(trim(s)[i] == s[a + i]);
    }
}

pub proof fn lemma_trim_start_char_free(s: Seq<char>, x: char, c: char)
    requires
        free_of(s, c),
    ensures
        free_of(trim_start_char(s, x), c),
    decreases s.len(),
{
    if s.len() > 0 && s[0] == x {
        assert forall|i: int| 0 <= i < s.drop_first().len() implies s.drop_first()[i] != c by {
            assert(s.drop_first()[i] == s[i + 1]);
        }
        lemma_trim_start_char_free(s.drop_first(), x, c);
    }
}

/// Dropping a final whitespace character does not change the trim.
pub proof fn lemma_trim_drop_ws_last(s: Seq<char>)
    requires
        s.len() > 0,
        is_ws(s.last()),
    ensures
        trim(s.drop_last()) == trim(s),
    decreases s.len(),
{
    if is_ws(s[0]) {
        if s.len() == 1 {
            assert(s.drop_first() == Seq::<char>::empty());
            assert(s.drop_last() == Seq::<char>::empty());
        } else {
            lemma_trim_drop_ws_last(s.drop_first());
            assert(s.drop_last().drop_first() == s.drop_first().drop_last());
            assert(s.drop_first().last() == s.last());
            assert(s.drop_last()[0] == s[0]);
        }
    } else {
        assert(s.len() >= 2);
        assert(s.drop_last()[0] == s[0]);
    }
}

/// A trailing carriage return does not change the trim.
pub proof fn lemma_trim_strip_cr(l: Seq<char>)
    ensures
        trim(strip_cr(l)) == trim(l),
{
    if l.len() > 0 && l.last() == '\r' {
        assert(is_ws('\r'));
        lemma_trim_drop_ws_last(l);
    }
}

/// Decimal digits are neither whitespace nor line feeds nor `#`.
pub proof fn lemma_decimal_plain(n: nat)
    ensures
        forall|i: int| 0 <= i < decimal(n).len() ==> {
            &&& !is_ws(#[trigger] decimal(n)[i])
            &&& decimal(n)[i] != '\n'
            &&& is_digit(decimal(n)[i])
        },
{
    lemma_decimal_digits(n);
}

// ---------------------------------------------------------------------------
// Lists of strings
// ---------------------------------------------------------------------------

/// The elements of `ls` that do not start with `p`, in order.
pub open spec fn drop_prefixed(ls: Seq<Seq<char>>, p: Seq<char>) -> Seq<Seq<char>>
    decreases ls.len(),
{
    if ls.len() == 0 {
        Seq::empty()
    } else if has_prefix(ls.last(), p) {
        drop_prefixed(ls.drop_last(), p)
    } else {
        drop_prefixed(ls.drop_last(), p).push(ls.last())
    }
}

/// Keeps the elements of `v` that do not start with `p` (`Vec::retain`).
pub fn retain_unprefixed(v: &mut Vec<String>, p: &str)
    ensures
        strs(final(v)@) == drop_prefixed(strs(old(v)@), p@),
{
    let pc = chars_of(p);
    let ghost orig = strs(v@);
    let mut out: Vec<String> = Vec::new();
    let mut i: usize = 0;
    while i < v.len()
        invariant
            orig == strs(v@),
            pc@ == p@,
            0 <= i <= v@.len(),
            strs(out@) == drop_prefixed(orig.take(i as int), p@),
        decreases v@.len() - i,
    {
        assert(orig.take(i + 1).drop_last() == orig.take(i as int));
        assert(orig.take(i + 1).last() == v@[i as int]@);
        let e = chars_of(v[i].as_str());
        if !starts_with(&e, &pc) {
            let ghost o0 = strs(out@);
            out.push(v[i].clone());
            assert(strs(out@) =~= o0.push(orig[i as int]));
        }
        i += 1;
    }
    assert(orig.take(v@.len() as int) == orig);
    *v = out;
}

/// `prefix` followed by `value`.
pub fn concat_str(prefix: &str, value: &str) -> (s: String)
    ensures
        s@ == prefix@ + value@,
{
    let mut s = String::from_str(prefix);
    s.append(value);
    s
}

/// Whether two strings are equal.
pub fn str_eq(a: &str, b: &str) -> (r: bool)
    ensures
        r == (a@ == b@),
{
    eq_chars(&chars_of(a), &chars_of(b))
}

/// Whether `s` starts with `p`.
pub fn str_starts_with(s: &str, p: &str) -> (r: bool)
    ensures
        r == has_prefix(s@, p@),
{
    starts_with(&chars_of(s), &chars_of(p))
}

/// Whether `p` occurs in `s`.
pub fn str_contains(s: &str, p: &str) -> (r: bool)
    ensures
        r == has_infix(s@, p@),
{
    contains(&chars_of(s), &chars_of(p))
}

/// `s` trimmed.
pub fn str_trim(s: &str) -> (r: String)
    ensures
        r@ == trim(s@),
{
    let v = chars_of(s);
    let (a, b) = trim_bounds(&v, 0, v.len());
    assert(v@.subrange(0, v@.len() as int) == v@);
    string_from(&v, a, b)
}

/// Appends a copy of `s` to a list of strings.
pub fn push_str_item(v: &mut Vec<String>, s: &str)
    ensures
        strs(final(v)@) == strs(old(v)@).push(s@),
{
    let ghost v0 = strs(v@);
    v.push(String::from_str(s));
    assert(strs(v@) =~= v0.push(s@));
}

/// Appends a string to a list of strings.
pub fn push_string_item(v: &mut Vec<String>, s: String)
    ensures
        strs(final(v)@) == strs(old(v)@).push(s@),
{
    let ghost v0 = strs(v@);
    let ghost sv = s@;
    v.push(s);
    assert(strs(v@) =~= v0.push(sv));
}

/// Appends copies of all of `items` to a list of strings.
pub fn extend_strings(v: &mut Vec<String>, items: &Vec<String>)
    ensures
        strs(final(v)@) == strs(old(v)@) + strs(items@),
{
    let ghost v0 = strs(v@);
    let mut i: usize = 0;
    while i < items.len()
        invariant
            0 <= i <= items@.len(),
            strs(v@) == v0 + strs(items@).take(i as int),
        decreases items@.len() - i,
    {
        let ghost b0 = strs(v@);
        v.push(items[i].clone());
        assert(strs(v@) =~= b0.push(items@[i as int]@));
        assert(strs(items@).take(i + 1) =~= strs(items@).take(i as int).push(items@[i as int]@));
        i += 1;
    }
    assert(strs(items@).take(items@.len() as int) == strs(items@));
}

pub open spec fn opt_str(o: Option<String>) -> Option<Seq<char>> {
    match o {
        Some(s) => Some(s@),
        None => None,
    }
}

/// What `str::to_lowercase` gives: the Unicode lowercase mapping.
pub uninterp spec fn spec_to_lowercase(s: Seq<char>) -> Seq<char>;

/// `str::to_lowercase`.  The contract says no more than that the result is
/// the named function of the text.
#[verifier::external_body]
pub(crate) fn to_lowercase(s: &str) -> (r: String)
    ensures
        r@ == spec_to_lowercase(s@),
{
    s.to_lowercase()
}

/// The elements of `ls` that satisfy `p`, in order.
pub open spec fn keep(ls: Seq<Seq<char>>, p: spec_fn(Seq<char>) -> bool) -> Seq<Seq<char>>
    decreases ls.len(),
{
    if ls.len() == 0 {
        Seq::empty()
    } else if p(ls.last()) {
        keep(ls.drop_last(), p).push(ls.last())
    } else {
        keep(ls.drop_last(), p)
    }
}

pub open spec fn nonempty_fn() -> spec_fn(Seq<char>) -> bool {
    |s: Seq<char>| s.len() > 0
}

/// `v` as a string.
pub fn string_of(v: &Vec<char>) -> (s: String)
    ensures
        s@ == v@,
{
    assert(v@.subrange(0, v@.len() as int) == v@);
    string_from(v, 0, v.len())
}

/// `v` parsed as an unsigned integer no larger than `max`, or 0.
pub fn parse_or_zero(v: &Vec<char>, max: u64) -> (n: u64)
    ensures
        n as nat == match parse_unsigned(v@, max as nat) {
            Some(x) => x,
            None => 0,
        },
{
    assert(v@.subrange(0, v@.len() as int) == v@);
    match parse_uint(v, 0, v.len(), max) {
        Some(x) => x,
        None => 0,
    }
}

/// `str::trim_start_matches` with a string pattern: every leading copy of
/// `p` is removed.
pub open spec fn trim_start_str(s: Seq<char>, p: Seq<char>) -> Seq<char>
    decreases s.len(),
{
    if p.len() > 0 && has_prefix(s, p) {
        trim_start_str(s.skip(p.len() as int), p)
    } else {
        s
    }
}

pub fn trim_start_str_exec(v: &Vec<char>, p: &Vec<char>) -> (r: Vec<char>)
    ensures
        r@ == trim_start_str(v@, p@),
{
    let mut a: usize = 0;
    let n: usize = v.len();
    assert(v@.skip(0) == v@);
    while p.len() > 0 && occurs_at(v, p, a)
        invariant
            n == v@.len(),
            0 <= a <= v@.len(),
            trim_start_str(v@, p@) == trim_start_str(v@.skip(a as int), p@),
        decreases v@.len() - a,
    {
        assert(v@.skip(a as int).take(p@.len() as int) == v@.subrange(a as int, a + p@.len()));
        assert(v@.skip(a as int).skip(p@.len() as int) == v@.skip(a + p@.len()));
        a += p.len();
    }
    if p.len() > 0 && p.len() <= v.len() - a {
        assert(v@.skip(a as int).take(p@.len() as int) == v@.subrange(a as int, a + p@.len()));
    }
    assert(v@.subrange(a as int, v@.len() as int) == v@.skip(a as int));
    copy_range(v, a, v.len())
}


/// A text with a character that is not whitespace trims to a text that is
/// not empty.
pub proof fn lemma_trim_nonempty(s: Seq<char>, i: int)
    requires
        0 <= i < s.len(),
        !is_ws(s[i]),
    ensures
        trim(s).len() > 0,
    decreases s.len(),
{
    if is_ws(s[0]) {
        assert(s.drop_first()[i - 1] == s[i]);
        lemma_trim_nonempty(s.drop_first(), i - 1);
    } else {
        lemma_trim_end_nonempty(s, i);
    }
}

proof fn lemma_trim_end_nonempty(s: Seq<char>, i: int)
    requires
        0 <= i < s.len(),
        !is_ws(s[i]),
    ensures
        trim_end(s).len() > 0,
    decreases s.len(),
{
    if is_ws(s.last()) {
        assert(s.drop_last()[i] == s[i]);
        lemma_trim_end_nonempty(s.drop_last(), i);
    }
}


/// An element is kept exactly when it occurs and satisfies the predicate.
pub proof fn lemma_keep_contains(ls: Seq<Seq<char>>, p: spec_fn(Seq<char>) -> bool, x: Seq<char>)
    ensures
        keep(ls, p).contains(x) <==> (ls.contains(x) && p(x)),
    decreases ls.len(),
{
    if ls.len() > 0 {
        let dl = ls.drop_last();
        lemma_keep_contains(dl, p, x);
        let k0 = keep(dl, p);
        if ls.contains(x) && p(x) {
            let i = choose|i: int| 0 <= i < ls.len() && ls[i] == x;
            if i == ls.len() - 1 {
                assert(keep(ls, p) == k0.push(x));
                assert(keep(ls, p)[k0.len() as int] == x);
            } else {
                assert(dl[i] == x);
                assert(dl.contains(x));
                let j = choose|j: int| 0 <= j < k0.len() && k0[j] == x;
                if p(ls.last()) {
                    assert(keep(ls, p)[j] == x);
                }
            }
        }
        if keep(ls, p).contains(x) {
            let j = choose|j: int| 0 <= j < keep(ls, p).len() && keep(ls, p)[j] == x;
            if p(ls.last()) && j == k0.len() {
                assert(x == ls.last());
                assert(ls[ls.len() - 1] == x);
            } else {
                assert(k0[j] == x);
                assert(k0.contains(x));
                let i = choose|i: int| 0 <= i < dl.len() && dl[i] == x;
                assert(ls[i] == x);
            }
        }
    }
}


/// A word: not empty, and without whitespace.
pub open spec fn is_word(w: Seq<char>) -> bool {
    w.len() > 0 && forall|i: int| 0 <= i < w.len() ==> !is_ws(#[trigger] w[i])
}

/// The words of a text are words.
pub proof fn lemma_words_are_words(s: Seq<char>)
    ensures
        forall|i: int| 0 <= i < words(s).len() ==> is_word(#[trigger] words(s)[i]),
    decreases s.len(),
{
    if s.len() > 0 {
        let s0 = s.drop_last();
        lemma_words_are_words(s0);
        let r = words(s0);
        let c = s.last();
        if !is_ws(c) && s.len() >= 2 && !is_ws(s[s.len() - 2]) {
            assert(s0.last() == s[s.len() - 2]);
            lemma_words_nonempty(s0);
        }
        assert forall|i: int| 0 <= i < words(s).len() implies is_word(#[trigger] words(s)[i]) by {
            if !is_ws(c) {
                if s.len() >= 2 && !is_ws(s[s.len() - 2]) {
                    if i == r.len() - 1 {
                        let w = r.last().push(c);
                        assert(words(s)[i] == w);
                        assert(is_word(r[r.len() - 1]));
                        assert forall|k: int| 0 <= k < w.len() implies !is_ws(#[trigger] w[k]) by {
                            if k < w.len() - 1 {
                                assert(w[k] == r.last()[k]);
                            }
                        }
                    } else {
                        assert(words(s)[i] == r[i]);
                    }
                } else if i == r.len() {
                    assert(words(s)[i] == seq![c]);
                } else {
                    assert(words(s)[i] == r[i]);
                }
            }
        }
    }
}

/// A word appended to a text that is empty or ends with whitespace adds
/// that word.
proof fn lemma_words_append_word(s: Seq<char>, w: Seq<char>)
    requires
        s.len() == 0 || is_ws(s.last()),
        is_word(w),
    ensures
        words(s + w) == words(s).push(w),
    decreases w.len(),
{
    let t = s + w;
    let w0 = w.drop_last();
    assert(t.drop_last() == s + w0);
    assert(t.last() == w.last());
    if w0.len() == 0 {
        assert(s + w0 == s);
        assert(w =~= seq![w.last()]);
        if t.len() >= 2 {
            assert(t[t.len() - 2] == s.last());
        }
    } else {
        assert forall|k: int| 0 <= k < w0.len() implies !is_ws(#[trigger] w0[k]) by {
            assert(w0[k] == w[k]);
        }
        lemma_words_append_word(s, w0);
        assert(t[t.len() - 2] == w0.last());
        assert(w0.push(w.last()) =~= w);
        assert(words(s).push(w0).update(words(s).len() as int, w0.push(w.last())) =~= words(s).push(w));
    }
}

/// Words joined with single spaces split back into the same words.
pub proof fn lemma_words_join(ws: Seq<Seq<char>>)
    requires
        forall|i: int| 0 <= i < ws.len() ==> is_word(#[trigger] ws[i]),
    ensures
        words(join(ws, " "@)) == ws,
    decreases ws.len(),
{
    reveal_strlit(" ");
    if ws.len() == 0 {
        assert(words(Seq::<char>::empty()) =~= ws);
    } else if ws.len() == 1 {
        assert(Seq::<char>::empty() + ws[0] == ws[0]);
        lemma_words_append_word(Seq::<char>::empty(), ws[0]);
        assert(words(join(ws, " "@)) =~= ws);
    } else {
        let init = ws.drop_last();
        assert forall|i: int| 0 <= i < init.len() implies is_word(#[trigger] init[i]) by {
            assert(init[i] == ws[i]);
        }
        lemma_words_join(init);
        let a = join(init, " "@) + " "@;
        assert(a.last() == ' ');
        assert(is_ws(' '));
        assert(a.drop_last() == join(init, " "@));
        assert(words(a) == words(join(init, " "@)));
        assert(is_word(ws[ws.len() - 1]));
        lemma_words_append_word(a, ws.last());
        assert(join(ws, " "@) == a + ws.last());
        assert(words(join(ws, " "@)) =~= ws);
    }
}


/// Trimming the end of a text whose second part does not trim away
/// entirely leaves the first part as it is.
pub proof fn lemma_trim_end_append(a: Seq<char>, b: Seq<char>)
    requires
        trim_end(b).len() > 0,
    ensures
        trim_end(a + b) == a + trim_end(b),
    decreases b.len(),
{
    if b.len() > 0 && is_ws(b.last()) {
        assert((a + b).drop_last() == a + b.drop_last());
        assert((a + b).last() == b.last());
        lemma_trim_end_append(a, b.drop_last());
    } else if b.len() == 0 {
    } else {
        assert((a + b).last() == b.last());
    }
}

/// The end-trimmed text is a prefix of the text.
pub proof fn lemma_trim_end_prefix(s: Seq<char>)
    ensures
        trim_end(s).len() <= s.len(),
        trim_end(s) == s.take(trim_end(s).len() as int),
{
    lemma_trim_end_take(s);
}

} // verus!
