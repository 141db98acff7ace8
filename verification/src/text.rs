//! Character-sequence utilities: trimming, searching, splitting and joining,
//! with spec-level definitions over `Seq<char>` and verified executable
//! counterparts over `&str`.

use vstd::prelude::*;

verus! {

use vstd::string::StrSliceExecFns;
use vstd::string::StringExecFns;

/// The characters `char::is_whitespace` recognizes (the Unicode `White_Space` set).
pub open spec fn is_wspace(c: char) -> bool {
    let u = c as u32;
    (0x09 <= u && u <= 0x0d) || u == 0x20 || u == 0x85 || u == 0xa0 || u == 0x1680 || (0x2000 <= u
        && u <= 0x200a) || u == 0x2028 || u == 0x2029 || u == 0x202f || u == 0x205f || u == 0x3000
}

pub fn is_wspace_char(c: char) -> (b: bool)
    ensures
        b == is_wspace(c),
{
    let u = c as u32;
    (0x09 <= u && u <= 0x0d) || u == 0x20 || u == 0x85 || u == 0xa0 || u == 0x1680 || (0x2000 <= u
        && u <= 0x200a) || u == 0x2028 || u == 0x2029 || u == 0x202f || u == 0x205f || u == 0x3000
}

pub fn str_eq(a: &str, b: &str) -> (r: bool)
    ensures
        r == (a@ == b@),
{
    let na = a.unicode_len();
    let nb = b.unicode_len();
    if na != nb {
        return false;
    }
    let mut i: usize = 0;
    while i < na
        invariant
            na as nat == a@.len(),
            na as nat == b@.len(),
            i <= na,
            forall|j: int| 0 <= j < i ==> a@[j] == b@[j],
        decreases na - i,
    {
        if a.get_char(i) != b.get_char(i) {
            return false;
        }
        i += 1;
    }
    proof {
        assert(a@ =~= b@);
    }
    true
}

pub open spec fn spec_starts_with(s: Seq<char>, p: Seq<char>) -> bool {
    p.len() <= s.len() && s.subrange(0, p.len() as int) == p
}

pub fn str_starts_with(s: &str, p: &str) -> (r: bool)
    ensures
        r == spec_starts_with(s@, p@),
{
    let ns = s.unicode_len();
    let np = p.unicode_len();
    if np > ns {
        return false;
    }
    let mut i: usize = 0;
    while i < np
        invariant
            ns as nat == s@.len(),
            np as nat == p@.len(),
            np <= ns,
            i <= np,
            forall|j: int| 0 <= j < i ==> s@[j] == p@[j],
        decreases np - i,
    {
        if s.get_char(i) != p.get_char(i) {
            proof {
                assert(s@.subrange(0, p@.len() as int)[i as int] == s@[i as int]);
            }
            return false;
        }
        i += 1;
    }
    proof {
        assert(s@.subrange(0, p@.len() as int) =~= p@);
    }
    true
}

/// Index of the first `c` at or after `i`, or `t.len()` if there is none.
pub open spec fn spec_find_at(t: Seq<char>, c: char, i: int) -> int
    decreases t.len() - i,
    when 0 <= i <= t.len()
{
    if i == t.len() {
        i
    } else if t[i] == c {
        i
    } else {
        spec_find_at(t, c, i + 1)
    }
}

pub open spec fn spec_find(t: Seq<char>, c: char) -> int {
    spec_find_at(t, c, 0)
}

pub fn find_char(s: &str, c: char) -> (r: usize)
    ensures
        r as int == spec_find(s@, c),
        r as nat <= s@.len(),
        (r as nat) < s@.len() ==> s@[r as int] == c,
{
    let n = s.unicode_len();
    let mut i: usize = 0;
    while i < n
        invariant
            n as nat == s@.len(),
            i <= n,
            spec_find(s@, c) == spec_find_at(s@, c, i as int),
        decreases n - i,
    {
        if s.get_char(i) == c {
            return i;
        }
        i += 1;
    }
    i
}

pub open spec fn seq_contains_char(t: Seq<char>, c: char) -> bool {
    exists|j: int| 0 <= j < t.len() && t[j] == c
}

/// `x` is a contiguous substring of `t`.
pub open spec fn is_substring_of(x: Seq<char>, t: Seq<char>) -> bool {
    exists|a: int, b: int| 0 <= a <= b <= t.len() && x == t.subrange(a, b)
}

pub proof fn lemma_substring_refl(t: Seq<char>)
    ensures
        is_substring_of(t, t),
{
    assert(t.subrange(0, t.len() as int) =~= t);
}

pub proof fn lemma_substring_trans(x: Seq<char>, y: Seq<char>, t: Seq<char>)
    requires
        is_substring_of(x, y),
        is_substring_of(y, t),
    ensures
        is_substring_of(x, t),
{
    let (a1, b1) = choose|a: int, b: int| 0 <= a <= b <= y.len() && x == y.subrange(a, b);
    let (a2, b2) = choose|a: int, b: int| 0 <= a <= b <= t.len() && y == t.subrange(a, b);
    assert(y.subrange(a1, b1) =~= t.subrange(a2 + a1, a2 + b1));
}

pub proof fn lemma_strip_trailing_substring(t: Seq<char>, c: char)
    ensures
        is_substring_of(strip_trailing(t, c), t),
    decreases t.len(),
{
    if t.len() > 0 && t.last() == c {
        lemma_strip_trailing_substring(t.drop_last(), c);
        assert(is_substring_of(t.drop_last(), t)) by {
            assert(t.drop_last() =~= t.subrange(0, t.len() - 1));
        }
        lemma_substring_trans(strip_trailing(t, c), t.drop_last(), t);
    } else {
        lemma_substring_refl(t);
    }
}

pub proof fn lemma_strip_leading_substring(t: Seq<char>, c: char)
    ensures
        is_substring_of(strip_leading(t, c), t),
    decreases t.len(),
{
    if t.len() > 0 && t[0] == c {
        lemma_strip_leading_substring(t.drop_first(), c);
        assert(is_substring_of(t.drop_first(), t)) by {
            assert(t.drop_first() =~= t.subrange(1, t.len() as int));
        }
        lemma_substring_trans(strip_leading(t, c), t.drop_first(), t);
    } else {
        lemma_substring_refl(t);
    }
}

pub proof fn lemma_trim_start_substring(t: Seq<char>)
    ensures
        is_substring_of(spec_trim_start(t), t),
    decreases t.len(),
{
    if t.len() > 0 && is_wspace(t[0]) {
        lemma_trim_start_substring(t.drop_first());
        assert(is_substring_of(t.drop_first(), t)) by {
            assert(t.drop_first() =~= t.subrange(1, t.len() as int));
        }
        lemma_substring_trans(spec_trim_start(t), t.drop_first(), t);
    } else {
        lemma_substring_refl(t);
    }
}

pub proof fn lemma_trim_end_substring(t: Seq<char>)
    ensures
        is_substring_of(spec_trim_end(t), t),
    decreases t.len(),
{
    if t.len() > 0 && is_wspace(t.last()) {
        lemma_trim_end_substring(t.drop_last());
        assert(is_substring_of(t.drop_last(), t)) by {
            assert(t.drop_last() =~= t.subrange(0, t.len() - 1));
        }
        lemma_substring_trans(spec_trim_end(t), t.drop_last(), t);
    } else {
        lemma_substring_refl(t);
    }
}

pub proof fn lemma_trim_substring(t: Seq<char>)
    ensures
        is_substring_of(spec_trim(t), t),
{
    lemma_trim_start_substring(t);
    lemma_trim_end_substring(spec_trim_start(t));
    lemma_substring_trans(spec_trim(t), spec_trim_start(t), t);
}

pub proof fn lemma_strip_prefix_rep_substring(t: Seq<char>, p: Seq<char>)
    ensures
        is_substring_of(strip_prefix_rep(t, p), t),
    decreases t.len(),
{
    if p.len() > 0 && spec_starts_with(t, p) {
        lemma_strip_prefix_rep_substring(t.skip(p.len() as int), p);
        assert(is_substring_of(t.skip(p.len() as int), t)) by {
            assert(t.skip(p.len() as int) =~= t.subrange(p.len() as int, t.len() as int));
        }
        lemma_substring_trans(strip_prefix_rep(t, p), t.skip(p.len() as int), t);
    } else {
        lemma_substring_refl(t);
    }
}

pub proof fn lemma_find_char_bounds(t: Seq<char>, c: char, i: int)
    requires
        0 <= i <= t.len(),
    ensures
        i <= spec_find_at(t, c, i) <= t.len(),
    decreases t.len() - i,
{
    if i < t.len() && t[i] != c {
        lemma_find_char_bounds(t, c, i + 1);
    }
}

pub proof fn lemma_find_sub_bounds(t: Seq<char>, p: Seq<char>, i: int)
    requires
        0 <= i,
        p.len() > 0,
    ensures
        ({
            match spec_find_sub_at(t, p, i) {
                Some(r) => i <= r && r + p.len() <= t.len(),
                None => true,
            }
        }),
    decreases t.len() - i,
{
    if i + p.len() <= t.len() && t.subrange(i, i + p.len() as int) != p {
        lemma_find_sub_bounds(t, p, i + 1);
    }
}

/// The first `c` at or after `i` is at `p` when `p` holds `c` and nothing
/// before it does.
pub proof fn lemma_find_char_unique(t: Seq<char>, c: char, i: int, p: int)
    requires
        0 <= i <= p < t.len(),
        t[p] == c,
        forall|j: int| i <= j < p ==> t[j] != c,
    ensures
        spec_find_at(t, c, i) == p,
    decreases p - i,
{
    if i < p {
        lemma_find_char_unique(t, c, i + 1, p);
    }
}

pub fn contains_char(s: &str, c: char) -> (b: bool)
    ensures
        b == seq_contains_char(s@, c),
{
    let n = s.unicode_len();
    let mut i: usize = 0;
    while i < n
        invariant
            n as nat == s@.len(),
            i <= n,
            forall|j: int| 0 <= j < i ==> s@[j] != c,
        decreases n - i,
    {
        if s.get_char(i) == c {
            return true;
        }
        i += 1;
    }
    false
}

/// Position of the first occurrence of the non-empty pattern `p` in `t` at or
/// after `i`.
pub open spec fn spec_find_sub_at(t: Seq<char>, p: Seq<char>, i: int) -> Option<int>
    decreases t.len() - i,
    when 0 <= i && p.len() > 0
{
    if i + p.len() > t.len() {
        None
    } else if t.subrange(i, i + p.len() as int) == p {
        Some(i)
    } else {
        spec_find_sub_at(t, p, i + 1)
    }
}

pub open spec fn spec_find_sub(t: Seq<char>, p: Seq<char>) -> Option<int> {
    spec_find_sub_at(t, p, 0)
}

fn matches_at(s: &str, i: usize, p: &str) -> (b: bool)
    requires
        i as nat + p@.len() <= s@.len(),
        s@.len() <= usize::MAX as nat,
    ensures
        b == (s@.subrange(i as int, i as int + p@.len() as int) == p@),
{
    let np = p.unicode_len();
    let mut j: usize = 0;
    while j < np
        invariant
            np as nat == p@.len(),
            i as nat + p@.len() <= s@.len(),
            s@.len() <= usize::MAX as nat,
            j <= np,
            forall|k: int| 0 <= k < j ==> s@[i + k] == p@[k],
        decreases np - j,
    {
        if s.get_char(i + j) != p.get_char(j) {
            proof {
                assert(s@.subrange(i as int, i as int + p@.len() as int)[j as int] == s@[i + j]);
            }
            return false;
        }
        j += 1;
    }
    proof {
        assert(s@.subrange(i as int, i as int + p@.len() as int) =~= p@);
    }
    true
}

pub fn find_sub(s: &str, p: &str) -> (r: Option<usize>)
    requires
        p@.len() > 0,
    ensures
        match r {
            Some(i) => spec_find_sub(s@, p@) == Some(i as int) && i as nat + p@.len() <= s@.len(),
            None => spec_find_sub(s@, p@) is None,
        },
{
    let n = s.unicode_len();
    let np = p.unicode_len();
    if np > n {
        return None;
    }
    let mut i: usize = 0;
    while i <= n - np
        invariant
            n as nat == s@.len(),
            np as nat == p@.len(),
            np >= 1,
            np <= n,
            i <= n,
            spec_find_sub(s@, p@) == spec_find_sub_at(s@, p@, i as int),
        decreases n - i,
    {
        if matches_at(s, i, p) {
            return Some(i);
        }
        i += 1;
    }
    None
}

pub open spec fn spec_trim_start(t: Seq<char>) -> Seq<char>
    decreases t.len(),
{
    if t.len() > 0 && is_wspace(t[0]) {
        spec_trim_start(t.drop_first())
    } else {
        t
    }
}

pub open spec fn spec_trim_end(t: Seq<char>) -> Seq<char>
    decreases t.len(),
{
    if t.len() > 0 && is_wspace(t.last()) {
        spec_trim_end(t.drop_last())
    } else {
        t
    }
}

/// What `str::trim` leaves: the input without leading and trailing whitespace.
pub open spec fn spec_trim(t: Seq<char>) -> Seq<char> {
    spec_trim_end(spec_trim_start(t))
}

pub fn trim_str<'a>(s: &'a str) -> (r: &'a str)
    ensures
        r@ == spec_trim(s@),
{
    let n = s.unicode_len();
    proof {
        assert(s@.subrange(0, n as int) =~= s@);
    }
    let mut a: usize = 0;
    while a < n && is_wspace_char(s.get_char(a))
        invariant
            n as nat == s@.len(),
            a <= n,
            spec_trim_start(s@) == spec_trim_start(s@.subrange(a as int, n as int)),
        decreases n - a,
    {
        proof {
            assert(s@.subrange(a as int, n as int).drop_first() =~= s@.subrange(
                a as int + 1,
                n as int,
            ));
        }
        a += 1;
    }
    proof {
        assert(spec_trim_start(s@) == s@.subrange(a as int, n as int));
    }
    let mut b: usize = n;
    while b > a && is_wspace_char(s.get_char(b - 1))
        invariant
            n as nat == s@.len(),
            a <= b <= n,
            spec_trim_end(s@.subrange(a as int, n as int)) == spec_trim_end(
                s@.subrange(a as int, b as int),
            ),
        decreases b - a,
    {
        proof {
            assert(s@.subrange(a as int, b as int).drop_last() =~= s@.subrange(
                a as int,
                b as int - 1,
            ));
        }
        b -= 1;
    }
    s.substring_char(a, b)
}

pub open spec fn spec_split(t: Seq<char>, sep: char) -> Seq<Seq<char>>
    decreases t.len(),
{
    let i = spec_find(t, sep);
    if 0 <= i < t.len() && t[i] == sep {
        seq![t.take(i)] + spec_split(t.skip(i + 1), sep)
    } else {
        seq![t]
    }
}

pub fn split_str<'a>(s: &'a str, sep: char) -> (r: Vec<&'a str>)
    ensures
        r.deep_view() == spec_split(s@, sep),
        r@.len() >= 1,
    decreases s@.len(),
{
    let n = s.unicode_len();
    let i = find_char(s, sep);
    if i == n {
        let mut v: Vec<&'a str> = Vec::new();
        v.push(s);
        proof {
            assert(v.deep_view() =~~= spec_split(s@, sep));
        }
        v
    } else {
        let head = s.substring_char(0, i);
        let tail = s.substring_char(i + 1, n);
        let mut rest = split_str(tail, sep);
        let ghost r0 = rest.deep_view();
        rest.insert(0, head);
        proof {
            assert(tail@ =~= s@.skip(i as int + 1));
            assert(rest.deep_view() =~~= seq![head@] + r0);
            assert(rest.deep_view() =~~= spec_split(s@, sep));
        }
        rest
    }
}

pub open spec fn strip_cr(l: Seq<char>) -> Seq<char> {
    if l.len() > 0 && l.last() == '\r' {
        l.drop_last()
    } else {
        l
    }
}

/// What `str::lines` yields: segments between newlines, without a final empty
/// segment after a trailing newline, each with one trailing `'\r'` removed.
pub open spec fn spec_lines(t: Seq<char>) -> Seq<Seq<char>> {
    if t.len() == 0 {
        Seq::empty()
    } else {
        let segs = spec_split(t, '\n');
        let kept = if t.last() == '\n' {
            segs.drop_last()
        } else {
            segs
        };
        kept.map_values(|l: Seq<char>| strip_cr(l))
    }
}

pub fn lines_of<'a>(text: &'a str) -> (r: Vec<&'a str>)
    ensures
        r.deep_view() == spec_lines(text@),
{
    let n = text.unicode_len();
    let mut out: Vec<&'a str> = Vec::new();
    if n == 0 {
        proof {
            assert(out.deep_view() =~~= spec_lines(text@));
        }
        return out;
    }
    let mut segs = split_str(text, '\n');
    let ghost s0 = segs.deep_view();
    if text.get_char(n - 1) == '\n' {
        let _last = segs.pop();
        proof {
            assert(segs.deep_view() =~~= s0.drop_last());
        }
    }
    let ghost kept: Seq<Seq<char>> = segs.deep_view();
    proof {
        assert(kept =~~= if text@.last() == '\n' {
            spec_split(text@, '\n').drop_last()
        } else {
            spec_split(text@, '\n')
        });
    }
    let m = segs.len();
    let mut i: usize = 0;
    while i < m
        invariant
            m as nat == segs@.len(),
            kept == segs.deep_view(),
            i <= m,
            out@.len() == i as nat,
            forall|k: int| 0 <= k < i ==> out.deep_view()[k] == strip_cr(kept[k]),
        decreases m - i,
    {
        let l: &str = segs[i];
        let ghost o0 = out.deep_view();
        let ln = l.unicode_len();
        if ln > 0 && l.get_char(ln - 1) == '\r' {
            let stripped = l.substring_char(0, ln - 1);
            proof {
                assert(stripped@ =~= strip_cr(kept[i as int]));
            }
            out.push(stripped);
        } else {
            proof {
                assert(l@ == strip_cr(kept[i as int]));
            }
            out.push(l);
        }
        proof {
            assert(out.deep_view() =~~= o0.push(out@.last()@));
        }
        i += 1;
    }
    proof {
        assert(out.deep_view() =~~= spec_lines(text@));
    }
    out
}

pub open spec fn strip_trailing(t: Seq<char>, c: char) -> Seq<char>
    decreases t.len(),
{
    if t.len() > 0 && t.last() == c {
        strip_trailing(t.drop_last(), c)
    } else {
        t
    }
}

pub open spec fn strip_leading(t: Seq<char>, c: char) -> Seq<char>
    decreases t.len(),
{
    if t.len() > 0 && t[0] == c {
        strip_leading(t.drop_first(), c)
    } else {
        t
    }
}

pub fn strip_trailing_str<'a>(s: &'a str, c: char) -> (r: &'a str)
    ensures
        r@ == strip_trailing(s@, c),
{
    let n = s.unicode_len();
    proof {
        assert(s@.subrange(0, n as int) =~= s@);
    }
    let mut b: usize = n;
    while b > 0 && s.get_char(b - 1) == c
        invariant
            n as nat == s@.len(),
            b <= n,
            strip_trailing(s@, c) == strip_trailing(s@.subrange(0, b as int), c),
        decreases b,
    {
        proof {
            assert(s@.subrange(0, b as int).drop_last() =~= s@.subrange(0, b as int - 1));
        }
        b -= 1;
    }
    s.substring_char(0, b)
}

pub fn strip_leading_str<'a>(s: &'a str, c: char) -> (r: &'a str)
    ensures
        r@ == strip_leading(s@, c),
{
    let n = s.unicode_len();
    proof {
        assert(s@.subrange(0, n as int) =~= s@);
    }
    let mut a: usize = 0;
    while a < n && s.get_char(a) == c
        invariant
            n as nat == s@.len(),
            a <= n,
            strip_leading(s@, c) == strip_leading(s@.subrange(a as int, n as int), c),
        decreases n - a,
    {
        proof {
            assert(s@.subrange(a as int, n as int).drop_first() =~= s@.subrange(
                a as int + 1,
                n as int,
            ));
        }
        a += 1;
    }
    s.substring_char(a, n)
}

/// The input with every leading copy of the (non-empty) prefix `p` removed.
pub open spec fn strip_prefix_rep(t: Seq<char>, p: Seq<char>) -> Seq<char>
    decreases t.len(),
{
    if p.len() > 0 && spec_starts_with(t, p) {
        strip_prefix_rep(t.skip(p.len() as int), p)
    } else {
        t
    }
}

pub fn strip_prefix_rep_str<'a>(s: &'a str, p: &str) -> (r: &'a str)
    ensures
        r@ == strip_prefix_rep(s@, p@),
{
    let np = p.unicode_len();
    let mut cur: &'a str = s;
    let mut go: bool = np > 0 && str_starts_with(cur, p);
    while go
        invariant
            np as nat == p@.len(),
            strip_prefix_rep(s@, p@) == strip_prefix_rep(cur@, p@),
            go == (np > 0 && spec_starts_with(cur@, p@)),
        decreases cur@.len(),
    {
        let n2 = cur.unicode_len();
        let next = cur.substring_char(np, n2);
        proof {
            assert(next@ =~= cur@.skip(p@.len() as int));
        }
        cur = next;
        go = np > 0 && str_starts_with(cur, p);
    }
    cur
}

/// First index at or after `i` whose character is `' '`, capped at `l.len()`.
pub open spec fn scan_to_space(l: Seq<char>, i: int) -> int
    decreases l.len() - i,
    when 0 <= i <= l.len()
{
    if i == l.len() {
        i
    } else if l[i] == ' ' {
        i
    } else {
        scan_to_space(l, i + 1)
    }
}

/// First index at or after `i` whose character is not `' '`, capped at `l.len()`.
pub open spec fn scan_spaces(l: Seq<char>, i: int) -> int
    decreases l.len() - i,
    when 0 <= i <= l.len()
{
    if i == l.len() {
        i
    } else if l[i] == ' ' {
        scan_spaces(l, i + 1)
    } else {
        i
    }
}

pub fn scan_to_space_at(s: &str, i: usize) -> (r: usize)
    requires
        i as nat <= s@.len(),
    ensures
        r as int == scan_to_space(s@, i as int),
        i <= r,
        r as nat <= s@.len(),
        r == i ==> (i as nat == s@.len() || s@[i as int] == ' '),
    decreases s@.len() - i,
{
    let n = s.unicode_len();
    let mut j: usize = i;
    while j < n && s.get_char(j) != ' '
        invariant
            n as nat == s@.len(),
            i <= j <= n,
            scan_to_space(s@, i as int) == scan_to_space(s@, j as int),
        decreases n - j,
    {
        j += 1;
    }
    j
}

pub fn scan_spaces_at(s: &str, i: usize) -> (r: usize)
    requires
        i as nat <= s@.len(),
    ensures
        r as int == scan_spaces(s@, i as int),
        i <= r,
        r as nat <= s@.len(),
        (r as nat) < s@.len() ==> s@[r as int] != ' ',
    decreases s@.len() - i,
{
    let n = s.unicode_len();
    let mut j: usize = i;
    while j < n && s.get_char(j) == ' '
        invariant
            n as nat == s@.len(),
            i <= j <= n,
            scan_spaces(s@, i as int) == scan_spaces(s@, j as int),
        decreases n - j,
    {
        j += 1;
    }
    j
}

/// First index at or after `i` whose character is not whitespace, capped at `l.len()`.
pub open spec fn scan_non_ws(l: Seq<char>, i: int) -> int
    decreases l.len() - i,
    when 0 <= i <= l.len()
{
    if i == l.len() {
        i
    } else if is_wspace(l[i]) {
        i
    } else {
        scan_non_ws(l, i + 1)
    }
}

pub fn scan_non_ws_at(s: &str, i: usize) -> (r: usize)
    requires
        i as nat <= s@.len(),
    ensures
        r as int == scan_non_ws(s@, i as int),
        i <= r,
        r as nat <= s@.len(),
        r == i ==> (i as nat == s@.len() || is_wspace(s@[i as int])),
    decreases s@.len() - i,
{
    let n = s.unicode_len();
    let mut j: usize = i;
    while j < n && !is_wspace_char(s.get_char(j))
        invariant
            n as nat == s@.len(),
            i <= j <= n,
            scan_non_ws(s@, i as int) == scan_non_ws(s@, j as int),
        decreases n - j,
    {
        j += 1;
    }
    j
}

/// The whitespace-separated tokens of `l` from position `i` on, as
/// `str::split_whitespace` yields them.
pub open spec fn spec_tokens_from(l: Seq<char>, i: int) -> Seq<Seq<char>>
    decreases l.len() - i,
    when 0 <= i <= l.len()
{
    if i == l.len() {
        Seq::empty()
    } else if is_wspace(l[i]) {
        spec_tokens_from(l, i + 1)
    } else {
        let e = scan_non_ws(l, i);
        if i < e <= l.len() {
            seq![l.subrange(i, e)] + spec_tokens_from(l, e)
        } else {
            Seq::empty()
        }
    }
}

pub open spec fn spec_split_ws(l: Seq<char>) -> Seq<Seq<char>> {
    spec_tokens_from(l, 0)
}

pub fn split_ws<'a>(s: &'a str) -> (r: Vec<&'a str>)
    ensures
        r.deep_view() == spec_split_ws(s@),
{
    let n = s.unicode_len();
    let mut out: Vec<&'a str> = Vec::new();
    let mut i: usize = 0;
    while i < n
        invariant
            n as nat == s@.len(),
            i <= n,
            out.deep_view() + spec_tokens_from(s@, i as int) == spec_split_ws(s@),
        decreases n - i,
    {
        if is_wspace_char(s.get_char(i)) {
            i += 1;
        } else {
            let e = scan_non_ws_at(s, i);
            let tok = s.substring_char(i, e);
            let ghost prev = out.deep_view();
            out.push(tok);
            proof {
                assert(out.deep_view() =~~= prev.push(tok@));
                assert(prev.push(tok@) + spec_tokens_from(s@, e as int) =~~= prev + (seq![
                    s@.subrange(i as int, e as int),
                ] + spec_tokens_from(s@, e as int)));
            }
            i = e;
        }
    }
    proof {
        assert(out.deep_view() + spec_tokens_from(s@, n as int) =~~= out.deep_view());
    }
    out
}

/// All strings of `ls` joined with a single space between consecutive entries.
pub open spec fn spec_join_tail(ls: Seq<Seq<char>>) -> Seq<char>
    decreases ls.len(),
{
    if ls.len() == 0 {
        Seq::empty()
    } else {
        seq![' '] + ls[0] + spec_join_tail(ls.drop_first())
    }
}

pub open spec fn spec_join_space(ls: Seq<Seq<char>>) -> Seq<char> {
    if ls.len() == 0 {
        Seq::empty()
    } else {
        ls[0] + spec_join_tail(ls.drop_first())
    }
}

pub fn join_space(lines: &Vec<&str>) -> (r: String)
    ensures
        r@ == spec_join_space(lines.deep_view()),
{
    let ghost dv: Seq<Seq<char>> = lines.deep_view();
    if lines.len() == 0 {
        return String::new();
    }
    let mut s = String::from_str(lines[0]);
    let mut i: usize = 1;
    while i < lines.len()
        invariant
            dv == lines.deep_view(),
            dv.len() == lines@.len(),
            1 <= i <= lines@.len(),
            s@ + spec_join_tail(dv.skip(i as int)) == spec_join_space(dv),
        decreases lines@.len() - i,
    {
        s.append(" ");
        s.append(lines[i]);
        proof {
            reveal_strlit(" ");
            assert(" "@ =~= seq![' ']);
            assert(dv.skip(i as int).drop_first() =~= dv.skip(i as int + 1));
        }
        i += 1;
    }
    proof {
        assert(spec_join_tail(dv.skip(i as int)) =~= Seq::<char>::empty());
        assert(s@ =~= spec_join_space(dv));
    }
    s
}

} // verus!
