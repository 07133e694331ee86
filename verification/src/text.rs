//! String primitives the resolver is built from: searching, splitting,
//! joining, trimming and prefix handling, each with an exact specification
//! over the character-sequence view.

use vstd::prelude::*;

verus! {

// ---------------------------------------------------------------------------
// Character classes
// ---------------------------------------------------------------------------

/// ASCII whitespace, as stripped from tool output. Trimming is restricted
/// to these four characters; Unicode whitespace is left in place.
pub open spec fn is_blank(c: char) -> bool {
    c == ' ' || c == '\t' || c == '\r' || c == '\n'
}

pub fn blank_char(c: char) -> (r: bool)
    ensures
        r == is_blank(c),
{
    c == ' ' || c == '\t' || c == '\r' || c == '\n'
}

/// A decimal digit.
pub open spec fn is_digit(c: char) -> bool {
    48 <= c as u32 && c as u32 <= 57
}

pub fn digit_char(c: char) -> (r: bool)
    ensures
        r == is_digit(c),
{
    let u = c as u32;
    48 <= u && u <= 57
}

// ---------------------------------------------------------------------------
// Searching for a character
// ---------------------------------------------------------------------------

/// Index of the first occurrence of `c` in `s`, or `s.len()` when `c` does
/// not occur.
pub open spec fn first_index_of(s: Seq<char>, c: char) -> int
    decreases s.len(),
{
    if s.len() == 0 {
        0
    } else if s[0] == c {
        0
    } else {
        1 + first_index_of(s.drop_first(), c)
    }
}

pub proof fn lemma_first_index_of(s: Seq<char>, c: char)
    ensures
        0 <= first_index_of(s, c) <= s.len(),
        forall|k: int| 0 <= k < first_index_of(s, c) ==> s[k] != c,
        first_index_of(s, c) < s.len() ==> s[first_index_of(s, c)] == c,
    decreases s.len(),
{
    if s.len() == 0 {
    } else if s[0] == c {
    } else {
        lemma_first_index_of(s.drop_first(), c);
        assert forall|k: int| 0 <= k < first_index_of(s, c) implies s[k] != c by {
            if k > 0 {
                assert(s.drop_first()[k - 1] == s[k]);
            }
        }
        if first_index_of(s, c) < s.len() {
            assert(s.drop_first()[first_index_of(s, c) - 1] == s[first_index_of(s, c)]);
        }
    }
}

/// The first occurrence is pinned by its characterization: nothing before it
/// matches, and it matches unless it equals the length.
pub proof fn lemma_first_index_of_unique(s: Seq<char>, c: char, i: int)
    requires
        0 <= i <= s.len(),
        forall|k: int| 0 <= k < i ==> s[k] != c,
        i < s.len() ==> s[i] == c,
    ensures
        first_index_of(s, c) == i,
{
    lemma_first_index_of(s, c);
    let f = first_index_of(s, c);
    if f < i {
        assert(s[f] != c);
        assert(s[f] == c);
    }
    if i < f {
        assert(s[i] != c);
        assert(s[i] == c);
    }
}

/// First position of `c` in `s`, or the length of `s` when `c` is absent.
pub fn find_char(s: &str, c: char) -> (i: usize)
    ensures
        i == first_index_of(s@, c),
{
    let n = s.unicode_len();
    let mut i: usize = 0;
    while i < n
        invariant
            n == s@.len(),
            0 <= i <= n,
            forall|k: int| 0 <= k < i ==> s@[k] != c,
        decreases n - i,
    {
        if s.get_char(i) == c {
            proof {
                lemma_first_index_of_unique(s@, c, i as int);
            }
            return i;
        }
        i += 1;
    }
    proof {
        lemma_first_index_of_unique(s@, c, n as int);
    }
    n
}

/// Index of the last occurrence of `c` in `s`, or `-1` when `c` does not
/// occur.
pub open spec fn last_index_of(s: Seq<char>, c: char) -> int
    decreases s.len(),
{
    if s.len() == 0 {
        -1
    } else if s.last() == c {
        s.len() - 1
    } else {
        last_index_of(s.drop_last(), c)
    }
}

pub proof fn lemma_last_index_of(s: Seq<char>, c: char)
    ensures
        -1 <= last_index_of(s, c) < s.len(),
        last_index_of(s, c) >= 0 ==> s[last_index_of(s, c)] == c,
        forall|k: int| last_index_of(s, c) < k < s.len() ==> s[k] != c,
    decreases s.len(),
{
    if s.len() == 0 {
    } else if s.last() == c {
    } else {
        lemma_last_index_of(s.drop_last(), c);
        let j = last_index_of(s, c);
        if j >= 0 {
            assert(s.drop_last()[j] == s[j]);
        }
        assert forall|k: int| j < k < s.len() implies s[k] != c by {
            if k < s.len() - 1 {
                assert(s.drop_last()[k] == s[k]);
            }
        }
    }
}

pub proof fn lemma_last_index_of_unique(s: Seq<char>, c: char, i: int)
    requires
        -1 <= i < s.len(),
        i >= 0 ==> s[i] == c,
        forall|k: int| i < k < s.len() ==> s[k] != c,
    ensures
        last_index_of(s, c) == i,
{
    lemma_last_index_of(s, c);
    let j = last_index_of(s, c);
    if j < i {
        assert(s[i] != c);
        assert(s[i] == c);
    }
    if i < j {
        assert(s[j] != c);
        assert(s[j] == c);
    }
}

/// Position of the last occurrence of `c` in `s`, if any.
pub fn rfind_char(s: &str, c: char) -> (r: Option<usize>)
    ensures
        match r {
            Some(j) => j == last_index_of(s@, c),
            None => last_index_of(s@, c) == -1,
        },
{
    let n = s.unicode_len();
    let mut b: usize = n;
    while b > 0
        invariant
            n == s@.len(),
            b <= n,
            forall|k: int| b <= k < n ==> s@[k] != c,
        decreases b,
    {
        if s.get_char(b - 1) == c {
            proof {
                lemma_last_index_of_unique(s@, c, b - 1);
            }
            return Some(b - 1);
        }
        b -= 1;
    }
    proof {
        lemma_last_index_of_unique(s@, c, -1);
    }
    None
}

// ---------------------------------------------------------------------------
// Splitting
// ---------------------------------------------------------------------------

/// The segments of `s` delimited by `c`: always at least one segment, and one
/// more than there are occurrences of `c`.
pub open spec fn split_on(s: Seq<char>, c: char) -> Seq<Seq<char>>
    decreases s.len() via split_on_decreases
{
    let f = first_index_of(s, c);
    if f == s.len() {
        seq![s]
    } else {
        seq![s.take(f)] + split_on(s.skip(f + 1), c)
    }
}

#[via_fn]
proof fn split_on_decreases(s: Seq<char>, c: char) {
    lemma_first_index_of(s, c);
}

/// Splitting never yields an empty list of segments.
pub proof fn lemma_split_on_len(s: Seq<char>, c: char)
    ensures
        split_on(s, c).len() >= 1,
{
    lemma_first_index_of(s, c);
}

/// When `c` does not occur, the whole string is the single segment.
pub proof fn lemma_split_on_no_sep(s: Seq<char>, c: char)
    requires
        forall|k: int| 0 <= k < s.len() ==> s[k] != c,
    ensures
        split_on(s, c) == seq![s],
{
    lemma_first_index_of_unique(s, c, s.len() as int);
}

/// Peeling the first segment off at the first separator position.
pub proof fn lemma_split_on_first(s: Seq<char>, c: char, i: int)
    requires
        0 <= i < s.len(),
        s[i] == c,
        forall|k: int| 0 <= k < i ==> s[k] != c,
    ensures
        split_on(s, c) == seq![s.take(i)] + split_on(s.skip(i + 1), c),
{
    lemma_first_index_of_unique(s, c, i);
}

/// Splits `s` on `c`, mirroring [`split_on`] segment by segment.
pub fn split_str(s: &str, c: char) -> (r: Vec<String>)
    ensures
        r.deep_view() == split_on(s@, c),
{
    let n = s.unicode_len();
    let mut r: Vec<String> = Vec::new();
    proof {
        assert(s@.skip(0) =~= s@);
        assert(r.deep_view() + split_on(s@, c) =~= split_on(s@, c));
    }
    let mut start: usize = 0;
    let mut i: usize = 0;
    while i < n
        invariant
            n == s@.len(),
            start <= i <= n,
            forall|k: int| start <= k < i ==> s@[k] != c,
            split_on(s@, c) == r.deep_view() + split_on(s@.skip(start as int), c),
        decreases n - i,
    {
        if s.get_char(i) == c {
            let seg = s.substring_char(start, i).to_owned();
            let ghost rd = r.deep_view();
            r.push(seg);
            proof {
                let sk = s@.skip(start as int);
                assert(sk[i - start] == s@[i as int]);
                assert forall|k: int| 0 <= k < i - start implies sk[k] != c by {
                    assert(sk[k] == s@[start + k]);
                }
                lemma_split_on_first(sk, c, i - start);
                assert(sk.take(i - start) =~= s@.subrange(start as int, i as int));
                assert(sk.skip(i - start + 1) =~= s@.skip(i + 1));
                assert(r.deep_view() =~= rd.push(seg@));
                assert(rd + split_on(sk, c) =~= r.deep_view() + split_on(s@.skip(i + 1), c));
            }
            start = i + 1;
        }
        i += 1;
    }
    let seg = s.substring_char(start, n).to_owned();
    let ghost rd = r.deep_view();
    r.push(seg);
    proof {
        let sk = s@.skip(start as int);
        assert forall|k: int| 0 <= k < sk.len() implies sk[k] != c by {
            assert(sk[k] == s@[start + k]);
        }
        lemma_split_on_no_sep(sk, c);
        assert(sk =~= s@.subrange(start as int, n as int));
        assert(r.deep_view() =~= rd.push(seg@));
        assert(rd + split_on(sk, c) =~= r.deep_view());
    }
    r
}

// ---------------------------------------------------------------------------
// Joining
// ---------------------------------------------------------------------------

/// The segments of `parts`, rejoined with `c` between consecutive segments.
pub open spec fn join_with(parts: Seq<Seq<char>>, c: char) -> Seq<char>
    decreases parts.len(),
{
    if parts.len() == 0 {
        Seq::empty()
    } else if parts.len() == 1 {
        parts[0]
    } else {
        parts[0] + seq![c] + join_with(parts.drop_first(), c)
    }
}

/// Joining one more segment appends a separator and the segment.
pub proof fn lemma_join_with_push(parts: Seq<Seq<char>>, c: char, x: Seq<char>)
    ensures
        join_with(parts.push(x), c) == if parts.len() == 0 {
            x
        } else {
            join_with(parts, c) + seq![c] + x
        },
    decreases parts.len(),
{
    let pp = parts.push(x);
    if parts.len() == 0 {
        assert(pp.len() == 1);
        assert(pp[0] == x);
    } else if parts.len() == 1 {
        assert(pp.len() == 2);
        assert(pp.drop_first() =~= seq![x]);
        assert(join_with(pp.drop_first(), c) == x);
        assert(pp[0] == parts[0]);
    } else {
        assert(pp.drop_first() =~= parts.drop_first().push(x));
        lemma_join_with_push(parts.drop_first(), c, x);
        assert(pp[0] == parts[0]);
        assert(join_with(pp, c) =~= join_with(parts, c) + seq![c] + x);
    }
}

/// Joins the parts with a hyphen between consecutive parts.
pub fn join_hyphen(parts: &Vec<String>) -> (r: String)
    ensures
        r@ == join_with(parts.deep_view(), '-'),
{
    proof {
        reveal_strlit("-");
    }
    let mut r = String::new();
    let mut i: usize = 0;
    while i < parts.len()
        invariant
            i <= parts@.len(),
            i == 0 ==> r@ == Seq::<char>::empty(),
            i > 0 ==> r@ == join_with(parts.deep_view().take(i as int), '-'),
            "-"@ == seq!['-'],
        decreases parts@.len() - i,
    {
        let ghost before = parts.deep_view().take(i as int);
        if i > 0 {
            r.append("-");
        }
        r.append(parts[i].as_str());
        proof {
            lemma_join_with_push(before, '-', parts.deep_view()[i as int]);
            assert(before.push(parts.deep_view()[i as int]) =~= parts.deep_view().take(
                i + 1,
            ));
        }
        i += 1;
    }
    proof {
        if parts@.len() > 0 {
            assert(parts.deep_view().take(parts@.len() as int) =~= parts.deep_view());
        }
    }
    r
}

// ---------------------------------------------------------------------------
// Prefixes
// ---------------------------------------------------------------------------

/// `p` is an initial segment of `s`.
pub open spec fn has_prefix(s: Seq<char>, p: Seq<char>) -> bool {
    p.len() <= s.len() && p == s.take(p.len() as int)
}

/// Whether `p` occurs in `s` starting at position `at`.
pub fn str_has_prefix_at(s: &str, p: &str, at: usize) -> (r: bool)
    requires
        at <= s@.len(),
    ensures
        r == has_prefix(s@.skip(at as int), p@),
{
    let n = s.unicode_len();
    let pn = p.unicode_len();
    if pn > n - at {
        return false;
    }
    let mut k: usize = 0;
    while k < pn
        invariant
            n == s@.len(),
            pn == p@.len(),
            at + pn <= n,
            k <= pn,
            forall|j: int| 0 <= j < k ==> s@[at + j] == p@[j],
        decreases pn - k,
    {
        if s.get_char(at + k) != p.get_char(k) {
            proof {
                let sk = s@.skip(at as int);
                if has_prefix(sk, p@) {
                    assert(sk.take(pn as int)[k as int] == sk[k as int]);
                    assert(sk[k as int] == s@[at + k]);
                }
            }
            return false;
        }
        k += 1;
    }
    proof {
        let sk = s@.skip(at as int);
        assert(p@ =~= sk.take(pn as int));
    }
    true
}

/// Whether `s` starts with `p`.
pub fn str_has_prefix(s: &str, p: &str) -> (r: bool)
    ensures
        r == has_prefix(s@, p@),
{
    let r = str_has_prefix_at(s, p, 0);
    proof {
        assert(s@.skip(0) =~= s@);
    }
    r
}

/// `s` with every leading copy of `p` removed.
pub open spec fn drop_prefixes(s: Seq<char>, p: Seq<char>) -> Seq<char>
    decreases s.len(),
{
    if p.len() > 0 && has_prefix(s, p) {
        drop_prefixes(s.skip(p.len() as int), p)
    } else {
        s
    }
}

/// Removes every leading copy of `p` from `s`.
pub fn strip_prefixes(s: &str, p: &str) -> (r: String)
    ensures
        r@ == drop_prefixes(s@, p@),
{
    let n = s.unicode_len();
    let pn = p.unicode_len();
    if pn == 0 {
        return s.to_owned();
    }
    proof {
        assert(s@.skip(0) =~= s@);
    }
    let mut start: usize = 0;
    loop
        invariant
            n == s@.len(),
            pn == p@.len(),
            0 < pn,
            start <= n,
            drop_prefixes(s@, p@) == drop_prefixes(s@.skip(start as int), p@),
        decreases n - start,
    {
        if str_has_prefix_at(s, p, start) {
            proof {
                assert(s@.skip(start as int).skip(pn as int) =~= s@.skip(start + pn));
            }
            start += pn;
        } else {
            return s.substring_char(start, n).to_owned();
        }
    }
}

// ---------------------------------------------------------------------------
// Finding a line
// ---------------------------------------------------------------------------

/// The first of the lines that starts with the given prefix.
pub open spec fn first_line_with_prefix(lines: Seq<Seq<char>>, p: Seq<char>) -> Option<Seq<char>>
    decreases lines.len(),
{
    if lines.len() == 0 {
        None
    } else if has_prefix(lines[0], p) {
        Some(lines[0])
    } else {
        first_line_with_prefix(lines.drop_first(), p)
    }
}

/// The first of the lines that starts with `p`, if any.
pub fn find_line_with_prefix(lines: &Vec<String>, p: &str) -> (r: Option<String>)
    ensures
        r.deep_view() == first_line_with_prefix(lines.deep_view(), p@),
{
    let ghost lv = lines.deep_view();
    proof {
        assert(lv.skip(0) =~= lv);
    }
    let mut i: usize = 0;
    while i < lines.len()
        invariant
            i <= lines@.len(),
            lines.deep_view() == lv,
            first_line_with_prefix(lv, p@) == first_line_with_prefix(lv.skip(i as int), p@),
        decreases lines@.len() - i,
    {
        proof {
            let sk = lv.skip(i as int);
            assert(sk[0] == lv[i as int]);
            assert(sk.drop_first() =~= lv.skip(i + 1));
        }
        if str_has_prefix(lines[i].as_str(), p) {
            return Some(lines[i].clone());
        }
        i += 1;
    }
    proof {
        assert(lv.skip(lines@.len() as int) =~= Seq::<Seq<char>>::empty());
    }
    None
}

// ---------------------------------------------------------------------------
// Trimming
// ---------------------------------------------------------------------------

pub open spec fn drop_leading_blanks(s: Seq<char>) -> Seq<char>
    decreases s.len(),
{
    if s.len() > 0 && is_blank(s[0]) {
        drop_leading_blanks(s.drop_first())
    } else {
        s
    }
}

pub open spec fn drop_trailing_blanks(s: Seq<char>) -> Seq<char>
    decreases s.len(),
{
    if s.len() > 0 && is_blank(s.last()) {
        drop_trailing_blanks(s.drop_last())
    } else {
        s
    }
}

/// `s` with ASCII whitespace removed from both ends.
pub open spec fn trimmed(s: Seq<char>) -> Seq<char> {
    drop_trailing_blanks(drop_leading_blanks(s))
}

proof fn lemma_drop_leading_blanks(s: Seq<char>, a: int)
    requires
        0 <= a <= s.len(),
        forall|k: int| 0 <= k < a ==> is_blank(s[k]),
        a < s.len() ==> !is_blank(s[a]),
    ensures
        drop_leading_blanks(s) == s.skip(a),
    decreases a,
{
    if a == 0 {
        assert(s.skip(0) =~= s);
    } else {
        lemma_drop_leading_blanks(s.drop_first(), a - 1);
        assert(s.drop_first().skip(a - 1) =~= s.skip(a));
    }
}

proof fn lemma_drop_trailing_blanks(s: Seq<char>, b: int)
    requires
        0 <= b <= s.len(),
        forall|k: int| b <= k < s.len() ==> is_blank(s[k]),
        b > 0 ==> !is_blank(s[b - 1]),
    ensures
        drop_trailing_blanks(s) == s.take(b),
    decreases s.len() - b,
{
    if b == s.len() {
        if s.len() > 0 {
            assert(!is_blank(s.last()));
        }
        assert(s.take(b) =~= s);
    } else {
        assert(is_blank(s.last()));
        lemma_drop_trailing_blanks(s.drop_last(), b);
        assert(s.drop_last().take(b) =~= s.take(b));
    }
}

/// `s` with ASCII whitespace removed from both ends.
pub fn trim(s: &str) -> (r: String)
    ensures
        r@ == trimmed(s@),
{
    let n = s.unicode_len();
    let mut a: usize = 0;
    while a < n && blank_char(s.get_char(a))
        invariant
            n == s@.len(),
            a <= n,
            forall|k: int| 0 <= k < a ==> is_blank(s@[k]),
        decreases n - a,
    {
        a += 1;
    }
    let mut b: usize = n;
    while b > a && blank_char(s.get_char(b - 1))
        invariant
            n == s@.len(),
            a <= b <= n,
            forall|k: int| b <= k < n ==> is_blank(s@[k]),
        decreases b,
    {
        b -= 1;
    }
    proof {
        lemma_drop_leading_blanks(s@, a as int);
        let sk = s@.skip(a as int);
        assert forall|k: int| b - a <= k < sk.len() implies is_blank(sk[k]) by {
            assert(sk[k] == s@[a + k]);
        }
        if b > a {
            assert(sk[b - a - 1] == s@[b - 1]);
        }
        lemma_drop_trailing_blanks(sk, b - a);
        assert(sk.take(b - a) =~= s@.subrange(a as int, b as int));
    }
    s.substring_char(a, b).to_owned()
}

// ---------------------------------------------------------------------------
// Comparison
// ---------------------------------------------------------------------------

/// Character-for-character equality of two strings.
pub fn str_eq(s: &str, t: &str) -> (r: bool)
    ensures
        r == (s@ == t@),
{
    let sn = s.unicode_len();
    let tn = t.unicode_len();
    if sn != tn {
        return false;
    }
    let mut i: usize = 0;
    while i < sn
        invariant
            sn == s@.len(),
            sn == t@.len(),
            i <= sn,
            forall|k: int| 0 <= k < i ==> s@[k] == t@[k],
        decreases sn - i,
    {
        if s.get_char(i) != t.get_char(i) {
            return false;
        }
        i += 1;
    }
    proof {
        assert(s@ =~= t@);
    }
    true
}

} // verus!
