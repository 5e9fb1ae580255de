//! Character-sequence scanning: substring search, trimming, and splitting.
//!
//! The listing parser works line by line on plain text, so everything here is
//! specified over `Seq<char>` and implemented on `&str` with the character
//! primitives that vstd provides.

use vstd::prelude::*;

verus! {

/// Whether `c` is one of the characters that `str::trim` removes
/// (the Unicode `White_Space` set).
pub open spec fn ws(c: char) -> bool {
    c == ' ' || c == '\t' || c == '\n' || c == '\r'
        || c == '\u{000B}' || c == '\u{000C}' || c == '\u{0085}' || c == '\u{00A0}'
        || c == '\u{1680}'
        || ('\u{2000}' <= c && c <= '\u{200A}')
        || c == '\u{2028}' || c == '\u{2029}' || c == '\u{202F}' || c == '\u{205F}'
        || c == '\u{3000}'
}

/// Executable test for the same `White_Space` set.
pub fn is_ws(c: char) -> (r: bool)
    ensures
        r == ws(c),
{
    c == ' ' || c == '\t' || c == '\n' || c == '\r'
        || c == '\u{000B}' || c == '\u{000C}' || c == '\u{0085}' || c == '\u{00A0}'
        || c == '\u{1680}'
        || ('\u{2000}' <= c && c <= '\u{200A}')
        || c == '\u{2028}' || c == '\u{2029}' || c == '\u{202F}' || c == '\u{205F}'
        || c == '\u{3000}'
}

/// The pattern `p` occurs in `s` starting at position `i`.
pub open spec fn is_match_at(s: Seq<char>, p: Seq<char>, i: int) -> bool {
    0 <= i && i + p.len() <= s.len() && s.subrange(i, i + p.len() as int) == p
}

/// Position of the first occurrence of `p` in `s`, or -1 when there is none.
pub open spec fn find_sub(s: Seq<char>, p: Seq<char>) -> int
    decreases s.len(),
{
    if p.len() == 0 {
        0
    } else if s.len() < p.len() {
        -1
    } else if s.subrange(0, p.len() as int) == p {
        0
    } else if find_sub(s.drop_first(), p) < 0 {
        -1
    } else {
        find_sub(s.drop_first(), p) + 1
    }
}

/// `p` occurs somewhere in `s`.
pub open spec fn contains_sub(s: Seq<char>, p: Seq<char>) -> bool {
    find_sub(s, p) >= 0
}

/// `find_sub` returns the position of the first occurrence, or -1 when no
/// position matches.
pub proof fn lemma_find_sub(s: Seq<char>, p: Seq<char>)
    ensures
        find_sub(s, p) == -1 || find_sub(s, p) >= 0,
        find_sub(s, p) >= 0 ==> is_match_at(s, p, find_sub(s, p)),
        forall|k: int| 0 <= k < find_sub(s, p) ==> !is_match_at(s, p, k),
        find_sub(s, p) == -1 ==> forall|k: int| !is_match_at(s, p, k),
    decreases s.len(),
{
    if p.len() == 0 {
        assert(is_match_at(s, p, 0)) by {
            assert(s.subrange(0, 0) =~= p);
        }
    } else if s.len() < p.len() {
        assert(forall|k: int| !is_match_at(s, p, k));
    } else if s.subrange(0, p.len() as int) == p {
        assert(is_match_at(s, p, 0));
    } else {
        let s1 = s.drop_first();
        lemma_find_sub(s1, p);
        assert forall|k: int| 1 <= k implies is_match_at(s, p, k) == is_match_at(
            s1,
            p,
            k - 1,
        ) by {
            if 0 <= k - 1 && k - 1 + p.len() <= s1.len() {
                assert(s1.subrange(k - 1, k - 1 + p.len() as int) =~= s.subrange(
                    k,
                    k + p.len() as int,
                ));
            }
        }
        assert(!is_match_at(s, p, 0));
    }
}

/// Check whether `p` occurs in `s` at position `i`.
fn match_at(s: &str, p: &str, i: usize) -> (b: bool)
    requires
        i + p@.len() <= s@.len(),
        s@.len() <= usize::MAX,
    ensures
        b == is_match_at(s@, p@, i as int),
{
    let m: usize = p.unicode_len();
    let mut j: usize = 0;
    while j < m
        invariant
            m == p@.len(),
            i + m <= s@.len() <= usize::MAX,
            j <= m,
            forall|t: int| 0 <= t < j ==> s@[i + t] == p@[t],
        decreases m - j,
    {
        if s.get_char(i + j) != p.get_char(j) {
            proof {
                assert(s@.subrange(i as int, i + m) != p@) by {
                    assert(s@.subrange(i as int, i + m)[j as int] == s@[i + j]);
                }
            }
            return false;
        }
        j += 1;
    }
    proof {
        assert(s@.subrange(i as int, i + m) =~= p@);
    }
    true
}

/// First occurrence of `p` in `s`, as `str::find` reports it, counted in
/// characters.
pub fn find_sub_str(s: &str, p: &str) -> (r: Option<usize>)
    ensures
        match r {
            Option::Some(i) => find_sub(s@, p@) == i as int,
            Option::None => find_sub(s@, p@) == -1,
        },
{
    proof {
        lemma_find_sub(s@, p@);
    }
    let n: usize = s.unicode_len();
    let m: usize = p.unicode_len();
    if m == 0 {
        return Some(0);
    }
    if m > n {
        return None;
    }
    let mut i: usize = 0;
    while i <= n - m
        invariant
            n == s@.len(),
            m == p@.len(),
            1 <= m <= n,
            i <= n - m + 1,
            forall|k: int| 0 <= k < i ==> !is_match_at(s@, p@, k),
        decreases n - m + 1 - i,
    {
        if match_at(s, p, i) {
            proof {
                lemma_find_sub(s@, p@);
                let f = find_sub(s@, p@);
                if f == -1 {
                    assert(!is_match_at(s@, p@, i as int));
                }
                if f > i {
                    assert(!is_match_at(s@, p@, i as int));
                }
            }
            return Some(i);
        }
        i += 1;
    }
    proof {
        let f = find_sub(s@, p@);
        if f >= 0 {
            assert(is_match_at(s@, p@, f));
            assert(false);
        }
    }
    None
}

/// Substring containment test over whole strings.
pub fn contains_sub_str(s: &str, p: &str) -> (b: bool)
    ensures
        b == contains_sub(s@, p@),
{
    find_sub_str(s, p).is_some()
}

/// Whether the character `c` occurs in `s`.
pub fn contains_char_str(s: &str, c: char) -> (b: bool)
    ensures
        b == s@.contains(c),
{
    let n: usize = s.unicode_len();
    let mut i: usize = 0;
    while i < n
        invariant
            n == s@.len(),
            i <= n,
            forall|k: int| 0 <= k < i ==> s@[k] != c,
        decreases n - i,
    {
        if s.get_char(i) == c {
            proof {
                assert(s@[i as int] == c);
            }
            return true;
        }
        i += 1;
    }
    false
}

/// `s` with its leading whitespace removed, as `str::trim_start` leaves it.
pub open spec fn trim_start(s: Seq<char>) -> Seq<char>
    decreases s.len(),
{
    if s.len() > 0 && ws(s[0]) {
        trim_start(s.drop_first())
    } else {
        s
    }
}

/// `s` with its trailing whitespace removed, as `str::trim_end` leaves it.
pub open spec fn trim_end(s: Seq<char>) -> Seq<char>
    decreases s.len(),
{
    if s.len() > 0 && ws(s.last()) {
        trim_end(s.drop_last())
    } else {
        s
    }
}

/// `s` with leading and trailing whitespace removed, as `str::trim` leaves it.
pub open spec fn trim(s: Seq<char>) -> Seq<char> {
    trim_end(trim_start(s))
}

proof fn lemma_trim_start_range(s: Seq<char>, a: int)
    requires
        0 <= a <= s.len(),
        forall|k: int| 0 <= k < a ==> ws(s[k]),
        a == s.len() || !ws(s[a]),
    ensures
        trim_start(s) == s.subrange(a, s.len() as int),
    decreases a,
{
    if a == 0 {
        assert(s.subrange(0, s.len() as int) =~= s);
    } else {
        let s1 = s.drop_first();
        lemma_trim_start_range(s1, a - 1);
        assert(s1.subrange(a - 1, s1.len() as int) =~= s.subrange(a, s.len() as int));
    }
}

proof fn lemma_trim_end_range(s: Seq<char>, b: int)
    requires
        0 <= b <= s.len(),
        forall|k: int| b <= k < s.len() ==> ws(s[k]),
        b == 0 || !ws(s[b - 1]),
    ensures
        trim_end(s) == s.subrange(0, b),
    decreases s.len() - b,
{
    if b == s.len() {
        assert(s.subrange(0, b) =~= s);
    } else {
        let s1 = s.drop_last();
        lemma_trim_end_range(s1, b);
        assert(s1.subrange(0, b) =~= s.subrange(0, b));
    }
}

/// `str::trim`, counted in characters.
pub fn trim_str<'a>(s: &'a str) -> (t: &'a str)
    ensures
        t@ == trim(s@),
{
    let n: usize = s.unicode_len();
    let mut a: usize = 0;
    while a < n && is_ws(s.get_char(a))
        invariant
            n == s@.len(),
            a <= n,
            forall|k: int| 0 <= k < a ==> ws(s@[k]),
        decreases n - a,
    {
        a += 1;
    }
    let mut b: usize = n;
    while b > a && is_ws(s.get_char(b - 1))
        invariant
            n == s@.len(),
            a <= b <= n,
            forall|k: int| b <= k < n ==> ws(s@[k]),
        decreases b,
    {
        b -= 1;
    }
    proof {
        lemma_trim_start_range(s@, a as int);
        let ts = s@.subrange(a as int, n as int);
        lemma_trim_end_range(ts, b - a);
        assert(ts.subrange(0, b - a) =~= s@.subrange(a as int, b as int));
    }
    s.substring_char(a, b)
}

/// `s` with every leading `"--"` removed, as `str::trim_start_matches("--")`
/// leaves it.
pub open spec fn strip_leading_dashes(s: Seq<char>) -> Seq<char>
    decreases s.len(),
{
    if s.len() >= 2 && s[0] == '-' && s[1] == '-' {
        strip_leading_dashes(s.subrange(2, s.len() as int))
    } else {
        s
    }
}

/// `s` with every trailing `"--"` removed, as `str::trim_end_matches("--")`
/// leaves it.
pub open spec fn strip_trailing_dashes(s: Seq<char>) -> Seq<char>
    decreases s.len(),
{
    if s.len() >= 2 && s[s.len() - 2] == '-' && s[s.len() - 1] == '-' {
        strip_trailing_dashes(s.subrange(0, s.len() - 2))
    } else {
        s
    }
}

/// Remove repeated `"--"` markers from both ends, leading ones first.
pub fn strip_dashes_str<'a>(s: &'a str) -> (t: &'a str)
    ensures
        t@ == strip_trailing_dashes(strip_leading_dashes(s@)),
{
    let n: usize = s.unicode_len();
    proof {
        assert(s@.subrange(0, n as int) =~= s@);
    }
    let mut a: usize = 0;
    while n - a >= 2 && s.get_char(a) == '-' && s.get_char(a + 1) == '-'
        invariant
            n == s@.len(),
            a <= n,
            strip_leading_dashes(s@) == strip_leading_dashes(s@.subrange(a as int, n as int)),
        decreases n - a,
    {
        proof {
            let cur = s@.subrange(a as int, n as int);
            assert(cur.subrange(2, cur.len() as int) =~= s@.subrange(a + 2, n as int));
        }
        a += 2;
    }
    let mut b: usize = n;
    while b - a >= 2 && s.get_char(b - 2) == '-' && s.get_char(b - 1) == '-'
        invariant
            n == s@.len(),
            a <= b <= n,
            strip_trailing_dashes(s@.subrange(a as int, n as int)) == strip_trailing_dashes(
                s@.subrange(a as int, b as int),
            ),
        decreases b,
    {
        proof {
            let cur = s@.subrange(a as int, b as int);
            assert(cur.subrange(0, cur.len() - 2) =~= s@.subrange(a as int, b - 2));
        }
        b -= 2;
    }
    s.substring_char(a, b)
}

/// `s` with every trailing `c` removed, as `str::trim_end_matches(c)` leaves
/// it.
pub open spec fn strip_trailing_char(s: Seq<char>, c: char) -> Seq<char>
    decreases s.len(),
{
    if s.len() >= 1 && s[s.len() - 1] == c {
        strip_trailing_char(s.subrange(0, s.len() - 1), c)
    } else {
        s
    }
}

/// Remove every trailing occurrence of `c`.
pub fn strip_trailing_char_str<'a>(s: &'a str, c: char) -> (t: &'a str)
    ensures
        t@ == strip_trailing_char(s@, c),
{
    let n: usize = s.unicode_len();
    proof {
        assert(s@.subrange(0, n as int) =~= s@);
    }
    let mut b: usize = n;
    while b > 0 && s.get_char(b - 1) == c
        invariant
            n == s@.len(),
            b <= n,
            strip_trailing_char(s@, c) == strip_trailing_char(s@.subrange(0, b as int), c),
        decreases b,
    {
        proof {
            let cur = s@.subrange(0, b as int);
            assert(cur.subrange(0, cur.len() - 1) =~= s@.subrange(0, b - 1));
        }
        b -= 1;
    }
    s.substring_char(0, b)
}

/// The pieces of `s` between the non-overlapping, left-to-right occurrences
/// of the separator `p`, as `str::split` yields them.
pub open spec fn split_sub(s: Seq<char>, p: Seq<char>) -> Seq<Seq<char>>
    decreases s.len(),
{
    let i = find_sub(s, p);
    if p.len() == 0 || i < 0 || i + p.len() > s.len() {
        seq![s]
    } else {
        seq![s.subrange(0, i)] + split_sub(s.subrange(i + p.len() as int, s.len() as int), p)
    }
}

/// A split always yields at least one piece.
pub proof fn lemma_split_sub_len(s: Seq<char>, p: Seq<char>)
    ensures
        split_sub(s, p).len() >= 1,
{
}

/// Split `s` at every newline character, keeping every piece, including
/// empty ones.
pub fn split_lines(s: &str) -> (r: Vec<String>)
    ensures
        r.deep_view() == split_sub(s@, "\n"@),
{
    proof {
        reveal_strlit("\n");
    }
    let mut acc: Vec<String> = Vec::new();
    let mut rem: &str = s;
    proof {
        assert(acc.deep_view() =~= Seq::<Seq<char>>::empty());
    }
    loop
        invariant
            split_sub(s@, "\n"@) =~= acc.deep_view() + split_sub(rem@, "\n"@),
        decreases rem@.len() + 1,
    {
        proof {
            reveal_strlit("\n");
            lemma_find_sub(rem@, "\n"@);
        }
        let ghost prev_dv = acc.deep_view();
        match find_sub_str(rem, "\n") {
            Option::Some(i) => {
                let n: usize = rem.unicode_len();
                let piece: &str = rem.substring_char(0, i);
                acc.push(String::from_str(piece));
                proof {
                    assert(acc.deep_view() =~= prev_dv.push(piece@));
                }
                rem = rem.substring_char(i + 1, n);
                proof {
                    assert((prev_dv.push(piece@)) + split_sub(rem@, "\n"@) =~= prev_dv + (seq![
                        piece@,
                    ] + split_sub(rem@, "\n"@)));
                }
            },
            Option::None => {
                acc.push(String::from_str(rem));
                proof {
                    assert(split_sub(rem@, "\n"@) =~= seq![rem@]);
                    assert(acc.deep_view() =~= prev_dv.push(rem@));
                    assert(prev_dv.push(rem@) =~= prev_dv + seq![rem@]);
                }
                return acc;
            },
        }
    }
}

} // verus!
