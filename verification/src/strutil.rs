//! Verified string helpers: line splitting, trimming, whitespace splitting
//! and prefix tests, each specified over character sequences.

use vstd::prelude::*;
use crate::seq_views;
use vstd::string::StrSliceExecFns;
use vstd::string::StringExecFns;

verus! {

/// The whitespace characters this library splits and trims on.
pub open spec fn is_wspace(c: char) -> bool {
    c == ' ' || c == '\t' || c == '\n' || c == '\r' || c == '\x0b' || c == '\x0c'
}

/// Executable test for [`is_wspace`].
pub fn wspace(c: char) -> (b: bool)
    ensures
        b == is_wspace(c),
{
    c == ' ' || c == '\t' || c == '\n' || c == '\r' || c == '\x0b' || c == '\x0c'
}

/// Index of the first occurrence of `c` in `s`, if any.
pub open spec fn find_char(s: Seq<char>, c: char) -> Option<int>
    decreases s.len(),
{
    if s.len() == 0 {
        None
    } else if s[0] == c {
        Some(0int)
    } else {
        match find_char(s.skip(1), c) {
            None => None,
            Some(i) => Some(i + 1),
        }
    }
}

pub proof fn lemma_find_char_some(s: Seq<char>, c: char)
    ensures
        find_char(s, c) matches Some(i) ==> 0 <= i < s.len() && s[i] == c,
    decreases s.len(),
{
    if s.len() > 0 && s[0] != c {
        lemma_find_char_some(s.skip(1), c);
    }
}

pub proof fn lemma_find_char_none(s: Seq<char>, c: char)
    requires
        forall|j: int| 0 <= j < s.len() ==> s[j] != c,
    ensures
        find_char(s, c) is None,
    decreases s.len(),
{
    if s.len() > 0 {
        lemma_find_char_none(s.skip(1), c);
    }
}

pub proof fn lemma_find_char_at(s: Seq<char>, c: char, k: int)
    requires
        0 <= k < s.len(),
        s[k] == c,
        forall|j: int| 0 <= j < k ==> s[j] != c,
    ensures
        find_char(s, c) == Some(k),
    decreases s.len(),
{
    if k > 0 {
        lemma_find_char_at(s.skip(1), c, k - 1);
    }
}

/// A line's text with a single trailing carriage return removed.
pub open spec fn chop_cr(t: Seq<char>) -> Seq<char> {
    if t.len() > 0 && t.last() == '\r' {
        t.drop_last()
    } else {
        t
    }
}

/// The lines of a document: segments separated by `'\n'`, where a carriage
/// return just before the separator belongs to the line ending, and a final
/// empty segment after the last separator is not a line.
pub open spec fn lines_spec(s: Seq<char>) -> Seq<Seq<char>>
    decreases s.len(),
    via lines_spec_decreases
{
    if s.len() == 0 {
        Seq::empty()
    } else {
        match find_char(s, '\n') {
            None => seq![s],
            Some(i) => seq![chop_cr(s.take(i))] + lines_spec(s.skip(i + 1)),
        }
    }
}

#[via_fn]
proof fn lines_spec_decreases(s: Seq<char>) {
    lemma_find_char_some(s, '\n');
}

/// Split a document into its lines.
pub fn split_lines(s: &str) -> (r: Vec<String>)
    ensures
        seq_views(r@) == lines_spec(s@),
{
    let n = s.unicode_len();
    let mut r: Vec<String> = Vec::new();
    let mut start: usize = 0;
    let mut i: usize = 0;
    proof {
        assert(s@.skip(0) =~= s@);
        assert(seq_views(r@) =~= Seq::<Seq<char>>::empty());
    }
    while i < n
        invariant
            n == s@.len(),
            start <= i <= n,
            forall|j: int| start <= j < i ==> s@[j] != '\n',
            lines_spec(s@) == seq_views(r@) + lines_spec(s@.skip(start as int)),
        decreases n - i,
    {
        if s.get_char(i) == '\n' {
            let end: usize = if i > start && s.get_char(i - 1) == '\r' {
                i - 1
            } else {
                i
            };
            let line = String::from_str(s.substring_char(start, end));
            proof {
                let tail = s@.skip(start as int);
                lemma_find_char_at(tail, '\n', i - start);
                assert(chop_cr(tail.take(i - start)) =~= s@.subrange(start as int, end as int));
                assert(tail.skip(i - start + 1) =~= s@.skip(i + 1));
                assert(seq_views(r@.push(line)) =~= seq_views(r@) + seq![line@]);
            }
            r.push(line);
            start = i + 1;
        }
        i += 1;
    }
    if start < n {
        let line = String::from_str(s.substring_char(start, n));
        proof {
            let tail = s@.skip(start as int);
            lemma_find_char_none(tail, '\n');
            assert(tail =~= s@.subrange(start as int, n as int));
            assert(seq_views(r@.push(line)) =~= seq_views(r@) + seq![line@]);
        }
        r.push(line);
    }
    proof {
        assert(seq_views(r@) =~= lines_spec(s@));
    }
    r
}

/// `s` without its leading whitespace.
pub open spec fn trim_front_spec(s: Seq<char>) -> Seq<char>
    decreases s.len(),
{
    if s.len() > 0 && is_wspace(s[0]) {
        trim_front_spec(s.skip(1))
    } else {
        s
    }
}

/// `s` without its trailing whitespace.
pub open spec fn trim_back_spec(s: Seq<char>) -> Seq<char>
    decreases s.len(),
{
    if s.len() > 0 && is_wspace(s.last()) {
        trim_back_spec(s.drop_last())
    } else {
        s
    }
}

/// `s` without leading and trailing whitespace.
pub open spec fn trim_spec(s: Seq<char>) -> Seq<char> {
    trim_back_spec(trim_front_spec(s))
}

pub proof fn lemma_trim_front_range(s: Seq<char>, k: int)
    requires
        0 <= k <= s.len(),
        forall|j: int| 0 <= j < k ==> is_wspace(s[j]),
        k == s.len() || !is_wspace(s[k]),
    ensures
        trim_front_spec(s) == s.skip(k),
    decreases k,
{
    if k == 0 {
        assert(s.skip(0) =~= s);
    } else {
        lemma_trim_front_range(s.skip(1), k - 1);
        assert(s.skip(1).skip(k - 1) =~= s.skip(k));
    }
}

pub proof fn lemma_trim_back_range(s: Seq<char>, k: int)
    requires
        0 <= k <= s.len(),
        forall|j: int| k <= j < s.len() ==> is_wspace(s[j]),
        k == 0 || !is_wspace(s[k - 1]),
    ensures
        trim_back_spec(s) == s.take(k),
    decreases s.len(),
{
    if k == s.len() {
        assert(s.take(k) =~= s);
    } else {
        lemma_trim_back_range(s.drop_last(), k);
        assert(s.drop_last().take(k) =~= s.take(k));
    }
}

/// A copy of `s` without leading and trailing whitespace.
pub fn trimmed(s: &str) -> (r: String)
    ensures
        r@ == trim_spec(s@),
{
    let n = s.unicode_len();
    let mut lo: usize = 0;
    while lo < n && wspace(s.get_char(lo))
        invariant
            lo <= n,
            n == s@.len(),
            forall|j: int| 0 <= j < lo ==> is_wspace(s@[j]),
        decreases n - lo,
    {
        lo += 1;
    }
    if lo == n {
        proof {
            lemma_trim_front_range(s@, n as int);
            assert(s@.skip(n as int) =~= Seq::<char>::empty());
        }
        return String::new();
    }
    let mut hi: usize = n;
    while hi > lo && wspace(s.get_char(hi - 1))
        invariant
            lo <= hi <= n,
            n == s@.len(),
            forall|j: int| hi <= j < n ==> is_wspace(s@[j]),
        decreases hi,
    {
        hi -= 1;
    }
    proof {
        if hi == lo {
            assert(is_wspace(s@[lo as int]));
        }
    }
    let r = String::from_str(s.substring_char(lo, hi));
    proof {
        lemma_trim_front_range(s@, lo as int);
        let tail = s@.skip(lo as int);
        lemma_trim_back_range(tail, hi - lo);
        assert(tail.take(hi - lo) =~= s@.subrange(lo as int, hi as int));
    }
    r
}

/// Length of the maximal whitespace-free prefix of `s`.
pub open spec fn word_len(s: Seq<char>) -> int
    decreases s.len(),
{
    if s.len() == 0 || is_wspace(s[0]) {
        0
    } else {
        1 + word_len(s.skip(1))
    }
}

pub proof fn lemma_word_len_bounds(s: Seq<char>)
    ensures
        0 <= word_len(s) <= s.len(),
    decreases s.len(),
{
    if s.len() > 0 && !is_wspace(s[0]) {
        lemma_word_len_bounds(s.skip(1));
    }
}

pub proof fn lemma_word_len_at(s: Seq<char>, k: int)
    requires
        0 <= k <= s.len(),
        forall|j: int| 0 <= j < k ==> !is_wspace(s[j]),
        k == s.len() || is_wspace(s[k]),
    ensures
        word_len(s) == k,
    decreases k,
{
    if k > 0 {
        lemma_word_len_at(s.skip(1), k - 1);
    }
}

/// The whitespace-separated fields of `s`, in order, empty fields discarded.
pub open spec fn split_ws_spec(s: Seq<char>) -> Seq<Seq<char>>
    decreases s.len(),
    via split_ws_spec_decreases
{
    if s.len() == 0 {
        Seq::empty()
    } else if is_wspace(s[0]) {
        split_ws_spec(s.skip(1))
    } else {
        seq![s.take(word_len(s))] + split_ws_spec(s.skip(word_len(s)))
    }
}

#[via_fn]
proof fn split_ws_spec_decreases(s: Seq<char>) {
    lemma_word_len_bounds(s);
    if s.len() > 0 && !is_wspace(s[0]) {
        lemma_word_len_bounds(s.skip(1));
    }
}

/// Split `s` into its whitespace-separated fields.
pub fn split_ws(s: &str) -> (r: Vec<String>)
    ensures
        seq_views(r@) == split_ws_spec(s@),
{
    let n = s.unicode_len();
    let mut r: Vec<String> = Vec::new();
    let mut i: usize = 0;
    proof {
        assert(s@.skip(0) =~= s@);
        assert(seq_views(r@) =~= Seq::<Seq<char>>::empty());
    }
    while i < n
        invariant
            i <= n,
            n == s@.len(),
            split_ws_spec(s@) == seq_views(r@) + split_ws_spec(s@.skip(i as int)),
        decreases n - i,
    {
        if wspace(s.get_char(i)) {
            proof {
                assert(s@.skip(i as int).skip(1) =~= s@.skip(i + 1));
            }
            i += 1;
        } else {
            let mut j: usize = i;
            while j < n && !wspace(s.get_char(j))
                invariant
                    i <= j <= n,
                    n == s@.len(),
                    forall|k: int| i <= k < j ==> !is_wspace(s@[k]),
                decreases n - j,
            {
                j += 1;
            }
            proof {
                if j == i {
                    assert(is_wspace(s@[i as int]));
                }
            }
            let w = String::from_str(s.substring_char(i, j));
            proof {
                let tail = s@.skip(i as int);
                lemma_word_len_at(tail, j - i);
                assert(tail.take(j - i) =~= s@.subrange(i as int, j as int));
                assert(tail.skip(j - i) =~= s@.skip(j as int));
                assert(seq_views(r@.push(w)) =~= seq_views(r@) + seq![w@]);
            }
            r.push(w);
            i = j;
        }
    }
    proof {
        assert(seq_views(r@) =~= split_ws_spec(s@));
    }
    r
}

/// Whether `p` is a prefix of `s`, character for character.
pub fn has_prefix(s: &str, p: &str) -> (b: bool)
    ensures
        b == p@.is_prefix_of(s@),
{
    let np = p.unicode_len();
    let ns = s.unicode_len();
    if np > ns {
        return false;
    }
    let mut i: usize = 0;
    while i < np
        invariant
            i <= np,
            np == p@.len(),
            ns == s@.len(),
            np <= ns,
            forall|j: int| 0 <= j < i ==> p@[j] == s@[j],
        decreases np - i,
    {
        if p.get_char(i) != s.get_char(i) {
            proof {
                assert(p@[i as int] != s@.subrange(0, np as int)[i as int]);
            }
            return false;
        }
        i += 1;
    }
    proof {
        assert(p@ =~= s@.subrange(0, np as int));
    }
    true
}

/// Whether two string slices hold the same characters.
pub fn str_eq(a: &str, b: &str) -> (r: bool)
    ensures
        r == (a@ == b@),
{
    let na = a.unicode_len();
    let nb = b.unicode_len();
    if na != nb {
        return false;
    }
    let mut i: usize = 0;
    while i < na
        invariant
            i <= na,
            na == a@.len(),
            na == b@.len(),
            forall|j: int| 0 <= j < i ==> a@[j] == b@[j],
        decreases na - i,
    {
        if a.get_char(i) != b.get_char(i) {
            return false;
        }
        i += 1;
    }
    proof {
        assert(a@ =~= b@);
    }
    true
}

} // verus!
