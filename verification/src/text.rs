//! Character-level text helpers: first-occurrence search and
//! character-for-character equality over string slices.

use vstd::prelude::*;
use vstd::string::StrSliceExecFns;

verus! {

/// Index of the first occurrence of `c` in `s` at or after position `i`.
pub open spec fn find_from(s: Seq<char>, c: char, i: int) -> Option<int>
    decreases s.len() - i,
{
    if i < 0 || i >= s.len() {
        None
    } else if s[i] == c {
        Some(i)
    } else {
        find_from(s, c, i + 1)
    }
}

/// Index of the first occurrence of `c` in `s`, if any.
pub open spec fn spec_find(s: Seq<char>, c: char) -> Option<int> {
    find_from(s, c, 0)
}

/// Whether `c` occurs anywhere in `s`.
pub open spec fn has_char(s: Seq<char>, c: char) -> bool {
    spec_find(s, c) is Some
}

proof fn lemma_find_from_props(s: Seq<char>, c: char, i: int)
    requires
        0 <= i <= s.len(),
    ensures
        match find_from(s, c, i) {
            Some(k) => i <= k < s.len() && s[k] == c && (forall|j: int| i <= j < k ==> s[j] != c),
            None => forall|j: int| i <= j < s.len() ==> s[j] != c,
        },
    decreases s.len() - i,
{
    if i < s.len() && s[i] != c {
        lemma_find_from_props(s, c, i + 1);
    }
}

/// The first occurrence returned by `spec_find` is an occurrence, and the
/// least one; `None` means `c` does not occur at all.
pub proof fn lemma_find_props(s: Seq<char>, c: char)
    ensures
        match spec_find(s, c) {
            Some(k) => 0 <= k < s.len() && s[k] == c && (forall|j: int| 0 <= j < k ==> s[j] != c),
            None => forall|j: int| 0 <= j < s.len() ==> s[j] != c,
        },
{
    lemma_find_from_props(s, c, 0);
}

/// `has_char` agrees with plain existence of an occurrence.
pub proof fn lemma_has_char(s: Seq<char>, c: char)
    ensures
        has_char(s, c) <==> exists|i: int| 0 <= i < s.len() && s[i] == c,
{
    lemma_find_props(s, c);
}

/// First occurrence of `c` in `line`, scanning characters from the front.
pub fn find_char(line: &str, c: char) -> (r: Option<usize>)
    ensures
        match r {
            Some(u) => spec_find(line@, c) == Some(u as int),
            None => spec_find(line@, c) is None,
        },
{
    let n = line.unicode_len();
    let mut i: usize = 0;
    while i < n
        invariant
            n == line@.len(),
            0 <= i <= n,
            find_from(line@, c, 0) == find_from(line@, c, i as int),
        decreases n - i,
    {
        if line.get_char(i) == c {
            return Some(i);
        }
        i += 1;
    }
    None
}

/// Whether `c` occurs anywhere in `line`.
pub fn contains_char(line: &str, c: char) -> (r: bool)
    ensures
        r == has_char(line@, c),
{
    find_char(line, c).is_some()
}

/// Index of the first position at or after `i` where `c1` is immediately
/// followed by `c2`.
pub open spec fn find_pair_from(s: Seq<char>, c1: char, c2: char, i: int) -> Option<int>
    decreases s.len() - i,
{
    if i < 0 || i + 1 >= s.len() {
        None
    } else if s[i] == c1 && s[i + 1] == c2 {
        Some(i)
    } else {
        find_pair_from(s, c1, c2, i + 1)
    }
}

/// Index of the first occurrence of the two-character run `c1 c2`, if any.
pub open spec fn spec_find_pair(s: Seq<char>, c1: char, c2: char) -> Option<int> {
    find_pair_from(s, c1, c2, 0)
}

/// First occurrence of the run `c1 c2` in `line`.
pub fn find_pair(line: &str, c1: char, c2: char) -> (r: Option<usize>)
    ensures
        match r {
            Some(u) => spec_find_pair(line@, c1, c2) == Some(u as int) && u + 1 < line@.len(),
            None => spec_find_pair(line@, c1, c2) is None,
        },
{
    let n = line.unicode_len();
    if n < 2 {
        return None;
    }
    let mut i: usize = 0;
    while i + 1 < n
        invariant
            n == line@.len(),
            0 <= i,
            i + 1 <= n,
            find_pair_from(line@, c1, c2, 0) == find_pair_from(line@, c1, c2, i as int),
        decreases n - i,
    {
        if line.get_char(i) == c1 && line.get_char(i + 1) == c2 {
            return Some(i);
        }
        i += 1;
    }
    None
}

/// A blank character for the purposes of trimming: the common horizontal
/// and vertical spacing characters.
pub open spec fn is_space(c: char) -> bool {
    c == ' ' || c == '\t' || c == '\r' || c == '\n'
}

/// Index of the first non-blank character at or after `i` (the length if
/// there is none).
pub open spec fn skip_spaces(s: Seq<char>, i: int) -> int
    decreases s.len() - i,
{
    if i < 0 || i >= s.len() {
        s.len() as int
    } else if is_space(s[i]) {
        skip_spaces(s, i + 1)
    } else {
        i
    }
}

/// End (exclusive) of the last non-blank character before `i` (zero if
/// there is none).
pub open spec fn rskip_spaces(s: Seq<char>, i: int) -> int
    decreases i,
{
    if i <= 0 {
        0
    } else if is_space(s[i - 1]) {
        rskip_spaces(s, i - 1)
    } else {
        i
    }
}

/// `s` with its leading and trailing blanks removed.
pub open spec fn spec_trim(s: Seq<char>) -> Seq<char> {
    let a = skip_spaces(s, 0);
    let b = rskip_spaces(s, s.len() as int);
    if a < b {
        s.subrange(a, b)
    } else {
        Seq::empty()
    }
}

/// Whether `c` is a blank character.
pub fn is_blank(c: char) -> (r: bool)
    ensures
        r == is_space(c),
{
    c == ' ' || c == '\t' || c == '\r' || c == '\n'
}

/// `line` with leading and trailing blanks removed.
pub fn trim_line(line: &str) -> (r: String)
    ensures
        r@ == spec_trim(line@),
{
    let n = line.unicode_len();
    let mut a: usize = 0;
    while a < n && is_blank(line.get_char(a))
        invariant
            n == line@.len(),
            0 <= a <= n,
            skip_spaces(line@, 0) == skip_spaces(line@, a as int),
        decreases n - a,
    {
        a += 1;
    }
    let mut b: usize = n;
    while b > 0 && is_blank(line.get_char(b - 1))
        invariant
            n == line@.len(),
            0 <= b <= n,
            rskip_spaces(line@, n as int) == rskip_spaces(line@, b as int),
        decreases b,
    {
        b -= 1;
    }
    if a < b {
        line.substring_char(a, b).to_owned()
    } else {
        let r = String::new();
        proof {
            assert(r@ =~= spec_trim(line@));
        }
        r
    }
}

/// Views of a sequence of owned lines.
pub open spec fn line_views(s: Seq<String>) -> Seq<Seq<char>> {
    s.map_values(|x: String| x@)
}

/// One line as the comment stripper leaves it: a line opening with `//` is
/// dropped; a line with `//` further in is cut before it and trimmed; any
/// other line passes through untouched.
pub open spec fn spec_clean_line(l: Seq<char>) -> Option<Seq<char>> {
    match spec_find_pair(l, '/', '/') {
        Some(ci) => if ci == 0 {
            None
        } else {
            Some(spec_trim(l.subrange(0, ci)))
        },
        None => Some(l),
    }
}

/// The first `i` lines after comment stripping, dropped lines omitted.
pub open spec fn spec_clean_lines(ls: Seq<Seq<char>>, i: int) -> Seq<Seq<char>>
    decreases i,
{
    if i <= 0 {
        Seq::empty()
    } else {
        let prev = spec_clean_lines(ls, i - 1);
        match spec_clean_line(ls[i - 1]) {
            Some(l2) => prev.push(l2),
            None => prev,
        }
    }
}

/// Strip comments: drop comment-only lines, cut a trailing comment off and
/// trim what is left, and pass every other line through unchanged.
pub fn remove_comments_from_lines(lines: &Vec<String>) -> (r: Vec<String>)
    ensures
        line_views(r@) == spec_clean_lines(line_views(lines@), lines@.len() as int),
{
    let mut ret_vec: Vec<String> = Vec::new();
    let ghost views = line_views(lines@);
    let n = lines.len();
    let mut i: usize = 0;
    while i < n
        invariant
            n == lines@.len(),
            views == line_views(lines@),
            0 <= i <= n,
            line_views(ret_vec@) == spec_clean_lines(views, i as int),
        decreases n - i,
    {
        let line = &lines[i];
        let ghost prev = ret_vec@;
        let mut keep: Option<String> = None;
        match find_pair(line.as_str(), '/', '/') {
            Some(ci) => {
                if ci > 0 {
                    let head = line.as_str().substring_char(0, ci);
                    keep = Some(trim_line(head));
                }
            },
            None => {
                keep = Some(line.clone());
            },
        }
        if let Some(out) = keep {
            ret_vec.push(out);
            proof {
                assert(line_views(ret_vec@) =~= line_views(prev).push(out@));
            }
        }
        proof {
            assert(line_views(ret_vec@) =~= spec_clean_lines(views, i + 1));
        }
        i += 1;
    }
    ret_vec
}

/// Character-for-character equality of two string slices.
pub fn str_eq(a: &str, b: &str) -> (r: bool)
    ensures
        r == (a@ == b@),
{
    let n = a.unicode_len();
    if n != b.unicode_len() {
        return false;
    }
    let mut i: usize = 0;
    while i < n
        invariant
            n == a@.len(),
            n == b@.len(),
            0 <= i <= n,
            forall|j: int| 0 <= j < i ==> a@[j] == b@[j],
        decreases n - i,
    {
        if a.get_char(i) != b.get_char(i) {
            return false;
        }
        i += 1;
    }
    proof {
        assert(a@ =~= b@);
    }
    true
}

} // verus!
