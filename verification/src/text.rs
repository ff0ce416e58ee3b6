//! Verified text primitives used by the fact parsers: character classes,
//! maximal runs, literal search, splitting, and digit values.

use vstd::prelude::*;

verus! {

// ---------------------------------------------------------------------------
// Character classes
// ---------------------------------------------------------------------------

/// A word character: ASCII letter, digit or underscore.
pub open spec fn is_word_char(c: char) -> bool {
    ('a' <= c && c <= 'z') || ('A' <= c && c <= 'Z') || ('0' <= c && c <= '9') || c == '_'
}

/// A word character or a hyphen (legacy-tool interface names).
pub open spec fn is_word_dash_char(c: char) -> bool {
    is_word_char(c) || c == '-'
}

/// A word character or a colon (hardware and numeric network addresses).
pub open spec fn is_word_colon_char(c: char) -> bool {
    is_word_char(c) || c == ':'
}

/// A decimal digit.
pub open spec fn is_digit_char(c: char) -> bool {
    '0' <= c && c <= '9'
}

/// A decimal digit or a dot (dotted-decimal addresses and masks).
pub open spec fn is_digit_dot_char(c: char) -> bool {
    is_digit_char(c) || c == '.'
}

/// A whitespace character.
pub open spec fn is_space_char(c: char) -> bool {
    c == ' ' || c == '\t' || c == '\n' || c == '\r' || c == '\u{b}' || c == '\u{c}'
}

/// A hexadecimal digit, either case.
pub open spec fn is_hex_char(c: char) -> bool {
    is_digit_char(c) || ('a' <= c && c <= 'f') || ('A' <= c && c <= 'F')
}

pub fn word_char(c: char) -> (b: bool)
    ensures
        b == is_word_char(c),
{
    ('a' <= c && c <= 'z') || ('A' <= c && c <= 'Z') || ('0' <= c && c <= '9') || c == '_'
}

pub fn word_dash_char(c: char) -> (b: bool)
    ensures
        b == is_word_dash_char(c),
{
    word_char(c) || c == '-'
}

pub fn word_colon_char(c: char) -> (b: bool)
    ensures
        b == is_word_colon_char(c),
{
    word_char(c) || c == ':'
}

pub fn digit_char(c: char) -> (b: bool)
    ensures
        b == is_digit_char(c),
{
    '0' <= c && c <= '9'
}

pub fn digit_dot_char(c: char) -> (b: bool)
    ensures
        b == is_digit_dot_char(c),
{
    digit_char(c) || c == '.'
}

pub fn space_char(c: char) -> (b: bool)
    ensures
        b == is_space_char(c),
{
    c == ' ' || c == '\t' || c == '\n' || c == '\r' || c == '\u{b}' || c == '\u{c}'
}

// ---------------------------------------------------------------------------
// Maximal runs of a character class
// ---------------------------------------------------------------------------

/// First index at or after `i` whose character is not in the class, or the
/// end of the text: the end of the maximal run of `cls` starting at `i`.
pub open spec fn run_end(s: Seq<char>, i: int, cls: spec_fn(char) -> bool) -> int
    decreases s.len() - i
    when 0 <= i <= s.len()
{
    if i < s.len() && cls(s[i]) {
        run_end(s, i + 1, cls)
    } else {
        i
    }
}

pub proof fn lemma_run_end(s: Seq<char>, i: int, cls: spec_fn(char) -> bool)
    requires
        0 <= i <= s.len(),
    ensures
        i <= run_end(s, i, cls) <= s.len(),
        forall|k: int| i <= k < run_end(s, i, cls) ==> cls(s[k]),
        run_end(s, i, cls) < s.len() ==> !cls(s[run_end(s, i, cls)]),
    decreases s.len() - i,
{
    if i < s.len() && cls(s[i]) {
        lemma_run_end(s, i + 1, cls);
    }
}

pub open spec fn word_cls() -> spec_fn(char) -> bool {
    |c: char| is_word_char(c)
}

pub open spec fn word_dash_cls() -> spec_fn(char) -> bool {
    |c: char| is_word_dash_char(c)
}

pub open spec fn word_colon_cls() -> spec_fn(char) -> bool {
    |c: char| is_word_colon_char(c)
}

pub open spec fn digit_cls() -> spec_fn(char) -> bool {
    |c: char| is_digit_char(c)
}

pub open spec fn digit_dot_cls() -> spec_fn(char) -> bool {
    |c: char| is_digit_dot_char(c)
}

pub open spec fn space_cls() -> spec_fn(char) -> bool {
    |c: char| is_space_char(c)
}

pub fn word_run_end(s: &str, i: usize) -> (r: usize)
    requires
        i <= s@.len(),
    ensures
        r as int == run_end(s@, i as int, word_cls()),
        i <= r <= s@.len(),
    decreases s@.len() - i,
{
    if i < s.unicode_len() && word_char(s.get_char(i)) {
        word_run_end(s, i + 1)
    } else {
        i
    }
}

pub fn word_dash_run_end(s: &str, i: usize) -> (r: usize)
    requires
        i <= s@.len(),
    ensures
        r as int == run_end(s@, i as int, word_dash_cls()),
        i <= r <= s@.len(),
    decreases s@.len() - i,
{
    if i < s.unicode_len() && word_dash_char(s.get_char(i)) {
        word_dash_run_end(s, i + 1)
    } else {
        i
    }
}

pub fn word_colon_run_end(s: &str, i: usize) -> (r: usize)
    requires
        i <= s@.len(),
    ensures
        r as int == run_end(s@, i as int, word_colon_cls()),
        i <= r <= s@.len(),
    decreases s@.len() - i,
{
    if i < s.unicode_len() && word_colon_char(s.get_char(i)) {
        word_colon_run_end(s, i + 1)
    } else {
        i
    }
}

pub fn digit_run_end(s: &str, i: usize) -> (r: usize)
    requires
        i <= s@.len(),
    ensures
        r as int == run_end(s@, i as int, digit_cls()),
        i <= r <= s@.len(),
    decreases s@.len() - i,
{
    if i < s.unicode_len() && digit_char(s.get_char(i)) {
        digit_run_end(s, i + 1)
    } else {
        i
    }
}

pub fn digit_dot_run_end(s: &str, i: usize) -> (r: usize)
    requires
        i <= s@.len(),
    ensures
        r as int == run_end(s@, i as int, digit_dot_cls()),
        i <= r <= s@.len(),
    decreases s@.len() - i,
{
    if i < s.unicode_len() && digit_dot_char(s.get_char(i)) {
        digit_dot_run_end(s, i + 1)
    } else {
        i
    }
}

pub fn space_run_end(s: &str, i: usize) -> (r: usize)
    requires
        i <= s@.len(),
    ensures
        r as int == run_end(s@, i as int, space_cls()),
        i <= r <= s@.len(),
    decreases s@.len() - i,
{
    if i < s.unicode_len() && space_char(s.get_char(i)) {
        space_run_end(s, i + 1)
    } else {
        i
    }
}

// ---------------------------------------------------------------------------
// Literal matching and search
// ---------------------------------------------------------------------------

/// `pat` occurs in `s` starting exactly at index `i`.
pub open spec fn matches_at(s: Seq<char>, i: int, pat: Seq<char>) -> bool {
    0 <= i && i + pat.len() <= s.len() && s.subrange(i, i + pat.len()) == pat
}

/// `pat` occurs somewhere in `s`.
pub open spec fn contains_seq(s: Seq<char>, pat: Seq<char>) -> bool {
    exists|i: int| matches_at(s, i, pat)
}

pub fn lit_at(s: &str, i: usize, pat: &str) -> (b: bool)
    requires
        i <= s@.len(),
    ensures
        b == matches_at(s@, i as int, pat@),
{
    let n = pat.unicode_len();
    let sn = s.unicode_len();
    if n > sn - i {
        assert(!matches_at(s@, i as int, pat@));
        return false;
    }
    let mut k: usize = 0;
    while k < n
        invariant
            i + n <= sn,
            sn == s@.len(),
            n == pat@.len(),
            0 <= k <= n,
            i <= s@.len(),
            forall|m: int| 0 <= m < k ==> s@[i + m] == pat@[m],
        decreases n - k,
    {
        if s.get_char(i + k) != pat.get_char(k) {
            assert(s@.subrange(i as int, i + pat@.len()) != pat@) by {
                assert(s@.subrange(i as int, i + pat@.len())[k as int] != pat@[k as int]);
            }
            return false;
        }
        k = k + 1;
    }
    assert(s@.subrange(i as int, i + pat@.len()) =~= pat@);
    true
}

/// Index of the first occurrence of `pat` at or after `j`, or -1 if none.
pub open spec fn find_from(s: Seq<char>, pat: Seq<char>, j: int) -> int
    decreases s.len() - j
    when 0 <= j <= s.len() && pat.len() >= 1
{
    if j + pat.len() > s.len() {
        -1
    } else if matches_at(s, j, pat) {
        j
    } else {
        find_from(s, pat, j + 1)
    }
}

pub proof fn lemma_find_from(s: Seq<char>, pat: Seq<char>, j: int)
    requires
        0 <= j <= s.len(),
        pat.len() >= 1,
    ensures
        find_from(s, pat, j) == -1 || (j <= find_from(s, pat, j) && find_from(s, pat, j)
            + pat.len() <= s.len() && matches_at(s, find_from(s, pat, j), pat)),
        find_from(s, pat, j) == -1 ==> forall|k: int| j <= k ==> !matches_at(s, k, pat),
        forall|k: int| j <= k < find_from(s, pat, j) ==> !matches_at(s, k, pat),
    decreases s.len() - j,
{
    if j + pat.len() > s.len() {
        assert(forall|k: int| j <= k ==> !matches_at(s, k, pat));
    } else if matches_at(s, j, pat) {
    } else {
        lemma_find_from(s, pat, j + 1);
    }
}

pub fn find_lit_from(s: &str, pat: &str, j: usize) -> (r: Option<usize>)
    requires
        j <= s@.len(),
        pat@.len() >= 1,
    ensures
        match r {
            Some(k) => find_from(s@, pat@, j as int) == k as int && j <= k && k + pat@.len()
                <= s@.len(),
            None => find_from(s@, pat@, j as int) == -1,
        },
    decreases s@.len() - j,
{
    if pat.unicode_len() > s.unicode_len() - j {
        None
    } else if lit_at(s, j, pat) {
        Some(j)
    } else {
        find_lit_from(s, pat, j + 1)
    }
}

pub fn contains_lit(s: &str, pat: &str) -> (b: bool)
    requires
        pat@.len() >= 1,
    ensures
        b == contains_seq(s@, pat@),
{
    proof {
        lemma_find_from(s@, pat@, 0);
    }
    match find_lit_from(s, pat, 0) {
        Some(k) => {
            assert(matches_at(s@, k as int, pat@));
            true
        },
        None => {
            assert(forall|i: int| !matches_at(s@, i, pat@)) by {
                assert(forall|i: int| i < 0 ==> !matches_at(s@, i, pat@));
                assert(forall|i: int| 0 <= i ==> !matches_at(s@, i, pat@));
            }
            false
        },
    }
}

/// Index of the first occurrence of character `c` at or after `j`, or -1.
pub open spec fn find_char_from(s: Seq<char>, c: char, j: int) -> int
    decreases s.len() - j
    when 0 <= j <= s.len()
{
    if j >= s.len() {
        -1
    } else if s[j] == c {
        j
    } else {
        find_char_from(s, c, j + 1)
    }
}

pub proof fn lemma_find_char_from(s: Seq<char>, c: char, j: int)
    requires
        0 <= j <= s.len(),
    ensures
        find_char_from(s, c, j) == -1 || (j <= find_char_from(s, c, j) && find_char_from(s, c, j)
            < s.len() && s[find_char_from(s, c, j)] == c),
        find_char_from(s, c, j) == -1 ==> forall|k: int| j <= k < s.len() ==> s[k] != c,
        forall|k: int| j <= k < find_char_from(s, c, j) ==> s[k] != c,
    decreases s.len() - j,
{
    if j >= s.len() {
    } else if s[j] == c {
    } else {
        lemma_find_char_from(s, c, j + 1);
    }
}

pub proof fn lemma_find_char_exact(s: Seq<char>, c: char, j: int, k: int)
    requires
        0 <= j <= k < s.len(),
        s[k] == c,
        forall|m: int| j <= m < k ==> s[m] != c,
    ensures
        find_char_from(s, c, j) == k,
    decreases k - j,
{
    if j < k {
        lemma_find_char_exact(s, c, j + 1, k);
    }
}

pub fn find_char(s: &str, c: char, j: usize) -> (r: Option<usize>)
    requires
        j <= s@.len(),
    ensures
        match r {
            Some(k) => find_char_from(s@, c, j as int) == k as int && j <= k && k < s@.len(),
            None => find_char_from(s@, c, j as int) == -1,
        },
    decreases s@.len() - j,
{
    if j >= s.unicode_len() {
        None
    } else if s.get_char(j) == c {
        Some(j)
    } else {
        find_char(s, c, j + 1)
    }
}

// ---------------------------------------------------------------------------
// Splitting
// ---------------------------------------------------------------------------

/// All pieces of `s` from `j` on, split at every occurrence of `c`; empty
/// pieces are kept, as the count of pieces is significant to callers.
pub open spec fn split_char_from(s: Seq<char>, c: char, j: int) -> Seq<Seq<char>>
    decreases s.len() - j
    when 0 <= j <= s.len()
    via split_char_from_decreases
{
    let i = find_char_from(s, c, j);
    if i < 0 {
        seq![s.subrange(j, s.len() as int)]
    } else {
        seq![s.subrange(j, i)] + split_char_from(s, c, i + 1)
    }
}

#[via_fn]
proof fn split_char_from_decreases(s: Seq<char>, c: char, j: int) {
    lemma_find_char_from(s, c, j);
}

pub fn split_char_all(s: &str, c: char) -> (r: Vec<String>)
    ensures
        r.deep_view() == split_char_from(s@, c, 0),
{
    let mut out: Vec<String> = Vec::new();
    let mut j: usize = 0;
    let n = s.unicode_len();
    loop
        invariant_except_break
            n == s@.len(),
            j <= n,
            out.deep_view() + split_char_from(s@, c, j as int) == split_char_from(s@, c, 0),
        ensures
            out.deep_view() == split_char_from(s@, c, 0),
        decreases s@.len() - j,
    {
        proof {
            lemma_find_char_from(s@, c, j as int);
        }
        match find_char(s, c, j) {
            None => {
                let piece = s.substring_char(j, n).to_owned();
                let ghost prev = out.deep_view();
                out.push(piece);
                proof {
                    assert(out.deep_view() =~= prev.push(piece@));
                    assert(prev.push(piece@) =~= prev + split_char_from(s@, c, j as int));
                }
                break;
            },
            Some(i) => {
                let piece = s.substring_char(j, i).to_owned();
                let ghost prev = out.deep_view();
                out.push(piece);
                proof {
                    assert(out.deep_view() =~= prev.push(piece@));
                    assert(prev.push(piece@) + split_char_from(s@, c, i + 1) =~= prev
                        + split_char_from(s@, c, j as int));
                }
                j = i + 1;
            },
        }
    }
    out
}

/// The non-empty pieces of `s` from `j` on, split at every occurrence of the
/// (non-empty) separator `sep`.
pub open spec fn split_lit_from(s: Seq<char>, sep: Seq<char>, j: int) -> Seq<Seq<char>>
    decreases s.len() - j
    when 0 <= j <= s.len() && sep.len() >= 1
    via split_lit_from_decreases
{
    let i = find_from(s, sep, j);
    if i < 0 {
        if j == s.len() {
            Seq::empty()
        } else {
            seq![s.subrange(j, s.len() as int)]
        }
    } else {
        (if i == j {
            Seq::<Seq<char>>::empty()
        } else {
            seq![s.subrange(j, i)]
        }) + split_lit_from(s, sep, i + sep.len())
    }
}

#[via_fn]
proof fn split_lit_from_decreases(s: Seq<char>, sep: Seq<char>, j: int) {
    lemma_find_from(s, sep, j);
}

pub fn split_lit_nonempty(s: &str, sep: &str) -> (r: Vec<String>)
    requires
        sep@.len() >= 1,
    ensures
        r.deep_view() == split_lit_from(s@, sep@, 0),
{
    let mut out: Vec<String> = Vec::new();
    let mut j: usize = 0;
    let n = s.unicode_len();
    let sep_n = sep.unicode_len();
    loop
        invariant_except_break
            n == s@.len(),
            sep_n == sep@.len(),
            j <= n,
            sep@.len() >= 1,
            out.deep_view() + split_lit_from(s@, sep@, j as int) == split_lit_from(s@, sep@, 0),
        ensures
            out.deep_view() == split_lit_from(s@, sep@, 0),
        decreases s@.len() - j,
    {
        proof {
            lemma_find_from(s@, sep@, j as int);
        }
        match find_lit_from(s, sep, j) {
            None => {
                if j < n {
                    let piece = s.substring_char(j, n).to_owned();
                    let ghost prev = out.deep_view();
                    out.push(piece);
                    proof {
                        assert(out.deep_view() =~= prev.push(piece@));
                        assert(prev.push(piece@) =~= prev + split_lit_from(s@, sep@, j as int));
                    }
                } else {
                    proof {
                        assert(out.deep_view() + split_lit_from(s@, sep@, j as int)
                            =~= out.deep_view());
                    }
                }
                break;
            },
            Some(i) => {
                if i > j {
                    let piece = s.substring_char(j, i).to_owned();
                    let ghost prev = out.deep_view();
                    out.push(piece);
                    proof {
                        assert(out.deep_view() =~= prev.push(piece@));
                        assert(prev.push(piece@) + split_lit_from(s@, sep@, i + sep@.len())
                            =~= prev + split_lit_from(s@, sep@, j as int));
                    }
                } else {
                    proof {
                        assert(out.deep_view() + split_lit_from(s@, sep@, i + sep@.len())
                            =~= out.deep_view() + split_lit_from(s@, sep@, j as int));
                    }
                }
                j = i + sep_n;
            },
        }
    }
    out
}

// ---------------------------------------------------------------------------
// Digit values
// ---------------------------------------------------------------------------

/// Value of a decimal digit.
pub open spec fn digit_val(c: char) -> int {
    c as int - '0' as int
}

/// Value of a hexadecimal digit, either case.
pub open spec fn hex_val(c: char) -> int {
    if is_digit_char(c) {
        c as int - '0' as int
    } else if 'a' <= c && c <= 'f' {
        c as int - 'a' as int + 10
    } else {
        c as int - 'A' as int + 10
    }
}

/// Every character is a decimal digit.
pub open spec fn all_digits(s: Seq<char>) -> bool {
    forall|i: int| 0 <= i < s.len() ==> is_digit_char(#[trigger] s[i])
}

/// Every character is a hexadecimal digit.
pub open spec fn all_hex(s: Seq<char>) -> bool {
    forall|i: int| 0 <= i < s.len() ==> is_hex_char(#[trigger] s[i])
}

/// The number written by a sequence of decimal digits.
pub open spec fn dec_value(s: Seq<char>) -> int
    decreases s.len(),
{
    if s.len() == 0 {
        0
    } else {
        dec_value(s.drop_last()) * 10 + digit_val(s.last())
    }
}

/// The number written by a sequence of hexadecimal digits.
pub open spec fn hex_value(s: Seq<char>) -> int
    decreases s.len(),
{
    if s.len() == 0 {
        0
    } else {
        hex_value(s.drop_last()) * 16 + hex_val(s.last())
    }
}

// ---------------------------------------------------------------------------
// String equality
// ---------------------------------------------------------------------------

pub fn str_eq(a: &str, b: &str) -> (r: bool)
    ensures
        r == (a@ == b@),
{
    let n = a.unicode_len();
    if n != b.unicode_len() {
        return false;
    }
    let mut k: usize = 0;
    while k < n
        invariant
            n == a@.len(),
            n == b@.len(),
            0 <= k <= n,
            forall|m: int| 0 <= m < k ==> a@[m] == b@[m],
        decreases n - k,
    {
        if a.get_char(k) != b.get_char(k) {
            return false;
        }
        k = k + 1;
    }
    proof {
        assert(a@ =~= b@);
    }
    true
}


pub proof fn lemma_find_char_offset(s: Seq<char>, c: char, j: int, k: int)
    requires
        0 <= j,
        0 <= k,
        j + k <= s.len(),
    ensures
        ({
            let r = s.subrange(j, s.len() as int);
            find_char_from(s, c, j + k) == if find_char_from(r, c, k) < 0 {
                -1
            } else {
                j + find_char_from(r, c, k)
            }
        }),
    decreases s.len() - j - k,
{
    let r = s.subrange(j, s.len() as int);
    if j + k >= s.len() {
    } else if s[j + k] == c {
        assert(r[k] == s[j + k]);
    } else {
        assert(r[k] == s[j + k]);
        lemma_find_char_offset(s, c, j, k + 1);
    }
}

/// Splitting from position `j` is splitting the suffix from its start.
pub proof fn lemma_split_char_suffix(s: Seq<char>, c: char, j: int)
    requires
        0 <= j <= s.len(),
    ensures
        split_char_from(s, c, j) == split_char_from(s.subrange(j, s.len() as int), c, 0),
    decreases s.len() - j,
{
    let r = s.subrange(j, s.len() as int);
    lemma_find_char_offset(s, c, j, 0);
    lemma_find_char_from(s, c, j);
    lemma_find_char_from(r, c, 0);
    let i = find_char_from(s, c, j);
    let ri = find_char_from(r, c, 0);
    if i < 0 {
        assert(r.subrange(0, r.len() as int) =~= r);
        assert(s.subrange(j, s.len() as int) == r);
    } else {
        assert(i == j + ri);
        assert(s.subrange(j, i) =~= r.subrange(0, ri));
        lemma_split_char_suffix(s, c, i + 1);
        lemma_split_char_suffix(r, c, ri + 1);
        assert(s.subrange(i + 1, s.len() as int) =~= r.subrange(ri + 1, r.len() as int));
    }
}

/// Splitting a text that begins with a separator-free piece yields that
/// piece and then the split of the remainder.
pub proof fn lemma_split_char_prepend(a: Seq<char>, c: char, rest: Seq<char>)
    requires
        forall|i: int| 0 <= i < a.len() ==> a[i] != c,
    ensures
        split_char_from(a + seq![c] + rest, c, 0) == seq![a] + split_char_from(rest, c, 0),
{
    let s = a + seq![c] + rest;
    assert(s[a.len() as int] == c);
    assert(forall|m: int| 0 <= m < a.len() ==> s[m] == a[m]);
    lemma_find_char_exact(s, c, 0, a.len() as int);
    assert(s.subrange(0, a.len() as int) =~= a);
    lemma_split_char_suffix(s, c, a.len() as int + 1);
    assert(s.subrange(a.len() as int + 1, s.len() as int) =~= rest);
}

/// Splitting a separator-free text yields the text alone.
pub proof fn lemma_split_char_whole(a: Seq<char>, c: char)
    requires
        forall|i: int| 0 <= i < a.len() ==> a[i] != c,
    ensures
        split_char_from(a, c, 0) == seq![a],
{
    lemma_find_char_from(a, c, 0);
    assert(find_char_from(a, c, 0) == -1);
    assert(a.subrange(0, a.len() as int) =~= a);
}

/// A character class holding of two texts holds of their concatenation.
pub proof fn lemma_all_class_concat(a: Seq<char>, b: Seq<char>, cls: spec_fn(char) -> bool)
    requires
        forall|i: int| 0 <= i < a.len() ==> cls(a[i]),
        forall|i: int| 0 <= i < b.len() ==> cls(b[i]),
    ensures
        forall|i: int| 0 <= i < (a + b).len() ==> cls((a + b)[i]),
{
    assert forall|i: int| 0 <= i < (a + b).len() implies cls((a + b)[i]) by {
        if i < a.len() {
            assert((a + b)[i] == a[i]);
        } else {
            assert((a + b)[i] == b[i - a.len()]);
        }
    }
}

} // verus!
