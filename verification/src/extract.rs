//! The vote-count grammar.
//!
//! A page's vote count is the number in the first occurrence of the
//! pattern `from <whitespace> <digits> <whitespace> vote` in a text
//! (`votes` is also matched, since it begins with `vote`).  The digits may
//! carry leading zeros; a number that does not fit in `u32` makes the
//! extraction fail.  A page is searched one text node at a time, and only
//! the first node containing the pattern is consulted: if its number
//! overflows, the page yields no count, even when a later node matches.
//!
//! The whitespace between the words is the full Unicode White_Space
//! class, the set a regex `\s` denotes, so text whose spaces decode from
//! entities such as `&nbsp;` still matches.  The digit run, by contrast,
//! is deliberately the ASCII digits `0`–`9` alone: no other decimal digit
//! code point can ever form a `u32` value, so the grammar does not treat
//! them as digits at all.

use vstd::prelude::*;
use crate::outcome::AttemptError;

verus! {

/// The whitespace the grammar accepts between the words of the pattern:
/// the Unicode White_Space code points.
pub open spec fn is_space_char(c: char) -> bool {
    ||| ('\t' <= c && c <= '\r')
    ||| c == ' '
    ||| c == '\u{85}'
    ||| c == '\u{a0}'
    ||| c == '\u{1680}'
    ||| ('\u{2000}' <= c && c <= '\u{200a}')
    ||| c == '\u{2028}'
    ||| c == '\u{2029}'
    ||| c == '\u{202f}'
    ||| c == '\u{205f}'
    ||| c == '\u{3000}'
}

pub open spec fn is_digit_char(c: char) -> bool {
    '0' <= c && c <= '9'
}

/// The pattern occurs at position `i` of `s` with these run boundaries:
/// `from` at `i`, whitespace over `[i + 4, a)`, digits over `[a, b)`,
/// whitespace over `[b, c)`, and `vote` at `c`.  Each run is non-empty.
pub open spec fn split_at(s: Seq<char>, i: int, a: int, b: int, c: int) -> bool {
    &&& 0 <= i
    &&& i + 4 < a
    &&& a < b
    &&& b < c
    &&& c + 4 <= s.len()
    &&& s[i] == 'f' && s[i + 1] == 'r' && s[i + 2] == 'o' && s[i + 3] == 'm'
    &&& (forall|k: int| i + 4 <= k < a ==> is_space_char(s[k]))
    &&& (forall|k: int| a <= k < b ==> is_digit_char(s[k]))
    &&& (forall|k: int| b <= k < c ==> is_space_char(s[k]))
    &&& s[c] == 'v' && s[c + 1] == 'o' && s[c + 2] == 't' && s[c + 3] == 'e'
}

/// The pattern occurs at position `i` of `s`.
pub open spec fn match_at(s: Seq<char>, i: int) -> bool {
    exists|a: int, b: int, c: int| split_at(s, i, a, b, c)
}

/// The pattern occurs somewhere in `s`.
pub open spec fn has_match(s: Seq<char>) -> bool {
    exists|i: int| match_at(s, i)
}

/// The pattern occurs at `i` and nowhere earlier.
pub open spec fn is_first_match(s: Seq<char>, i: int) -> bool {
    match_at(s, i) && (forall|j: int| 0 <= j < i ==> !match_at(s, j))
}

/// The position of the leftmost occurrence of the pattern in `s`.
pub open spec fn first_match_pos(s: Seq<char>) -> int {
    choose|i: int| is_first_match(s, i)
}

/// The digit run of the occurrence at position `i` begins at `a`.
pub open spec fn digit_run_starts(s: Seq<char>, i: int, a: int) -> bool {
    exists|b: int, c: int| split_at(s, i, a, b, c)
}

/// The digit run of the occurrence at position `i` runs from `a` to `b`.
pub open spec fn digit_run_is(s: Seq<char>, i: int, a: int, b: int) -> bool {
    exists|c: int| split_at(s, i, a, b, c)
}

/// The start of the digit run of the occurrence at position `i`.
pub open spec fn match_digit_start(s: Seq<char>, i: int) -> int {
    choose|a: int| digit_run_starts(s, i, a)
}

/// The end of the digit run of the occurrence at position `i`.
pub open spec fn match_digit_end(s: Seq<char>, i: int) -> int {
    choose|b: int| digit_run_is(s, i, match_digit_start(s, i), b)
}

/// The number written by a run of decimal digits, most significant first.
pub open spec fn digits_val(ds: Seq<char>) -> int
    decreases ds.len(),
{
    if ds.len() == 0 {
        0
    } else {
        digits_val(ds.drop_last()) * 10 + (ds.last() as int - '0' as int)
    }
}

/// What the grammar yields on a whole text: the value of the digits of the
/// leftmost occurrence, if there is one and the value fits in `u32`.
pub open spec fn spec_vote_count(s: Seq<char>) -> Option<u32> {
    if has_match(s) {
        let i = first_match_pos(s);
        let v = digits_val(s.subrange(match_digit_start(s, i), match_digit_end(s, i)));
        if 0 <= v <= u32::MAX {
            Some(v as u32)
        } else {
            None
        }
    } else {
        None
    }
}

/// Given an occurrence at `i` whose whitespace run `[i + 4, a)` agrees
/// with a maximal scan ending at `a`, the occurrence's own whitespace run
/// must also end at `a`.
proof fn lemma_forced_a(s: Seq<char>, i: int, a: int, a2: int, b2: int, c2: int)
    requires
        split_at(s, i, a2, b2, c2),
        i + 4 <= a <= s.len(),
        forall|k: int| i + 4 <= k < a ==> is_space_char(s[k]),
        a < s.len() ==> !is_space_char(s[a]),
    ensures
        a2 == a,
        a < s.len(),
        is_digit_char(s[a]),
{
    assert(is_digit_char(s[a2]));
    if a2 < a {
        assert(is_space_char(s[a2]));
        assert(false);
    }
    if a2 > a {
        assert(a < s.len());
        assert(is_space_char(s[a]));
        assert(false);
    }
}

/// As [`lemma_forced_a`], continued through the digit run: a maximal digit
/// scan from `a` to `b` pins the occurrence's digit run to `[a, b)`.
proof fn lemma_forced_b(s: Seq<char>, i: int, a: int, b: int, a2: int, b2: int, c2: int)
    requires
        split_at(s, i, a2, b2, c2),
        i + 4 <= a <= s.len(),
        forall|k: int| i + 4 <= k < a ==> is_space_char(s[k]),
        a < s.len() ==> !is_space_char(s[a]),
        a <= b <= s.len(),
        forall|k: int| a <= k < b ==> is_digit_char(s[k]),
        b < s.len() ==> !is_digit_char(s[b]),
    ensures
        a2 == a,
        b2 == b,
        b < s.len(),
        is_space_char(s[b]),
{
    lemma_forced_a(s, i, a, a2, b2, c2);
    assert(is_space_char(s[b2]));
    if b2 < b {
        assert(is_digit_char(s[b2]));
        assert(false);
    }
    if b2 > b {
        assert(b < s.len());
        assert(is_digit_char(s[b]));
        assert(false);
    }
}

/// As [`lemma_forced_b`], continued through the second whitespace run: a
/// maximal whitespace scan from `b` to `c` pins the occurrence entirely.
proof fn lemma_forced_c(s: Seq<char>, i: int, a: int, b: int, c: int, a2: int, b2: int, c2: int)
    requires
        split_at(s, i, a2, b2, c2),
        i + 4 <= a <= s.len(),
        forall|k: int| i + 4 <= k < a ==> is_space_char(s[k]),
        a < s.len() ==> !is_space_char(s[a]),
        a <= b <= s.len(),
        forall|k: int| a <= k < b ==> is_digit_char(s[k]),
        b < s.len() ==> !is_digit_char(s[b]),
        b <= c <= s.len(),
        forall|k: int| b <= k < c ==> is_space_char(s[k]),
        c < s.len() ==> !is_space_char(s[c]),
    ensures
        a2 == a,
        b2 == b,
        c2 == c,
        c + 4 <= s.len(),
        s[c] == 'v' && s[c + 1] == 'o' && s[c + 2] == 't' && s[c + 3] == 'e',
{
    lemma_forced_b(s, i, a, b, a2, b2, c2);
    assert(s[c2] == 'v');
    if c2 < c {
        assert(is_space_char(s[c2]));
        assert(false);
    }
    if c2 > c {
        assert(c < s.len());
        assert(is_space_char(s[c]));
        assert(false);
    }
}

/// The run boundaries of an occurrence at a given position are unique.
proof fn lemma_split_unique(s: Seq<char>, i: int, a: int, b: int, c: int, a2: int, b2: int, c2: int)
    requires
        split_at(s, i, a, b, c),
        split_at(s, i, a2, b2, c2),
    ensures
        a2 == a,
        b2 == b,
        c2 == c,
{
    assert(is_digit_char(s[a]));
    assert(is_space_char(s[b]));
    assert(s[c] == 'v');
    lemma_forced_c(s, i, a, b, c, a2, b2, c2);
}

fn is_space_c(c: char) -> (r: bool)
    ensures
        r == is_space_char(c),
{
    ('\t' <= c && c <= '\r') || c == ' ' || c == '\u{85}' || c == '\u{a0}' || c == '\u{1680}' || (
    '\u{2000}' <= c && c <= '\u{200a}') || c == '\u{2028}' || c == '\u{2029}' || c == '\u{202f}'
        || c == '\u{205f}' || c == '\u{3000}'
}

fn is_digit_c(c: char) -> (r: bool)
    ensures
        r == is_digit_char(c),
{
    '0' <= c && c <= '9'
}

/// The end of the maximal whitespace run of `text` that begins at `from`.
fn scan_spaces(text: &Vec<char>, from: usize) -> (r: usize)
    requires
        from <= text@.len(),
    ensures
        from <= r <= text@.len(),
        forall|k: int| from <= k < r ==> is_space_char(text@[k]),
        r < text@.len() ==> !is_space_char(text@[r as int]),
{
    let mut j = from;
    while j < text.len() && is_space_c(text[j])
        invariant
            from <= j <= text@.len(),
            forall|k: int| from <= k < j ==> is_space_char(text@[k]),
        decreases text@.len() - j,
    {
        j = j + 1;
    }
    j
}

/// The end of the maximal digit run of `text` that begins at `from`.
fn scan_digits(text: &Vec<char>, from: usize) -> (r: usize)
    requires
        from <= text@.len(),
    ensures
        from <= r <= text@.len(),
        forall|k: int| from <= k < r ==> is_digit_char(text@[k]),
        r < text@.len() ==> !is_digit_char(text@[r as int]),
{
    let mut j = from;
    while j < text.len() && is_digit_c(text[j])
        invariant
            from <= j <= text@.len(),
            forall|k: int| from <= k < j ==> is_digit_char(text@[k]),
        decreases text@.len() - j,
    {
        j = j + 1;
    }
    j
}

/// Decide whether the pattern occurs at position `i`, and hand back the
/// boundaries of its digit run if it does.
fn check_match_at(text: &Vec<char>, i: usize) -> (r: Option<(usize, usize)>)
    requires
        i < text@.len(),
    ensures
        r matches Some(ab) ==> digit_run_is(text@, i as int, ab.0 as int, ab.1 as int),
        r is None ==> !match_at(text@, i as int),
{
    let n = text.len();
    if n - i < 4 {
        return None;
    }
    if !(text[i] == 'f' && text[i + 1] == 'r' && text[i + 2] == 'o' && text[i + 3] == 'm') {
        return None;
    }
    let a = scan_spaces(text, i + 4);
    if a == i + 4 || a == n || !is_digit_c(text[a]) {
        proof {
            assert forall|a2: int, b2: int, c2: int|
                !split_at(text@, i as int, a2, b2, c2) by {
                if split_at(text@, i as int, a2, b2, c2) {
                    lemma_forced_a(text@, i as int, a as int, a2, b2, c2);
                    assert(false);
                }
            }
        }
        return None;
    }
    let b = scan_digits(text, a);
    if b == n || !is_space_c(text[b]) {
        proof {
            assert forall|a2: int, b2: int, c2: int|
                !split_at(text@, i as int, a2, b2, c2) by {
                if split_at(text@, i as int, a2, b2, c2) {
                    lemma_forced_b(text@, i as int, a as int, b as int, a2, b2, c2);
                    assert(false);
                }
            }
        }
        return None;
    }
    let c = scan_spaces(text, b);
    if n - c < 4 || !(text[c] == 'v' && text[c + 1] == 'o' && text[c + 2] == 't' && text[c + 3]
        == 'e') {
        proof {
            assert forall|a2: int, b2: int, c2: int|
                !split_at(text@, i as int, a2, b2, c2) by {
                if split_at(text@, i as int, a2, b2, c2) {
                    lemma_forced_c(text@, i as int, a as int, b as int, c as int, a2, b2, c2);
                    assert(false);
                }
            }
        }
        return None;
    }
    proof {
        assert(split_at(text@, i as int, a as int, b as int, c as int));
        assert(digit_run_is(text@, i as int, a as int, b as int));
    }
    Some((a, b))
}

proof fn lemma_digits_val_nonneg(s: Seq<char>)
    requires
        forall|k: int| 0 <= k < s.len() ==> is_digit_char(s[k]),
    ensures
        digits_val(s) >= 0,
    decreases s.len(),
{
    if s.len() > 0 {
        let t = s.drop_last();
        assert(forall|k: int| 0 <= k < t.len() ==> t[k] == s[k]);
        lemma_digits_val_nonneg(t);
    }
}

/// Appending digits to a digit run never shrinks its value.
proof fn lemma_digits_val_prefix(s: Seq<char>, m: int)
    requires
        0 <= m <= s.len(),
        forall|k: int| 0 <= k < s.len() ==> is_digit_char(s[k]),
    ensures
        digits_val(s.subrange(0, m)) <= digits_val(s),
    decreases s.len() - m,
{
    if m == s.len() {
        assert(s.subrange(0, m) =~= s);
    } else {
        let p = s.subrange(0, m);
        let q = s.subrange(0, m + 1);
        assert(q.drop_last() =~= p);
        assert(q.last() == s[m]);
        assert(forall|k: int| 0 <= k < p.len() ==> p[k] == s[k]);
        lemma_digits_val_nonneg(p);
        assert(digits_val(q) == digits_val(p) * 10 + (s[m] as int - '0' as int));
        lemma_digits_val_prefix(s, m + 1);
    }
}

/// Read the value of the digit run `[a, b)` of `text`, or nothing when it
/// does not fit in `u32`.
fn parse_digits(text: &Vec<char>, a: usize, b: usize) -> (r: Option<u32>)
    requires
        a <= b <= text@.len(),
        forall|k: int| a <= k < b ==> is_digit_char(text@[k]),
    ensures
        ({
            let v = digits_val(text@.subrange(a as int, b as int));
            &&& (0 <= v <= u32::MAX ==> r == Some(v as u32))
            &&& (v > u32::MAX ==> r is None)
        }),
{
    let mut acc: u64 = 0;
    let mut k = a;
    while k < b
        invariant
            a <= k <= b <= text@.len(),
            forall|j: int| a <= j < b ==> is_digit_char(text@[j]),
            acc == digits_val(text@.subrange(a as int, k as int)),
            acc <= u32::MAX,
        decreases b - k,
    {
        let d = (text[k] as u32) as u64 - 48;
        proof {
            assert(is_digit_char(text@[k as int]));
            assert(text@.subrange(a as int, k as int + 1).drop_last() =~= text@.subrange(
                a as int,
                k as int,
            ));
            assert(text@.subrange(a as int, k as int + 1).last() == text@[k as int]);
        }
        let acc2 = acc * 10 + d;
        if acc2 > 0xffff_ffff {
            proof {
                let full = text@.subrange(a as int, b as int);
                assert(forall|j: int| 0 <= j < full.len() ==> is_digit_char(full[j]));
                assert(full.subrange(0, k as int + 1 - a as int) =~= text@.subrange(
                    a as int,
                    k as int + 1,
                ));
                lemma_digits_val_prefix(full, k as int + 1 - a as int);
            }
            return None;
        }
        acc = acc2;
        k = k + 1;
    }
    proof {
        assert(text@.subrange(a as int, b as int) =~= text@.subrange(a as int, k as int));
    }
    Some(acc as u32)
}

/// Find the leftmost occurrence of the pattern in one text, as the
/// boundaries of its digit run.
fn find_match(text: &Vec<char>) -> (r: Option<(usize, usize)>)
    ensures
        r matches Some(ab) ==> exists|i: int|
            is_first_match(text@, i) && #[trigger] digit_run_is(text@, i, ab.0 as int, ab.1 as int),
        r is None ==> !has_match(text@),
{
    let n = text.len();
    let mut i: usize = 0;
    while i < n
        invariant
            n == text@.len(),
            i <= n,
            forall|j: int| 0 <= j < i ==> !match_at(text@, j),
        decreases n - i,
    {
        match check_match_at(text, i) {
            Some(ab) => {
                proof {
                    assert(match_at(text@, i as int));
                    assert(is_first_match(text@, i as int));
                }
                return Some(ab);
            }
            None => {}
        }
        i = i + 1;
    }
    proof {
        assert forall|j: int| !match_at(text@, j) by {
            if match_at(text@, j) {
                let (a2, b2, c2) = choose|a2: int, b2: int, c2: int|
                    split_at(text@, j, a2, b2, c2);
                assert(0 <= j < n);
                assert(false);
            }
        }
    }
    None
}

/// The leftmost occurrence of the pattern in `s` stands at `i` with digit
/// run `[a, b)`: then the grammar's yield on `s` is that run's value,
/// when it is a `u32`, and nothing otherwise.
proof fn lemma_vote_count_at(s: Seq<char>, i: int, a: int, b: int)
    requires
        is_first_match(s, i),
        digit_run_is(s, i, a, b),
    ensures
        has_match(s),
        0 <= a <= b <= s.len(),
        forall|k: int| a <= k < b ==> is_digit_char(s[k]),
        digits_val(s.subrange(a, b)) >= 0,
        ({
            let v = digits_val(s.subrange(a, b));
            spec_vote_count(s) == if v <= u32::MAX {
                Some(v as u32)
            } else {
                Option::<u32>::None
            }
        }),
{
    let c = choose|c: int| split_at(s, i, a, b, c);
    assert(match_at(s, i));
    assert(has_match(s));
    let m = first_match_pos(s);
    assert(is_first_match(s, m));
    if m < i {
        assert(match_at(s, m));
        assert(false);
    }
    if m > i {
        assert(!match_at(s, i));
        assert(false);
    }
    let a0 = match_digit_start(s, i);
    assert(digit_run_starts(s, i, a));
    assert(digit_run_starts(s, i, a0));
    let (b1, c1) = choose|b1: int, c1: int| split_at(s, i, a0, b1, c1);
    lemma_split_unique(s, i, a, b, c, a0, b1, c1);
    let b0 = match_digit_end(s, i);
    assert(digit_run_is(s, i, a0, b));
    assert(digit_run_is(s, i, a0, b0));
    let c2 = choose|c2: int| split_at(s, i, a0, b0, c2);
    lemma_split_unique(s, i, a, b, c, a0, b0, c2);
    let sub = s.subrange(a, b);
    assert(forall|k: int| 0 <= k < sub.len() ==> is_digit_char(sub[k]));
    lemma_digits_val_nonneg(sub);
}

/// The vote count the grammar yields on one text, executably: the value
/// of the digits of the leftmost occurrence of the pattern, if the text
/// holds one and the value fits in `u32`.
pub fn vote_count_in_text(text: &Vec<char>) -> (r: Option<u32>)
    ensures
        r == spec_vote_count(text@),
{
    match find_match(text) {
        Some(ab) => {
            proof {
                let i = choose|i: int|
                    is_first_match(text@, i) && #[trigger] digit_run_is(
                        text@,
                        i,
                        ab.0 as int,
                        ab.1 as int,
                    );
                lemma_vote_count_at(text@, i, ab.0 as int, ab.1 as int);
            }
            parse_digits(text, ab.0, ab.1)
        }
        None => None,
    }
}

/// Node `k` of the page holds an occurrence of the pattern.
pub open spec fn node_with_match(texts: Seq<Seq<char>>, k: int) -> bool {
    0 <= k < texts.len() && has_match(texts[k])
}

/// Node `k` is the first node of the page with an occurrence.
pub open spec fn is_first_matching_node(texts: Seq<Seq<char>>, k: int) -> bool {
    node_with_match(texts, k) && (forall|j: int| 0 <= j < k ==> !has_match(texts[j]))
}

pub open spec fn first_matching_node(texts: Seq<Seq<char>>) -> int {
    choose|k: int| is_first_matching_node(texts, k)
}

/// The vote count of a page given as its text nodes in order: only the
/// first node with an occurrence of the pattern is consulted.
pub open spec fn spec_find_vote_count(texts: Seq<Seq<char>>) -> Option<u32> {
    if exists|k: int| node_with_match(texts, k) {
        spec_vote_count(texts[first_matching_node(texts)])
    } else {
        None
    }
}

/// Search a page's text nodes in order for the pattern, and read the
/// vote count out of the first node that holds it.
pub fn find_vote_count(texts: &Vec<Vec<char>>) -> (r: Option<u32>)
    ensures
        r == spec_find_vote_count(texts@.map_values(|t: Vec<char>| t@)),
{
    let ghost tseq = texts@.map_values(|t: Vec<char>| t@);
    let mut k: usize = 0;
    while k < texts.len()
        invariant
            tseq == texts@.map_values(|t: Vec<char>| t@),
            k <= texts@.len(),
            forall|j: int| 0 <= j < k ==> !has_match(tseq[j]),
        decreases texts@.len() - k,
    {
        proof {
            assert(tseq[k as int] == texts@[k as int]@);
        }
        let node = &texts[k];
        match find_match(node) {
            Some(ab) => {
                proof {
                    let s = tseq[k as int];
                    let i = choose|i: int|
                        is_first_match(s, i) && #[trigger] digit_run_is(
                            s,
                            i,
                            ab.0 as int,
                            ab.1 as int,
                        );
                    lemma_vote_count_at(s, i, ab.0 as int, ab.1 as int);
                    assert(node_with_match(tseq, k as int));
                    assert(is_first_matching_node(tseq, k as int));
                    let k0 = first_matching_node(tseq);
                    assert(is_first_matching_node(tseq, k0));
                    if k0 < k as int {
                        assert(has_match(tseq[k0]));
                        assert(false);
                    }
                    if k0 > k as int {
                        assert(!has_match(tseq[k as int]));
                        assert(false);
                    }
                }
                return parse_digits(node, ab.0, ab.1);
            }
            None => {
                proof {
                    assert(!has_match(tseq[k as int]));
                }
            }
        }
        k = k + 1;
    }
    proof {
        assert forall|k2: int| !node_with_match(tseq, k2) by {
            if 0 <= k2 < tseq.len() {
                assert(!has_match(tseq[k2]));
            }
        }
    }
    None
}

/// What the markup of a page turns into before the grammar runs: the
/// descendant text nodes of its `body` element, in document order.
pub uninterp spec fn body_text_of(html: Seq<char>) -> Seq<Seq<char>>;

/// Relies on scraper's `Html::parse_document`, `Html::select` and
/// `ElementRef::text`: the descendant text nodes of the `body` element of
/// the parsed document, in document order, or nothing when the document
/// parses to no `body` element.  The result is a function of the markup
/// alone.
#[verifier::external_body]
fn body_text(html: &str) -> (r: Vec<Vec<char>>)
    ensures
        r@.map_values(|t: Vec<char>| t@) == body_text_of(html@),
{
    let document = scraper::Html::parse_document(html);
    let selector = scraper::Selector::parse("body").unwrap();
    match document.select(&selector).next() {
        Some(body) => body.text().map(|t| t.chars().collect::<Vec<char>>()).collect(),
        None => Vec::new(),
    }
}

/// One page's extraction: the vote count of its markup's body text, or
/// the extraction error when no text node of the body yields one.
pub fn extract_votes(html: &str) -> (r: Result<u32, AttemptError>)
    ensures
        r matches Ok(n) ==> spec_find_vote_count(body_text_of(html@)) == Some(n),
        r matches Err(e) ==> e == AttemptError::Extraction && spec_find_vote_count(
            body_text_of(html@),
        ) is None,
{
    let nodes = body_text(html);
    match find_vote_count(&nodes) {
        Some(n) => Ok(n),
        None => Err(AttemptError::Extraction),
    }
}

} // verus!
