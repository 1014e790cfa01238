//! Character-level text utilities: whitespace trimming, prefix tests,
//! locating a character, and splitting into lines.
//!
//! The specification model works on `Seq<char>` (the view of `&str` and
//! `String`); the executable functions walk strings by character index.

use vstd::prelude::*;

verus! {

/// The whitespace characters recognized when a line or value is trimmed:
/// the ASCII whitespace characters together with the Unicode space
/// separators and line separators.
pub open spec fn is_wspace(c: char) -> bool {
    ||| c == ' '
    ||| c == '\t'
    ||| c == '\n'
    ||| c == '\r'
    ||| c == '\u{000b}'
    ||| c == '\u{000c}'
    ||| c == '\u{0085}'
    ||| c == '\u{00a0}'
    ||| c == '\u{1680}'
    ||| ('\u{2000}' <= c && c <= '\u{200a}')
    ||| c == '\u{2028}'
    ||| c == '\u{2029}'
    ||| c == '\u{202f}'
    ||| c == '\u{205f}'
    ||| c == '\u{3000}'
}

/// Executable whitespace test, equal to [`is_wspace`].
pub fn wspace_char(c: char) -> (r: bool)
    ensures
        r == is_wspace(c),
{
    c == ' ' || c == '\t' || c == '\n' || c == '\r' || c == '\u{000b}' || c == '\u{000c}'
        || c == '\u{0085}' || c == '\u{00a0}' || c == '\u{1680}' || ('\u{2000}' <= c && c
        <= '\u{200a}') || c == '\u{2028}' || c == '\u{2029}' || c == '\u{202f}' || c == '\u{205f}'
        || c == '\u{3000}'
}

/// `s` with leading whitespace removed.
pub open spec fn trim_start_spec(s: Seq<char>) -> Seq<char>
    decreases s.len(),
{
    if s.len() > 0 && is_wspace(s[0]) {
        trim_start_spec(s.drop_first())
    } else {
        s
    }
}

/// `s` with trailing whitespace removed.
pub open spec fn trim_end_spec(s: Seq<char>) -> Seq<char>
    decreases s.len(),
{
    if s.len() > 0 && is_wspace(s.last()) {
        trim_end_spec(s.drop_last())
    } else {
        s
    }
}

/// `s` with leading and trailing whitespace removed.
pub open spec fn trim_spec(s: Seq<char>) -> Seq<char> {
    trim_start_spec(trim_end_spec(s))
}

/// Trimming the end twice is the same as trimming it once.
pub proof fn lemma_trim_end_idempotent(s: Seq<char>)
    ensures
        trim_end_spec(trim_end_spec(s)) == trim_end_spec(s),
    decreases s.len(),
{
    if s.len() > 0 && is_wspace(s.last()) {
        lemma_trim_end_idempotent(s.drop_last());
    }
}

/// Trailing trim reaches only into `b` as long as `a` does not end in
/// whitespace.
pub proof fn lemma_trim_end_concat(a: Seq<char>, b: Seq<char>)
    requires
        a.len() > 0,
        !is_wspace(a.last()),
    ensures
        trim_end_spec(a + b) == a + trim_end_spec(b),
    decreases b.len(),
{
    if b.len() == 0 {
        assert(a + b =~= a);
        assert(a + trim_end_spec(b) =~= a);
    } else if is_wspace(b.last()) {
        assert((a + b).last() == b.last());
        assert((a + b).drop_last() =~= a + b.drop_last());
        lemma_trim_end_concat(a, b.drop_last());
    } else {
        assert((a + b).last() == b.last());
    }
}

/// Trims the characters `s[lo..hi]`, returning the sub-range `[r.0, r.1)`
/// that remains once leading and trailing whitespace is dropped.
pub fn trim_range(s: &str, lo: usize, hi: usize) -> (r: (usize, usize))
    requires
        lo <= hi <= s@.len(),
    ensures
        lo <= r.0 <= r.1 <= hi,
        s@.subrange(r.0 as int, r.1 as int) == trim_spec(s@.subrange(lo as int, hi as int)),
{
    let mut b = hi;
    let mut stop_end = false;
    while lo < b && !stop_end
        invariant
            lo <= b <= hi <= s@.len(),
            trim_end_spec(s@.subrange(lo as int, hi as int)) == trim_end_spec(
                s@.subrange(lo as int, b as int),
            ),
            stop_end ==> lo < b && !is_wspace(s@[b - 1]),
        decreases b - lo, (if stop_end { 0int } else { 1int }),
    {
        let c = s.get_char(b - 1);
        if wspace_char(c) {
            proof {
                assert(s@.subrange(lo as int, b as int).drop_last() =~= s@.subrange(
                    lo as int,
                    b - 1,
                ));
            }
            b -= 1;
        } else {
            stop_end = true;
        }
    }
    proof {
        assert(trim_end_spec(s@.subrange(lo as int, b as int)) == s@.subrange(
            lo as int,
            b as int,
        ));
    }
    let mut a = lo;
    let mut stop = false;
    while a < b && !stop
        invariant
            lo <= a <= b <= hi <= s@.len(),
            trim_start_spec(s@.subrange(lo as int, b as int)) == trim_start_spec(
                s@.subrange(a as int, b as int),
            ),
            stop ==> a < b && !is_wspace(s@[a as int]),
        decreases b - a, (if stop { 0int } else { 1int }),
    {
        let c = s.get_char(a);
        if wspace_char(c) {
            proof {
                assert(s@.subrange(a as int, b as int).drop_first() =~= s@.subrange(
                    a + 1,
                    b as int,
                ));
            }
            a += 1;
        } else {
            stop = true;
        }
    }
    proof {
        assert(trim_start_spec(s@.subrange(a as int, b as int)) == s@.subrange(
            a as int,
            b as int,
        ));
    }
    (a, b)
}

/// `p` is a prefix of `s`.
pub open spec fn starts_with(s: Seq<char>, p: Seq<char>) -> bool {
    p.len() <= s.len() && s.subrange(0, p.len() as int) == p
}

/// Whether `p` is a prefix of the characters `s[lo..hi]`.
pub fn range_starts_with(s: &str, lo: usize, hi: usize, p: &str) -> (r: bool)
    requires
        lo <= hi <= s@.len(),
    ensures
        r == starts_with(s@.subrange(lo as int, hi as int), p@),
{
    let plen = p.unicode_len();
    if plen > hi - lo {
        return false;
    }
    let mut i: usize = 0;
    while i < plen
        invariant
            0 <= i <= plen == p@.len(),
            lo <= hi <= s@.len(),
            plen <= hi - lo,
            forall|j: int| 0 <= j < i ==> s@[lo + j] == p@[j],
        decreases plen - i,
    {
        if s.get_char(lo + i) != p.get_char(i) {
            proof {
                assert(s@.subrange(lo as int, hi as int).subrange(0, p@.len() as int)[i as int]
                    != p@[i as int]);
            }
            return false;
        }
        i += 1;
    }
    proof {
        assert(s@.subrange(lo as int, hi as int).subrange(0, p@.len() as int) =~= p@);
    }
    true
}

/// The index of the first occurrence of `c` in `s`, if any.
pub open spec fn find_idx(s: Seq<char>, c: char) -> Option<int>
    decreases s.len(),
{
    if s.len() == 0 {
        None
    } else if s[0] == c {
        Some(0int)
    } else {
        match find_idx(s.drop_first(), c) {
            None => None,
            Some(i) => Some(i + 1),
        }
    }
}

/// What [`find_idx`] returns: the first index holding `c`, or nothing
/// when `c` does not occur.
pub proof fn lemma_find_idx(s: Seq<char>, c: char)
    ensures
        match find_idx(s, c) {
            None => forall|i: int| 0 <= i < s.len() ==> s[i] != c,
            Some(i) => 0 <= i < s.len() && s[i] == c && forall|j: int| 0 <= j < i ==> s[j] != c,
        },
    decreases s.len(),
{
    if s.len() > 0 && s[0] != c {
        lemma_find_idx(s.drop_first(), c);
        match find_idx(s.drop_first(), c) {
            None => {
                assert forall|i: int| 0 <= i < s.len() implies s[i] != c by {
                    if i > 0 {
                        assert(s.drop_first()[i - 1] != c);
                    }
                }
            },
            Some(i) => {
                assert forall|j: int| 0 <= j < i + 1 implies s[j] != c by {
                    if j > 0 {
                        assert(s.drop_first()[j - 1] != c);
                    }
                }
            },
        }
    }
}

/// Finds the first occurrence of `c` among the characters `s[lo..hi]`,
/// as an absolute index into `s`.
pub fn find_char_range(s: &str, lo: usize, hi: usize, c: char) -> (r: Option<usize>)
    requires
        lo <= hi <= s@.len(),
    ensures
        match r {
            None => find_idx(s@.subrange(lo as int, hi as int), c) is None,
            Some(k) => lo <= k < hi && find_idx(s@.subrange(lo as int, hi as int), c) == Some(
                k - lo,
            ),
        },
{
    let mut i = lo;
    while i < hi
        invariant
            lo <= i <= hi <= s@.len(),
            forall|j: int| lo <= j < i ==> s@[j] != c,
        decreases hi - i,
    {
        if s.get_char(i) == c {
            proof {
                let sub = s@.subrange(lo as int, hi as int);
                lemma_find_idx(sub, c);
                assert(sub[i - lo] == c);
                assert forall|j: int| 0 <= j < i - lo implies sub[j] != c by {
                    assert(s@[lo + j] != c);
                }
            }
            return Some(i);
        }
        i += 1;
    }
    proof {
        lemma_find_idx(s@.subrange(lo as int, hi as int), c);
    }
    None
}

/// Whether the characters `s[lo..hi]` are exactly the characters of `t`.
pub fn range_eq_str(s: &str, lo: usize, hi: usize, t: &str) -> (r: bool)
    requires
        lo <= hi <= s@.len(),
    ensures
        r == (s@.subrange(lo as int, hi as int) == t@),
{
    let tlen = t.unicode_len();
    if tlen != hi - lo {
        return false;
    }
    let mut i: usize = 0;
    while i < tlen
        invariant
            0 <= i <= tlen == t@.len(),
            lo <= hi <= s@.len(),
            tlen == hi - lo,
            forall|j: int| 0 <= j < i ==> s@[lo + j] == t@[j],
        decreases tlen - i,
    {
        if s.get_char(lo + i) != t.get_char(i) {
            proof {
                assert(s@.subrange(lo as int, hi as int)[i as int] != t@[i as int]);
            }
            return false;
        }
        i += 1;
    }
    proof {
        assert(s@.subrange(lo as int, hi as int) =~= t@);
    }
    true
}

/// The lines of `s`: the maximal runs of characters separated by `'\n'`.
/// There is always at least one line; an empty input has one empty line.
pub open spec fn split_lines(s: Seq<char>) -> Seq<Seq<char>>
    decreases s.len(),
{
    if s.len() == 0 {
        seq![Seq::<char>::empty()]
    } else if s[0] == '\n' {
        seq![Seq::<char>::empty()].add(split_lines(s.drop_first()))
    } else {
        let rest = split_lines(s.drop_first());
        seq![seq![s[0]].add(rest.first())].add(rest.drop_first())
    }
}

/// Splitting always yields at least one line.
pub proof fn lemma_split_lines_len(s: Seq<char>)
    ensures
        split_lines(s).len() >= 1,
    decreases s.len(),
{
    if s.len() > 0 {
        lemma_split_lines_len(s.drop_first());
    }
}

/// A string without a newline is a single line.
pub proof fn lemma_split_lines_single(s: Seq<char>)
    requires
        forall|i: int| 0 <= i < s.len() ==> s[i] != '\n',
    ensures
        split_lines(s) == seq![s],
    decreases s.len(),
{
    if s.len() == 0 {
        assert(split_lines(s) =~~= seq![s]);
    } else {
        lemma_split_lines_single(s.drop_first());
        let rest = split_lines(s.drop_first());
        assert(rest == seq![s.drop_first()]);
        assert(rest.drop_first() =~= Seq::<Seq<char>>::empty());
        assert(seq![s[0]].add(rest.first()) =~= s);
        assert(seq![seq![s[0]].add(rest.first())].add(rest.drop_first()) =~~= seq![s]);
    }
}

/// Peeling the first line off a string whose first newline stands at `k`.
pub proof fn lemma_split_lines_peel(s: Seq<char>, k: int)
    requires
        0 <= k < s.len(),
        s[k] == '\n',
        forall|j: int| 0 <= j < k ==> s[j] != '\n',
    ensures
        split_lines(s) == seq![s.subrange(0, k)].add(
            split_lines(s.subrange(k + 1, s.len() as int)),
        ),
    decreases k,
{
    if k == 0 {
        assert(s.drop_first() =~= s.subrange(1, s.len() as int));
        assert(s.subrange(0, 0) =~= Seq::<char>::empty());
        assert(split_lines(s) =~= seq![s.subrange(0, 0)].add(
            split_lines(s.subrange(1, s.len() as int)),
        ));
    } else {
        let t = s.drop_first();
        assert forall|j: int| 0 <= j < k - 1 implies t[j] != '\n' by {
            assert(s[j + 1] != '\n');
        }
        lemma_split_lines_peel(t, k - 1);
        lemma_split_lines_len(t.subrange(k, t.len() as int));
        assert(t.subrange(0, k - 1) =~= s.subrange(1, k));
        assert(t.subrange(k, t.len() as int) =~= s.subrange(k + 1, s.len() as int));
        let rest = split_lines(t);
        assert(rest.first() == s.subrange(1, k));
        assert(seq![s[0]].add(s.subrange(1, k)) =~= s.subrange(0, k));
        assert(split_lines(s) =~= seq![s.subrange(0, k)].add(
            split_lines(s.subrange(k + 1, s.len() as int)),
        ));
    }
}

/// Splits a string into its lines.
pub fn to_lines(s: &str) -> (r: Vec<String>)
    ensures
        r.deep_view() == split_lines(s@),
{
    let n = s.unicode_len();
    let mut lines: Vec<String> = Vec::new();
    proof {
        assert(s@.subrange(0, n as int) =~= s@);
        assert(lines.deep_view() =~= Seq::<Seq<char>>::empty());
        assert(Seq::<Seq<char>>::empty().add(split_lines(s@)) =~= split_lines(s@));
    }
    let mut start: usize = 0;
    let mut i: usize = 0;
    while i < n
        invariant
            0 <= start <= i <= n == s@.len(),
            forall|j: int| start <= j < i ==> s@[j] != '\n',
            lines.deep_view().add(split_lines(s@.subrange(start as int, n as int)))
                == split_lines(s@),
        decreases n - i,
    {
        let c = s.get_char(i);
        if c == '\n' {
            let line = String::from_str(s.substring_char(start, i));
            proof {
                let tail = s@.subrange(start as int, n as int);
                assert(tail[i - start] == '\n');
                assert forall|j: int| 0 <= j < i - start implies tail[j] != '\n' by {
                    assert(s@[start + j] != '\n');
                }
                lemma_split_lines_peel(tail, i - start);
                assert(tail.subrange(0, i - start) =~= s@.subrange(start as int, i as int));
                assert(tail.subrange(i - start + 1, tail.len() as int) =~= s@.subrange(
                    i + 1,
                    n as int,
                ));
            }
            let ghost old_lines = lines.deep_view();
            lines.push(line);
            proof {
                assert(lines.deep_view() =~= old_lines.push(s@.subrange(
                    start as int,
                    i as int,
                )));
                assert(lines.deep_view().add(split_lines(s@.subrange(i + 1, n as int)))
                    =~= old_lines.add(seq![s@.subrange(start as int, i as int)].add(
                    split_lines(s@.subrange(i + 1, n as int)),
                )));
            }
            i += 1;
            start = i;
        } else {
            i += 1;
        }
    }
    let last = String::from_str(s.substring_char(start, n));
    proof {
        lemma_split_lines_single(s@.subrange(start as int, n as int));
    }
    let ghost old_lines = lines.deep_view();
    lines.push(last);
    proof {
        assert(lines.deep_view() =~= old_lines.push(s@.subrange(start as int, n as int)));
        assert(lines.deep_view() =~= old_lines.add(seq![s@.subrange(start as int, n as int)]));
    }
    lines
}

/// Whether two strings hold the same characters.
pub fn str_eq_str(a: &str, b: &str) -> (r: bool)
    ensures
        r == (a@ == b@),
{
    let alen = a.unicode_len();
    proof {
        assert(a@.subrange(0, a@.len() as int) =~= a@);
    }
    range_eq_str(a, 0, alen, b)
}

/// A decimal digit.
pub open spec fn is_digit(c: char) -> bool {
    '0' <= c && c <= '9'
}

/// The numeric value of the digit `c` (zero for a non-digit).
pub open spec fn digit_val(c: char) -> nat {
    if is_digit(c) {
        (c as u32 - 48) as nat
    } else {
        0
    }
}

/// The value of `s` read as a decimal numeral.
pub open spec fn dec_val(s: Seq<char>) -> nat
    decreases s.len(),
{
    if s.len() == 0 {
        0
    } else {
        dec_val(s.drop_last()) * 10 + digit_val(s.last())
    }
}

/// A numeral's value only grows as more digits are appended.
pub proof fn lemma_dec_val_prefix(s: Seq<char>, k: int)
    requires
        0 <= k <= s.len(),
    ensures
        dec_val(s.subrange(0, k)) <= dec_val(s),
    decreases s.len() - k,
{
    if k < s.len() {
        lemma_dec_val_prefix(s, k + 1);
        let t = s.subrange(0, k + 1);
        assert(t.drop_last() =~= s.subrange(0, k));
        assert(dec_val(s.subrange(0, k)) <= dec_val(t));
    } else {
        assert(s.subrange(0, k) =~= s);
    }
}

/// The digits of a numeral: everything after an optional leading `'+'`.
pub open spec fn numeral_digits(s: Seq<char>) -> Seq<char> {
    if s.len() > 0 && s[0] == '+' {
        s.drop_first()
    } else {
        s
    }
}

/// Every character of `s` is a decimal digit.
pub open spec fn all_digits(s: Seq<char>) -> bool {
    forall|i: int| 0 <= i < s.len() ==> is_digit(s[i])
}

/// What parsing `s` as a `u32` yields, as the standard library reads a
/// decimal numeral: an optional leading `'+'`, then at least one digit,
/// and the value must fit.
pub open spec fn parse_u32_spec(s: Seq<char>) -> Option<u32> {
    if numeral_digits(s).len() > 0 && all_digits(numeral_digits(s)) && dec_val(numeral_digits(s))
        <= u32::MAX {
        Some(dec_val(numeral_digits(s)) as u32)
    } else {
        None
    }
}

/// Parses the characters `s[lo..hi]` as a decimal `u32`.
pub fn parse_u32_range(s: &str, lo: usize, hi: usize) -> (r: Option<u32>)
    requires
        lo <= hi <= s@.len(),
    ensures
        r == parse_u32_spec(s@.subrange(lo as int, hi as int)),
{
    let ghost whole = s@.subrange(lo as int, hi as int);
    let mut start = lo;
    if lo < hi && s.get_char(lo) == '+' {
        start = lo + 1;
        proof {
            assert(whole.drop_first() =~= s@.subrange(lo + 1, hi as int));
        }
    }
    let ghost digits = s@.subrange(start as int, hi as int);
    proof {
        if whole.len() > 0 && whole[0] == '+' {
            assert(whole.drop_first() =~= s@.subrange(start as int, hi as int));
        } else {
            assert(whole =~= s@.subrange(start as int, hi as int));
        }
        assert(digits == numeral_digits(whole));
        assert(forall|j: int| 0 <= j < digits.len() ==> digits[j] == s@[start + j]);
    }
    if start == hi {
        return None;
    }
    let mut acc: u64 = 0;
    let mut i = start;
    while i < hi
        invariant
            lo <= start <= i <= hi <= s@.len(),
            whole == s@.subrange(lo as int, hi as int),
            digits == s@.subrange(start as int, hi as int),
            digits == numeral_digits(whole),
            forall|j: int| start <= j < i ==> is_digit(s@[j]),
            acc == dec_val(digits.subrange(0, i - start)),
            acc <= u32::MAX,
        decreases hi - i,
    {
        let c = s.get_char(i);
        if !(c >= '0' && c <= '9') {
            proof {
                assert(digits[i - start] == s@[i as int]);
                assert(!all_digits(digits));
            }
            return None;
        }
        let d: u64 = (c as u32 as u64) - 48;
        acc = acc * 10 + d;
        i += 1;
        proof {
            let pre = digits.subrange(0, i - start);
            assert(pre.drop_last() =~= digits.subrange(0, i - 1 - start));
            assert(pre.last() == s@[i - 1]);
            assert(acc == dec_val(pre));
        }
        if acc > 0xffff_ffff {
            proof {
                lemma_dec_val_prefix(digits, i - start);
                assert(!(dec_val(digits) <= u32::MAX));
            }
            return None;
        }
    }
    proof {
        assert(digits.subrange(0, hi - start) =~= digits);
        assert(all_digits(digits));
    }
    Some(acc as u32)
}

} // verus!
