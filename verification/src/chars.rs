//! Searching, trimming, splitting and reading numbers in sequences of
//! characters. This is what the note files are read with.

use crate::text::push_char;
use vstd::prelude::*;
use vstd::slice::slice_subrange;

verus! {

/// What `char::is_whitespace` answers for a character.
pub uninterp spec fn unicode_whitespace(c: char) -> bool;

/// `char::is_whitespace` decides from the Unicode tables (the set called
/// White_Space) and from nothing else, so its answer has a name.
pub assume_specification[ char::is_whitespace ](c: char) -> (answer: bool)
    ensures
        answer == unicode_whitespace(c),
;

/// White space: within ASCII the blank and the characters from tab to
/// carriage return; beyond ASCII the Unicode tables decide.
pub open spec fn is_space(c: char) -> bool {
    if c <= '\x7f' {
        c == ' ' || ('\x09' <= c && c <= '\x0d')
    } else {
        unicode_whitespace(c)
    }
}

/// Whether `pat` stands in `s` at index `i`.
pub open spec fn occurs_at(s: Seq<char>, pat: Seq<char>, i: int) -> bool {
    0 <= i && i + pat.len() <= s.len() && s.subrange(i, i + pat.len()) == pat
}

/// The least index at or after `from` at which `pat` stands in `s`.
pub open spec fn find_from(s: Seq<char>, pat: Seq<char>, from: int) -> Option<int>
    decreases 1 + s.len() - from,
{
    if from < 0 || from + pat.len() > s.len() {
        None
    } else if occurs_at(s, pat, from) {
        Some(from)
    } else {
        find_from(s, pat, from + 1)
    }
}

/// Whether `pat` stands somewhere in `s`.
pub open spec fn has(s: Seq<char>, pat: Seq<char>) -> bool {
    find_from(s, pat, 0) is Some
}

/// What stands before and behind the first `pat` in `s`.
pub open spec fn split_at_first(s: Seq<char>, pat: Seq<char>) -> Option<(Seq<char>, Seq<char>)> {
    match find_from(s, pat, 0) {
        Some(i) => Some((s.take(i), s.skip(i + pat.len()))),
        None => None,
    }
}

/// `s` without the white space at its start.
pub open spec fn trimmed_start(s: Seq<char>) -> Seq<char>
    decreases s.len(),
{
    if s.len() > 0 && is_space(s[0]) {
        trimmed_start(s.drop_first())
    } else {
        s
    }
}

/// `s` without the white space at its end.
pub open spec fn trimmed_end(s: Seq<char>) -> Seq<char>
    decreases s.len(),
{
    if s.len() > 0 && is_space(s.last()) {
        trimmed_end(s.drop_last())
    } else {
        s
    }
}

/// `s` without the white space at its start and at its end.
pub open spec fn trimmed(s: Seq<char>) -> Seq<char> {
    trimmed_end(trimmed_start(s))
}

/// `s` without the characters `c` at its end.
pub open spec fn without_trailing(s: Seq<char>, c: char) -> Seq<char>
    decreases s.len(),
{
    if s.len() > 0 && s.last() == c {
        without_trailing(s.drop_last(), c)
    } else {
        s
    }
}

/// A line without the carriage return at its end, if it has one.
pub open spec fn without_carriage_return(line: Seq<char>) -> Seq<char> {
    if line.len() > 0 && line.last() == '\r' {
        line.drop_last()
    } else {
        line
    }
}

/// The lines of a text. A line ends with a line feed or with a carriage
/// return and a line feed, which do not belong to it; the last line may do
/// without.
pub open spec fn lines_of(s: Seq<char>) -> Seq<Seq<char>>
    decreases s.len(),
{
    if s.len() == 0 {
        Seq::empty()
    } else {
        match find_from(s, seq!['\n'], 0) {
            Some(i) => {
                if 0 <= i < s.len() {
                    seq![without_carriage_return(s.take(i))] + lines_of(s.skip(i + 1))
                } else {
                    seq![s]
                }
            },
            None => seq![s],
        }
    }
}

/// The pieces of `s` between the occurrences of `pat`. An empty `pat` splits
/// nowhere.
pub open spec fn pieces_of(s: Seq<char>, pat: Seq<char>) -> Seq<Seq<char>>
    decreases s.len(),
{
    match find_from(s, pat, 0) {
        Some(i) => {
            if pat.len() > 0 && 0 <= i && i + pat.len() <= s.len() {
                seq![s.take(i)] + pieces_of(s.skip(i + pat.len()), pat)
            } else {
                seq![s]
            }
        },
        None => seq![s],
    }
}

/// Whether `c` is one of the digits `0` to `9`.
pub open spec fn is_digit(c: char) -> bool {
    '0' <= c && c <= '9'
}

/// Whether `s` holds digits only.
pub open spec fn all_digits(s: Seq<char>) -> bool {
    forall|i: int| 0 <= i < s.len() ==> is_digit(#[trigger] s[i])
}

/// The number that the digits of `s` write in decimal.
pub open spec fn number_of(s: Seq<char>) -> nat
    decreases s.len(),
{
    if s.len() == 0 {
        0
    } else {
        (number_of(s.drop_last()) * 10 + (s.last() as int - '0' as int)) as nat
    }
}

/// The number that `s` writes, if it is a numeral: a sign, `+` or `-`, may
/// come first, at least one digit follows, and nothing else.
pub open spec fn number_in(s: Seq<char>) -> Option<int> {
    let signed = s.len() > 0 && (s[0] == '+' || s[0] == '-');
    let digits = if signed {
        s.drop_first()
    } else {
        s
    };
    if digits.len() == 0 || !all_digits(digits) {
        None
    } else if s[0] == '-' {
        Some(-(number_of(digits) as int))
    } else {
        Some(number_of(digits) as int)
    }
}

/// The number that `s` writes, if it is a numeral for a number within the
/// bounds and, where the lower bound is zero, bears no `-`.
pub open spec fn number_within(s: Seq<char>, least: int, most: int) -> Option<int> {
    match number_in(s) {
        Some(n) => if least <= n <= most && !(least == 0 && s[0] == '-') {
            Some(n)
        } else {
            None
        },
        None => None,
    }
}

/// The character sequences of a list of slices.
pub open spec fn slice_views(slices: Seq<&[char]>) -> Seq<Seq<char>> {
    slices.map_values(|s: &[char]| s@)
}

fn space(c: char) -> (yes: bool)
    ensures
        yes == is_space(c),
{
    if c <= '\x7f' {
        c == ' ' || ('\x09' <= c && c <= '\x0d')
    } else {
        c.is_whitespace()
    }
}

/// Whether `pat` stands in `s` at index `i`.
pub fn stands_at(s: &[char], pat: &[char], i: usize) -> (yes: bool)
    ensures
        yes == occurs_at(s@, pat@, i as int),
{
    if pat.len() > s.len() || i > s.len() - pat.len() {
        return false;
    }
    let mut k: usize = 0;
    while k < pat.len()
        invariant
            k <= pat.len(),
            i + pat.len() <= s.len(),
            forall|j: int| 0 <= j < k ==> s@[i + j] == pat@[j],
        decreases pat.len() - k,
    {
        if s[i + k] != pat[k] {
            assert(s@.subrange(i as int, i + pat.len())[k as int] != pat@[k as int]);
            return false;
        }
        k += 1;
    }
    assert(s@.subrange(i as int, i + pat.len()) =~= pat@);
    true
}

/// The least index at or after `from` at which `pat` stands in `s`.
pub fn find(s: &[char], pat: &[char], from: usize) -> (found: Option<usize>)
    ensures
        match found {
            Some(i) => find_from(s@, pat@, from as int) == Some(i as int) && from <= i && i
                + pat.len() <= s.len(),
            None => find_from(s@, pat@, from as int) is None,
        },
{
    if pat.len() > s.len() {
        return None;
    }
    let last = s.len() - pat.len();
    let mut i: usize = from;
    while i <= last
        invariant
            from <= i,
            last == s.len() - pat.len(),
            find_from(s@, pat@, from as int) == find_from(s@, pat@, i as int),
        decreases last + 1 - i,
    {
        if stands_at(s, pat, i) {
            return Some(i);
        }
        if i == last {
            assert(find_from(s@, pat@, i as int + 1) is None);
            return None;
        }
        i += 1;
    }
    None
}

/// Whether `pat` stands somewhere in `s`.
pub fn contains(s: &[char], pat: &[char]) -> (yes: bool)
    ensures
        yes == has(s@, pat@),
{
    find(s, pat, 0).is_some()
}

/// What stands before and behind the first `pat` in `s`.
pub fn split_once<'a>(s: &'a [char], pat: &[char]) -> (parts: Option<(&'a [char], &'a [char])>)
    ensures
        match parts {
            Some((before, behind)) => split_at_first(s@, pat@) == Some((before@, behind@)),
            None => split_at_first(s@, pat@) is None,
        },
{
    match find(s, pat, 0) {
        Some(i) => {
            let before = slice_subrange(s, 0, i);
            let behind = slice_subrange(s, i + pat.len(), s.len());
            assert(before@ =~= s@.take(i as int));
            assert(behind@ =~= s@.skip(i + pat.len()));
            Some((before, behind))
        },
        None => None,
    }
}

/// `s` without the white space at its start and at its end.
pub fn trim<'a>(s: &'a [char]) -> (kept: &'a [char])
    ensures
        kept@ == trimmed(s@),
{
    let mut a: usize = 0;
    assert(s@.skip(0) =~= s@);
    while a < s.len() && space(s[a])
        invariant
            a <= s.len(),
            trimmed_start(s@) == trimmed_start(s@.skip(a as int)),
        decreases s.len() - a,
    {
        assert(s@.skip(a as int).drop_first() =~= s@.skip(a as int + 1));
        a += 1;
    }
    let mut b: usize = s.len();
    assert(s@.subrange(a as int, b as int) =~= s@.skip(a as int));
    while b > a && space(s[b - 1])
        invariant
            a <= b <= s.len(),
            trimmed(s@) == trimmed_end(s@.subrange(a as int, b as int)),
        decreases b,
    {
        assert(s@.subrange(a as int, b as int).drop_last() =~= s@.subrange(a as int, b - 1));
        b -= 1;
    }
    slice_subrange(s, a, b)
}

/// `s` without the characters `c` at its end.
pub fn trim_end_matches<'a>(s: &'a [char], c: char) -> (kept: &'a [char])
    ensures
        kept@ == without_trailing(s@, c),
{
    let mut b: usize = s.len();
    assert(s@.take(b as int) =~= s@);
    while b > 0 && s[b - 1] == c
        invariant
            b <= s.len(),
            without_trailing(s@, c) == without_trailing(s@.take(b as int), c),
        decreases b,
    {
        assert(s@.take(b as int).drop_last() =~= s@.take(b - 1));
        b -= 1;
    }
    let kept = slice_subrange(s, 0, b);
    assert(kept@ =~= s@.take(b as int));
    kept
}

/// The lines of a text.
pub fn lines<'a>(s: &'a [char]) -> (found: Vec<&'a [char]>)
    ensures
        slice_views(found@) == lines_of(s@),
{
    let line_feed: [char; 1] = ['\n'];
    let mut found: Vec<&'a [char]> = Vec::new();
    let mut rest: &'a [char] = s;
    assert(slice_views(found@) + lines_of(rest@) =~= lines_of(s@));
    while rest.len() > 0
        invariant
            line_feed@ == seq!['\n'],
            slice_views(found@) + lines_of(rest@) == lines_of(s@),
        decreases rest.len(),
    {
        let ghost done = slice_views(found@);
        let ghost open = rest@;
        match find(rest, line_feed.as_slice(), 0) {
            Some(i) => {
                let mut line = slice_subrange(rest, 0, i);
                assert(line@ =~= open.take(i as int));
                if line.len() > 0 && line[line.len() - 1] == '\r' {
                    line = slice_subrange(line, 0, line.len() - 1);
                }
                assert(line@ =~= without_carriage_return(open.take(i as int)));
                found.push(line);
                rest = slice_subrange(rest, i + 1, rest.len());
                assert(rest@ =~= open.skip(i + 1));
                assert(slice_views(found@) =~= done.push(line@));
                assert(done.push(line@) + lines_of(rest@) =~= done + (seq![line@] + lines_of(
                    rest@,
                )));
            },
            None => {
                found.push(rest);
                assert(slice_views(found@) =~= done.push(open));
                assert(done.push(open) =~= done + seq![open]);
                rest = slice_subrange(rest, 0, 0);
                assert(lines_of(rest@) =~= Seq::<Seq<char>>::empty());
                assert(slice_views(found@) + lines_of(rest@) =~= slice_views(found@));
            },
        }
    }
    assert(slice_views(found@) + lines_of(rest@) =~= slice_views(found@));
    found
}

/// The pieces of `s` between the occurrences of `pat`. An empty `pat` splits
/// nowhere.
pub fn split<'a>(s: &'a [char], pat: &[char]) -> (found: Vec<&'a [char]>)
    ensures
        slice_views(found@) == pieces_of(s@, pat@),
{
    let mut found: Vec<&'a [char]> = Vec::new();
    if pat.len() == 0 {
        found.push(s);
        assert(slice_views(found@) =~= seq![s@]);
        return found;
    }
    let mut rest: &'a [char] = s;
    assert(slice_views(found@) + pieces_of(rest@, pat@) =~= pieces_of(s@, pat@));
    loop
        invariant
            pat@.len() > 0,
            slice_views(found@) + pieces_of(rest@, pat@) == pieces_of(s@, pat@),
        decreases rest.len(),
    {
        let ghost done = slice_views(found@);
        let ghost open = rest@;
        match find(rest, pat, 0) {
            Some(i) => {
                let piece = slice_subrange(rest, 0, i);
                assert(piece@ =~= open.take(i as int));
                found.push(piece);
                rest = slice_subrange(rest, i + pat.len(), rest.len());
                assert(rest@ =~= open.skip(i + pat.len()));
                assert(slice_views(found@) =~= done.push(piece@));
                assert(done.push(piece@) + pieces_of(rest@, pat@) =~= done + (seq![piece@]
                    + pieces_of(rest@, pat@)));
            },
            None => {
                found.push(rest);
                assert(slice_views(found@) =~= done.push(open));
                assert(done.push(open) =~= done + seq![open]);
                return found;
            },
        }
    }
}

/// The number that `s` writes, if it is a numeral for a number from `least`
/// to `most`.
fn parse_bounded(s: &[char], least: i128, most: i128) -> (number: Option<i128>)
    requires
        -0x1_0000_0000_0000_0000 <= least <= 0,
        0 <= most <= 0x1_0000_0000_0000_0000,
    ensures
        match number {
            Some(n) => number_within(s@, least as int, most as int) == Some(n as int),
            None => number_within(s@, least as int, most as int) is None,
        },
{
    let signed = s.len() > 0 && (s[0] == '+' || s[0] == '-');
    let negative = s.len() > 0 && s[0] == '-';
    let start: usize = if signed {
        1
    } else {
        0
    };
    let ghost digits = s@.skip(start as int);
    assert(digits =~= if signed {
        s@.drop_first()
    } else {
        s@
    });
    if start == s.len() || (negative && least == 0) {
        return None;
    }
    let bound: i128 = if negative {
        -least
    } else {
        most
    };
    let mut value: i128 = 0;
    let mut i: usize = start;
    assert(digits.take(0) =~= Seq::<char>::empty());
    while i < s.len()
        invariant
            start <= i <= s.len(),
            digits == s@.skip(start as int),
            signed == (s@.len() > 0 && (s@[0] == '+' || s@[0] == '-')),
            negative == (s@.len() > 0 && s@[0] == '-'),
            digits == if signed {
                s@.drop_first()
            } else {
                s@
            },
            digits.len() > 0,
            bound == if negative {
                -least
            } else {
                most as int
            },
            !(negative && least == 0),
            all_digits(digits.take(i - start)),
            value == number_of(digits.take(i - start)),
            0 <= value <= bound <= 0x1_0000_0000_0000_0000,
        decreases s.len() - i,
    {
        let c = s[i];
        let ghost read = digits.take(i - start);
        let ghost more = digits.take(i - start + 1);
        assert(more.drop_last() =~= read);
        assert(more.last() == c);
        if !('0' <= c && c <= '9') {
            assert(!is_digit(digits[i - start]));
            return None;
        }
        let d: i128 = (c as u32 - '0' as u32) as i128;
        assert(forall|j: int| 0 <= j < more.len() ==> is_digit(#[trigger] more[j])) by {
            assert forall|j: int| 0 <= j < more.len() implies is_digit(#[trigger] more[j]) by {
                if j < read.len() {
                    assert(more[j] == read[j]);
                }
            }
        }
        let next: i128 = value * 10 + d;
        if next > bound {
            proof {
                if all_digits(digits) {
                    lemma_number_grows(digits, i - start + 1);
                }
            }
            return None;
        }
        value = next;
        i += 1;
    }
    assert(digits.take(i - start) =~= digits);
    if negative {
        Some(-value)
    } else {
        Some(value)
    }
}

/// A numeral that grows by digits writes a number that does not shrink.
proof fn lemma_number_grows(digits: Seq<char>, k: int)
    requires
        0 <= k <= digits.len(),
        all_digits(digits),
    ensures
        number_of(digits.take(k)) <= number_of(digits),
    decreases digits.len() - k,
{
    if k < digits.len() {
        let more = digits.take(k + 1);
        assert(more.drop_last() =~= digits.take(k));
        assert(is_digit(digits[k]));
        assert(more.last() == digits[k]);
        lemma_number_grows(digits, k + 1);
    } else {
        assert(digits.take(k) =~= digits);
    }
}

/// The number that `s` writes, if it fits in a `u64`.
pub fn parse_u64(s: &[char]) -> (number: Option<u64>)
    ensures
        match number {
            Some(n) => number_within(s@, 0, u64::MAX as int) == Some(n as int),
            None => number_within(s@, 0, u64::MAX as int) is None,
        },
{
    match parse_bounded(s, 0, 0xffff_ffff_ffff_ffff) {
        Some(n) => Some(n as u64),
        None => None,
    }
}

/// The number that `s` writes, if it fits in an `i64`.
pub fn parse_i64(s: &[char]) -> (number: Option<i64>)
    ensures
        match number {
            Some(n) => number_within(s@, i64::MIN as int, i64::MAX as int) == Some(n as int),
            None => number_within(s@, i64::MIN as int, i64::MAX as int) is None,
        },
{
    match parse_bounded(s, -0x8000_0000_0000_0000, 0x7fff_ffff_ffff_ffff) {
        Some(n) => Some(n as i64),
        None => None,
    }
}

/// The number that `s` writes, if it fits in a `usize`.
pub fn parse_usize(s: &[char]) -> (number: Option<usize>)
    ensures
        match number {
            Some(n) => number_within(s@, 0, usize::MAX as int) == Some(n as int),
            None => number_within(s@, 0, usize::MAX as int) is None,
        },
{
    match parse_bounded(s, 0, usize::MAX as i128) {
        Some(n) => Some(n as usize),
        None => None,
    }
}

/// The string of the characters of `s`.
pub fn text_of(s: &[char]) -> (text: String)
    ensures
        text@ == s@,
{
    let mut text = String::new();
    let mut i: usize = 0;
    while i < s.len()
        invariant
            i <= s.len(),
            text@ == s@.take(i as int),
        decreases s.len() - i,
    {
        push_char(&mut text, s[i]);
        assert(s@.take(i as int).push(s@[i as int]) =~= s@.take(i as int + 1));
        i += 1;
    }
    assert(s@.take(s@.len() as int) =~= s@);
    text
}

} // verus!
