//! Character-level text operations with exact specifications over `Seq<char>`.
//!
//! The executable functions work on `Vec<char>` so that every scan is linear;
//! strings enter through [`chars_of`] and leave through [`string_of`].

use crate::search::{first_index, lemma_first_index, lemma_first_index_is};
use vstd::prelude::*;
use vstd::std_specs::iter::IteratorSpec;

verus! {

// ---------------------------------------------------------------------------
// Strings and character vectors
// ---------------------------------------------------------------------------

/// Copies the characters of a string slice into a vector.
pub fn chars_of(s: &str) -> (out: Vec<char>)
    ensures
        out@ == s@,
{
    let mut out: Vec<char> = Vec::new();
    let it = s.chars();
    for c in iter: it
        invariant
            iter.seq() == s@,
            out@ == iter.seq().take(iter.index()),
    {
        out.push(c);
    }
    out
}

/// Decides whether two string slices hold the same characters.
pub fn str_eq(a: &str, b: &str) -> (same: bool)
    ensures
        same == (a@ == b@),
{
    let mut left = a.chars();
    let mut right = b.chars();
    let ghost mut seen: Seq<char> = Seq::empty();
    loop
        invariant
            a@ == seen + left.remaining(),
            b@ == seen + right.remaining(),
        decreases a@.len() - seen.len(),
    {
        let x = left.next();
        let y = right.next();
        match (x, y) {
            (None, None) => {
                return true;
            },
            (Some(p), Some(q)) => {
                if p != q {
                    assert(a@[seen.len() as int] == p);
                    assert(b@[seen.len() as int] == q);
                    return false;
                }
                proof {
                    seen = seen.push(p);
                }
                assert(a@ =~= seen + left.remaining());
                assert(b@ =~= seen + right.remaining());
            },
            _ => {
                assert(a@.len() != b@.len());
                return false;
            },
        }
    }
}

/// `String::push` of the standard library: appends one character to the end
/// of the string and leaves the characters before it as they were.
#[verifier::external_body]
fn push_char(s: &mut String, c: char)
    ensures
        final(s)@ == old(s)@.push(c),
{
    s.push(c)
}

/// Builds a string from the characters `chars[from..to]`.
pub fn string_of(chars: &Vec<char>, from: usize, to: usize) -> (out: String)
    requires
        from <= to <= chars@.len(),
    ensures
        out@ == chars@.subrange(from as int, to as int),
{
    let mut out = String::new();
    let mut i: usize = from;
    while i < to
        invariant
            from <= i <= to <= chars@.len(),
            out@ == chars@.subrange(from as int, i as int),
        decreases to - i,
    {
        push_char(&mut out, chars[i]);
        i += 1;
        assert(out@ =~= chars@.subrange(from as int, i as int));
    }
    out
}

// ---------------------------------------------------------------------------
// White space
// ---------------------------------------------------------------------------

/// The code points with the Unicode property `White_Space`.
pub open spec fn is_white_space(c: char) -> bool {
    let n = c as u32;
    ||| 0x09 <= n <= 0x0D
    ||| n == 0x20
    ||| n == 0x85
    ||| n == 0xA0
    ||| n == 0x1680
    ||| 0x2000 <= n <= 0x200A
    ||| n == 0x2028
    ||| n == 0x2029
    ||| n == 0x202F
    ||| n == 0x205F
    ||| n == 0x3000
}

/// Decides whether a character is white space.
pub fn white_space(c: char) -> (b: bool)
    ensures
        b == is_white_space(c),
{
    let n: u32 = c as u32;
    (0x09 <= n && n <= 0x0D) || n == 0x20 || n == 0x85 || n == 0xA0 || n == 0x1680 || (0x2000 <= n
        && n <= 0x200A) || n == 0x2028 || n == 0x2029 || n == 0x202F || n == 0x205F || n == 0x3000
}

/// A text is blank when it holds nothing but white space.
pub open spec fn is_blank(s: Seq<char>) -> bool {
    forall|i: int| 0 <= i < s.len() ==> is_white_space(#[trigger] s[i])
}

/// Decides whether a text is blank.
pub fn blank(chars: &Vec<char>) -> (b: bool)
    ensures
        b == is_blank(chars@),
{
    let mut i: usize = 0;
    while i < chars.len()
        invariant
            i <= chars@.len(),
            forall|j: int| 0 <= j < i ==> is_white_space(#[trigger] chars@[j]),
        decreases chars@.len() - i,
    {
        if !white_space(chars[i]) {
            return false;
        }
        i += 1;
    }
    true
}

/// The text without its leading white space.
pub open spec fn trim_start(s: Seq<char>) -> Seq<char>
    decreases s.len(),
{
    if s.len() > 0 && is_white_space(s[0]) {
        trim_start(s.drop_first())
    } else {
        s
    }
}

/// The text without its trailing white space.
pub open spec fn trim_end(s: Seq<char>) -> Seq<char>
    decreases s.len(),
{
    if s.len() > 0 && is_white_space(s.last()) {
        trim_end(s.drop_last())
    } else {
        s
    }
}

/// The text without leading and trailing white space.
pub open spec fn trim(s: Seq<char>) -> Seq<char> {
    trim_end(trim_start(s))
}

/// Skipping `k` leading white-space characters does not change what
/// `trim_start` gives.
pub proof fn lemma_trim_start_skip(s: Seq<char>, k: int)
    requires
        0 <= k <= s.len(),
        forall|j: int| 0 <= j < k ==> is_white_space(#[trigger] s[j]),
    ensures
        trim_start(s) == trim_start(s.skip(k)),
    decreases k,
{
    if k == 0 {
        assert(s.skip(0) =~= s);
    } else {
        assert(is_white_space(s[0]));
        let rest = s.drop_first();
        assert forall|j: int| 0 <= j < k - 1 implies is_white_space(#[trigger] rest[j]) by {
            assert(rest[j] == s[j + 1]);
        }
        lemma_trim_start_skip(rest, k - 1);
        assert(rest.skip(k - 1) =~= s.skip(k));
    }
}

/// Dropping trailing white-space characters does not change what `trim_end`
/// gives.
pub proof fn lemma_trim_end_take(s: Seq<char>, k: int)
    requires
        0 <= k <= s.len(),
        forall|j: int| k <= j < s.len() ==> is_white_space(#[trigger] s[j]),
    ensures
        trim_end(s) == trim_end(s.take(k)),
    decreases s.len() - k,
{
    if k == s.len() {
        assert(s.take(k) =~= s);
    } else {
        assert(is_white_space(s.last()));
        let rest = s.drop_last();
        assert forall|j: int| k <= j < rest.len() implies is_white_space(#[trigger] rest[j]) by {
            assert(rest[j] == s[j]);
        }
        lemma_trim_end_take(rest, k);
        assert(rest.take(k) =~= s.take(k));
    }
}

/// The trimmed text of `chars[from..]`, as a string.
pub fn trimmed(chars: &Vec<char>, from: usize) -> (out: String)
    requires
        from <= chars@.len(),
    ensures
        out@ == trim(chars@.skip(from as int)),
{
    let ghost s = chars@.skip(from as int);
    let mut lo: usize = from;
    while lo < chars.len() && white_space(chars[lo])
        invariant
            from <= lo <= chars@.len(),
            forall|j: int| from <= j < lo ==> is_white_space(#[trigger] chars@[j]),
        decreases chars@.len() - lo,
    {
        lo += 1;
    }
    let mut hi: usize = chars.len();
    while hi > lo && white_space(chars[hi - 1])
        invariant
            lo <= hi <= chars@.len(),
            forall|j: int| hi <= j < chars@.len() ==> is_white_space(#[trigger] chars@[j]),
        decreases hi,
    {
        hi -= 1;
    }
    proof {
        let front = s.skip(lo - from);
        assert forall|j: int| 0 <= j < lo - from implies is_white_space(#[trigger] s[j]) by {
            assert(s[j] == chars@[from + j]);
        }
        lemma_trim_start_skip(s, lo - from);
        assert(front =~= chars@.skip(lo as int));
        if front.len() > 0 {
            assert(front[0] == chars@[lo as int]);
        }
        assert(trim_start(front) == front);
        assert forall|j: int| hi - lo <= j < front.len() implies is_white_space(
            #[trigger] front[j],
        ) by {
            assert(front[j] == chars@[lo + j]);
        }
        lemma_trim_end_take(front, hi - lo);
        let middle = front.take(hi - lo);
        assert(middle =~= chars@.subrange(lo as int, hi as int));
        if middle.len() > 0 {
            assert(middle.last() == chars@[hi - 1]);
        }
        assert(trim_end(middle) == middle);
    }
    string_of(chars, lo, hi)
}

// ---------------------------------------------------------------------------
// Prefixes and searching
// ---------------------------------------------------------------------------

/// Whether `s` begins with `prefix`.
pub open spec fn starts_with(s: Seq<char>, prefix: Seq<char>) -> bool {
    prefix.len() <= s.len() && s.take(prefix.len() as int) == prefix
}

/// Decides whether `chars` begins with `prefix`.
pub fn has_prefix(chars: &Vec<char>, prefix: &Vec<char>) -> (b: bool)
    ensures
        b == starts_with(chars@, prefix@),
{
    if prefix.len() > chars.len() {
        return false;
    }
    let mut i: usize = 0;
    while i < prefix.len()
        invariant
            i <= prefix@.len() <= chars@.len(),
            forall|j: int| 0 <= j < i ==> chars@[j] == prefix@[j],
        decreases prefix@.len() - i,
    {
        if chars[i] != prefix[i] {
            assert(chars@.take(prefix@.len() as int)[i as int] != prefix@[i as int]);
            return false;
        }
        i += 1;
    }
    assert(chars@.take(prefix@.len() as int) =~= prefix@);
    true
}

/// Finds the first `c` at or after `from`; gives the length when there is
/// none.
pub fn find_char(chars: &Vec<char>, from: usize, c: char) -> (at: usize)
    requires
        from <= chars@.len(),
    ensures
        at == from + first_index(chars@.skip(from as int), c),
        from <= at <= chars@.len(),
{
    let mut i: usize = from;
    while i < chars.len() && chars[i] != c
        invariant
            from <= i <= chars@.len(),
            forall|j: int| from <= j < i ==> #[trigger] chars@[j] != c,
        decreases chars@.len() - i,
    {
        i += 1;
    }
    proof {
        let s = chars@.skip(from as int);
        assert forall|j: int| 0 <= j < i - from implies #[trigger] s[j] != c by {
            assert(s[j] == chars@[from + j]);
        }
        if i - from < s.len() {
            assert(s[i - from] == chars@[i as int]);
        }
        lemma_first_index_is(s, c, i - from);
    }
    i
}

// ---------------------------------------------------------------------------
// ASCII case
// ---------------------------------------------------------------------------

/// The ASCII lower-case form of a character; other characters stay.
pub open spec fn ascii_lower(c: char) -> u32 {
    let n = c as u32;
    if 0x41 <= n <= 0x5A {
        (n + 0x20) as u32
    } else {
        n
    }
}

/// Two texts that differ at most in the case of their ASCII letters.
pub open spec fn same_ignoring_ascii_case(a: Seq<char>, b: Seq<char>) -> bool {
    &&& a.len() == b.len()
    &&& forall|i: int| 0 <= i < a.len() ==> ascii_lower(#[trigger] a[i]) == ascii_lower(b[i])
}

fn lower(c: char) -> (n: u32)
    ensures
        n == ascii_lower(c),
{
    let n: u32 = c as u32;
    if 0x41 <= n && n <= 0x5A {
        n + 0x20
    } else {
        n
    }
}

/// Compares two texts without regard to the case of ASCII letters.
pub fn eq_ignore_ascii_case(a: &Vec<char>, b: &Vec<char>) -> (same: bool)
    ensures
        same == same_ignoring_ascii_case(a@, b@),
{
    if a.len() != b.len() {
        return false;
    }
    let mut i: usize = 0;
    while i < a.len()
        invariant
            i <= a@.len(),
            a@.len() == b@.len(),
            forall|j: int| 0 <= j < i ==> ascii_lower(#[trigger] a@[j]) == ascii_lower(b@[j]),
        decreases a@.len() - i,
    {
        if lower(a[i]) != lower(b[i]) {
            return false;
        }
        i += 1;
    }
    true
}

// ---------------------------------------------------------------------------
// Decimal numbers
// ---------------------------------------------------------------------------

/// Whether a character is one of `0` to `9`.
pub open spec fn is_digit(c: char) -> bool {
    0x30 <= c as u32 <= 0x39
}

/// The number that a run of digits writes, most significant digit first.
pub open spec fn digits_value(s: Seq<char>) -> nat
    decreases s.len(),
{
    if s.len() == 0 {
        0
    } else {
        (digits_value(s.drop_last()) * 10 + (s.last() as u32 - 0x30)) as nat
    }
}

/// A non-empty text of digits only.
pub open spec fn is_digits(s: Seq<char>) -> bool {
    s.len() > 0 && forall|i: int| 0 <= i < s.len() ==> is_digit(#[trigger] s[i])
}

/// The digits of an unsigned number: the text itself, without one leading
/// `+` sign.
pub open spec fn unsigned_digits(s: Seq<char>) -> Seq<char> {
    if s.len() > 0 && s[0] == '+' {
        s.drop_first()
    } else {
        s
    }
}

/// The unsigned 64-bit number that a text writes in decimal: an optional `+`,
/// then one or more digits, whose value must fit.
pub open spec fn parse_unsigned(s: Seq<char>) -> Option<u64> {
    let digits = unsigned_digits(s);
    if is_digits(digits) && digits_value(digits) <= u64::MAX {
        Some(digits_value(digits) as u64)
    } else {
        None
    }
}

/// The value of a run of digits does not shrink when the run grows.
pub proof fn lemma_digits_value_grows(s: Seq<char>, k: int)
    requires
        0 <= k <= s.len(),
        forall|i: int| 0 <= i < s.len() ==> is_digit(#[trigger] s[i]),
    ensures
        digits_value(s.take(k)) <= digits_value(s),
    decreases s.len() - k,
{
    if k == s.len() {
        assert(s.take(k) =~= s);
    } else {
        let shorter = s.drop_last();
        assert forall|i: int| 0 <= i < shorter.len() implies is_digit(#[trigger] shorter[i]) by {
            assert(shorter[i] == s[i]);
        }
        lemma_digits_value_grows(shorter, k);
        assert(shorter.take(k) =~= s.take(k));
        assert(is_digit(s[s.len() - 1]));
    }
}

/// Reads `chars[from..to]` as an unsigned decimal number.
pub fn parse_u64(chars: &Vec<char>, from: usize, to: usize) -> (out: Option<u64>)
    requires
        from <= to <= chars@.len(),
    ensures
        out == parse_unsigned(chars@.subrange(from as int, to as int)),
{
    let ghost s = chars@.subrange(from as int, to as int);
    let mut start: usize = from;
    if from < to && chars[from] == '+' {
        start = from + 1;
    }
    let ghost digits = chars@.subrange(start as int, to as int);
    assert(digits =~= unsigned_digits(s)) by {
        if s.len() > 0 {
            assert(s[0] == chars@[from as int]);
        }
    }
    if start == to {
        return None;
    }
    let mut value: u64 = 0;
    let mut i: usize = start;
    while i < to
        invariant
            start <= i <= to <= chars@.len(),
            from <= start,
            digits == chars@.subrange(start as int, to as int),
            digits == unsigned_digits(chars@.subrange(from as int, to as int)),
            forall|j: int| 0 <= j < i - start ==> is_digit(#[trigger] digits[j]),
            value == digits_value(digits.take(i - start)),
        decreases to - i,
    {
        let n: u32 = chars[i] as u32;
        assert(digits[i - start] == chars@[i as int]);
        if n < 0x30 || n > 0x39 {
            assert(!is_digit(digits[i - start]));
            return None;
        }
        let d: u64 = (n - 0x30) as u64;
        let ghost next = digits.take(i - start + 1);
        assert(next.drop_last() =~= digits.take(i - start));
        assert(next.last() == chars@[i as int]);
        if value > (u64::MAX - d) / 10 {
            proof {
                assert(digits_value(next) > u64::MAX);
                if is_digits(digits) {
                    lemma_digits_value_grows(digits, i - start + 1);
                }
            }
            return None;
        }
        value = value * 10 + d;
        i += 1;
    }
    assert(digits.take(to - start) =~= digits);
    Some(value)
}

// ---------------------------------------------------------------------------
// Lines
// ---------------------------------------------------------------------------

/// A line without the carriage return that may end it.
pub open spec fn strip_carriage_return(line: Seq<char>) -> Seq<char> {
    if line.len() > 0 && line.last() == '\r' {
        line.drop_last()
    } else {
        line
    }
}

/// The lines of a text. A line ends at a line feed, or at a carriage return
/// directly followed by one; neither belongs to the line. What follows the
/// last line feed is a line of its own unless it is empty.
pub open spec fn lines(s: Seq<char>) -> Seq<Seq<char>>
    decreases s.len(),
{
    if s.len() == 0 {
        Seq::empty()
    } else {
        let k = first_index(s, '\n');
        if 0 <= k < s.len() {
            seq![strip_carriage_return(s.take(k))] + lines(s.skip(k + 1))
        } else {
            seq![s]
        }
    }
}

/// The views of a vector of character vectors.
pub open spec fn texts(v: Seq<Vec<char>>) -> Seq<Seq<char>> {
    v.map_values(|line: Vec<char>| line@)
}

/// Copies `chars[from..to]` into a vector of its own.
fn copy_range(chars: &Vec<char>, from: usize, to: usize) -> (out: Vec<char>)
    requires
        from <= to <= chars@.len(),
    ensures
        out@ == chars@.subrange(from as int, to as int),
{
    let mut out: Vec<char> = Vec::new();
    let mut i: usize = from;
    while i < to
        invariant
            from <= i <= to <= chars@.len(),
            out@ == chars@.subrange(from as int, i as int),
        decreases to - i,
    {
        out.push(chars[i]);
        i += 1;
        assert(out@ =~= chars@.subrange(from as int, i as int));
    }
    out
}

/// Splits a text into its lines.
pub fn lines_of(chars: &Vec<char>) -> (out: Vec<Vec<char>>)
    ensures
        texts(out@) == lines(chars@),
{
    let mut out: Vec<Vec<char>> = Vec::new();
    let mut start: usize = 0;
    assert(chars@.skip(0) =~= chars@);
    assert(texts(out@) =~= Seq::empty());
    while start < chars.len()
        invariant
            start <= chars@.len(),
            lines(chars@) == texts(out@) + lines(chars@.skip(start as int)),
        decreases chars@.len() - start,
    {
        let ghost rest = chars@.skip(start as int);
        let ghost before = texts(out@);
        let end = find_char(chars, start, '\n');
        proof {
            lemma_first_index(rest, '\n');
        }
        if end < chars.len() {
            let mut stop: usize = end;
            if stop > start && chars[stop - 1] == '\r' {
                stop -= 1;
            }
            let line = copy_range(chars, start, stop);
            proof {
                let raw = rest.take(end - start);
                assert(raw =~= chars@.subrange(start as int, end as int));
                if raw.len() > 0 {
                    assert(raw.last() == chars@[end - 1]);
                }
                assert(line@ =~= strip_carriage_return(raw));
                assert(rest.skip(end - start + 1) =~= chars@.skip(end + 1));
            }
            out.push(line);
            assert(texts(out@) =~= before + seq![line@]);
            start = end + 1;
        } else {
            let line = copy_range(chars, start, end);
            assert(line@ =~= rest);
            out.push(line);
            assert(texts(out@) =~= before + seq![line@]);
            start = end;
            assert(chars@.skip(start as int).len() == 0);
        }
    }
    assert(lines(chars@.skip(start as int)) =~= Seq::empty());
    out
}

} // verus!
