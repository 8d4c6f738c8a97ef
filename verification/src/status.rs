//! Reading a numeric field of a `/proc/<pid>/status` report.
//!
//! A report is a sequence of lines such as `VmRSS:   123456 kB`; a field's value
//! is the second whitespace-separated word of the first line that starts with
//! the field's prefix, read as an unsigned decimal number.
use vstd::prelude::*;

verus! {

/// Unicode white space, as `char::is_whitespace` classifies it.
pub open spec fn is_white(c: char) -> bool {
    let u = c as u32;
    ||| 9 <= u <= 13
    ||| u == 32
    ||| u == 0x85
    ||| u == 0xa0
    ||| u == 0x1680
    ||| 0x2000 <= u <= 0x200a
    ||| u == 0x2028
    ||| u == 0x2029
    ||| u == 0x202f
    ||| u == 0x205f
    ||| u == 0x3000
}

fn white(c: char) -> (r: bool)
    ensures
        r == is_white(c),
{
    let u = c as u32;
    (9 <= u && u <= 13) || u == 32 || u == 0x85 || u == 0xa0 || u == 0x1680 || (0x2000 <= u && u <= 0x200a)
        || u == 0x2028 || u == 0x2029 || u == 0x202f || u == 0x205f || u == 0x3000
}

/// End of the line that starts at `k`: the first `\n` at or after `k`, or the end.
pub open spec fn line_end(s: Seq<char>, k: int) -> int
    decreases s.len() - k,
{
    if k >= s.len() {
        s.len() as int
    } else if s[k] == '\n' {
        k
    } else {
        line_end(s, k + 1)
    }
}

/// End of a line's content `[k, e)`: a final carriage return is not content.
pub open spec fn content_end(s: Seq<char>, k: int, e: int) -> int {
    if e > k && s[e - 1] == '\r' { e - 1 } else { e }
}

/// The first position in `[k, end)` that is not white space, or `end`.
pub open spec fn skip_white(s: Seq<char>, k: int, end: int) -> int
    decreases end - k,
{
    if k >= end {
        end
    } else if !is_white(s[k]) {
        k
    } else {
        skip_white(s, k + 1, end)
    }
}

/// The first white-space position in `[k, end)`, or `end`.
pub open spec fn word_end(s: Seq<char>, k: int, end: int) -> int
    decreases end - k,
{
    if k >= end {
        end
    } else if is_white(s[k]) {
        k
    } else {
        word_end(s, k + 1, end)
    }
}

/// The second white-space separated word of `s[k..end]`, as a position range.
pub open spec fn second_word(s: Seq<char>, k: int, end: int) -> Option<(int, int)> {
    let a0 = skip_white(s, k, end);
    let b0 = word_end(s, a0, end);
    let a1 = skip_white(s, b0, end);
    if a0 >= end || a1 >= end {
        None
    } else {
        Some((a1, word_end(s, a1, end)))
    }
}

/// The value of a string of decimal digits.
pub open spec fn digits_value(t: Seq<char>) -> int
    decreases t.len(),
{
    if t.len() == 0 {
        0
    } else {
        digits_value(t.drop_last()) * 10 + (t.last() as u32 - 48)
    }
}

pub open spec fn is_digit(c: char) -> bool {
    48 <= c as u32 <= 57
}

/// Whether every character is a decimal digit.
pub open spec fn all_digits(d: Seq<char>) -> bool {
    forall|i: int| 0 <= i < d.len() ==> #[trigger] is_digit(d[i])
}

/// The digits of an unsigned number: without its optional leading `+`.
pub open spec fn unsigned_digits(t: Seq<char>) -> Seq<char> {
    if t.len() > 0 && t[0] == '+' { t.skip(1) } else { t }
}

/// `str::parse::<u64>`: an optional `+`, then at least one decimal digit,
/// whose value fits 64 bits.
pub open spec fn parse_u64_spec(t: Seq<char>) -> Option<u64> {
    let d = unsigned_digits(t);
    if d.len() > 0 && all_digits(d) && digits_value(d) <= u64::MAX {
        Some(digits_value(d) as u64)
    } else {
        None
    }
}

/// Whether `s[k..end]` starts with `prefix`.
pub open spec fn starts_with_at(s: Seq<char>, prefix: Seq<char>, k: int, end: int) -> bool {
    k + prefix.len() <= end && s.subrange(k, k + prefix.len()) == prefix
}

/// The field value in the line `s[k..end]`: its second word as a number, or zero.
pub open spec fn line_value(s: Seq<char>, k: int, end: int) -> u64 {
    match second_word(s, k, end) {
        Some((a, b)) => match parse_u64_spec(s.subrange(a, b)) {
            Some(v) => v,
            None => 0,
        },
        None => 0,
    }
}

/// The value of the field `prefix` in the lines from position `k` on: read from
/// the first line that starts with `prefix`, zero when no line does.
pub open spec fn field_from(s: Seq<char>, prefix: Seq<char>, k: int) -> u64
    decreases s.len() - k,
{
    if k < 0 || k >= s.len() {
        0
    } else {
        let e = line_end(s, k);
        let c = content_end(s, k, e);
        if starts_with_at(s, prefix, k, c) {
            line_value(s, k, c)
        } else if e >= s.len() {
            0
        } else {
            proof {
                lemma_line_end_bounds(s, k);
            }
            field_from(s, prefix, e + 1)
        }
    }
}

/// A line ends at or after its start, at a newline or at the end, with no
/// newline before that.
pub proof fn lemma_line_end_bounds(s: Seq<char>, k: int)
    requires
        0 <= k,
    ensures
        k <= line_end(s, k) || k >= s.len(),
        line_end(s, k) <= s.len(),
        line_end(s, k) < s.len() ==> s[line_end(s, k)] == '\n',
        forall|i: int| k <= i < line_end(s, k) ==> s[i] != '\n',
    decreases s.len() - k,
{
    if k < s.len() {
        lemma_line_end_bounds(s, k + 1);
    }
}

proof fn lemma_skip_white_bounds(s: Seq<char>, k: int, end: int)
    requires
        k <= end,
    ensures
        k <= skip_white(s, k, end) <= end,
    decreases end - k,
{
    if k < end {
        lemma_skip_white_bounds(s, k + 1, end);
    }
}

proof fn lemma_word_end_bounds(s: Seq<char>, k: int, end: int)
    requires
        k <= end,
    ensures
        k <= word_end(s, k, end) <= end,
        forall|i: int| k <= i < word_end(s, k, end) ==> !is_white(#[trigger] s[i]),
    decreases end - k,
{
    if k < end {
        lemma_word_end_bounds(s, k + 1, end);
    }
}

fn skip_white_exec(s: &str, k: usize, end: usize) -> (r: usize)
    requires
        k <= end <= s@.len(),
    ensures
        r == skip_white(s@, k as int, end as int),
{
    let mut i = k;
    while i < end && white(s.get_char(i))
        invariant
            k <= i <= end,
            end <= s@.len(),
            skip_white(s@, k as int, end as int) == skip_white(s@, i as int, end as int),
        decreases end - i,
    {
        i = i + 1;
    }
    i
}

fn word_end_exec(s: &str, k: usize, end: usize) -> (r: usize)
    requires
        k <= end <= s@.len(),
    ensures
        r == word_end(s@, k as int, end as int),
{
    let mut i = k;
    while i < end && !white(s.get_char(i))
        invariant
            k <= i <= end,
            end <= s@.len(),
            word_end(s@, k as int, end as int) == word_end(s@, i as int, end as int),
        decreases end - i,
    {
        i = i + 1;
    }
    i
}

proof fn lemma_digits_step(t: Seq<char>, k: int)
    requires
        0 < k <= t.len(),
    ensures
        digits_value(t.take(k)) == digits_value(t.take(k - 1)) * 10 + (t[k - 1] as u32 - 48),
{
    assert(t.take(k).drop_last() =~= t.take(k - 1));
    assert(t.take(k).last() == t[k - 1]);
}

proof fn lemma_digits_monotone(t: Seq<char>, j: int, k: int)
    requires
        0 <= j <= k <= t.len(),
        all_digits(t),
    ensures
        0 <= digits_value(t.take(j)) <= digits_value(t.take(k)),
    decreases k,
{
    if k > 0 {
        if j < k {
            lemma_digits_monotone(t, j, k - 1);
        } else {
            lemma_digits_monotone(t, k - 1, k - 1);
        }
        lemma_digits_step(t, k);
        assert(is_digit(t[k - 1]));
    } else {
        assert(t.take(0) =~= Seq::<char>::empty());
    }
}

/// `str::parse::<u64>` of `s[a..b]`.
fn parse_u64_at(s: &str, a: usize, b: usize) -> (r: Option<u64>)
    requires
        a <= b <= s@.len(),
    ensures
        r == parse_u64_spec(s@.subrange(a as int, b as int)),
{
    let ghost t = s@.subrange(a as int, b as int);
    let start = if a < b && s.get_char(a) == '+' { a + 1 } else { a };
    let ghost d = unsigned_digits(t);
    assert(d =~= s@.subrange(start as int, b as int));
    if start == b {
        return None;
    }
    let mut value: u64 = 0;
    let mut i = start;
    while i < b
        invariant
            start <= i <= b <= s@.len(),
            a <= b,
            t == s@.subrange(a as int, b as int),
            d == unsigned_digits(t),
            d.len() > 0,
            d == s@.subrange(start as int, b as int),
            forall|j: int| 0 <= j < i - start ==> #[trigger] is_digit(d[j]),
            value <= u64::MAX,
            value == digits_value(d.take(i - start)),
        decreases b - i,
    {
        let c = s.get_char(i);
        let u = c as u32;
        assert(d[i - start] == c);
        if u < 48 || u > 57 {
            assert(!is_digit(d[i - start]));
            assert(!all_digits(d));
            return None;
        }
        let digit = (u - 48) as u64;
        proof {
            lemma_digits_step(d, i - start + 1);
        }
        let next = match value.checked_mul(10) {
            Some(v) => v.checked_add(digit),
            None => None,
        };
        match next {
            Some(v) => {
                value = v;
            },
            None => {
                proof {
                    assert(digits_value(d.take(i - start + 1)) == value * 10 + digit);
                    assert(digits_value(d.take(i - start + 1)) > u64::MAX);
                    if all_digits(d) {
                        lemma_digits_monotone(d, i - start + 1, d.len() as int);
                        assert(d.take(d.len() as int) =~= d);
                    }
                }
                return None;
            },
        }
        i = i + 1;
    }
    assert(d.take(d.len() as int) =~= d);
    assert(all_digits(d));
    Some(value)
}

/// The value of the field `prefix` in a process status report: the second word
/// of the first line that starts with `prefix`, read as an unsigned decimal
/// number; zero when no line starts with it or its value does not parse.
pub fn status_field(status: &str, prefix: &str) -> (v: u64)
    ensures
        v == field_from(status@, prefix@, 0),
{
    let n = status.unicode_len();
    let plen = prefix.unicode_len();
    let mut k: usize = 0;
    while k < n
        invariant
            n == status@.len(),
            plen == prefix@.len(),
            k <= n,
            field_from(status@, prefix@, 0) == field_from(status@, prefix@, k as int),
        decreases n - k,
    {
        let mut e = k;
        while e < n && status.get_char(e) != '\n'
            invariant
                k <= e <= n,
                n == status@.len(),
                line_end(status@, k as int) == line_end(status@, e as int),
            decreases n - e,
        {
            e = e + 1;
        }
        let c = if e > k && status.get_char(e - 1) == '\r' { e - 1 } else { e };
        let mut starts = plen <= c - k;
        let mut j: usize = 0;
        while starts && j < plen
            invariant
                j <= plen,
                plen == prefix@.len(),
                n == status@.len(),
                k <= c <= n,
                starts ==> k + plen <= c,
                starts ==> forall|i: int| 0 <= i < j ==> status@[k + i] == prefix@[i],
                !starts ==> !starts_with_at(status@, prefix@, k as int, c as int),
            decreases plen - j + (if starts { 1int } else { 0int }),
        {
            if status.get_char(k + j) != prefix.get_char(j) {
                starts = false;
            } else {
                j = j + 1;
            }
        }
        if starts {
            assert(status@.subrange(k as int, k + plen) =~= prefix@);
            let a0 = skip_white_exec(status, k, c);
            proof {
                lemma_skip_white_bounds(status@, k as int, c as int);
            }
            let b0 = word_end_exec(status, a0, c);
            proof {
                lemma_word_end_bounds(status@, a0 as int, c as int);
            }
            let a1 = skip_white_exec(status, b0, c);
            proof {
                lemma_skip_white_bounds(status@, b0 as int, c as int);
            }
            if a0 >= c || a1 >= c {
                return 0;
            }
            let b1 = word_end_exec(status, a1, c);
            proof {
                lemma_word_end_bounds(status@, a1 as int, c as int);
            }
            return match parse_u64_at(status, a1, b1) {
                Some(v) => v,
                None => 0,
            };
        }
        if e >= n {
            return 0;
        }
        k = e + 1;
    }
    0
}


/// `str::parse::<u64>` of a whole text.
pub fn parse_u64(text: &str) -> (r: Option<u64>)
    ensures
        r == parse_u64_spec(text@),
{
    let n = text.unicode_len();
    assert(text@.subrange(0, n as int) =~= text@);
    parse_u64_at(text, 0, n)
}

/// `str::parse::<usize>`: the same text as for `u64`, with a value that fits a
/// `usize`.
pub open spec fn parse_usize_spec(t: Seq<char>) -> Option<usize> {
    match parse_u64_spec(t) {
        Some(v) => if v <= usize::MAX { Some(v as usize) } else { None },
        None => None,
    }
}

pub fn parse_usize(text: &str) -> (r: Option<usize>)
    ensures
        r == parse_usize_spec(text@),
{
    match parse_u64(text) {
        Some(v) => if v <= usize::MAX as u64 { Some(v as usize) } else { None },
        None => None,
    }
}

/// Whether two texts are the same.
pub fn same_text(a: &str, b: &str) -> (r: bool)
    ensures
        r == (a@ == b@),
{
    let n = a.unicode_len();
    if n != b.unicode_len() {
        return false;
    }
    let mut i: usize = 0;
    while i < n
        invariant
            i <= n,
            n == a@.len(),
            n == b@.len(),
            forall|j: int| 0 <= j < i ==> a@[j] == b@[j],
        decreases n - i,
    {
        if a.get_char(i) != b.get_char(i) {
            return false;
        }
        i = i + 1;
    }
    assert(a@ =~= b@);
    true
}

} // verus!
