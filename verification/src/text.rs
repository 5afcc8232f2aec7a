//! Character-level text helpers shared by the rest of the library.

use vstd::prelude::*;
use vstd::string::*;

verus! {

/// Appends one character to a string (std `String::push`).
#[verifier::external_body]
pub(crate) fn push_char(s: &mut String, c: char)
    ensures
        final(s)@ == old(s)@.push(c),
{
    s.push(c);
}

/// Appends every character of `tail` to `s`.
pub fn push_char_all(s: &mut String, tail: &str)
    ensures
        final(s)@ == old(s)@ + tail@,
{
    let chars = chars_of(tail);
    let mut i: usize = 0;
    while i < chars.len()
        invariant
            i <= chars@.len(),
            chars@ == tail@,
            s@ == old(s)@ + tail@.take(i as int),
        decreases chars@.len() - i,
    {
        push_char(s, chars[i]);
        i = i + 1;
        assert(s@ =~= old(s)@ + tail@.take(i as int));
    }
    assert(tail@.take(i as int) =~= tail@);
}

/// The characters of a string slice, in order.
pub fn chars_of(s: &str) -> (r: Vec<char>)
    ensures
        r@ == s@,
{
    let n = s.unicode_len();
    let mut out: Vec<char> = Vec::new();
    let mut i: usize = 0;
    while i < n
        invariant
            n == s@.len(),
            i <= n,
            out@ == s@.take(i as int),
        decreases n - i,
    {
        out.push(s.get_char(i));
        i = i + 1;
        assert(out@ =~= s@.take(i as int));
    }
    assert(out@ =~= s@);
    out
}

/// Builds a string from a character sequence.
pub fn string_of(chars: &[char]) -> (r: String)
    ensures
        r@ == chars@,
{
    let mut out = String::new();
    let mut i: usize = 0;
    while i < chars.len()
        invariant
            i <= chars@.len(),
            out@ == chars@.take(i as int),
        decreases chars@.len() - i,
    {
        push_char(&mut out, chars[i]);
        i = i + 1;
        assert(out@ =~= chars@.take(i as int));
    }
    assert(out@ =~= chars@);
    out
}

/// Whether two string slices hold the same characters.
pub fn str_equals(a: &str, b: &str) -> (r: bool)
    ensures
        r == (a@ == b@),
{
    let x = chars_of(a);
    let y = chars_of(b);
    chars_equal(&x, &y)
}

/// Whether two character slices are equal.
pub fn chars_equal(a: &[char], b: &[char]) -> (r: bool)
    ensures
        r == (a@ == b@),
{
    if a.len() != b.len() {
        return false;
    }
    let mut i: usize = 0;
    while i < a.len()
        invariant
            a@.len() == b@.len(),
            i <= a@.len(),
            forall|j: int| 0 <= j < i ==> a@[j] == b@[j],
        decreases a@.len() - i,
    {
        if a[i] != b[i] {
            return false;
        }
        i = i + 1;
    }
    assert(a@ =~= b@);
    true
}


/// The decimal digit character for `d` (0 to 9).
pub open spec fn digit_char(d: int) -> char {
    if d == 0 { '0' } else if d == 1 { '1' } else if d == 2 { '2' } else if d == 3 { '3' }
    else if d == 4 { '4' } else if d == 5 { '5' } else if d == 6 { '6' } else if d == 7 { '7' }
    else if d == 8 { '8' } else { '9' }
}

/// Whether `c` is one of the ASCII digits `0` to `9`.
pub open spec fn is_digit(c: char) -> bool {
    '0' <= c && c <= '9'
}

/// The value of an ASCII digit character.
pub open spec fn digit_value(c: char) -> int {
    c as int - '0' as int
}

/// The decimal representation of a natural number, without sign or leading zeros.
pub open spec fn decimal(n: nat) -> Seq<char>
    decreases n,
{
    if n < 10 {
        seq![digit_char(n as int)]
    } else {
        decimal(n / 10).push(digit_char((n % 10) as int))
    }
}

/// The decimal representation of an integer: a `-` before the digits of a negative one.
pub open spec fn signed_decimal(n: int) -> Seq<char> {
    if n < 0 {
        seq!['-'] + decimal((-n) as nat)
    } else {
        decimal(n as nat)
    }
}

/// Whether every character of `s` is an ASCII digit.
pub open spec fn all_digits(s: Seq<char>) -> bool {
    forall|i: int| 0 <= i < s.len() ==> is_digit(#[trigger] s[i])
}

/// The number that a string of ASCII digits denotes.
pub open spec fn digits_value(s: Seq<char>) -> nat
    decreases s.len(),
{
    if s.len() == 0 {
        0
    } else {
        (digits_value(s.drop_last()) * 10 + digit_value(s.last())) as nat
    }
}

/// What std's `str::parse` gives for an unsigned integer type whose largest value
/// is `max`: an optional `+`, then at least one ASCII digit, and a value of at
/// most `max`.
pub open spec fn parse_unsigned(s: Seq<char>, max: nat) -> Option<nat> {
    let digits = if s.len() > 0 && s[0] == '+' { s.skip(1) } else { s };
    if digits.len() > 0 && all_digits(digits) && digits_value(digits) <= max {
        Some(digits_value(digits))
    } else {
        None
    }
}

/// What std's `str::parse::<i32>` gives: an optional `+` or `-`, then at least one
/// ASCII digit, and a value in the range of `i32`.
pub open spec fn parse_i32_spec(s: Seq<char>) -> Option<int> {
    if s.len() > 0 && s[0] == '-' {
        let digits = s.skip(1);
        if digits.len() > 0 && all_digits(digits) && digits_value(digits) <= 2147483648 {
            Some(-digits_value(digits))
        } else {
            None
        }
    } else {
        match parse_unsigned(s, 2147483647) {
            Some(v) => Some(v as int),
            None => None,
        }
    }
}

fn digit_char_of(d: u64) -> (c: char)
    requires
        d < 10,
    ensures
        c == digit_char(d as int),
{
    if d == 0 { '0' } else if d == 1 { '1' } else if d == 2 { '2' } else if d == 3 { '3' }
    else if d == 4 { '4' } else if d == 5 { '5' } else if d == 6 { '6' } else if d == 7 { '7' }
    else if d == 8 { '8' } else { '9' }
}

proof fn lemma_decimal_len(n: nat)
    ensures
        decimal(n).len() >= 1,
    decreases n,
{
    if n >= 10 {
        lemma_decimal_len(n / 10);
    }
}

/// Reading back the decimal text of a number gives the number: the text is all
/// digits, begins with neither sign, and its value is `n`; so std's unsigned
/// parse gives `n` back whenever `n` fits, and its `i32` parse gives back the
/// signed text of an `i32`.
pub proof fn law_decimal_text_reads_back(n: nat, max: nat, m: i32)
    ensures
        all_digits(decimal(n)),
        decimal(n).len() >= 1,
        decimal(n)[0] != '+' && decimal(n)[0] != '-',
        digits_value(decimal(n)) == n,
        n <= max ==> parse_unsigned(decimal(n), max) == Some(n),
        parse_i32_spec(signed_decimal(m as int)) == Some(m as int),
{
    lemma_decimal_reads_back(n);
    if m < 0 {
        let k = (-(m as int)) as nat;
        lemma_decimal_reads_back(k);
        let s = signed_decimal(m as int);
        assert(s.skip(1) =~= decimal(k));
    } else {
        lemma_decimal_reads_back(m as nat);
    }
}

proof fn lemma_digit_char_value(d: int)
    requires
        0 <= d < 10,
    ensures
        is_digit(digit_char(d)),
        digit_value(digit_char(d)) == d,
        digit_char(d) != '+' && digit_char(d) != '-',
{
}

proof fn lemma_decimal_reads_back(n: nat)
    ensures
        all_digits(decimal(n)),
        decimal(n).len() >= 1,
        decimal(n)[0] != '+' && decimal(n)[0] != '-',
        digits_value(decimal(n)) == n,
    decreases n,
{
    lemma_decimal_len(n);
    let d = decimal(n);
    if n >= 10 {
        lemma_decimal_reads_back(n / 10);
        lemma_digit_char_value((n % 10) as int);
        assert(d.drop_last() =~= decimal(n / 10));
        assert(d[0] == decimal(n / 10)[0]);
        assert forall|i: int| 0 <= i < d.len() implies is_digit(#[trigger] d[i]) by {
            if i < d.len() - 1 {
                assert(d[i] == decimal(n / 10)[i]);
            }
        }
        assert(d.last() == digit_char((n % 10) as int));
        assert(digits_value(d) == digits_value(decimal(n / 10)) * 10 + digit_value(d.last()));
        assert(n == (n / 10) * 10 + n % 10);
    } else {
        lemma_digit_char_value(n as int);
        assert(d.drop_last() =~= Seq::<char>::empty());
        assert(d.last() == digit_char(n as int));
        assert(digits_value(d) == digits_value(d.drop_last()) * 10 + digit_value(d.last()));
    }
}

/// Appends the decimal digits of `n` to `out`.
pub fn push_decimal(out: &mut String, n: u64)
    ensures
        final(out)@ == old(out)@ + decimal(n as nat),
    decreases n,
{
    if n >= 10 {
        push_decimal(out, n / 10);
        push_char(out, digit_char_of(n % 10));
        assert(final(out)@ =~= old(out)@ + decimal(n as nat));
    } else {
        push_char(out, digit_char_of(n));
        assert(final(out)@ =~= old(out)@ + decimal(n as nat));
    }
}

/// The decimal text of an unsigned number (std `u64::to_string`).
pub fn decimal_string(n: u64) -> (r: String)
    ensures
        r@ == decimal(n as nat),
{
    let mut out = String::new();
    push_decimal(&mut out, n);
    assert(out@ =~= decimal(n as nat));
    out
}

/// The decimal text of a signed number (std `i32::to_string`).
pub fn signed_decimal_string(n: i32) -> (r: String)
    ensures
        r@ == signed_decimal(n as int),
{
    let mut out = String::new();
    if n < 0 {
        push_char(&mut out, '-');
        let magnitude: u64 = (0i64 - n as i64) as u64;
        push_decimal(&mut out, magnitude);
    } else {
        push_decimal(&mut out, n as u64);
    }
    assert(out@ =~= signed_decimal(n as int));
    out
}

proof fn lemma_digits_value_step(s: Seq<char>, i: int)
    requires
        0 <= i < s.len(),
        is_digit(s[i]),
    ensures
        digits_value(s.take(i + 1)) == digits_value(s.take(i)) * 10 + digit_value(s[i]),
{
    assert(s.take(i + 1).drop_last() =~= s.take(i));
}

proof fn lemma_digits_value_monotone(s: Seq<char>, i: int)
    requires
        0 <= i <= s.len(),
        all_digits(s),
    ensures
        digits_value(s.take(i)) <= digits_value(s),
    decreases s.len() - i,
{
    if i < s.len() {
        lemma_digits_value_step(s, i);
        lemma_digits_value_monotone(s, i + 1);
    } else {
        assert(s.take(i) =~= s);
    }
}

/// Reads the digits `s[start..]` as a number, giving `None` when one is not an
/// ASCII digit, there is none, or the value exceeds `max`.
fn digits_at_most(s: &[char], start: usize, max: u64) -> (r: Option<u64>)
    requires
        start <= s@.len(),
    ensures
        ({
            let d = s@.skip(start as int);
            match r {
                Some(v) => d.len() > 0 && all_digits(d) && digits_value(d) <= max && v == digits_value(d),
                None => !(d.len() > 0 && all_digits(d) && digits_value(d) <= max),
            }
        }),
{
    let ghost d = s@.skip(start as int);
    if start >= s.len() {
        return None;
    }
    let mut value: u64 = 0;
    let mut i: usize = start;
    while i < s.len()
        invariant
            start <= i <= s@.len(),
            d == s@.skip(start as int),
            all_digits(d.take(i - start)),
            value == digits_value(d.take(i - start)),
            value <= max,
        decreases s@.len() - i,
    {
        let c = s[i];
        if !('0' <= c && c <= '9') {
            assert(!is_digit(d[i - start]));
            return None;
        }
        let digit: u64 = (c as u32 - '0' as u32) as u64;
        proof {
            assert(is_digit(d[i - start]));
            lemma_digits_value_step(d, i - start);
        }
        let next: u128 = (value as u128) * 10 + digit as u128;
        if next > max as u128 {
            proof {
                assert(d.take(i - start + 1) =~= d.take(i + 1 - start));
                if all_digits(d) {
                    lemma_digits_value_monotone(d, i + 1 - start);
                }
            }
            return None;
        }
        value = next as u64;
        i = i + 1;
        assert(all_digits(d.take(i - start)));
    }
    assert(d.take(i - start) =~= d);
    Some(value)
}

/// Parses an unsigned number as std's `str::parse` does for a type whose largest
/// value is `max`.
pub fn parse_unsigned_at_most(s: &str, max: u64) -> (r: Option<u64>)
    ensures
        match parse_unsigned(s@, max as nat) {
            Some(v) => r == Some(v as u64),
            None => r is None,
        },
{
    let chars = chars_of(s);
    if chars.len() > 0 && chars[0] == '+' {
        digits_at_most(&chars, 1, max)
    } else {
        assert(chars@.skip(0) =~= chars@);
        digits_at_most(&chars, 0, max)
    }
}

/// Parses text as std's `str::parse::<u16>` does.
pub fn parse_u16(s: &str) -> (r: Option<u16>)
    ensures
        match parse_unsigned(s@, 65535) {
            Some(v) => r == Some(v as u16),
            None => r is None,
        },
{
    match parse_unsigned_at_most(s, 65535) {
        Some(v) => Some(v as u16),
        None => None,
    }
}

/// Parses text as std's `str::parse::<i32>` does.
pub fn parse_i32(s: &str) -> (r: Option<i32>)
    ensures
        match parse_i32_spec(s@) {
            Some(v) => r == Some(v as i32),
            None => r is None,
        },
{
    let chars = chars_of(s);
    if chars.len() > 0 && chars[0] == '-' {
        match digits_at_most(&chars, 1, 2147483648) {
            Some(v) => Some((0i64 - v as i64) as i32),
            None => None,
        }
    } else if chars.len() > 0 && chars[0] == '+' {
        match digits_at_most(&chars, 1, 2147483647) {
            Some(v) => Some(v as i32),
            None => None,
        }
    } else {
        assert(chars@.skip(0) =~= chars@);
        match digits_at_most(&chars, 0, 2147483647) {
            Some(v) => Some(v as i32),
            None => None,
        }
    }
}


/// Whether a character has the Unicode `White_Space` property, which std's
/// `char::is_whitespace` answers: the controls U+0009 to U+000D, the space,
/// U+0085, the no-break space, the Ogham space mark, the spaces U+2000 to U+200A,
/// the line and paragraph separators, the narrow no-break space, the medium
/// mathematical space and the ideographic space.
pub open spec fn unicode_whitespace(c: char) -> bool {
    ||| '\u{9}' <= c && c <= '\u{d}'
    ||| c == ' '
    ||| c == '\u{85}'
    ||| c == '\u{a0}'
    ||| c == '\u{1680}'
    ||| '\u{2000}' <= c && c <= '\u{200a}'
    ||| c == '\u{2028}'
    ||| c == '\u{2029}'
    ||| c == '\u{202f}'
    ||| c == '\u{205f}'
    ||| c == '\u{3000}'
}

/// Whether a character is alphabetic or numeric in Unicode's sense, as std's
/// `char::is_alphanumeric` answers.
pub uninterp spec fn unicode_alphanumeric(c: char) -> bool;

/// The characters that std's `char::to_lowercase` yields for a character.
pub uninterp spec fn unicode_lowercase(c: char) -> Seq<char>;

/// Whether a character is whitespace (see [`unicode_whitespace`]).
pub(crate) fn is_whitespace(c: char) -> (r: bool)
    ensures
        r == unicode_whitespace(c),
{
    ('\u{9}' <= c && c <= '\u{d}') || c == ' ' || c == '\u{85}' || c == '\u{a0}' || c == '\u{1680}'
        || ('\u{2000}' <= c && c <= '\u{200a}') || c == '\u{2028}' || c == '\u{2029}'
        || c == '\u{202f}' || c == '\u{205f}' || c == '\u{3000}'
}

/// std `char::is_alphanumeric`.
#[verifier::external_body]
pub(crate) fn is_alphanumeric(c: char) -> (r: bool)
    ensures
        r == unicode_alphanumeric(c),
{
    c.is_alphanumeric()
}

/// std `char::to_lowercase`, collected.
#[verifier::external_body]
pub(crate) fn lowercase_of(c: char) -> (r: Vec<char>)
    ensures
        r@ == unicode_lowercase(c),
{
    c.to_lowercase().collect()
}

/// The lowercase of a text: each character replaced by what std's
/// `char::to_lowercase` yields for it, as `str::to_lowercase` does but for the
/// final-sigma rule.
pub open spec fn lowercase_text(s: Seq<char>) -> Seq<char>
    decreases s.len(),
{
    if s.len() == 0 {
        Seq::empty()
    } else {
        lowercase_text(s.drop_last()) + unicode_lowercase(s.last())
    }
}

/// The lowercase of a text (see [`lowercase_text`]).
pub fn lowercased(chars: &[char]) -> (r: Vec<char>)
    ensures
        r@ == lowercase_text(chars@),
{
    let mut out: Vec<char> = Vec::new();
    let mut k: usize = 0;
    assert(chars@.take(0) =~= Seq::<char>::empty());
    while k < chars.len()
        invariant
            k <= chars@.len(),
            out@ == lowercase_text(chars@.take(k as int)),
        decreases chars@.len() - k,
    {
        let lower = lowercase_of(chars[k]);
        let ghost before = out@;
        let mut j: usize = 0;
        while j < lower.len()
            invariant
                j <= lower@.len(),
                out@ == before + lower@.take(j as int),
            decreases lower@.len() - j,
        {
            out.push(lower[j]);
            j = j + 1;
            assert(out@ =~= before + lower@.take(j as int));
        }
        assert(lower@.take(j as int) =~= lower@);
        assert(chars@.take(k + 1).drop_last() =~= chars@.take(k as int));
        assert(chars@.take(k + 1).last() == chars@[k as int]);
        k = k + 1;
    }
    assert(chars@.take(k as int) =~= chars@);
    out
}

/// `s` without leading whitespace.
pub open spec fn trim_start(s: Seq<char>) -> Seq<char>
    decreases s.len(),
{
    if s.len() > 0 && unicode_whitespace(s[0]) {
        trim_start(s.drop_first())
    } else {
        s
    }
}

/// `s` without trailing whitespace.
pub open spec fn trim_end(s: Seq<char>) -> Seq<char>
    decreases s.len(),
{
    if s.len() > 0 && unicode_whitespace(s.last()) {
        trim_end(s.drop_last())
    } else {
        s
    }
}

/// `s` without leading and trailing whitespace, as std's `str::trim` gives it.
pub open spec fn trim(s: Seq<char>) -> Seq<char> {
    trim_end(trim_start(s))
}

/// The characters of `s` without leading and trailing whitespace (std `str::trim`).
pub fn trimmed(s: &[char]) -> (r: Vec<char>)
    ensures
        r@ == trim(s@),
{
    let mut start: usize = 0;
    assert(s@.skip(0) =~= s@);
    while start < s.len() && is_whitespace(s[start])
        invariant
            start <= s@.len(),
            trim_start(s@) == trim_start(s@.skip(start as int)),
        decreases s@.len() - start,
    {
        assert(s@.skip(start as int).drop_first() =~= s@.skip(start + 1));
        start = start + 1;
    }
    let ghost rest = s@.skip(start as int);
    assert(trim_start(s@) == rest);
    let mut end: usize = s.len();
    assert(rest.take(rest.len() as int) =~= rest);
    while end > start && is_whitespace(s[end - 1])
        invariant
            start <= end <= s@.len(),
            rest == s@.skip(start as int),
            trim_end(rest) == trim_end(rest.take(end - start)),
        decreases end,
    {
        assert(rest.take(end - start).drop_last() =~= rest.take(end - 1 - start));
        assert(rest.take(end - start).last() == s@[end - 1]);
        end = end - 1;
    }
    let mut out: Vec<char> = Vec::new();
    let mut k: usize = start;
    while k < end
        invariant
            start <= k <= end,
            end <= s@.len(),
            out@ == s@.subrange(start as int, k as int),
        decreases end - k,
    {
        out.push(s[k]);
        k = k + 1;
        assert(out@ =~= s@.subrange(start as int, k as int));
    }
    assert(out@ =~= rest.take(end - start));
    out
}

} // verus!
