//! Text as it comes over the wire: bytes that must be UTF-8, and the tests
//! that names have to pass.

use vstd::prelude::*;
use vstd::string::{StringExecFns, StringSliceAdditionalSpecFns};
use vstd::utf8::{decode_utf8, valid_utf8};

verus! {

/// `text` with every character in its lower case, as Unicode defines it.
pub uninterp spec fn lowercased(text: Seq<char>) -> Seq<char>;

/// Whether Unicode counts `ch` as a letter or a number.
pub uninterp spec fn unicode_alphanumeric(ch: char) -> bool;

/// The character of the decimal digit `d`.
pub open spec fn digit_char(d: u64) -> char {
    ((48 + d % 10) as u8) as char
}

/// The decimal digits of `n`, the highest first.
pub open spec fn decimal_text(n: u64) -> Seq<char>
    decreases n,
{
    if n < 10 {
        seq![digit_char(n)]
    } else {
        decimal_text(n / 10).push(digit_char(n % 10))
    }
}

/// `text` without the white space at its two ends, as Unicode defines it.
pub uninterp spec fn trimmed(text: Seq<char>) -> Seq<char>;

/// Calls `String::from_utf8`. Trusted: the bytes become a string exactly
/// where they are valid UTF-8, and the string holds the characters that
/// they encode.
#[verifier::external_body]
pub(crate) fn utf8_to_string(bytes: &[u8]) -> (text: Option<String>)
    ensures
        text is Some <==> valid_utf8(bytes@),
        text matches Some(s) ==> s@ == decode_utf8(bytes@),
{
    String::from_utf8(bytes.to_vec()).ok()
}

/// Calls `str::to_lowercase`. Trusted: the result depends on the
/// characters alone.
#[verifier::external_body]
pub(crate) fn to_lowercase(text: &str) -> (lower: String)
    ensures
        lower@ == lowercased(text@),
{
    text.to_lowercase()
}

/// Calls `char::is_alphanumeric`. Trusted: the result depends on the
/// character alone.
#[verifier::external_body]
pub(crate) fn is_alphanumeric(ch: char) -> (yes: bool)
    ensures
        yes == unicode_alphanumeric(ch),
{
    ch.is_alphanumeric()
}

/// `part` is a run of the characters of `whole`, in place.
pub open spec fn is_run_of(part: Seq<char>, whole: Seq<char>) -> bool {
    exists|from: int, to: int|
        0 <= from <= to <= whole.len() && part == #[trigger] whole.subrange(from, to)
}

/// Calls `str::trim`. Trusted: the result depends on the characters alone,
/// and it is a run of the characters of `text`: what is taken away stands
/// at the two ends.
#[verifier::external_body]
pub(crate) fn trim(text: &str) -> (inner: String)
    ensures
        inner@ == trimmed(text@),
        is_run_of(inner@, text@),
{
    String::from(text.trim())
}

/// Calls `String::from` on one character. Trusted: the string holds that
/// character.
#[verifier::external_body]
pub(crate) fn char_to_string(ch: char) -> (text: String)
    ensures
        text@ == seq![ch],
{
    String::from(ch)
}

/// Two numbers with the same decimal digits are the same number.
pub proof fn lemma_decimal_text_injective(a: u64, b: u64)
    requires
        decimal_text(a) == decimal_text(b),
    ensures
        a == b,
    decreases a,
{
    lemma_decimal_text_len(a);
    lemma_decimal_text_len(b);
    if a < 10 {
        if b >= 10 {
            lemma_decimal_text_len((b / 10) as u64);
            assert(decimal_text(b).len() >= 2);
            assert(decimal_text(a).len() == 1);
        }
        assert(decimal_text(a)[0] == digit_char(a));
        assert(decimal_text(b)[0] == digit_char(b));
        assert(digit_char(a) as u32 == 48 + a);
        assert(digit_char(b) as u32 == 48 + b);
    } else {
        if b < 10 {
            lemma_decimal_text_len((a / 10) as u64);
            assert(decimal_text(a).len() >= 2);
            assert(decimal_text(b).len() == 1);
        }
        let fa = decimal_text((a / 10) as u64);
        let fb = decimal_text((b / 10) as u64);
        assert(fa.push(digit_char((a % 10) as u64)).drop_last() =~= fa);
        assert(fb.push(digit_char((b % 10) as u64)).drop_last() =~= fb);
        assert(fa.push(digit_char((a % 10) as u64)).last() == digit_char((a % 10) as u64));
        assert(fb.push(digit_char((b % 10) as u64)).last() == digit_char((b % 10) as u64));
        assert(digit_char((a % 10) as u64) as u32 == 48 + a % 10);
        assert(digit_char((b % 10) as u64) as u32 == 48 + b % 10);
        lemma_decimal_text_injective((a / 10) as u64, (b / 10) as u64);
    }
}

/// A number has a decimal digit.
pub proof fn lemma_decimal_text_len(n: u64)
    ensures
        decimal_text(n).len() >= 1,
    decreases n,
{
    if n >= 10 {
        lemma_decimal_text_len((n / 10) as u64);
    }
}

/// The number in decimal digits.
pub fn number_to_string(n: u64) -> (text: String)
    ensures
        text@ == decimal_text(n),
{
    // the digits from the lowest up
    let mut lowest_first: Vec<char> = Vec::new();
    let mut rest: u64 = n;
    assert(decimal_text(rest) + lowest_first@.reverse() =~= decimal_text(n));
    while rest >= 10
        invariant
            decimal_text(n) == decimal_text(rest) + lowest_first@.reverse(),
        decreases rest,
    {
        let ghost had = lowest_first@;
        let d: u8 = (rest % 10) as u8;
        lowest_first.push((48 + d) as char);
        assert(lowest_first@.reverse() =~= seq![digit_char(rest % 10)] + had.reverse());
        assert(decimal_text(rest / 10).push(digit_char(rest % 10)) + had.reverse() =~= decimal_text(
            rest / 10,
        ) + lowest_first@.reverse());
        rest = rest / 10;
    }
    let ghost had = lowest_first@;
    let d: u8 = rest as u8;
    lowest_first.push((48 + d) as char);
    assert(lowest_first@.reverse() =~= decimal_text(n)) by {
        assert(lowest_first@.reverse() =~= seq![digit_char(rest)] + had.reverse());
    }
    let mut digits: Vec<char> = Vec::new();
    let mut i: usize = lowest_first.len();
    assert(digits@ =~= lowest_first@.reverse().take(0));
    while i > 0
        invariant
            i <= lowest_first@.len(),
            digits@ == lowest_first@.reverse().take(lowest_first@.len() - i),
        decreases i,
    {
        i -= 1;
        digits.push(lowest_first[i]);
        assert(digits@ =~= lowest_first@.reverse().take(lowest_first@.len() - i));
    }
    assert(lowest_first@.reverse().take(lowest_first@.len() as int) =~= lowest_first@.reverse());
    string_of(digits.as_slice())
}

/// Whether `ch` is one of `0`–`9`, `A`–`Z`, `a`–`z`.
pub open spec fn ascii_alphanumeric(ch: char) -> bool {
    ('0' <= ch && ch <= '9') || ('A' <= ch && ch <= 'Z') || ('a' <= ch && ch <= 'z')
}

/// Whether `ch` may stand in a nick name: a letter or a number of any
/// script, `_` or `-`.
pub open spec fn nick_char(ch: char) -> bool {
    unicode_alphanumeric(ch) || ch == '_' || ch == '-'
}

/// Whether `ch` is one of `0`–`9`, `A`–`Z`, `a`–`z`.
pub fn is_ascii_alphanumeric(ch: char) -> (yes: bool)
    ensures
        yes == ascii_alphanumeric(ch),
{
    ('0' <= ch && ch <= '9') || ('A' <= ch && ch <= 'Z') || ('a' <= ch && ch <= 'z')
}

/// The characters of `text`.
pub fn chars_of(text: &str) -> (chars: Vec<char>)
    ensures
        chars@ == text@,
{
    let mut chars: Vec<char> = Vec::new();
    for ch in it: text.chars()
        invariant
            it.seq() == text@,
            chars@ == it.seq().take(it.index() as int),
    {
        chars.push(ch);
        assert(chars@ =~= it.seq().take(it.index() + 1));
    }
    assert(chars@ =~= text@);
    chars
}

/// The text that holds `chars`.
pub fn string_of(chars: &[char]) -> (text: String)
    ensures
        text@ == chars@,
{
    let mut text = String::new();
    let mut i: usize = 0;
    assert(text@ =~= chars@.take(0));
    while i < chars.len()
        invariant
            i <= chars@.len(),
            text@ == chars@.take(i as int),
        decreases chars@.len() - i,
    {
        let one = char_to_string(chars[i]);
        text.append(one.as_str());
        assert(text@ =~= chars@.take(i as int + 1));
        i += 1;
    }
    assert(chars@.take(chars@.len() as int) =~= chars@);
    text
}

/// Whether `text` reads `expected`.
pub fn is_text(text: &String, expected: &str) -> (yes: bool)
    ensures
        yes == (text@ == expected@),
{
    let other = String::from_str(expected);
    *text == other
}

/// Where the first space of `chars` from `from` on stands, or the end.
pub open spec fn space_from(chars: Seq<char>, from: int) -> int
    decreases chars.len() - from,
{
    if from < 0 || from >= chars.len() || chars[from] == ' ' {
        from
    } else {
        space_from(chars, from + 1)
    }
}

/// The word of `chars` that begins at `from`: what stands before the next
/// space.
pub open spec fn word_at(chars: Seq<char>, from: int) -> Seq<char> {
    chars.subrange(from, space_from(chars, from))
}

/// Where the first space of `chars` from `from` on stands, or the end.
pub fn find_space(chars: &[char], from: usize) -> (end: usize)
    requires
        from <= chars@.len(),
    ensures
        end == space_from(chars@, from as int),
        from <= end <= chars@.len(),
{
    let mut end = from;
    while end < chars.len() && chars[end] != ' '
        invariant
            from <= end <= chars@.len(),
            space_from(chars@, from as int) == space_from(chars@, end as int),
        decreases chars@.len() - end,
    {
        end += 1;
    }
    end
}

/// The word of `chars` that begins at `from`.
pub fn word_from(chars: &[char], from: usize) -> (word: String)
    requires
        from <= chars@.len(),
    ensures
        word@ == word_at(chars@, from as int),
{
    let end = find_space(chars, from);
    string_of(vstd::slice::slice_subrange(chars, from, end))
}

/// The first character of `chars` for which `nick` decides whether it may
/// stand in a room name (`nick` false) or in a nick name (`nick` true) and
/// which may not, if there is one among the first `n`.
pub open spec fn first_bad_char(chars: Seq<char>, nick: bool, n: int) -> Option<char>
    decreases n,
{
    if n <= 0 {
        None
    } else {
        match first_bad_char(chars, nick, n - 1) {
            Some(ch) => Some(ch),
            None => if (nick && nick_char(chars[n - 1])) || (!nick && ascii_alphanumeric(chars[n - 1])) {
                None
            } else {
                Some(chars[n - 1])
            },
        }
    }
}

/// The first character of `text` that may not stand in a name of the kind
/// that `nick` says, if there is one.
pub fn find_bad_char(text: &str, nick: bool) -> (bad: Option<char>)
    ensures
        bad == first_bad_char(text@, nick, text@.len() as int),
{
    let chars = chars_of(text);
    let mut i: usize = 0;
    while i < chars.len()
        invariant
            i <= chars@.len(),
            chars@ == text@,
            first_bad_char(chars@, nick, i as int) is None,
        decreases chars@.len() - i,
    {
        let ch = chars[i];
        let fine = if nick {
            is_alphanumeric(ch) || ch == '_' || ch == '-'
        } else {
            is_ascii_alphanumeric(ch)
        };
        if !fine {
            assert(first_bad_char(chars@, nick, i as int + 1) == Some(ch));
            proof {
                lemma_first_bad_stays(chars@, nick, i as int + 1, chars@.len() as int);
            }
            return Some(ch);
        }
        i += 1;
    }
    None
}

/// A character found bad among the first characters is found among more.
pub proof fn lemma_first_bad_stays(chars: Seq<char>, nick: bool, n: int, more: int)
    requires
        0 <= n <= more,
        first_bad_char(chars, nick, n) is Some,
    ensures
        first_bad_char(chars, nick, more) == first_bad_char(chars, nick, n),
    decreases more,
{
    if n < more {
        lemma_first_bad_stays(chars, nick, n, more - 1);
    }
}

} // verus!
