//! Small operations on strings that the rest of the crate shares.
use vstd::prelude::*;
use vstd::string::*;
use vstd::utf8::{decode_utf8, is_char_boundary, valid_utf8};

verus! {

/// Lexicographic order on strings, character by character: `a` comes strictly before `b`.
pub open spec fn str_lt(a: Seq<char>, b: Seq<char>) -> bool
    decreases a.len(),
{
    if b.len() == 0 {
        false
    } else if a.len() == 0 {
        true
    } else if a[0] == b[0] {
        str_lt(a.drop_first(), b.drop_first())
    } else {
        (a[0] as u32) < (b[0] as u32)
    }
}

/// Decides `str_lt`.
pub fn string_lt(a: &str, b: &str) -> (r: bool)
    ensures
        r == str_lt(a@, b@),
{
    let n = a.unicode_len();
    let m = b.unicode_len();
    let mut i: usize = 0;
    proof {
        assert(a@.skip(0) == a@);
        assert(b@.skip(0) == b@);
    }
    while i < n && i < m
        invariant
            n == a@.len(),
            m == b@.len(),
            i <= n,
            i <= m,
            str_lt(a@, b@) == str_lt(a@.skip(i as int), b@.skip(i as int)),
        decreases n - i,
    {
        let x = a.get_char(i);
        let y = b.get_char(i);
        proof {
            let sa = a@.skip(i as int);
            let sb = b@.skip(i as int);
            assert(sa[0] == x && sb[0] == y);
            assert(sa.drop_first() == a@.skip(i + 1));
            assert(sb.drop_first() == b@.skip(i + 1));
        }
        if x != y {
            return (x as u32) < (y as u32);
        }
        i += 1;
    }
    proof {
        assert(a@.skip(i as int).len() == n - i);
        assert(b@.skip(i as int).len() == m - i);
    }
    i < m
}

/// Appends one character to a string.
///
/// Stands for `String::push`, which adds the character at the end.
#[verifier::external_body]
pub(crate) fn push_char(s: &mut String, c: char)
    ensures
        final(s)@ == old(s)@.push(c),
{
    s.push(c)
}

/// Appends `tail` to `s`.
pub fn push_text(s: &mut String, tail: &str)
    ensures
        final(s)@ == old(s)@ + tail@,
{
    s.append(tail);
}

/// The text that a run of bytes stands for when read as UTF-8, with a replacement
/// character for what is no UTF-8.
pub uninterp spec fn utf8_text(bytes: Seq<u8>) -> Seq<char>;

/// The text of a run of bytes.
///
/// Stands for `String::from_utf8_lossy`, which decodes UTF-8 and puts the replacement
/// character in place of each invalid sequence. Of bytes that are UTF-8 it gives the
/// text that they encode.
#[verifier::external_body]
pub(crate) fn text_of(bytes: &[u8]) -> (text: String)
    ensures
        text@ == utf8_text(bytes@),
        valid_utf8(bytes@) ==> text@ == decode_utf8(bytes@),
{
    String::from_utf8_lossy(bytes).into_owned()
}

/// The character of a decimal digit.
pub open spec fn digit(d: u64) -> char {
    if d == 0 {
        '0'
    } else if d == 1 {
        '1'
    } else if d == 2 {
        '2'
    } else if d == 3 {
        '3'
    } else if d == 4 {
        '4'
    } else if d == 5 {
        '5'
    } else if d == 6 {
        '6'
    } else if d == 7 {
        '7'
    } else if d == 8 {
        '8'
    } else {
        '9'
    }
}

/// The decimal digits of a number, the most significant first, without leading
/// zeros; the number zero is written `0`.
pub open spec fn decimal_text(n: u64) -> Seq<char>
    decreases n,
{
    if n < 10 {
        seq![digit(n)]
    } else {
        decimal_text(n / 10).push(digit(n % 10))
    }
}

/// A text read backwards.
pub open spec fn backwards(s: Seq<char>) -> Seq<char> {
    Seq::new(s.len(), |i: int| s[s.len() - 1 - i])
}

fn digit_char(d: u64) -> (c: char)
    requires
        d < 10,
    ensures
        c == digit(d),
{
    if d == 0 {
        '0'
    } else if d == 1 {
        '1'
    } else if d == 2 {
        '2'
    } else if d == 3 {
        '3'
    } else if d == 4 {
        '4'
    } else if d == 5 {
        '5'
    } else if d == 6 {
        '6'
    } else if d == 7 {
        '7'
    } else if d == 8 {
        '8'
    } else {
        '9'
    }
}

/// The decimal digits of a number.
pub(crate) fn decimal(n: u64) -> (text: String)
    ensures
        text@ == decimal_text(n),
{
    let mut low_first: Vec<char> = Vec::new();
    let mut rest: u64 = n;
    assert(decimal_text(rest) + backwards(low_first@) =~= decimal_text(n));
    while rest >= 10
        invariant
            decimal_text(rest) + backwards(low_first@) == decimal_text(n),
        decreases rest,
    {
        let ghost before = low_first@;
        let d = digit_char(rest % 10);
        low_first.push(d);
        assert(backwards(low_first@) =~= seq![d] + backwards(before));
        assert(decimal_text(rest / 10) + backwards(low_first@) =~= decimal_text(rest) + backwards(
            before,
        ));
        rest = rest / 10;
    }
    let mut text = String::new();
    push_char(&mut text, digit_char(rest));
    let ghost tail = backwards(low_first@);
    let mut left: usize = low_first.len();
    assert(text@ =~= decimal_text(rest) + tail.take(0));
    while left > 0
        invariant
            left <= low_first@.len(),
            tail == backwards(low_first@),
            text@ == decimal_text(rest) + tail.take(low_first@.len() - left),
        decreases left,
    {
        left -= 1;
        push_char(&mut text, low_first[left]);
        assert(tail.take(low_first@.len() - left) =~= tail.take(low_first@.len() - left - 1).push(
            low_first@[left as int],
        ));
        assert(text@ =~= decimal_text(rest) + tail.take(low_first@.len() - left));
    }
    assert(tail.take(low_first@.len() as int) =~= tail);
    text
}

/// A text between double quotes, with the characters escaped that would end it or
/// that cannot be seen.
pub uninterp spec fn quoted_text(s: Seq<char>) -> Seq<char>;

/// A text as a string literal.
///
/// Stands for `format!` with `{:?}`, which writes the `Debug` text of a string: the
/// string between double quotes, with escapes.
#[verifier::external_body]
pub(crate) fn quoted(s: &str) -> (text: String)
    ensures
        text@ == quoted_text(s@),
{
    format!("{:?}", s)
}

/// Whether the byte positions `start` and `end` mark a part of a text with the given
/// bytes: they lie in the text, in this order, and between characters.
pub open spec fn marks_part(bytes: Seq<u8>, start: int, end: int) -> bool {
    &&& 0 <= start <= end <= bytes.len()
    &&& is_char_boundary(bytes, start)
    &&& is_char_boundary(bytes, end)
}

/// The part of a text from the byte position `start` up to `end`, if both lie in the
/// text and between characters.
///
/// Stands for `str::get` with a range, which gives the part, or `None` where indexing
/// with the range would panic: where the range is backwards, reaches beyond the text,
/// or starts or ends inside a character.
#[verifier::external_body]
pub(crate) fn part_of(s: &str, start: usize, end: usize) -> (part: Option<&str>)
    ensures
        part is Some == marks_part(s.spec_bytes(), start as int, end as int),
        part matches Some(p) ==> p.spec_bytes() == s.spec_bytes().subrange(start as int, end as int),
{
    s.get(start..end)
}

} // verus!
