//! Text helpers shared by the protocol code: conversions between `String`
//! and character vectors, decimal rendering and parsing, ASCII case folding,
//! UTF-8 widths and line splitting.

use vstd::prelude::*;

verus! {

/// The character for a decimal digit.
pub open spec fn digit_char(d: int) -> char {
    if d == 0 {
        '0'
    } else if d == 1 {
        '1'
    } else if d == 2 {
        '2'
    } else if d == 3 {
        '3'
    } else if d == 4 {
        '4'
    } else if d == 5 {
        '5'
    } else if d == 6 {
        '6'
    } else if d == 7 {
        '7'
    } else if d == 8 {
        '8'
    } else {
        '9'
    }
}

/// The decimal rendering of a natural number, without leading zeros.
pub open spec fn decimal(n: nat) -> Seq<char>
    decreases n,
{
    if n < 10 {
        seq![digit_char(n as int)]
    } else {
        decimal(n / 10).push(digit_char((n % 10) as int))
    }
}

/// The decimal rendering of an integer, with a leading `-` when negative.
pub open spec fn signed_decimal(n: int) -> Seq<char> {
    if n < 0 {
        seq!['-'] + decimal((-n) as nat)
    } else {
        decimal(n as nat)
    }
}

pub open spec fn is_digit(c: char) -> bool {
    '0' <= c && c <= '9'
}

pub open spec fn digit_value(c: char) -> int {
    (c as int) - ('0' as int)
}

/// A nonempty run of ASCII decimal digits.
pub open spec fn is_digits(s: Seq<char>) -> bool {
    s.len() > 0 && forall|i: int| 0 <= i < s.len() ==> is_digit(#[trigger] s[i])
}

/// The value of a run of decimal digits, most significant first.
pub open spec fn digits_value(s: Seq<char>) -> int
    decreases s.len(),
{
    if s.len() == 0 {
        0
    } else {
        digits_value(s.drop_last()) * 10 + digit_value(s.last())
    }
}

/// What `str::parse::<i64>` reads: an optional `+` or `-` and then digits,
/// with a value that fits.
pub open spec fn text_to_i64(s: Seq<char>) -> Option<i64> {
    let v: int = if s.len() > 0 && s[0] == '-' && is_digits(s.drop_first()) {
        -digits_value(s.drop_first())
    } else if s.len() > 0 && s[0] == '+' && is_digits(s.drop_first()) {
        digits_value(s.drop_first())
    } else {
        digits_value(s)
    };
    let ok = (s.len() > 0 && (s[0] == '-' || s[0] == '+') && is_digits(s.drop_first()))
        || is_digits(s);
    if ok && i64::MIN <= v && v <= i64::MAX {
        Some(v as i64)
    } else {
        None
    }
}

/// What `str::parse::<usize>` reads: an optional `+` and then digits, with a
/// value that fits.
pub open spec fn text_to_usize(s: Seq<char>) -> Option<usize> {
    let digits = if s.len() > 0 && s[0] == '+' {
        s.drop_first()
    } else {
        s
    };
    if is_digits(digits) && digits_value(digits) <= usize::MAX {
        Some(digits_value(digits) as usize)
    } else {
        None
    }
}

pub open spec fn upper_char(c: char) -> char {
    if 'a' <= c && c <= 'z' {
        (((c as u32) - 32) as u8) as char
    } else {
        c
    }
}

/// The text with ASCII lower-case letters turned to upper case.
pub open spec fn ascii_upper(s: Seq<char>) -> Seq<char> {
    s.map_values(|c: char| upper_char(c))
}

/// The number of bytes that UTF-8 takes for one character.
pub open spec fn char_width(c: char) -> nat {
    if (c as u32) < 0x80 {
        1
    } else if (c as u32) < 0x800 {
        2
    } else if (c as u32) < 0x10000 {
        3
    } else {
        4
    }
}

/// The number of bytes that UTF-8 takes for a text.
pub open spec fn utf8_len(s: Seq<char>) -> nat
    decreases s.len(),
{
    if s.len() == 0 {
        0
    } else {
        char_width(s[0]) + utf8_len(s.drop_first())
    }
}

/// The longest prefix of `s` whose UTF-8 encoding takes at most `n` bytes.
pub open spec fn clamp_bytes(s: Seq<char>, n: int) -> Seq<char>
    decreases s.len(),
{
    if s.len() == 0 || char_width(s[0]) > n {
        Seq::empty()
    } else {
        seq![s[0]] + clamp_bytes(s.drop_first(), n - char_width(s[0]))
    }
}

/// Drops one trailing carriage return.
pub open spec fn strip_cr(s: Seq<char>) -> Seq<char> {
    if s.len() > 0 && s.last() == '\r' {
        s.drop_last()
    } else {
        s
    }
}

/// The lines of `s` after the partial line `cur`: lines end at `\n` or at a
/// `\r\n` pair, and the last line may lack its ending; an empty tail after
/// the last ending is no line.
pub open spec fn lines_after(s: Seq<char>, cur: Seq<char>) -> Seq<Seq<char>>
    decreases s.len(),
{
    if s.len() == 0 {
        if cur.len() == 0 {
            Seq::empty()
        } else {
            seq![cur]
        }
    } else if s[0] == '\n' {
        seq![strip_cr(cur)] + lines_after(s.drop_first(), Seq::empty())
    } else {
        lines_after(s.drop_first(), cur.push(s[0]))
    }
}

/// The lines of a text, as `str::lines` splits them.
pub open spec fn lines_of(s: Seq<char>) -> Seq<Seq<char>> {
    lines_after(s, Seq::empty())
}

/// Relies on `str::chars`: the characters of the text, in order.
#[verifier::external_body]
pub(crate) fn chars_of(s: &str) -> (r: Vec<char>)
    ensures
        r@ == s@,
{
    s.chars().collect()
}

/// Relies on `String`'s `FromIterator<char>`: a string of the given characters.
#[verifier::external_body]
pub(crate) fn string_of(v: &Vec<char>) -> (r: String)
    ensures
        r@ == v@,
{
    v.iter().collect()
}

/// Relies on `str::len`: the length in bytes of the UTF-8 encoding.
#[verifier::external_body]
pub(crate) fn byte_len(s: &str) -> (r: usize)
    ensures
        r == utf8_len(s@),
{
    s.len()
}

/// Relies on `str::parse::<i64>`.
#[verifier::external_body]
pub(crate) fn parse_i64(s: &str) -> (r: Option<i64>)
    ensures
        r == text_to_i64(s@),
{
    s.parse::<i64>().ok()
}

/// Relies on `str::parse::<usize>`.
#[verifier::external_body]
pub(crate) fn parse_usize(s: &str) -> (r: Option<usize>)
    ensures
        r == text_to_usize(s@),
{
    s.parse::<usize>().ok()
}

/// An owned copy of a text.
pub fn text_of(s: &str) -> (r: String)
    ensures
        r@ == s@,
{
    let v = chars_of(s);
    string_of(&v)
}

pub fn digit_of(d: u64) -> (c: char)
    requires
        d < 10,
    ensures
        c == digit_char(d as int),
{
    if d == 0 {
        '0'
    } else if d == 1 {
        '1'
    } else if d == 2 {
        '2'
    } else if d == 3 {
        '3'
    } else if d == 4 {
        '4'
    } else if d == 5 {
        '5'
    } else if d == 6 {
        '6'
    } else if d == 7 {
        '7'
    } else if d == 8 {
        '8'
    } else {
        '9'
    }
}

/// Appends the decimal rendering of `n`.
pub fn push_decimal(out: &mut Vec<char>, n: u64)
    ensures
        final(out)@ == old(out)@ + decimal(n as nat),
    decreases n,
{
    if n < 10 {
        out.push(digit_of(n));
        assert(decimal(n as nat) == seq![digit_char(n as int)]);
        assert(final(out)@ =~= old(out)@ + decimal(n as nat));
    } else {
        push_decimal(out, n / 10);
        out.push(digit_of(n % 10));
        assert(final(out)@ =~= old(out)@ + decimal(n as nat));
    }
}

/// Appends the decimal rendering of `n`, with a `-` when negative.
pub fn push_signed_decimal(out: &mut Vec<char>, n: i64)
    ensures
        final(out)@ == old(out)@ + signed_decimal(n as int),
{
    if n < 0 {
        out.push('-');
        let m: u64 = if n == i64::MIN {
            9223372036854775808u64
        } else {
            (-n) as u64
        };
        push_decimal(out, m);
        assert(final(out)@ =~= old(out)@ + signed_decimal(n as int));
    } else {
        push_decimal(out, n as u64);
    }
}

/// Appends all of `src`.
pub fn push_all(out: &mut Vec<char>, src: &[char])
    ensures
        final(out)@ == old(out)@ + src@,
{
    let ghost start = out@;
    let mut i: usize = 0;
    while i < src.len()
        invariant
            i <= src@.len(),
            out@ == start + src@.take(i as int),
        decreases src@.len() - i,
    {
        out.push(src[i]);
        i = i + 1;
        assert(out@ =~= start + src@.take(i as int));
    }
    assert(src@.take(i as int) =~= src@);
}

/// Whether two texts are equal once ASCII letters are put in upper case.
/// `upper` must already be in upper case.
pub fn eq_upper(s: &[char], upper: &[char]) -> (r: bool)
    ensures
        r == (ascii_upper(s@) == upper@),
{
    if s.len() != upper.len() {
        assert(ascii_upper(s@).len() != upper@.len());
        return false;
    }
    let mut i: usize = 0;
    while i < s.len()
        invariant
            i <= s@.len(),
            s@.len() == upper@.len(),
            forall|j: int| 0 <= j < i ==> upper_char(s@[j]) == upper@[j],
        decreases s@.len() - i,
    {
        let c = s[i];
        let u: char = if 'a' <= c && c <= 'z' {
            (((c as u32) - 32) as u8) as char
        } else {
            c
        };
        if u != upper[i] {
            assert(ascii_upper(s@)[i as int] != upper@[i as int]);
            return false;
        }
        i = i + 1;
    }
    assert(ascii_upper(s@) =~= upper@);
    true
}

pub fn char_width_of(c: char) -> (r: usize)
    ensures
        r == char_width(c),
{
    if (c as u32) < 0x80 {
        1
    } else if (c as u32) < 0x800 {
        2
    } else if (c as u32) < 0x10000 {
        3
    } else {
        4
    }
}

/// The longest prefix of `s` that fits in `n` bytes of UTF-8.
pub fn clamp_to_bytes(s: &[char], n: usize) -> (r: Vec<char>)
    ensures
        r@ == clamp_bytes(s@, n as int),
{
    let mut r: Vec<char> = Vec::new();
    let mut i: usize = 0;
    let mut used: usize = 0;
    assert(s@.skip(0) =~= s@);
    assert(s@.take(0) + clamp_bytes(s@, n as int) =~= clamp_bytes(s@, n as int));
    while i < s.len()
        invariant
            i <= s@.len(),
            used <= n,
            r@ == s@.take(i as int),
            clamp_bytes(s@, n as int) == s@.take(i as int) + clamp_bytes(
                s@.skip(i as int),
                n - used,
            ),
        decreases s@.len() - i,
    {
        let w = char_width_of(s[i]);
        assert(s@.skip(i as int)[0] == s@[i as int]);
        if w > n - used {
            assert(clamp_bytes(s@.skip(i as int), n - used) =~= Seq::empty());
            assert(s@.take(i as int) + Seq::<char>::empty() =~= s@.take(i as int));
            return r;
        }
        assert(s@.skip(i as int).drop_first() =~= s@.skip(i as int + 1));
        assert(s@.take(i as int + 1) =~= s@.take(i as int) + seq![s@[i as int]]);
        r.push(s[i]);
        used = used + w;
        i = i + 1;
    }
    assert(s@.skip(i as int) =~= Seq::<char>::empty());
    assert(s@.take(i as int) + Seq::<char>::empty() =~= s@.take(i as int));
    r
}

/// Splits a text into its lines, as `str::lines` does.
pub fn split_lines(s: &[char]) -> (r: Vec<Vec<char>>)
    ensures
        r@.map_values(|l: Vec<char>| l@) == lines_of(s@),
{
    let mut out: Vec<Vec<char>> = Vec::new();
    let mut cur: Vec<char> = Vec::new();
    let mut i: usize = 0;
    assert(s@.skip(0) =~= s@);
    assert(out@.map_values(|l: Vec<char>| l@) + lines_of(s@) =~= lines_of(s@));
    while i < s.len()
        invariant
            i <= s@.len(),
            lines_of(s@) == out@.map_values(|l: Vec<char>| l@) + lines_after(
                s@.skip(i as int),
                cur@,
            ),
        decreases s@.len() - i,
    {
        let c = s[i];
        assert(s@.skip(i as int)[0] == c);
        assert(s@.skip(i as int).drop_first() =~= s@.skip(i as int + 1));
        if c == '\n' {
            let ghost before = out@.map_values(|l: Vec<char>| l@);
            let ghost old_cur = cur@;
            let len = cur.len();
            if len > 0 && cur[len - 1] == '\r' {
                cur.pop();
            }
            assert(cur@ == strip_cr(old_cur));
            out.push(cur);
            cur = Vec::new();
            assert(out@.map_values(|l: Vec<char>| l@) =~= before + seq![strip_cr(old_cur)]);
        } else {
            cur.push(c);
        }
        i = i + 1;
    }
    assert(s@.skip(i as int) =~= Seq::<char>::empty());
    if cur.len() > 0 {
        let ghost before = out@.map_values(|l: Vec<char>| l@);
        out.push(cur);
        assert(out@.map_values(|l: Vec<char>| l@) =~= before + seq![cur@]);
    } else {
        assert(out@.map_values(|l: Vec<char>| l@) =~= out@.map_values(|l: Vec<char>| l@) + Seq::<Seq<char>>::empty());
    }
    out
}

} // verus!
