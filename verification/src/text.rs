//! Decimal numbers in text, prefixes, and whitespace trimming.

use vstd::prelude::*;

verus! {

/// The ASCII digit for `d` (below ten).
pub open spec fn digit_char(d: nat) -> char {
    if d == 0 { '0' } else if d == 1 { '1' } else if d == 2 { '2' } else if d == 3 { '3' }
    else if d == 4 { '4' } else if d == 5 { '5' } else if d == 6 { '6' } else if d == 7 { '7' }
    else if d == 8 { '8' } else { '9' }
}

/// Whether `c` is an ASCII decimal digit.
pub open spec fn is_digit(c: char) -> bool {
    '0' <= c <= '9'
}

/// The value of an ASCII decimal digit.
pub open spec fn digit_value(c: char) -> nat {
    (c as u32 - '0' as u32) as nat
}

/// The decimal text of `n`, without sign or leading zeros.
pub open spec fn decimal(n: nat) -> Seq<char>
    decreases n,
{
    if n < 10 {
        seq![digit_char(n)]
    } else {
        decimal(n / 10).push(digit_char(n % 10))
    }
}

/// The value of a string of decimal digits (zero for the empty string).
pub open spec fn digits_value(s: Seq<char>) -> nat
    decreases s.len(),
{
    if s.len() == 0 {
        0
    } else {
        digits_value(s.drop_last()) * 10 + digit_value(s.last())
    }
}

/// Every character of `s` is an ASCII decimal digit.
pub open spec fn all_digits(s: Seq<char>) -> bool {
    forall|i: int| 0 <= i < s.len() ==> is_digit(#[trigger] s[i])
}

/// What `str::parse::<u32>` reads: an optional `+`, then one or more ASCII
/// digits whose value fits in a `u32`.
pub open spec fn parse_u32_spec(s: Seq<char>) -> Option<u32> {
    let body = if s.len() > 0 && s[0] == '+' { s.drop_first() } else { s };
    if body.len() > 0 && all_digits(body) && digits_value(body) <= u32::MAX {
        Some(digits_value(body) as u32)
    } else {
        None
    }
}

proof fn lemma_decimal_digits(n: nat)
    ensures
        decimal(n).len() > 0,
        all_digits(decimal(n)),
        digits_value(decimal(n)) == n,
        decimal(n)[0] != '+',
    decreases n,
{
    let d = n % 10;
    assert(digit_value(digit_char(d)) == d && is_digit(digit_char(d))) by {
        assert(d < 10);
    }
    if n < 10 {
        let s = decimal(n);
        assert(s.drop_last() =~= Seq::<char>::empty());
        assert(digits_value(Seq::<char>::empty()) == 0);
        assert(digits_value(s) == digits_value(s.drop_last()) * 10 + digit_value(s.last()));
    } else {
        lemma_decimal_digits(n / 10);
        let s = decimal(n);
        assert(s.drop_last() =~= decimal(n / 10));
        vstd::arithmetic::div_mod::lemma_fundamental_div_mod(n as int, 10);
        assert forall|i: int| 0 <= i < s.len() implies is_digit(#[trigger] s[i]) by {
            if i < s.len() - 1 {
                assert(s[i] == decimal(n / 10)[i]);
            }
        }
    }
}

/// Reading back the decimal text of a number gives the number.
pub proof fn lemma_parse_decimal(n: u32)
    ensures
        parse_u32_spec(decimal(n as nat)) == Some(n),
{
    lemma_decimal_digits(n as nat);
}

/// The decimal text of `n`.
pub fn u32_to_decimal(n: u32) -> (text: String)
    ensures
        text@ == decimal(n as nat),
    decreases n,
{
    if n < 10 {
        String::from_str(digit_str(digit_ascii(n)))
    } else {
        let mut text = u32_to_decimal(n / 10);
        text.append(digit_str(digit_ascii(n % 10)));
        text
    }
}

/// The ASCII digit for `d`.
fn digit_ascii(d: u32) -> (c: char)
    requires
        d < 10,
    ensures
        c == digit_char(d as nat),
{
    match d {
        0 => '0',
        1 => '1',
        2 => '2',
        3 => '3',
        4 => '4',
        5 => '5',
        6 => '6',
        7 => '7',
        8 => '8',
        _ => '9',
    }
}

/// The one-character string holding an ASCII digit.
fn digit_str(c: char) -> (s: &'static str)
    requires
        is_digit(c),
    ensures
        s@ == seq![c],
{
    proof {
        reveal_strlit("0");
        reveal_strlit("1");
        reveal_strlit("2");
        reveal_strlit("3");
        reveal_strlit("4");
        reveal_strlit("5");
        reveal_strlit("6");
        reveal_strlit("7");
        reveal_strlit("8");
        reveal_strlit("9");
    }
    if c == '0' { "0" } else if c == '1' { "1" } else if c == '2' { "2" } else if c == '3' { "3" }
    else if c == '4' { "4" } else if c == '5' { "5" } else if c == '6' { "6" } else if c == '7' { "7" }
    else if c == '8' { "8" } else { "9" }
}

/// Parse a `u32` the way `str::parse::<u32>` does.
pub fn parse_u32(text: &str) -> (n: Option<u32>)
    ensures
        n == parse_u32_spec(text@),
{
    let len = text.unicode_len();
    let mut start: usize = 0;
    if len > 0 && text.get_char(0) == '+' {
        start = 1;
    }
    let ghost body = if text@.len() > 0 && text@[0] == '+' { text@.drop_first() } else { text@ };
    assert(body =~= text@.subrange(start as int, len as int));
    if start >= len {
        return None;
    }
    let mut value: u64 = 0;
    let mut i: usize = start;
    while i < len
        invariant
            start <= i <= len,
            len == text@.len(),
            body =~= text@.subrange(start as int, len as int),
            body == (if text@.len() > 0 && text@[0] == '+' { text@.drop_first() } else { text@ }),
            all_digits(text@.subrange(start as int, i as int)),
            value == digits_value(text@.subrange(start as int, i as int)),
            value <= u32::MAX,
        decreases len - i,
    {
        let c = text.get_char(i);
        let ghost prefix = text@.subrange(start as int, i as int);
        let ghost next = text@.subrange(start as int, i + 1);
        assert(next.drop_last() =~= prefix);
        if !('0' <= c && c <= '9') {
            proof {
                assert(body[i - start] == c);
                assert(!is_digit(body[i - start]));
            }
            return None;
        }
        let d = (c as u32 - '0' as u32) as u64;
        value = value * 10 + d;
        assert(all_digits(next)) by {
            assert forall|j: int| 0 <= j < next.len() implies is_digit(#[trigger] next[j]) by {
                if j < prefix.len() {
                    assert(next[j] == prefix[j]);
                }
            }
        }
        if value > u32::MAX as u64 {
            proof {
                if all_digits(body) {
                    lemma_digits_value_grows(body, i + 1 - start);
                    assert(body.take(i + 1 - start) =~= next);
                }
            }
            return None;
        }
        i = i + 1;
    }
    assert(text@.subrange(start as int, len as int) =~= body);
    Some(value as u32)
}

/// The value of a digit string is at least the value of each prefix.
proof fn lemma_digits_value_grows(s: Seq<char>, k: int)
    requires
        0 <= k <= s.len(),
        all_digits(s),
    ensures
        digits_value(s.take(k)) <= digits_value(s),
    decreases s.len() - k,
{
    if k < s.len() {
        lemma_digits_value_grows(s, k + 1);
        assert(s.take(k + 1).drop_last() =~= s.take(k));
    } else {
        assert(s.take(k) =~= s);
    }
}

/// Whether `s` starts with `prefix`.
pub open spec fn has_prefix(s: Seq<char>, prefix: Seq<char>) -> bool {
    prefix.len() <= s.len() && s.take(prefix.len() as int) == prefix
}

/// Whether two texts are equal, character for character.
pub fn same_text(a: &str, b: &str) -> (r: bool)
    ensures
        r == (a@ == b@),
{
    if a.unicode_len() != b.unicode_len() {
        return false;
    }
    match strip_prefix(a, b) {
        Some(_) => {
            assert(a@.take(b@.len() as int) =~= a@);
            true
        },
        None => {
            assert(a@ != b@) by {
                if a@ == b@ {
                    assert(a@.take(b@.len() as int) =~= b@);
                }
            }
            false
        },
    }
}

/// The rest of `s` after `prefix`, when `s` starts with it (`str::strip_prefix`).
pub fn strip_prefix<'a>(s: &'a str, prefix: &str) -> (rest: Option<&'a str>)
    ensures
        match rest {
            Some(r) => has_prefix(s@, prefix@) && r@ == s@.skip(prefix@.len() as int),
            None => !has_prefix(s@, prefix@),
        },
{
    let n = s.unicode_len();
    let m = prefix.unicode_len();
    if m > n {
        return None;
    }
    let mut i: usize = 0;
    while i < m
        invariant
            i <= m <= n,
            n == s@.len(),
            m == prefix@.len(),
            forall|j: int| 0 <= j < i ==> s@[j] == prefix@[j],
        decreases m - i,
    {
        if s.get_char(i) != prefix.get_char(i) {
            assert(s@.take(m as int)[i as int] != prefix@[i as int]);
            return None;
        }
        i = i + 1;
    }
    assert(s@.take(m as int) =~= prefix@);
    Some(s.substring_char(m, n))
}

/// Whether `c` has the Unicode `White_Space` property (`char::is_whitespace`).
pub open spec fn is_white_space(c: char) -> bool {
    ||| ('\u{9}' <= c <= '\u{d}')
    ||| c == ' '
    ||| c == '\u{85}'
    ||| c == '\u{a0}'
    ||| c == '\u{1680}'
    ||| ('\u{2000}' <= c <= '\u{200a}')
    ||| c == '\u{2028}'
    ||| c == '\u{2029}'
    ||| c == '\u{202f}'
    ||| c == '\u{205f}'
    ||| c == '\u{3000}'
}

/// Whether `c` has the Unicode `White_Space` property.
pub fn white_space(c: char) -> (w: bool)
    ensures
        w == is_white_space(c),
{
    ('\u{9}' <= c && c <= '\u{d}') || c == ' ' || c == '\u{85}' || c == '\u{a0}' || c == '\u{1680}'
        || ('\u{2000}' <= c && c <= '\u{200a}') || c == '\u{2028}' || c == '\u{2029}'
        || c == '\u{202f}' || c == '\u{205f}' || c == '\u{3000}'
}

/// What `str::trim` and `str::trim_matches` strip: white space, or one character.
#[derive(Clone, Copy, Debug, PartialEq, Eq, Structural)]
pub enum Strip {
    WhiteSpace,
    Char(char),
}

/// Whether `strip` removes `c`.
pub open spec fn strips(strip: Strip, c: char) -> bool {
    match strip {
        Strip::WhiteSpace => is_white_space(c),
        Strip::Char(d) => c == d,
    }
}

fn strips_exec(strip: Strip, c: char) -> (r: bool)
    ensures
        r == strips(strip, c),
{
    match strip {
        Strip::WhiteSpace => white_space(c),
        Strip::Char(d) => c == d,
    }
}

/// `r` is `s` with every leading and trailing character that `strip`
/// removes taken off: `s[a..b]`, where all of `s[..a]` and `s[b..]` is
/// removable and the ends of a non-empty `r` are not.
pub open spec fn is_stripped(r: Seq<char>, s: Seq<char>, strip: Strip) -> bool {
    exists|a: int, b: int| #[trigger] stripped_at(r, s, strip, a, b)
}

/// `r` is `s[a..b]` as `is_stripped` describes.
pub open spec fn stripped_at(r: Seq<char>, s: Seq<char>, strip: Strip, a: int, b: int) -> bool {
    &&& 0 <= a <= b <= s.len()
    &&& r == s.subrange(a, b)
    &&& forall|i: int| 0 <= i < a ==> strips(strip, #[trigger] s[i])
    &&& forall|i: int| b <= i < s.len() ==> strips(strip, #[trigger] s[i])
    &&& a < b ==> !strips(strip, s[a]) && !strips(strip, s[b - 1])
}

/// `s` with leading and trailing characters removed as `strip` says.
pub fn strip_ends(s: &str, strip: Strip) -> (r: &str)
    ensures
        is_stripped(r@, s@, strip),
{
    let n = s.unicode_len();
    let mut a: usize = 0;
    while a < n && strips_exec(strip, s.get_char(a))
        invariant
            a <= n,
            n == s@.len(),
            forall|i: int| 0 <= i < a ==> strips(strip, #[trigger] s@[i]),
        decreases n - a,
    {
        a = a + 1;
    }
    let mut b: usize = n;
    while b > a && strips_exec(strip, s.get_char(b - 1))
        invariant
            a <= b <= n,
            n == s@.len(),
            forall|i: int| b <= i < n ==> strips(strip, #[trigger] s@[i]),
            a < n ==> !strips(strip, s@[a as int]),
        decreases b,
    {
        b = b - 1;
    }
    let r = s.substring_char(a, b);
    assert(stripped_at(r@, s@, strip, a as int, b as int));
    r
}

/// `s` without leading and trailing white space (`str::trim`).
pub fn trim(s: &str) -> (r: &str)
    ensures
        is_stripped(r@, s@, Strip::WhiteSpace),
{
    strip_ends(s, Strip::WhiteSpace)
}

/// Whether `s` holds nothing but white space (so that it trims to nothing).
pub open spec fn is_blank(s: Seq<char>) -> bool {
    forall|i: int| 0 <= i < s.len() ==> is_white_space(#[trigger] s[i])
}

/// A text trims to the empty text exactly when it is blank.
pub proof fn lemma_stripped_empty(r: Seq<char>, s: Seq<char>)
    requires
        is_stripped(r, s, Strip::WhiteSpace),
    ensures
        (r.len() == 0) == is_blank(s),
{
    let (a, b) = choose|a: int, b: int| #[trigger] stripped_at(r, s, Strip::WhiteSpace, a, b);
    if r.len() == 0 {
        assert forall|i: int| 0 <= i < s.len() implies is_white_space(#[trigger] s[i]) by {
            assert(strips(Strip::WhiteSpace, s[i]));
        }
    } else {
        assert(!strips(Strip::WhiteSpace, s[a]));
    }
}

} // verus!
