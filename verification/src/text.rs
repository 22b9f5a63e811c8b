//! Decimal numbers and the pieces of a line of text.
use vstd::arithmetic::power::pow;
use vstd::prelude::*;
use vstd::utf8::{encode_utf8, encode_utf8_decode_utf8};

verus! {

/// The longest decimal number that goes onto the wire, in bytes: that of `u32::MAX`.
pub const U32_MAX_STR_LEN: usize = 10;

/// The digit `d` of a decimal number.
pub open spec fn digit(d: nat) -> char {
    ('0' as nat + d) as char
}

/// A number in decimal, without leading zeros.
pub open spec fn decimal(n: nat) -> Seq<char>
    decreases n,
{
    if n < 10 {
        seq![digit(n)]
    } else {
        decimal(n / 10).push(digit(n % 10))
    }
}

/// Whether a number is short enough for the wire.
pub open spec fn is_short(n: nat) -> bool {
    decimal(n).len() <= U32_MAX_STR_LEN
}

/// Whether a character is one of the ten ASCII digits.
pub open spec fn is_digit(c: char) -> bool {
    '0' <= c <= '9'
}

/// Whether a text consists of digits alone.
pub open spec fn all_digits(s: Seq<char>) -> bool {
    forall|i: int| 0 <= i < s.len() ==> is_digit(#[trigger] s[i])
}

/// The value of a row of digits.
pub open spec fn digits_value(s: Seq<char>) -> nat
    recommends
        all_digits(s),
    decreases s.len(),
{
    if s.len() == 0 {
        0
    } else {
        digits_value(s.drop_last()) * 10 + (s.last() as nat - '0' as nat) as nat
    }
}

/// A text without the plus sign that it may begin with.
pub open spec fn unsigned(s: Seq<char>) -> Seq<char> {
    if s.len() > 0 && s[0] == '+' {
        s.skip(1)
    } else {
        s
    }
}

/// The number that a text stands for: digits, at least one, after an optional plus sign, of a value
/// that a `usize` can hold.
pub open spec fn parse_decimal(s: Seq<char>) -> Option<usize> {
    let digits = unsigned(s);
    if digits.len() > 0 && all_digits(digits) && digits_value(digits) <= usize::MAX {
        Some(digits_value(digits) as usize)
    } else {
        None
    }
}

/// The text before and the text after the first space, where there is one.
pub open spec fn split_space(s: Seq<char>) -> Option<(Seq<char>, Seq<char>)> {
    match s.index_of_first(' ') {
        Some(i) => Some((s.take(i), s.skip(i + 1))),
        None => None,
    }
}

/// Whether a character has the Unicode property `White_Space`.
pub open spec fn is_white_space(c: char) -> bool {
    let n = c as u32;
    ||| 0x09 <= n <= 0x0D
    ||| n == 0x20
    ||| n == 0x85
    ||| n == 0xA0
    ||| n == 0x1680
    ||| 0x2000 <= n <= 0x200A
    ||| n == 0x2028
    ||| n == 0x2029
    ||| n == 0x202F
    ||| n == 0x205F
    ||| n == 0x3000
}

/// A text without the white space at its two ends.
pub open spec fn trimmed(s: Seq<char>) -> Seq<char>
    decreases s.len(),
{
    if s.len() == 0 {
        s
    } else if is_white_space(s[0]) {
        trimmed(s.skip(1))
    } else if is_white_space(s.last()) {
        trimmed(s.drop_last())
    } else {
        s
    }
}

/// `char::is_whitespace`: whether the character has the Unicode property `White_Space`.
pub assume_specification[ char::is_whitespace ](c: char) -> (b: bool)
    ensures
        b == is_white_space(c),
;

pub(crate) proof fn lemma_trimmed(s: Seq<char>, a: int, b: int)
    requires
        0 <= a <= b <= s.len(),
        forall|i: int| 0 <= i < a ==> is_white_space(#[trigger] s[i]),
        forall|i: int| b <= i < s.len() ==> is_white_space(#[trigger] s[i]),
        a < b ==> !is_white_space(s[a]) && !is_white_space(s[b - 1]),
    ensures
        trimmed(s) == s.subrange(a, b),
    decreases s.len(),
{
    if s.len() == 0 {
        assert(s =~= s.subrange(a, b));
    } else if a > 0 {
        let rest = s.skip(1);
        lemma_trimmed(rest, a - 1, b - 1);
        assert(rest.subrange(a - 1, b - 1) =~= s.subrange(a, b));
    } else if b == 0 {
        let rest = s.skip(1);
        lemma_trimmed(rest, 0, 0);
        assert(rest.subrange(0, 0) =~= s.subrange(a, b));
    } else if b < s.len() {
        let rest = s.drop_last();
        lemma_trimmed(rest, a, b);
        assert(rest.subrange(a, b) =~= s.subrange(a, b));
    } else {
        assert(s =~= s.subrange(a, b));
    }
}

/// The text without the white space at its two ends.
pub fn trim(s: &str) -> (r: &str)
    ensures
        r@ == trimmed(s@),
        exists|a: int, b: int|
            {
                &&& 0 <= a <= b <= s@.len()
                &&& r@ == #[trigger] s@.subrange(a, b)
                &&& forall|i: int| 0 <= i < a ==> is_white_space(#[trigger] s@[i])
                &&& forall|i: int| b <= i < s@.len() ==> is_white_space(#[trigger] s@[i])
                &&& a < b ==> !is_white_space(s@[a]) && !is_white_space(s@[b - 1])
            },
{
    let n: usize = s.unicode_len();
    let mut start: usize = 0;
    let mut end: usize = 0;
    let mut i: usize = 0;
    for c in it: s.chars()
        invariant
            i == it.index(),
            it.seq() == s@,
            n == s@.len(),
            start <= i,
            end <= i,
            forall|j: int| 0 <= j < start ==> is_white_space(#[trigger] s@[j]),
            forall|j: int| end <= j < i ==> is_white_space(#[trigger] s@[j]),
            end == 0 ==> start == i,
            end > 0 ==> start < end && !is_white_space(s@[start as int]) && !is_white_space(
                s@[end - 1],
            ),
    {
        if c.is_whitespace() {
            if end == 0 {
                start += 1;
            }
        } else {
            end = i + 1;
        }
        i += 1;
    }
    if end == 0 {
        proof {
            lemma_trimmed(s@, 0, 0);
        }
        s.substring_char(0, 0)
    } else {
        proof {
            lemma_trimmed(s@, start as int, end as int);
        }
        s.substring_char(start, end)
    }
}

/// The text before and the text after the first space, where there is one.
pub fn split_once(s: &str) -> (r: Option<(&str, &str)>)
    ensures
        match r {
            Some((before, after)) => split_space(s@) == Some((before@, after@)),
            None => split_space(s@) is None,
        },
        match r {
            Some((before, after)) => s@ == before@.push(' ') + after@ && !before@.contains(' '),
            None => !s@.contains(' '),
        },
{
    let n: usize = s.unicode_len();
    let mut i: usize = 0;
    for c in it: s.chars()
        invariant
            i == it.index(),
            it.seq() == s@,
            n == s@.len(),
            forall|j: int| 0 <= j < i ==> s@[j] != ' ',
    {
        if c == ' ' {
            proof {
                s@.index_of_first_ensures(' ');
            }
            assert(s@.index_of_first(' ') == Some(i as int));
            return Some((s.substring_char(0, i), s.substring_char(i + 1, n)));
        }
        i += 1;
    }
    proof {
        s@.index_of_first_ensures(' ');
    }
    None
}

proof fn lemma_digits_value_grows(s: Seq<char>, k: int)
    requires
        0 <= k <= s.len(),
    ensures
        digits_value(s.take(k)) <= digits_value(s),
    decreases s.len(),
{
    if k == s.len() {
        assert(s.take(k) =~= s);
    } else {
        lemma_digits_value_grows(s.drop_last(), k);
        assert(s.drop_last().take(k) =~= s.take(k));
    }
}

/// The number that a text stands for.
pub fn parse_usize(s: &str) -> (r: Option<usize>)
    ensures
        r == parse_decimal(s@),
{
    let n: usize = s.unicode_len();
    let digits: &str = if n > 0 && s.get_char(0) == '+' {
        s.substring_char(1, n)
    } else {
        s
    };
    let mut value: usize = 0;
    let mut any: bool = false;
    let ghost mut read: int = 0;
    for c in it: digits.chars()
        invariant
            read == it.index(),
            it.seq() == digits@,
            digits@ == unsigned(s@),
            any == (read > 0),
            all_digits(digits@.take(read)),
            value == digits_value(digits@.take(read)),
    {
        if !(c >= '0' && c <= '9') {
            assert(!is_digit(digits@[read]));
            return None;
        }
        let d: usize = (c as u32 - '0' as u32) as usize;
        proof {
            let before = digits@.take(read);
            let after = digits@.take(read + 1);
            assert(after.drop_last() =~= before);
            assert(after =~= before.push(c));
            assert(digits_value(after) == digits_value(before) * 10 + d);
            lemma_digits_value_grows(digits@, read + 1);
        }
        match value.checked_mul(10) {
            Some(tens) => match tens.checked_add(d) {
                Some(sum) => {
                    value = sum;
                },
                None => {
                    return None;
                },
            },
            None => {
                return None;
            },
        }
        any = true;
        proof {
            read = read + 1;
        }
    }
    assert(digits@.take(digits@.len() as int) =~= digits@);
    if any {
        Some(value)
    } else {
        None
    }
}

/// Whether two texts are the same.
pub fn same_text(a: &str, b: &str) -> (r: bool)
    ensures
        r == (a@ == b@),
{
    let x = a.as_bytes();
    let y = b.as_bytes();
    proof {
        encode_utf8_decode_utf8(a@);
        encode_utf8_decode_utf8(b@);
    }
    if x.len() != y.len() {
        return false;
    }
    let n: usize = x.len();
    let mut i: usize = 0;
    while i < n
        invariant
            i <= n,
            n == x@.len(),
            n == y@.len(),
            x@ == encode_utf8(a@),
            y@ == encode_utf8(b@),
            forall|j: int| 0 <= j < i ==> x@[j] == y@[j],
        decreases n - i,
    {
        if x[i] != y[i] {
            return false;
        }
        i += 1;
    }
    assert(x@ =~= y@);
    true
}

/// The digits of a number are digits, at least one, and stand for that number.
pub proof fn decimal_is_read_back(n: nat)
    ensures
        decimal(n).len() > 0,
        all_digits(decimal(n)),
        digits_value(decimal(n)) == n,
        n <= usize::MAX ==> parse_decimal(decimal(n)) == Some(n as usize),
    decreases n,
{
    if n < 10 {
        assert(decimal(n).drop_last() =~= Seq::<char>::empty());
        assert(digits_value(decimal(n).drop_last()) == 0);
    } else {
        decimal_is_read_back(n / 10);
        assert(decimal(n).drop_last() =~= decimal(n / 10));
    }
    assert(is_digit(decimal(n)[0]));
}

pub(crate) proof fn lemma_decimal_len(n: nat, k: nat)
    requires
        k >= 1,
    ensures
        decimal(n).len() <= k <==> n < pow(10, k),
    decreases k,
{
    reveal(pow);
    assert(pow(10, k) == 10 * pow(10, (k - 1) as nat));
    if k == 1 {
        assert(pow(10, 0) == 1);
        if n >= 10 {
            decimal_is_read_back(n / 10);
        }
    } else if n < 10 {
        vstd::arithmetic::power::lemma_pow_positive(10, (k - 1) as nat);
    } else {
        lemma_decimal_len(n / 10, (k - 1) as nat);
    }
}

/// Whether a number is short enough for the wire.
pub fn number_is_short(n: usize) -> (r: bool)
    ensures
        r == is_short(n as nat),
        r == (n < 10_000_000_000),
{
    proof {
        lemma_decimal_len(n as nat, 10);
        assert(pow(10, 10) == 10_000_000_000) by {
            reveal_with_fuel(pow, 11);
        }
    }
    (n as u64) < 10_000_000_000
}

} // verus!
