//! Text helpers: characters of a string, decimal numerals, and the
//! lexicographic order on strings.
use vstd::prelude::*;
use vstd::slice::slice_subrange;

verus! {

/// Taken on trust from the standard library: `String::push` appends the
/// character to the end of the string and leaves the characters before it
/// as they were.
pub assume_specification[ String::push ](s: &mut String, c: char)
    ensures
        final(s)@ == old(s)@.push(c),
;

/// The characters of an optional string.
pub open spec fn text_of(s: Option<String>) -> Option<Seq<char>> {
    match s {
        Some(s) => Some(s@),
        None => None,
    }
}

/// The characters of a string, in order.
pub fn chars_of(s: &str) -> (chars: Vec<char>)
    ensures
        chars@ == s@,
{
    let mut chars: Vec<char> = Vec::new();
    for c in it: s.chars()
        invariant
            chars@ == it.seq().take(it.index() as int),
            it.seq() == s@,
    {
        chars.push(c);
    }
    chars
}

/// Whether `c` is one of `0` to `9`.
pub open spec fn is_digit(c: char) -> bool {
    '0' <= c <= '9'
}

/// The number a digit character stands for.
pub open spec fn digit_value(c: char) -> nat {
    (c as int - '0' as int) as nat
}

/// The character for a digit `d` below ten.
pub open spec fn digit_char(d: nat) -> char {
    (d + '0' as nat) as char
}

/// The number that a run of decimal digits denotes; the empty run denotes 0.
pub open spec fn digits_value(s: Seq<char>) -> nat
    decreases s.len(),
{
    if s.len() == 0 {
        0
    } else {
        digits_value(s.drop_last()) * 10 + digit_value(s.last())
    }
}

/// Whether every character of `s` is a decimal digit.
pub open spec fn all_digits(s: Seq<char>) -> bool {
    forall|i: int| 0 <= i < s.len() ==> is_digit(#[trigger] s[i])
}

/// The decimal numeral of a natural number, without leading zeros.
pub open spec fn decimal_digits(n: nat) -> Seq<char>
    decreases n,
{
    if n < 10 {
        seq![digit_char(n)]
    } else {
        decimal_digits(n / 10).push(digit_char(n % 10))
    }
}

/// The decimal numeral of an integer: a `-` in front when it is negative.
pub open spec fn decimal(n: int) -> Seq<char> {
    if n < 0 {
        seq!['-'] + decimal_digits((-n) as nat)
    } else {
        decimal_digits(n as nat)
    }
}

/// The integer that a signed decimal numeral denotes: an optional `+` or `-`,
/// then one or more digits and nothing else. `None` where the text has another
/// shape or the number does not fit in 32 bits.
pub open spec fn parse_decimal(s: Seq<char>) -> Option<i32> {
    let signed = s.len() > 0 && (s[0] == '-' || s[0] == '+');
    let body = if signed {
        s.skip(1)
    } else {
        s
    };
    let magnitude = digits_value(body) as int;
    let number = if signed && s[0] == '-' {
        -magnitude
    } else {
        magnitude
    };
    if body.len() > 0 && all_digits(body) && i32::MIN <= number <= i32::MAX {
        Some(number as i32)
    } else {
        None
    }
}

/// The strict lexicographic order by character code: `a` comes before `b`
/// when, at the first place where they differ, `a` has ended or holds the
/// smaller character.
pub open spec fn lex_less(a: Seq<char>, b: Seq<char>) -> bool {
    exists|k: int| #[trigger]
        a.take(k) == b.take(k) && 0 <= k <= a.len() && k < b.len() && (k == a.len() || a[k]
            < b[k])
}

/// A run of digits never denotes less than one of its prefixes.
pub proof fn lemma_digits_value_prefix(s: Seq<char>, n: int)
    requires
        0 <= n <= s.len(),
    ensures
        digits_value(s.take(n)) <= digits_value(s),
    decreases s.len(),
{
    if n == s.len() {
        assert(s.take(n) =~= s);
    } else {
        lemma_digits_value_prefix(s.drop_last(), n);
        assert(s.drop_last().take(n) =~= s.take(n));
    }
}

fn digit_to_char(d: usize) -> (c: char)
    requires
        d < 10,
    ensures
        c == digit_char(d as nat),
{
    let byte: u8 = 48u8 + d as u8;
    byte as char
}

fn char_to_digit(c: char) -> (d: u32)
    requires
        is_digit(c),
    ensures
        d == digit_value(c),
        d < 10,
{
    c as u32 - 48
}

/// Appends the decimal numeral of `n` to `s`.
pub fn push_decimal_digits(s: &mut String, n: usize)
    ensures
        final(s)@ == old(s)@ + decimal_digits(n as nat),
    decreases n,
{
    if n >= 10 {
        push_decimal_digits(s, n / 10);
    }
    s.push(digit_to_char(n % 10));
}

/// The decimal numeral of `i`.
pub fn format_decimal(i: i32) -> (s: String)
    ensures
        s@ == decimal(i as int),
{
    let mut s = String::new();
    if i < 0 {
        s.push('-');
        let magnitude: usize = if i == i32::MIN {
            2147483648usize
        } else {
            (-i) as usize
        };
        push_decimal_digits(&mut s, magnitude);
    } else {
        push_decimal_digits(&mut s, i as usize);
        assert(s@ =~= decimal(i as int));
    }
    s
}

/// The number that the digits in `chars` denote, as long as it is at most
/// `limit`.
pub fn digits_to_number(chars: &[char], limit: u32) -> (number: Option<u32>)
    requires
        all_digits(chars@),
    ensures
        number == (if digits_value(chars@) <= limit {
            Some(digits_value(chars@) as u32)
        } else {
            None
        }),
{
    let mut value: u32 = 0;
    let mut i: usize = 0;
    while i < chars.len()
        invariant
            i <= chars.len(),
            all_digits(chars@),
            value == digits_value(chars@.take(i as int)),
            value <= limit,
        decreases chars.len() - i,
    {
        let d = char_to_digit(chars[i]);
        proof {
            let next = chars@.take(i + 1);
            assert(next.drop_last() =~= chars@.take(i as int));
            assert(next.last() == chars@[i as int]);
            lemma_digits_value_prefix(chars@, i + 1);
        }
        if limit < d || value > (limit - d) / 10 {
            return None;
        }
        value = value * 10 + d;
        i += 1;
    }
    assert(chars@.take(chars.len() as int) =~= chars@);
    Some(value)
}

/// A string of the one character `c`.
pub fn char_string(c: char) -> (s: String)
    ensures
        s@ == seq![c],
{
    let mut s = String::new();
    s.push(c);
    assert(s@ =~= seq![c]);
    s
}

/// The string made of the characters in `chars`.
pub fn string_of_slice(chars: &[char]) -> (s: String)
    ensures
        s@ == chars@,
{
    let mut s = String::new();
    let mut i: usize = 0;
    while i < chars.len()
        invariant
            i <= chars.len(),
            s@ == chars@.take(i as int),
        decreases chars.len() - i,
    {
        s.push(chars[i]);
        i += 1;
        assert(chars@.take(i as int) =~= chars@.take(i as int - 1).push(chars@[i as int - 1]));
    }
    assert(chars@.take(chars.len() as int) =~= chars@);
    s
}

/// Whether two strings hold the same characters.
pub fn same_text(a: &str, b: &str) -> (same: bool)
    ensures
        same == (a@ == b@),
{
    let chars = chars_of(a);
    slice_is(chars.as_slice(), b)
}

/// Whether `chars` spells `word`.
pub fn slice_is(chars: &[char], word: &str) -> (same: bool)
    ensures
        same == (chars@ == word@),
{
    let letters = chars_of(word);
    if letters.len() != chars.len() {
        return false;
    }
    let mut i: usize = 0;
    while i < chars.len()
        invariant
            i <= chars.len(),
            letters.len() == chars.len(),
            letters@ == word@,
            forall|j: int| 0 <= j < i ==> chars@[j] == letters@[j],
        decreases chars.len() - i,
    {
        if chars[i] != letters[i] {
            return false;
        }
        i += 1;
    }
    assert(chars@ =~= letters@);
    true
}

/// Reads a signed decimal numeral.
#[verifier::loop_isolation(false)]
pub fn parse_int(s: &str) -> (number: Option<i32>)
    ensures
        number == parse_decimal(s@),
{
    let chars = chars_of(s);
    let n = chars.len();
    let signed = n > 0 && (chars[0] == '-' || chars[0] == '+');
    let from: usize = if signed {
        1
    } else {
        0
    };
    let ghost body = chars@.subrange(from as int, n as int);
    assert(body =~= if signed {
        s@.skip(1)
    } else {
        s@
    });
    if from == n {
        return None;
    }
    let mut i: usize = from;
    while i < n
        invariant
            from <= i <= n == chars.len(),
            body == chars@.subrange(from as int, n as int),
            forall|j: int| 0 <= j < i - from ==> is_digit(#[trigger] body[j]),
        decreases n - i,
    {
        let c = chars[i];
        assert(body[i - from] == chars@[i as int]);
        if !('0' <= c && c <= '9') {
            return None;
        }
        i += 1;
    }
    let digits = slice_subrange(chars.as_slice(), from, n);
    if signed && chars[0] == '-' {
        match digits_to_number(digits, 2147483648u32) {
            Some(magnitude) => {
                if magnitude == 2147483648u32 {
                    Some(i32::MIN)
                } else {
                    Some(-(magnitude as i32))
                }
            },
            None => None,
        }
    } else {
        match digits_to_number(digits, 2147483647u32) {
            Some(magnitude) => Some(magnitude as i32),
            None => None,
        }
    }
}

/// Whether `a` comes strictly before `b` in lexicographic order.
pub fn string_less(a: &str, b: &str) -> (less: bool)
    ensures
        less == lex_less(a@, b@),
{
    let x = chars_of(a);
    let y = chars_of(b);
    let mut i: usize = 0;
    while i < x.len() && i < y.len()
        invariant
            i <= x.len(),
            i <= y.len(),
            x@ == a@,
            y@ == b@,
            x@.take(i as int) == y@.take(i as int),
        decreases x.len() - i,
    {
        if x[i] != y[i] {
            let less = x[i] < y[i];
            proof {
                if !less {
                    assert forall|k: int|
                        0 <= k <= x@.len() && k < y@.len() && (k == x@.len() || x@[k]
                            < y@[k]) implies #[trigger] x@.take(k) != y@.take(k) by {
                        lemma_take_differs(x@, y@, i as int, k);
                    }
                }
            }
            return less;
        }
        assert(x@.take(i + 1) =~= x@.take(i as int).push(x@[i as int]));
        assert(y@.take(i + 1) =~= y@.take(i as int).push(y@[i as int]));
        i += 1;
    }
    let less = i < y.len();
    proof {
        if !less {
            assert forall|k: int|
                0 <= k <= x@.len() && k < y@.len() && (k == x@.len() || x@[k]
                    < y@[k]) implies #[trigger] x@.take(k) != y@.take(k) by {
                assert(x@.take(i as int)[k] == x@[k]);
                assert(y@.take(i as int)[k] == y@[k]);
            }
        }
    }
    less
}

/// Two sequences that agree before place `i` and differ at it: a place `k`
/// where the first has ended or holds the smaller character, with equal
/// prefixes before it, can only be `i` itself.
proof fn lemma_take_differs(x: Seq<char>, y: Seq<char>, i: int, k: int)
    requires
        0 <= i < x.len(),
        i < y.len(),
        x.take(i) == y.take(i),
        x[i] >= y[i],
        x[i] != y[i],
        0 <= k <= x.len(),
        k < y.len(),
        k == x.len() || x[k] < y[k],
    ensures
        x.take(k) != y.take(k),
{
    if k > i {
        assert(x.take(k)[i] == x[i]);
        assert(y.take(k)[i] == y[i]);
    } else if k < i {
        assert(x.take(i)[k] == x[k]);
        assert(y.take(i)[k] == y[k]);
    }
}

} // verus!
