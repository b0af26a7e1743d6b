//! Reading single command-line tokens: literal words and decimal numbers.
use vstd::prelude::*;
use vstd::string::StrSliceExecFns;

verus! {

/// The value of a decimal digit character.
pub open spec fn digit_value(c: char) -> int {
    c as int - '0' as int
}

pub open spec fn is_digit(c: char) -> bool {
    '0' <= c && c <= '9'
}

pub open spec fn all_digits(s: Seq<char>) -> bool {
    forall|i: int| 0 <= i < s.len() ==> #[trigger] is_digit(s[i])
}

/// The number written by a sequence of decimal digits, most significant first.
pub open spec fn decimal_value(s: Seq<char>) -> int
    decreases s.len(),
{
    if s.len() == 0 {
        0
    } else {
        10 * decimal_value(s.drop_last()) + digit_value(s.last())
    }
}

/// The digits of an unsigned number token: an optional leading `+` is dropped.
pub open spec fn unsigned_digits(s: Seq<char>) -> Seq<char> {
    if s.len() > 0 && s[0] == '+' {
        s.drop_first()
    } else {
        s
    }
}

/// The unsigned 8-bit integer that a token spells, as Rust's integer parsing
/// reads it: an optional `+`, then one or more decimal digits, at most 255.
pub open spec fn u8_of(s: Seq<char>) -> Option<u8> {
    let d = unsigned_digits(s);
    if d.len() > 0 && all_digits(d) && decimal_value(d) <= 255 {
        Some(decimal_value(d) as u8)
    } else {
        None
    }
}

/// Whether `token` is exactly the word `word`, character for character.
pub fn matches_word(token: &str, word: &str) -> (r: bool)
    ensures
        r == (token@ == word@),
{
    let n = token.unicode_len();
    let m = word.unicode_len();
    if n != m {
        return false;
    }
    let mut i: usize = 0;
    while i < n
        invariant
            n == token@.len(),
            m == word@.len(),
            n == m,
            i <= n,
            token@.take(i as int) == word@.take(i as int),
        decreases n - i,
    {
        if token.get_char(i) != word.get_char(i) {
            return false;
        }
        assert(token@.take(i + 1) == token@.take(i as int).push(token@[i as int]));
        assert(word@.take(i + 1) == word@.take(i as int).push(word@[i as int]));
        i = i + 1;
    }
    assert(token@ == token@.take(n as int));
    assert(word@ == word@.take(n as int));
    true
}

/// Reads a token as an unsigned 8-bit integer; `None` where it is not one.
pub fn to_u8(token: &str) -> (r: Option<u8>)
    ensures
        r == u8_of(token@),
{
    let n = token.unicode_len();
    let ghost s = token@;
    let start: usize = if n > 0 && token.get_char(0) == '+' { 1 } else { 0 };
    let ghost d = s.subrange(start as int, n as int);
    assert(d == unsigned_digits(s));
    if start == n {
        return None;
    }
    let mut value: u32 = 0;
    let mut over: bool = false;
    let mut i: usize = start;
    while i < n
        invariant
            n == s.len(),
            s == token@,
            start <= i <= n,
            d == s.subrange(start as int, n as int),
            d == unsigned_digits(s),
            all_digits(d.take(i - start)),
            !over ==> value as int == decimal_value(d.take(i - start)) && value <= 255,
            over ==> decimal_value(d.take(i - start)) > 255,
        decreases n - i,
    {
        let c = token.get_char(i);
        if c < '0' || c > '9' {
            assert(!is_digit(d[i - start]));
            assert(!all_digits(d));
            return None;
        }
        let ghost k = i - start;
        assert(d.take(k + 1).drop_last() == d.take(k));
        assert(d.take(k + 1) == d.take(k).push(c));
        if !over {
            let digit = (c as u32) - ('0' as u32);
            value = value * 10 + digit;
            if value > 255 {
                over = true;
            }
        }
        i = i + 1;
    }
    assert(d.take(n - start) == d);
    if over {
        None
    } else {
        Some(value as u8)
    }
}

} // verus!
