//! Building blocks for text: appending to a `String` and decimal numerals.

use vstd::prelude::*;

verus! {

/// `String::push` of the standard library: the character is appended at the
/// end and nothing else changes.
pub assume_specification[ std::string::String::push ](s: &mut std::string::String, c: char)
    ensures
        final(s)@ == old(s)@.push(c),
;

/// `String::push_str` of the standard library: the slice is appended at the
/// end and nothing else changes.
pub assume_specification[ std::string::String::push_str ](s: &mut std::string::String, other: &str)
    ensures
        final(s)@ == old(s)@ + other@,
;

/// The character of a decimal digit.
pub open spec fn digit_char(d: int) -> char {
    ((48 + d) as u8) as char
}

/// The decimal numeral of `n`, without leading zeros.
pub open spec fn decimal(n: nat) -> Seq<char>
    decreases n,
{
    if n < 10 {
        seq![digit_char(n as int)]
    } else {
        decimal(n / 10).push(digit_char((n % 10) as int))
    }
}

/// Appends the decimal numeral of `n` to `out`.
pub fn push_decimal(out: &mut String, n: usize)
    ensures
        final(out)@ == old(out)@ + decimal(n as nat),
    decreases n,
{
    if n >= 10 {
        push_decimal(out, n / 10);
    }
    let d: u8 = (n % 10) as u8;
    out.push((48u8 + d) as char);
    assert(out@ =~= old(out)@ + decimal(n as nat));
}

/// A fresh copy of a string slice.
pub fn owned(s: &str) -> (r: String)
    ensures
        r@ == s@,
{
    let mut r = String::new();
    r.push_str(s);
    assert(r@ =~= s@);
    r
}

/// Whether the string is the given word.
pub fn text_is(value: &String, word: &str) -> (r: bool)
    ensures
        r == (value@ == word@),
{
    let w = owned(word);
    *value == w
}

/// How many characters the decimal numeral of `n` has.
pub fn digit_count(n: usize) -> (r: usize)
    ensures
        r == decimal(n as nat).len(),
        1 <= r <= 20,
    decreases n,
{
    if n >= 10 {
        let r = digit_count(n / 10);
        proof {
            lemma_decimal_len(n as nat);
        }
        r + 1
    } else {
        1
    }
}

/// A numeral of a number below 2^64 has at most 20 digits, and one digit more
/// than that of its tenth.
pub proof fn lemma_decimal_len(n: nat)
    ensures
        n >= 10 ==> decimal(n).len() == decimal(n / 10).len() + 1,
        n < 10 ==> decimal(n).len() == 1,
        n <= 0xffff_ffff_ffff_ffff ==> decimal(n).len() <= 20,
{
    reveal_with_fuel(decimal, 21);
}

/// The character `c`, `n` times.
pub open spec fn repeated(c: char, n: nat) -> Seq<char> {
    Seq::new(n, |k: int| c)
}

/// Appends the character `c` to `out`, `n` times.
pub fn push_repeated(out: &mut String, c: char, n: usize)
    ensures
        final(out)@ == old(out)@ + repeated(c, n as nat),
{
    let mut k: usize = 0;
    assert(out@ =~= old(out)@ + repeated(c, 0));
    while k < n
        invariant
            k <= n,
            out@ == old(out)@ + repeated(c, k as nat),
        decreases n - k,
    {
        out.push(c);
        k = k + 1;
        assert(out@ =~= old(out)@ + repeated(c, k as nat));
    }
}

/// The text with the escape sequences around it that make a terminal show it
/// in the style of the given number.
pub open spec fn colored(text: Seq<char>, num: nat) -> Seq<char> {
    "\x1b["@ + decimal(num) + seq!['m'] + text + "\x1b[0m"@
}

/// Wraps the text in the escape sequences of a terminal style.
pub fn colorize(text: &str, num: u8) -> (r: String)
    ensures
        r@ == colored(text@, num as nat),
{
    let mut r = String::new();
    r.push_str("\x1b[");
    push_decimal(&mut r, num as usize);
    r.push('m');
    r.push_str(text);
    r.push_str("\x1b[0m");
    assert(r@ =~= colored(text@, num as nat));
    r
}

} // verus!
