//! Text as sequences of characters: lower-casing, trailing dots, decimal digits.
use vstd::prelude::*;

verus! {

/// Every character is an ASCII character.
pub open spec fn is_ascii_text(s: Seq<char>) -> bool {
    forall|i: int| 0 <= i < s.len() ==> (#[trigger] s[i] as u32) < 128
}

/// The lower-case form of an ASCII letter; every other character is its own lower-case form.
pub open spec fn lower_char(c: char) -> char {
    if 65 <= c as u32 && c as u32 <= 90 {
        (c as u32 + 32) as char
    } else {
        c
    }
}

/// `s` with every ASCII letter in lower case.
pub open spec fn lower(s: Seq<char>) -> Seq<char> {
    s.map_values(|c: char| lower_char(c))
}

/// `s` without the dots at its end.
pub open spec fn trim_dots(s: Seq<char>) -> Seq<char>
    decreases s.len(),
{
    if s.len() > 0 && s.last() == '.' {
        trim_dots(s.drop_last())
    } else {
        s
    }
}

/// The character of a decimal digit.
pub open spec fn digit(d: nat) -> char {
    (48 + d) as char
}

/// `n` in decimal notation, without leading zeros.
pub open spec fn decimal(n: nat) -> Seq<char>
    decreases n,
{
    if n < 10 {
        seq![digit(n)]
    } else {
        decimal(n / 10).push(digit(n % 10))
    }
}

/// The standard library's `String::push`: appends one character.
pub assume_specification[ String::push ](s: &mut String, c: char)
    ensures
        final(s)@ == old(s)@.push(c),
;

/// The characters of a string, one by one.
pub fn characters(s: &str) -> (chars: Vec<char>)
    ensures
        chars@ == s@,
{
    let mut chars: Vec<char> = Vec::new();
    for c in it: s.chars()
        invariant
            it.seq() == s@,
            chars@ == s@.take(it.index() as int),
    {
        chars.push(c);
        assert(s@.take(it.index() + 1) == s@.take(it.index() as int).push(c));
    }
    assert(s@.take(s@.len() as int) == s@);
    chars
}

/// Lower-cases one character.
pub fn to_lower_char(c: char) -> (r: char)
    ensures
        r == lower_char(c),
{
    if c >= 'A' && c <= 'Z' {
        ((c as u8) + 32) as char
    } else {
        c
    }
}

/// The text of an ASCII string without its trailing dots and in lower case.
pub fn normalize(s: &str) -> (r: String)
    requires
        is_ascii_text(s@),
    ensures
        r@ == lower(trim_dots(s@)),
{
    let chars = characters(s);
    let mut n: usize = chars.len();
    assert(chars@.take(n as int) == chars@);
    while n > 0 && chars[n - 1] == '.'
        invariant
            n <= chars@.len(),
            trim_dots(chars@.take(n as int)) == trim_dots(chars@),
        decreases n,
    {
        assert(chars@.take(n as int).drop_last() == chars@.take(n - 1));
        n = n - 1;
    }
    let ghost kept = chars@.take(n as int);
    assert(trim_dots(kept) == kept);
    let mut r = String::new();
    for i in 0..n
        invariant
            n <= chars@.len(),
            kept == chars@.take(n as int),
            r@ == lower(kept.take(i as int)),
    {
        r.push(to_lower_char(chars[i as usize]));
        assert(r@ =~= lower(kept.take(i + 1)));
    }
    assert(kept.take(n as int) == kept);
    r
}

/// Appends the decimal notation of a number to a string.
pub fn push_decimal(s: &mut String, n: u16)
    ensures
        final(s)@ == old(s)@ + decimal(n as nat),
    decreases n,
{
    let ghost start = s@;
    if n >= 10 {
        push_decimal(s, n / 10);
    }
    s.push((48u8 + (n % 10) as u8) as char);
    assert(s@ =~= start + decimal(n as nat));
}

/// Decimal notation is never empty and holds digits only.
pub proof fn lemma_decimal_digits(n: nat)
    ensures
        decimal(n).len() > 0,
        forall|i: int| 0 <= i < decimal(n).len() ==> 48 <= #[trigger] decimal(n)[i] as u32 <= 57,
    decreases n,
{
    if n >= 10 {
        lemma_decimal_digits(n / 10);
    }
}

/// Two numbers with one decimal notation are one number.
pub proof fn lemma_decimal_injective(a: nat, b: nat)
    requires
        decimal(a) == decimal(b),
    ensures
        a == b,
    decreases a,
{
    lemma_decimal_digits(a / 10);
    lemma_decimal_digits(b / 10);
    let (x, y) = (decimal(a), decimal(b));
    assert(x.last() == digit(a % 10) && y.last() == digit(b % 10));
    if a >= 10 && b >= 10 {
        assert(x.drop_last() == decimal(a / 10));
        assert(y.drop_last() == decimal(b / 10));
        lemma_decimal_injective(a / 10, b / 10);
    }
}

/// Lower-casing and the removal of trailing dots can trade places.
pub proof fn lemma_lower_trim(s: Seq<char>)
    ensures
        lower(trim_dots(s)) == trim_dots(lower(s)),
    decreases s.len(),
{
    if s.len() > 0 {
        assert(lower(s).last() == lower_char(s.last()));
        assert(lower(s).drop_last() =~= lower(s.drop_last()));
        if s.last() == '.' {
            lemma_lower_trim(s.drop_last());
        }
    }
}

/// Lower-casing twice is lower-casing once.
pub proof fn lemma_lower_idempotent(s: Seq<char>)
    ensures
        lower(lower(s)) == lower(s),
{
    assert forall|c: char| lower_char(#[trigger] lower_char(c)) == lower_char(c) by {
        if 65 <= c as u32 && c as u32 <= 90 {
            assert(lower_char(c) as u32 == c as u32 + 32);
        }
    }
    assert(lower(lower(s)) =~= lower(s));
}

/// Lower-casing adds 32 to the code of every character from `A` to `Z` and leaves every other
/// character as it is, in its place.
pub proof fn law_lower_changes_capitals_only(s: Seq<char>)
    ensures
        lower(s).len() == s.len(),
        forall|i: int|
            0 <= i < s.len() ==> if 65 <= s[i] as u32 <= 90 {
                (#[trigger] lower(s)[i]) as u32 == s[i] as u32 + 32
            } else {
                lower(s)[i] == s[i]
            },
{
    assert forall|i: int| 0 <= i < s.len() implies if 65 <= s[i] as u32 <= 90 {
        (#[trigger] lower(s)[i]) as u32 == s[i] as u32 + 32
    } else {
        lower(s)[i] == s[i]
    } by {
        assert(lower(s)[i] == lower_char(s[i]));
    }
}

/// A text without its trailing dots is the beginning of the text, ends with no dot, and leaves out
/// nothing but dots.
pub proof fn law_trim_takes_trailing_dots_only(s: Seq<char>)
    ensures
        trim_dots(s).is_prefix_of(s),
        trim_dots(s).len() > 0 ==> trim_dots(s).last() != '.',
        forall|i: int| trim_dots(s).len() <= i < s.len() ==> #[trigger] s[i] == '.',
    decreases s.len(),
{
    if s.len() > 0 && s.last() == '.' {
        let shorter = s.drop_last();
        law_trim_takes_trailing_dots_only(shorter);
        assert forall|i: int| trim_dots(s).len() <= i < s.len() implies #[trigger] s[i] == '.' by {
            if i < shorter.len() {
                assert(shorter[i] == s[i]);
            }
        }
        assert(trim_dots(s) =~= s.take(trim_dots(s).len() as int));
    }
}

/// The number that decimal digits stand for.
pub open spec fn decimal_value(digits: Seq<char>) -> int
    decreases digits.len(),
{
    if digits.len() == 0 {
        0
    } else {
        10 * decimal_value(digits.drop_last()) + (digits.last() as u32 - '0' as u32)
    }
}

/// Decimal notation is made of digits that stand for the number, and begins with a zero for zero
/// only.
pub proof fn law_decimal_stands_for_the_number(n: nat)
    ensures
        decimal(n).len() > 0,
        forall|i: int|
            0 <= i < decimal(n).len() ==> '0' <= #[trigger] decimal(n)[i] && decimal(n)[i] <= '9',
        decimal_value(decimal(n)) == n,
        n > 0 ==> decimal(n)[0] != '0',
    decreases n,
{
    let digits = decimal(n);
    assert(digits.last() as u32 == 48 + n % 10);
    if n >= 10 {
        law_decimal_stands_for_the_number(n / 10);
        assert(digits.drop_last() =~= decimal(n / 10));
    } else {
        assert(digits.drop_last() =~= Seq::<char>::empty());
        assert(decimal_value(digits.drop_last()) == 0);
    }
}

} // verus!
