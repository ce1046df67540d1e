//! The text forms of numbers: a fixed-point text made compact, and the decimal
//! form of a count.
use crate::text::chars_of;
use vstd::prelude::*;

verus! {

/// The text without the run of the given character at its end.
pub open spec fn strip_trailing(s: Seq<char>, c: char) -> Seq<char>
    decreases s.len(),
{
    if s.len() > 0 && s.last() == c {
        strip_trailing(s.drop_last(), c)
    } else {
        s
    }
}

/// A fixed-point text made compact: first the zeros at its end go, then the
/// points at the end of what is left.
pub open spec fn trimmed(s: Seq<char>) -> Seq<char> {
    strip_trailing(strip_trailing(s, '0'), '.')
}

/// What is stripped is a run of the one character at the end of the text,
/// and what stays does not end in that character.
pub proof fn lemma_strip_trailing(s: Seq<char>, c: char)
    ensures
        strip_trailing(s, c).len() <= s.len(),
        strip_trailing(s, c) == s.take(strip_trailing(s, c).len() as int),
        forall|i: int| strip_trailing(s, c).len() <= i < s.len() ==> s[i] == c,
        strip_trailing(s, c).len() > 0 ==> strip_trailing(s, c).last() != c,
    decreases s.len(),
{
    if s.len() > 0 && s.last() == c {
        let rest = s.drop_last();
        lemma_strip_trailing(rest, c);
        let n = strip_trailing(rest, c).len() as int;
        assert(rest.take(n) =~= s.take(n));
        assert forall|i: int| n <= i < s.len() implies s[i] == c by {
            if i < rest.len() {
                assert(rest[i] == s[i]);
            }
        }
    } else {
        assert(s.take(s.len() as int) =~= s);
    }
}

/// A compact text is the start of the text it was made from, and ends neither
/// in a zero after a point was kept nor in a point.
pub proof fn lemma_trimmed(s: Seq<char>)
    ensures
        trimmed(s).len() <= s.len(),
        trimmed(s) == s.take(trimmed(s).len() as int),
        trimmed(s).len() > 0 ==> trimmed(s).last() != '.',
        forall|i: int| trimmed(s).len() <= i < s.len() ==> s[i] == '0' || s[i] == '.',
{
    let z = strip_trailing(s, '0');
    lemma_strip_trailing(s, '0');
    lemma_strip_trailing(z, '.');
    let n = trimmed(s).len() as int;
    assert(z.take(n) =~= s.take(n));
    assert forall|i: int| n <= i < s.len() implies s[i] == '0' || s[i] == '.' by {
        if i < z.len() {
            assert(z[i] == s[i]);
        }
    }
}

/// Makes a fixed-point text compact: strips the zeros at its end, then the
/// point if one is left at the end. The text is taken as it is: where it
/// holds no point, the zeros at the end of a whole number go too.
pub fn trim_fixed(text: &str) -> (r: String)
    ensures
        r@ == trimmed(text@),
        r@.len() <= text@.len(),
        r@ == text@.take(r@.len() as int),
        r@.len() > 0 ==> r@.last() != '.',
{
    proof {
        lemma_trimmed(text@);
    }
    let chars = chars_of(text);
    let mut k: usize = chars.len();
    assert(chars@.take(k as int) =~= chars@);
    while k > 0 && chars[k - 1] == '0'
        invariant
            k <= chars.len(),
            strip_trailing(chars@, '0') == strip_trailing(chars@.take(k as int), '0'),
        decreases k,
    {
        assert(chars@.take(k as int).drop_last() =~= chars@.take(k - 1));
        k -= 1;
    }
    let ghost unzeroed = chars@.take(k as int);
    assert(strip_trailing(chars@, '0') == unzeroed);
    while k > 0 && chars[k - 1] == '.'
        invariant
            k <= chars.len(),
            strip_trailing(unzeroed, '.') == strip_trailing(chars@.take(k as int), '.'),
        decreases k,
    {
        assert(chars@.take(k as int).drop_last() =~= chars@.take(k - 1));
        k -= 1;
    }
    let mut r = String::new();
    let mut i: usize = 0;
    while i < k
        invariant
            i <= k <= chars.len(),
            r@ == chars@.take(i as int),
        decreases k - i,
    {
        r.push(chars[i]);
        assert(chars@.take(i + 1) =~= chars@.take(i as int).push(chars@[i as int]));
        i += 1;
    }
    r
}

/// The character of one decimal digit.
pub open spec fn digit(d: int) -> char {
    if d == 0 {
        '0'
    } else if d == 1 {
        '1'
    } else if d == 2 {
        '2'
    } else if d == 3 {
        '3'
    } else if d == 4 {
        '4'
    } else if d == 5 {
        '5'
    } else if d == 6 {
        '6'
    } else if d == 7 {
        '7'
    } else if d == 8 {
        '8'
    } else {
        '9'
    }
}

/// The decimal form of a number: its digits from the highest to the lowest,
/// with no sign and no leading zero; zero is the one digit `0`.
pub open spec fn decimal_text(n: nat) -> Seq<char>
    decreases n,
{
    if n < 10 {
        seq![digit(n as int)]
    } else {
        decimal_text(n / 10).push(digit((n % 10) as int))
    }
}

/// The character of one decimal digit.
fn digit_char(d: usize) -> (c: char)
    requires
        d < 10,
    ensures
        c == digit(d as int),
{
    if d == 0 {
        '0'
    } else if d == 1 {
        '1'
    } else if d == 2 {
        '2'
    } else if d == 3 {
        '3'
    } else if d == 4 {
        '4'
    } else if d == 5 {
        '5'
    } else if d == 6 {
        '6'
    } else if d == 7 {
        '7'
    } else if d == 8 {
        '8'
    } else {
        '9'
    }
}

/// Writes a count in decimal.
pub fn decimal(n: usize) -> (r: String)
    ensures
        r@ == decimal_text(n as nat),
{
    let mut digits: Vec<char> = Vec::new();
    digits.push(digit_char(n % 10));
    let mut rest: usize = n / 10;
    while rest > 0
        invariant
            digits.len() >= 1,
            decimal_text(n as nat) == lead(rest as nat) + digits@.reverse(),
        decreases rest,
    {
        let ghost before = digits@;
        digits.push(digit_char(rest % 10));
        proof {
            let d = digit((rest % 10) as int);
            assert(digits@.reverse() =~= seq![d] + before.reverse());
            assert(lead(rest as nat) =~= lead((rest / 10) as nat) + seq![d]);
            assert(lead(rest as nat) + before.reverse() =~= lead((rest / 10) as nat)
                + digits@.reverse());
        }
        rest = rest / 10;
    }
    let mut r = String::new();
    let mut k: usize = digits.len();
    while k > 0
        invariant
            k <= digits.len(),
            r@ == digits@.reverse().take(digits.len() - k),
        decreases k,
    {
        k -= 1;
        r.push(digits[k]);
        assert(digits@.reverse().take(digits.len() - k) =~= digits@.reverse().take(
            digits.len() - k - 1,
        ).push(digits@[k as int]));
    }
    proof {
        assert(digits@.reverse().take(digits.len() as int) =~= digits@.reverse());
        assert(lead(0) + digits@.reverse() =~= digits@.reverse());
    }
    r
}

/// The digits that stand before those already written: none when nothing is left.
spec fn lead(rest: nat) -> Seq<char> {
    if rest == 0 {
        Seq::<char>::empty()
    } else {
        decimal_text(rest)
    }
}

} // verus!
