//! Text helpers: comparing string slices, looking for the attribute-path
//! separator, and writing identifiers in decimal.

use vstd::prelude::*;

verus! {

/// `str`'s `==`: two slices are equal exactly when they hold the same
/// characters.
pub assume_specification[ <str as PartialEq>::eq ](a: &str, b: &str) -> (r: bool)
    ensures
        r == (a@ == b@),
;

/// The character that separates the parts of an attribute path, and that no
/// attribute key may therefore hold.
pub open spec fn separator() -> char {
    '.'
}

/// A key is plain when it holds no separator.
pub open spec fn plain_key(key: Seq<char>) -> bool {
    !key.contains(separator())
}

/// Tells whether `key` can name an attribute.
pub fn is_plain_key(key: &str) -> (b: bool)
    ensures
        b == plain_key(key@),
{
    let mut dotted = false;
    for c in it: key.chars()
        invariant
            it.seq() == key@,
            dotted == (exists|j: int| 0 <= j < it.index() && key@[j] == '.'),
    {
        if c == '.' {
            dotted = true;
        }
    }
    !dotted
}

/// The character for one decimal digit.
pub open spec fn digit(d: int) -> char {
    if d == 0 {
        '0'
    } else if d == 1 {
        '1'
    } else if d == 2 {
        '2'
    } else if d == 3 {
        '3'
    } else if d == 4 {
        '4'
    } else if d == 5 {
        '5'
    } else if d == 6 {
        '6'
    } else if d == 7 {
        '7'
    } else if d == 8 {
        '8'
    } else {
        '9'
    }
}

/// The decimal digits of a natural number, most significant first, without
/// leading zeros.
pub open spec fn digits(n: nat) -> Seq<char>
    decreases n,
{
    if n < 10 {
        seq![digit(n as int)]
    } else {
        digits(n / 10).push(digit((n % 10) as int))
    }
}

/// An integer in decimal, with a leading minus sign when it is negative.
pub open spec fn decimal(i: int) -> Seq<char> {
    if i < 0 {
        seq!['-'] + digits((-i) as nat)
    } else {
        digits(i as nat)
    }
}

fn digit_text(d: u32) -> (s: &'static str)
    requires
        d < 10,
    ensures
        s@ == seq![digit(d as int)],
{
    proof {
        reveal_strlit("0");
        reveal_strlit("1");
        reveal_strlit("2");
        reveal_strlit("3");
        reveal_strlit("4");
        reveal_strlit("5");
        reveal_strlit("6");
        reveal_strlit("7");
        reveal_strlit("8");
        reveal_strlit("9");
    }
    let s = if d == 0 {
        "0"
    } else if d == 1 {
        "1"
    } else if d == 2 {
        "2"
    } else if d == 3 {
        "3"
    } else if d == 4 {
        "4"
    } else if d == 5 {
        "5"
    } else if d == 6 {
        "6"
    } else if d == 7 {
        "7"
    } else if d == 8 {
        "8"
    } else {
        "9"
    };
    assert(s@ =~= seq![digit(d as int)]);
    s
}

fn push_digits(out: &mut String, n: u32)
    ensures
        final(out)@ == old(out)@ + digits(n as nat),
    decreases n,
{
    if n >= 10 {
        push_digits(out, n / 10);
    }
    out.append(digit_text(n % 10));
    assert(final(out)@ =~= old(out)@ + digits(n as nat));
}

/// Writes an identifier in decimal.
pub fn render(i: i32) -> (s: String)
    ensures
        s@ == decimal(i as int),
{
    let mut s = String::new();
    if i < 0 {
        proof {
            reveal_strlit("-");
        }
        s.append("-");
        let n: u32 = if i == i32::MIN {
            2147483648u32
        } else {
            (-i) as u32
        };
        push_digits(&mut s, n);
    } else {
        push_digits(&mut s, i as u32);
    }
    assert(s@ =~= decimal(i as int));
    s
}

} // verus!
