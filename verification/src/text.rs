//! Small tools for strings and for results that carry a message.

use vstd::prelude::*;
use vstd::string::*;

verus! {

/// Whether a result fails with the given message.
pub open spec fn fails_with<T>(r: Result<T, String>, message: Seq<char>) -> bool {
    r is Err && r->Err_0@ == message
}

/// Whether a result is the expected value, or fails with the expected
/// message.
pub open spec fn agrees<T>(r: Result<T, String>, expected: Result<T, Seq<char>>) -> bool {
    match expected {
        Ok(v) => r == Ok::<T, String>(v),
        Err(message) => fails_with(r, message),
    }
}

/// A failure with the given message.
pub fn failure<T>(message: &str) -> (r: Result<T, String>)
    ensures
        fails_with(r, message@),
{
    Err(message.to_owned())
}

/// The character of a decimal digit.
pub open spec fn digit_char(d: nat) -> char {
    if d == 0 {
        '0'
    } else if d == 1 {
        '1'
    } else if d == 2 {
        '2'
    } else if d == 3 {
        '3'
    } else if d == 4 {
        '4'
    } else if d == 5 {
        '5'
    } else if d == 6 {
        '6'
    } else if d == 7 {
        '7'
    } else if d == 8 {
        '8'
    } else {
        '9'
    }
}

/// The decimal digits of a number, without leading zeros.
pub open spec fn decimal(n: nat) -> Seq<char>
    decreases n,
{
    if n < 10 {
        seq![digit_char(n)]
    } else {
        decimal(n / 10).push(digit_char(n % 10))
    }
}

/// `count` copies of one character.
pub open spec fn repeat(c: char, count: nat) -> Seq<char> {
    Seq::new(count, |i: int| c)
}

/// The text, preceded by as many copies of `fill` as it takes to reach
/// `width`.
pub open spec fn pad_left(text: Seq<char>, width: nat, fill: char) -> Seq<char> {
    if text.len() >= width {
        text
    } else {
        repeat(fill, (width - text.len()) as nat) + text
    }
}

/// The text, followed by as many spaces as it takes to reach `width`.
pub open spec fn pad_right(text: Seq<char>, width: nat) -> Seq<char> {
    if text.len() >= width {
        text
    } else {
        text + repeat(' ', (width - text.len()) as nat)
    }
}

/// One decimal digit as text.
pub fn digit_text(d: usize) -> (r: &'static str)
    requires
        d < 10,
    ensures
        r@ == seq![digit_char(d as nat)],
{
    proof {
        reveal_strlit("0");
        reveal_strlit("1");
        reveal_strlit("2");
        reveal_strlit("3");
        reveal_strlit("4");
        reveal_strlit("5");
        reveal_strlit("6");
        reveal_strlit("7");
        reveal_strlit("8");
        reveal_strlit("9");
    }
    let r = if d == 0 {
        "0"
    } else if d == 1 {
        "1"
    } else if d == 2 {
        "2"
    } else if d == 3 {
        "3"
    } else if d == 4 {
        "4"
    } else if d == 5 {
        "5"
    } else if d == 6 {
        "6"
    } else if d == 7 {
        "7"
    } else if d == 8 {
        "8"
    } else {
        "9"
    };
    assert(r@ =~= seq![digit_char(d as nat)]);
    r
}

/// A number in decimal.
pub fn decimal_text(n: usize) -> (r: String)
    ensures
        r@ == decimal(n as nat),
    decreases n,
{
    if n < 10 {
        digit_text(n).to_owned()
    } else {
        let mut r = decimal_text(n / 10);
        let ghost before = r@;
        r.append(digit_text(n % 10));
        assert(r@ =~= before.push(digit_char((n % 10) as nat)));
        r
    }
}

/// Appends `count` copies of a one-character text.
pub fn append_repeat(out: &mut String, unit: &str, count: usize)
    requires
        unit@.len() == 1,
    ensures
        final(out)@ == old(out)@ + repeat(unit@[0], count as nat),
{
    let mut i: usize = 0;
    assert(out@ =~= old(out)@ + repeat(unit@[0], 0));
    while i < count
        invariant
            i <= count,
            unit@.len() == 1,
            out@ == old(out)@ + repeat(unit@[0], i as nat),
        decreases count - i,
    {
        out.append(unit);
        assert(out@ =~= old(out)@ + repeat(unit@[0], (i + 1) as nat));
        i += 1;
    }
}

/// The text padded on the left to `width` with a one-character filler.
pub fn padded_left(text: &str, width: usize, fill: &str) -> (r: String)
    requires
        fill@.len() == 1,
    ensures
        r@ == pad_left(text@, width as nat, fill@[0]),
{
    let len = text.unicode_len();
    let mut r = String::new();
    if len < width {
        append_repeat(&mut r, fill, width - len);
    }
    let ghost before = r@;
    r.append(text);
    assert(r@ =~= pad_left(text@, width as nat, fill@[0]));
    r
}

/// The text padded on the right to `width` with spaces.
pub fn padded_right(text: &str, width: usize) -> (r: String)
    ensures
        r@ == pad_right(text@, width as nat),
{
    let len = text.unicode_len();
    let mut r = text.to_owned();
    if len < width {
        proof {
            reveal_strlit(" ");
        }
        append_repeat(&mut r, " ", width - len);
    }
    r
}

} // verus!
