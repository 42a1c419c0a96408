//! Pieces of text that the trees are rendered from.

use vstd::prelude::*;

verus! {

/// Where a node stands below its parent.
#[derive(Clone, Copy, Debug, PartialEq, Eq, Structural)]
pub enum Dir {
    Left,
    Right,
    Root,
}

/// The name of a direction.
pub open spec fn dir_text(dir: Dir) -> Seq<char> {
    match dir {
        Dir::Left => "left"@,
        Dir::Right => "right"@,
        Dir::Root => "root"@,
    }
}

/// Four spaces for every level.
pub open spec fn indent(level: nat) -> Seq<char>
    decreases level,
{
    if level == 0 {
        Seq::empty()
    } else {
        indent((level - 1) as nat) + "    "@
    }
}

/// The character of a decimal digit.
pub open spec fn digit_char(d: int) -> char {
    seq!['0', '1', '2', '3', '4', '5', '6', '7', '8', '9'][d]
}

/// The decimal digits of a natural number, without leading zeros.
pub open spec fn digits(n: nat) -> Seq<char>
    decreases n,
{
    if n < 10 {
        seq![digit_char(n as int)]
    } else {
        digits(n / 10).push(digit_char((n % 10) as int))
    }
}

/// The decimal numeral of an integer, with a minus sign before a negative
/// one.
pub open spec fn decimal(i: int) -> Seq<char> {
    if i < 0 {
        seq!['-'] + digits((-i) as nat)
    } else {
        digits(i as nat)
    }
}

/// The first `n` characters of a text, or all of it where it is shorter.
pub open spec fn prefix(text: Seq<char>, n: nat) -> Seq<char> {
    if text.len() <= n {
        text
    } else {
        text.subrange(0, n as int)
    }
}

/// The name of a direction.
pub fn dir_name(dir: Dir) -> (name: &'static str)
    ensures
        name@ == dir_text(dir),
{
    match dir {
        Dir::Left => "left",
        Dir::Right => "right",
        Dir::Root => "root",
    }
}

/// Builds the indentation of a level.
pub fn indentation(level: usize) -> (out: String)
    ensures
        out@ == indent(level as nat),
{
    let mut out = String::new();
    let mut i: usize = 0;
    while i < level
        invariant
            i <= level,
            out@ == indent(i as nat),
        decreases level - i,
    {
        out.append("    ");
        i += 1;
    }
    out
}

/// The text of a decimal digit.
pub fn digit_name(d: u32) -> (name: &'static str)
    requires
        d < 10,
    ensures
        name@ == seq![digit_char(d as int)],
{
    proof {
        reveal_strlit("0");
        reveal_strlit("1");
        reveal_strlit("2");
        reveal_strlit("3");
        reveal_strlit("4");
        reveal_strlit("5");
        reveal_strlit("6");
        reveal_strlit("7");
        reveal_strlit("8");
        reveal_strlit("9");
    }
    let name = if d == 0 {
        "0"
    } else if d == 1 {
        "1"
    } else if d == 2 {
        "2"
    } else if d == 3 {
        "3"
    } else if d == 4 {
        "4"
    } else if d == 5 {
        "5"
    } else if d == 6 {
        "6"
    } else if d == 7 {
        "7"
    } else if d == 8 {
        "8"
    } else {
        "9"
    };
    assert(name@ =~= seq![digit_char(d as int)]);
    name
}

/// Appends the decimal digits of `n`.
pub fn append_digits(out: &mut String, n: u32)
    ensures
        final(out)@ == old(out)@ + digits(n as nat),
    decreases n,
{
    if n >= 10 {
        append_digits(out, n / 10);
    }
    out.append(digit_name(n % 10));
    assert(out@ =~= old(out)@ + digits(n as nat));
}

/// Writes an integer as a decimal numeral.
pub fn decimal_text(value: i32) -> (out: String)
    ensures
        out@ == decimal(value as int),
{
    let mut out = String::new();
    if value < 0 {
        proof {
            reveal_strlit("-");
        }
        let sign = "-";
        assert(sign@ =~= seq!['-']);
        out.append(sign);
        let magnitude: u32 = if value == i32::MIN {
            2147483648
        } else {
            (-value) as u32
        };
        append_digits(&mut out, magnitude);
    } else {
        append_digits(&mut out, value as u32);
    }
    assert(out@ =~= decimal(value as int));
    out
}

/// Copies the first `n` characters of a text.
pub fn first_chars(text: &str, n: usize) -> (out: String)
    ensures
        out@ == prefix(text@, n as nat),
{
    let len = text.unicode_len();
    let end = if len <= n {
        len
    } else {
        n
    };
    let head = text.substring_char(0, end);
    assert(text@.subrange(0, text@.len() as int) =~= text@);
    String::from_str(head)
}

} // verus!
