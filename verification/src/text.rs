//! Text building blocks: decimal rendering of integers, padding, truncation.

use vstd::prelude::*;

verus! {

/// The character of a decimal digit.
pub open spec fn digit_char(d: nat) -> char {
    if d == 0 {
        '0'
    } else if d == 1 {
        '1'
    } else if d == 2 {
        '2'
    } else if d == 3 {
        '3'
    } else if d == 4 {
        '4'
    } else if d == 5 {
        '5'
    } else if d == 6 {
        '6'
    } else if d == 7 {
        '7'
    } else if d == 8 {
        '8'
    } else {
        '9'
    }
}

/// The decimal representation of `n`, without leading zeros (what `Display`
/// prints for an unsigned integer).
pub open spec fn decimal(n: nat) -> Seq<char>
    decreases n,
{
    if n < 10 {
        seq![digit_char(n)]
    } else {
        decimal(n / 10).push(digit_char(n % 10))
    }
}

/// `n` in decimal, left-padded with zeros to at least `width` characters.
pub open spec fn zero_padded(n: nat, width: nat) -> Seq<char> {
    let d = decimal(n);
    if d.len() >= width {
        d
    } else {
        Seq::new((width - d.len()) as nat, |i: int| '0') + d
    }
}

/// `s` followed by spaces up to `width` characters (`{:<width}`).
pub open spec fn pad_right(s: Seq<char>, width: nat) -> Seq<char> {
    if s.len() >= width {
        s
    } else {
        s + Seq::new((width - s.len()) as nat, |i: int| ' ')
    }
}

/// `s` preceded by spaces up to `width` characters (`{:>width}`).
pub open spec fn pad_left(s: Seq<char>, width: nat) -> Seq<char> {
    if s.len() >= width {
        s
    } else {
        Seq::new((width - s.len()) as nat, |i: int| ' ') + s
    }
}

/// `s` cut to at most `max` characters: longer text keeps its first
/// `max - 1` characters (saturating) followed by an ellipsis.
pub open spec fn truncated(s: Seq<char>, max: nat) -> Seq<char> {
    if s.len() <= max {
        s
    } else {
        s.take(if max == 0 { 0 } else { max - 1 }).push('…')
    }
}

/// A cut text is never wider than the limit (for a limit of at least one
/// character), and text within the limit is kept whole.
pub proof fn lemma_truncated_width(s: Seq<char>, max: nat)
    ensures
        max >= 1 ==> truncated(s, max).len() <= max,
        s.len() <= max ==> truncated(s, max) == s,
{
}

/// Appends one character (`String::push`).
#[verifier::external_body]
pub fn push_char(s: &mut String, c: char)
    ensures
        final(s)@ == old(s)@.push(c),
{
    s.push(c);
}

/// The digit character of `d`.
pub fn digit_to_char(d: u128) -> (c: char)
    requires
        d < 10,
    ensures
        c == digit_char(d as nat),
{
    if d == 0 {
        '0'
    } else if d == 1 {
        '1'
    } else if d == 2 {
        '2'
    } else if d == 3 {
        '3'
    } else if d == 4 {
        '4'
    } else if d == 5 {
        '5'
    } else if d == 6 {
        '6'
    } else if d == 7 {
        '7'
    } else if d == 8 {
        '8'
    } else {
        '9'
    }
}

/// Appends the decimal representation of `n`.
pub fn push_decimal(out: &mut String, n: u128)
    ensures
        final(out)@ == old(out)@ + decimal(n as nat),
    decreases n,
{
    if n >= 10 {
        push_decimal(out, n / 10);
    }
    let c = digit_to_char(n % 10);
    push_char(out, c);
    proof {
        assert(old(out)@ + decimal(n as nat) =~= final(out)@);
    }
}

/// Appends `n` in decimal, zero-padded to at least `width` characters.
pub fn push_zero_padded(out: &mut String, n: u128, width: usize)
    ensures
        final(out)@ == old(out)@ + zero_padded(n as nat, width as nat),
{
    let mut digits = String::new();
    push_decimal(&mut digits, n);
    let len = digits.as_str().unicode_len();
    let ghost before = out@;
    if len < width {
        let mut i: usize = len;
        while i < width
            invariant
                len <= i <= width,
                out@ == before + Seq::new((i - len) as nat, |j: int| '0'),
            decreases width - i,
        {
            push_char(out, '0');
            i = i + 1;
            proof {
                assert(out@ =~= before + Seq::new((i - len) as nat, |j: int| '0'));
            }
        }
    }
    out.append(digits.as_str());
    proof {
        assert(final(out)@ =~= old(out)@ + zero_padded(n as nat, width as nat));
    }
}

/// The decimal text of `n` (`n.to_string()`).
pub fn decimal_string(n: u128) -> (s: String)
    ensures
        s@ == decimal(n as nat),
{
    let mut s = String::new();
    push_decimal(&mut s, n);
    proof {
        assert(s@ =~= decimal(n as nat));
    }
    s
}

/// Appends `s` padded on the right with spaces to `width` characters.
pub fn push_pad_right(out: &mut String, s: &str, width: usize)
    ensures
        final(out)@ == old(out)@ + pad_right(s@, width as nat),
{
    out.append(s);
    let len = s.unicode_len();
    let ghost mid = out@;
    if len < width {
        let mut i: usize = len;
        while i < width
            invariant
                len <= i <= width,
                out@ == mid + Seq::new((i - len) as nat, |j: int| ' '),
            decreases width - i,
        {
            push_char(out, ' ');
            i = i + 1;
            proof {
                assert(out@ =~= mid + Seq::new((i - len) as nat, |j: int| ' '));
            }
        }
    }
    proof {
        assert(final(out)@ =~= old(out)@ + pad_right(s@, width as nat));
    }
}

/// Appends `s` padded on the left with spaces to `width` characters.
pub fn push_pad_left(out: &mut String, s: &str, width: usize)
    ensures
        final(out)@ == old(out)@ + pad_left(s@, width as nat),
{
    let len = s.unicode_len();
    let ghost before = out@;
    if len < width {
        let mut i: usize = len;
        while i < width
            invariant
                len <= i <= width,
                out@ == before + Seq::new((i - len) as nat, |j: int| ' '),
            decreases width - i,
        {
            push_char(out, ' ');
            i = i + 1;
            proof {
                assert(out@ =~= before + Seq::new((i - len) as nat, |j: int| ' '));
            }
        }
    }
    out.append(s);
    proof {
        assert(final(out)@ =~= old(out)@ + pad_left(s@, width as nat));
    }
}

/// Cuts `s` to at most `max` characters, marking a cut with `…`.
pub fn truncate(s: &str, max: usize) -> (r: String)
    ensures
        r@ == truncated(s@, max as nat),
{
    let len = s.unicode_len();
    if len <= max {
        let r = String::from_str(s);
        r
    } else {
        let keep: usize = if max == 0 { 0 } else { max - 1 };
        let head = s.substring_char(0, keep);
        let mut r = String::from_str(head);
        push_char(&mut r, '…');
        proof {
            assert(r@ =~= truncated(s@, max as nat));
        }
        r
    }
}

} // verus!
