//! Builders for the terminal control sequences the renderer emits: cursor
//! positioning, SGR true-color codes and style resets. Output is assembled
//! as a sequence of characters, with one trusted conversion to `String` at
//! the edge.

use vstd::prelude::*;

verus! {

/// The decimal digit character for `n % 10`.
pub open spec fn digit_char(n: int) -> char {
    (48 + n % 10) as u8 as char
}

/// The decimal representation of `n`, most significant digit first, with no
/// leading zeros (zero itself is `"0"`).
pub open spec fn dec_rep(n: int) -> Seq<char>
    decreases n,
{
    if n < 10 {
        seq![digit_char(n)]
    } else {
        dec_rep(n / 10).push(digit_char(n))
    }
}

/// The control sequence introducer `ESC [`.
pub open spec fn csi() -> Seq<char> {
    seq!['\x1b', '[']
}

/// The style-reset sequence `ESC [0m`.
pub open spec fn sgr_reset() -> Seq<char> {
    seq!['\x1b', '[', '0', 'm']
}

/// The cursor-positioning sequence `ESC [row;colH`.
pub open spec fn goto_seq(col: int, row: int) -> Seq<char> {
    csi() + dec_rep(row) + seq![';'] + dec_rep(col) + seq!['H']
}

/// The true-color SGR sequence `ESC [p;2;r;g;bm`, where `p` is `38` for the
/// foreground and `48` for the background.
pub open spec fn sgr_color(plane: int, c: crate::color::Color) -> Seq<char> {
    csi() + dec_rep(plane) + seq![';', '2', ';'] + dec_rep(c.red as int) + seq![';'] + dec_rep(
        c.green as int,
    ) + seq![';'] + dec_rep(c.blue as int) + seq!['m']
}

/// Appends the decimal representation of `n`.
pub fn push_decimal(out: &mut Vec<char>, n: u16)
    ensures
        final(out)@ == old(out)@ + dec_rep(n as int),
    decreases n,
{
    if n < 10 {
        out.push((48 + n as u8) as char);
        assert(out@ =~= old(out)@ + dec_rep(n as int));
    } else {
        push_decimal(out, n / 10);
        out.push((48 + (n % 10) as u8) as char);
        assert(out@ =~= old(out)@ + dec_rep(n as int));
    }
}

/// Appends the style-reset sequence.
pub fn push_sgr_reset(out: &mut Vec<char>)
    ensures
        final(out)@ == old(out)@ + sgr_reset(),
{
    out.push('\x1b');
    out.push('[');
    out.push('0');
    out.push('m');
    assert(out@ =~= old(out)@ + sgr_reset());
}

/// Appends the cursor-positioning sequence for the given 1-indexed column
/// and row value.
pub fn push_goto(out: &mut Vec<char>, col: u16, row: u16)
    ensures
        final(out)@ == old(out)@ + goto_seq(col as int, row as int),
{
    out.push('\x1b');
    out.push('[');
    push_decimal(out, row);
    out.push(';');
    push_decimal(out, col);
    out.push('H');
    assert(out@ =~= old(out)@ + goto_seq(col as int, row as int));
}

/// Appends a true-color SGR sequence; `plane` is `38` for the foreground and
/// `48` for the background.
pub fn push_sgr_color(out: &mut Vec<char>, plane: u16, c: crate::color::Color)
    requires
        plane == 38 || plane == 48,
    ensures
        final(out)@ == old(out)@ + sgr_color(plane as int, c),
{
    out.push('\x1b');
    out.push('[');
    push_decimal(out, plane);
    out.push(';');
    out.push('2');
    out.push(';');
    push_decimal(out, c.red as u16);
    out.push(';');
    push_decimal(out, c.green as u16);
    out.push(';');
    push_decimal(out, c.blue as u16);
    out.push('m');
    assert(out@ =~= old(out)@ + sgr_color(plane as int, c));
}

/// Relies on std's `FromIterator<char> for String`: collecting characters
/// yields the string made of exactly those characters, in order.
#[verifier::external_body]
pub fn string_from_chars(chars: &Vec<char>) -> (s: String)
    ensures
        s@ == chars@,
{
    chars.iter().collect()
}

/// `text` with every line feed replaced by a carriage return plus line
/// feed, as a raw-mode terminal wants it.
pub open spec fn crlf_spec(text: Seq<char>) -> Seq<char>
    decreases text.len(),
{
    if text.len() == 0 {
        Seq::empty()
    } else if text[0] == '\n' {
        seq!['\r', '\n'] + crlf_spec(text.skip(1))
    } else {
        seq![text[0]] + crlf_spec(text.skip(1))
    }
}

/// Re-terminates the lines of `text` for a raw-mode terminal: every line
/// feed becomes a carriage return plus line feed.
pub fn carriage_returned(text: &Vec<char>) -> (s: String)
    ensures
        s@ == crlf_spec(text@),
{
    let mut out: Vec<char> = Vec::new();
    let mut i: usize = 0;
    proof {
        assert(text@.skip(0) =~= text@);
    }
    while i < text.len()
        invariant
            i <= text@.len(),
            out@ + crlf_spec(text@.skip(i as int)) == crlf_spec(text@),
        decreases text@.len() - i,
    {
        let c = text[i];
        if c == '\n' {
            out.push('\r');
            out.push('\n');
        } else {
            out.push(c);
        }
        proof {
            assert(text@.skip(i as int).skip(1) =~= text@.skip(i + 1));
            assert(out@ + crlf_spec(text@.skip(i + 1)) =~= crlf_spec(text@));
        }
        i = i + 1;
    }
    proof {
        assert(out@ =~= crlf_spec(text@));
    }
    string_from_chars(&out)
}

} // verus!
