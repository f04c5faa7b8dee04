//! ANSI escape sequences used to erase printed output.
use vstd::prelude::*;

verus! {

/// The character of the decimal digit `d` (`d < 10`).
pub open spec fn digit_char(d: nat) -> char {
    if d == 0 {
        '0'
    } else if d == 1 {
        '1'
    } else if d == 2 {
        '2'
    } else if d == 3 {
        '3'
    } else if d == 4 {
        '4'
    } else if d == 5 {
        '5'
    } else if d == 6 {
        '6'
    } else if d == 7 {
        '7'
    } else if d == 8 {
        '8'
    } else {
        '9'
    }
}

/// The decimal digits of `n`, without leading zeros.
pub open spec fn decimal(n: nat) -> Seq<char>
    decreases n,
{
    if n < 10 {
        seq![digit_char(n)]
    } else {
        decimal(n / 10) + seq![digit_char(n % 10)]
    }
}

/// `ESC [ n A`, or nothing at all when `n` is zero.
pub open spec fn cursor_up_text(n: nat) -> Seq<char> {
    if n == 0 {
        Seq::empty()
    } else {
        seq!['\x1B', '['] + decimal(n) + seq!['A']
    }
}

/// `ESC [ 2 K`: clears the line under the cursor.
pub open spec fn clear_line_text() -> Seq<char> {
    seq!['\x1B', '[', '2', 'K']
}

/// Moves the cursor up by the given number of lines.
pub struct CursorUp(pub usize);

/// Clears the current line.
pub struct ClearLine;

fn digit_str(d: usize) -> (r: &'static str)
    requires
        d < 10,
    ensures
        r@ == seq![digit_char(d as nat)],
{
    if d == 0 {
        proof { reveal_strlit("0"); }
        "0"
    } else if d == 1 {
        proof { reveal_strlit("1"); }
        "1"
    } else if d == 2 {
        proof { reveal_strlit("2"); }
        "2"
    } else if d == 3 {
        proof { reveal_strlit("3"); }
        "3"
    } else if d == 4 {
        proof { reveal_strlit("4"); }
        "4"
    } else if d == 5 {
        proof { reveal_strlit("5"); }
        "5"
    } else if d == 6 {
        proof { reveal_strlit("6"); }
        "6"
    } else if d == 7 {
        proof { reveal_strlit("7"); }
        "7"
    } else if d == 8 {
        proof { reveal_strlit("8"); }
        "8"
    } else {
        proof { reveal_strlit("9"); }
        "9"
    }
}

/// Appends the decimal digits of `n` to `out`.
fn push_decimal(out: &mut String, n: usize)
    ensures
        final(out)@ == old(out)@ + decimal(n as nat),
    decreases n,
{
    if n >= 10 {
        push_decimal(out, n / 10);
    }
    out.append(digit_str(n % 10));
    proof {
        if n >= 10 {
            assert(final(out)@ =~= old(out)@ + decimal(n as nat));
        }
    }
}

impl CursorUp {
    /// Appends the escape sequence to `out`.
    pub fn write_to(&self, out: &mut String)
        ensures
            final(out)@ == old(out)@ + cursor_up_text(self.0 as nat),
    {
        if self.0 > 0 {
            proof { reveal_strlit("\x1B["); reveal_strlit("A"); }
            out.append("\x1B[");
            push_decimal(out, self.0);
            out.append("A");
            assert(final(out)@ =~= old(out)@ + cursor_up_text(self.0 as nat));
        } else {
            assert(final(out)@ =~= old(out)@ + cursor_up_text(self.0 as nat));
        }
    }

    /// The escape sequence as a string.
    pub fn to_string(&self) -> (r: String)
        ensures
            r@ == cursor_up_text(self.0 as nat),
    {
        let mut out = String::new();
        self.write_to(&mut out);
        assert(out@ =~= cursor_up_text(self.0 as nat));
        out
    }
}

impl ClearLine {
    /// Appends the escape sequence to `out`.
    pub fn write_to(&self, out: &mut String)
        ensures
            final(out)@ == old(out)@ + clear_line_text(),
    {
        proof { reveal_strlit("\x1B[2K"); }
        out.append("\x1B[2K");
        assert(final(out)@ =~= old(out)@ + clear_line_text());
    }

    /// The escape sequence as a string.
    pub fn to_string(&self) -> (r: String)
        ensures
            r@ == clear_line_text(),
    {
        let mut out = String::new();
        self.write_to(&mut out);
        assert(out@ =~= clear_line_text());
        out
    }
}

} // verus!
