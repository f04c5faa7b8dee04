//! A model of the terminal that the codes are written to, and the laws
//! that tie what frames show to what their clear codes erase.
//!
//! The model reads text one character at a time: plain characters are
//! written at the cursor, `\n` moves to the start of the next row, `\r` to
//! the start of the row, `ESC [ n A` moves up `n` rows and `ESC [ 2 K`
//! blanks the row. Rows are numbered without bound in both directions.
use vstd::prelude::*;

use vstd::arithmetic::div_mod::{lemma_fundamental_div_mod, lemma_mod_pos_bound};

use crate::ansi::{clear_line_text, cursor_up_text, decimal, digit_char};
use crate::group::{indent_text, newlines};

verus! {

/// A terminal: the text of each row, the cursor, and how far an escape
/// sequence has been read (`mode` 0: plain text; 1: after ESC; 2: after
/// `ESC [`, with the number read so far in `param`).
#[verifier::ext_equal]
pub struct Term {
    pub rows: spec_fn(int) -> Seq<char>,
    pub row: int,
    pub col: nat,
    pub mode: nat,
    pub param: nat,
}

/// The value of a decimal digit.
pub open spec fn digit_value(c: char) -> Option<nat> {
    if c == '0' {
        Some(0)
    } else if c == '1' {
        Some(1)
    } else if c == '2' {
        Some(2)
    } else if c == '3' {
        Some(3)
    } else if c == '4' {
        Some(4)
    } else if c == '5' {
        Some(5)
    } else if c == '6' {
        Some(6)
    } else if c == '7' {
        Some(7)
    } else if c == '8' {
        Some(8)
    } else if c == '9' {
        Some(9)
    } else {
        None
    }
}

/// `line` with `c` written at column `col`, padded with spaces if needed.
pub open spec fn write_char(line: Seq<char>, col: nat, c: char) -> Seq<char> {
    if col < line.len() {
        line.update(col as int, c)
    } else {
        line + Seq::new((col - line.len()) as nat, |i: int| ' ') + seq![c]
    }
}

/// `rows` with row `r` replaced by `line`.
pub open spec fn set_row(rows: spec_fn(int) -> Seq<char>, r: int, line: Seq<char>) -> spec_fn(int) -> Seq<char> {
    |i: int| if i == r { line } else { rows(i) }
}

/// The terminal after reading one character.
pub open spec fn term_step(t: Term, c: char) -> Term {
    if t.mode == 1 {
        if c == '[' {
            Term { mode: 2, param: 0, ..t }
        } else {
            Term { mode: 0, param: 0, ..t }
        }
    } else if t.mode == 2 {
        match digit_value(c) {
            Some(d) => Term { param: t.param * 10 + d, ..t },
            None => if c == 'A' {
                Term { row: t.row - t.param, mode: 0, param: 0, ..t }
            } else if c == 'K' && t.param == 2 {
                Term { rows: set_row(t.rows, t.row, Seq::empty()), mode: 0, param: 0, ..t }
            } else {
                Term { mode: 0, param: 0, ..t }
            },
        }
    } else if c == '\x1B' {
        Term { mode: 1, ..t }
    } else if c == '\n' {
        Term { row: t.row + 1, col: 0, ..t }
    } else if c == '\r' {
        Term { col: 0, ..t }
    } else {
        Term {
            rows: set_row(t.rows, t.row, write_char((t.rows)(t.row), t.col, c)),
            col: t.col + 1,
            ..t
        }
    }
}

/// The terminal after reading `s`.
pub open spec fn term_run(t: Term, s: Seq<char>) -> Term
    decreases s.len(),
{
    if s.len() == 0 {
        t
    } else {
        term_step(term_run(t, s.drop_last()), s.last())
    }
}

/// The cursor is at the start of a row, no escape sequence is under way,
/// and that row and all below it are blank.
pub open spec fn fresh(t: Term) -> bool {
    &&& t.mode == 0
    &&& t.param == 0
    &&& t.col == 0
    &&& forall|i: int| i >= t.row ==> #[trigger] (t.rows)(i) == Seq::<char>::empty()
}

/// The text holds no new line, carriage return or escape.
pub open spec fn printable(s: Seq<char>) -> bool {
    forall|i: int| 0 <= i < s.len() ==> s[i] != '\n' && s[i] != '\r' && s[i] != '\x1B'
}

/// Reading `s` then `c` is reading `s.push(c)`.
pub proof fn lemma_run_push(t: Term, s: Seq<char>, c: char)
    ensures
        term_run(t, s.push(c)) == term_step(term_run(t, s), c),
{
    assert(s.push(c).drop_last() =~= s);
}

/// Reading one character is one step.
pub proof fn lemma_run_one(t: Term, c: char)
    ensures
        term_run(t, seq![c]) == term_step(t, c),
{
    lemma_run_push(t, Seq::empty(), c);
    assert(Seq::<char>::empty().push(c) =~= seq![c]);
}

/// Reading `a` then `b` is reading `a + b`.
pub proof fn lemma_run_append(t: Term, a: Seq<char>, b: Seq<char>)
    ensures
        term_run(t, a + b) == term_run(term_run(t, a), b),
    decreases b.len(),
{
    if b.len() == 0 {
        assert(a + b =~= a);
    } else {
        lemma_run_append(t, a, b.drop_last());
        assert((a + b).drop_last() =~= a + b.drop_last());
        assert((a + b).last() == b.last());
    }
}

pub proof fn lemma_run_plain(t: Term, s: Seq<char>)
    requires
        t.mode == 0,
        printable(s),
        (t.rows)(t.row).len() == t.col,
    ensures
        term_run(t, s) == (Term {
            rows: set_row(t.rows, t.row, (t.rows)(t.row) + s),
            col: t.col + s.len(),
            ..t
        }),
    decreases s.len(),
{
    if s.len() == 0 {
        assert(term_run(t, s) =~= (Term {
            rows: set_row(t.rows, t.row, (t.rows)(t.row) + s),
            col: t.col + s.len(),
            ..t
        }));
    } else {
        let p = s.drop_last();
        assert(printable(p));
        lemma_run_plain(t, p);
        let m = term_run(t, p);
        assert((m.rows)(m.row) == (t.rows)(t.row) + p);
        assert(s.last() == s[s.len() - 1]);
        assert(write_char((m.rows)(m.row), m.col, s.last()) =~= (t.rows)(t.row) + s);
        assert(term_run(t, s) =~= (Term {
            rows: set_row(t.rows, t.row, (t.rows)(t.row) + s),
            col: t.col + s.len(),
            ..t
        }));
    }
}

pub proof fn lemma_run_newlines(t: Term, k: nat)
    requires
        t.mode == 0,
    ensures
        k > 0 ==> term_run(t, newlines(k)) == (Term { row: t.row + k, col: 0, ..t }),
        k == 0 ==> term_run(t, newlines(k)) == t,
    decreases k,
{
    if k == 0 {
        assert(newlines(0) =~= Seq::<char>::empty());
    } else {
        lemma_run_newlines(t, (k - 1) as nat);
        lemma_run_push(t, newlines((k - 1) as nat), '\n');
        assert(newlines((k - 1) as nat).push('\n') =~= newlines(k));
        assert(term_run(t, newlines(k)) =~= (Term { row: t.row + k, col: 0, ..t }));
    }
}

proof fn lemma_digit(d: nat)
    requires
        d < 10,
    ensures
        digit_value(digit_char(d)) == Some(d),
{
    assert(d == 0 || d == 1 || d == 2 || d == 3 || d == 4 || d == 5 || d == 6 || d == 7 || d == 8
        || d == 9);
}

proof fn lemma_run_decimal(t: Term, n: nat)
    requires
        t.mode == 2,
        t.param == 0,
    ensures
        term_run(t, decimal(n)) == (Term { param: n, ..t }),
    decreases n,
{
    if n < 10 {
        lemma_digit(n);
        lemma_run_one(t, digit_char(n));
        assert(term_run(t, decimal(n)) =~= (Term { param: n, ..t }));
    } else {
        lemma_run_decimal(t, n / 10);
        lemma_fundamental_div_mod(n as int, 10);
        lemma_mod_pos_bound(n as int, 10);
        lemma_digit(n % 10);
        lemma_run_push(t, decimal(n / 10), digit_char(n % 10));
        assert(decimal(n / 10).push(digit_char(n % 10)) =~= decimal(n));
        assert(term_run(t, decimal(n)) =~= (Term { param: n, ..t }));
    }
}

pub proof fn lemma_run_cursor_up(t: Term, k: nat)
    requires
        t.mode == 0,
        t.param == 0,
    ensures
        term_run(t, cursor_up_text(k)) == (Term { row: t.row - k, ..t }),
{
    if k == 0 {
        assert(term_run(t, cursor_up_text(k)) =~= (Term { row: t.row - k, ..t }));
    } else {
        let a = seq!['\x1B', '['];
        lemma_run_one(t, '\x1B');
        lemma_run_push(t, seq!['\x1B'], '[');
        assert(seq!['\x1B'].push('[') =~= a);
        let m = term_run(t, a);
        assert(m =~= (Term { mode: 2, param: 0, ..t }));
        lemma_run_append(t, a, decimal(k));
        lemma_run_decimal(m, k);
        lemma_run_push(t, a + decimal(k), 'A');
        assert((a + decimal(k)).push('A') =~= cursor_up_text(k));
        assert(digit_value('A') is None);
        assert(term_run(t, cursor_up_text(k)) =~= (Term { row: t.row - k, ..t }));
    }
}

pub proof fn lemma_run_line_erase(t: Term)
    requires
        t.mode == 0,
        t.param == 0,
    ensures
        term_run(t, seq!['\r'] + clear_line_text()) == (Term {
            rows: set_row(t.rows, t.row, Seq::empty()),
            col: 0,
            ..t
        }),
{
    let s = seq!['\r'] + clear_line_text();
    let s1 = seq!['\r'];
    let s2 = s1.push('\x1B');
    let s3 = s2.push('[');
    let s4 = s3.push('2');
    assert(s =~= s4.push('K'));
    lemma_run_one(t, '\r');
    lemma_run_push(t, s1, '\x1B');
    lemma_run_push(t, s2, '[');
    lemma_run_push(t, s3, '2');
    lemma_run_push(t, s4, 'K');
    assert(digit_value('2') == Some(2nat));
    assert(digit_value('K') is None);
    let x1 = term_run(t, s1);
    assert(x1 =~= (Term { col: 0, ..t }));
    let x4 = term_run(t, s4);
    assert(x4 =~= (Term { col: 0, mode: 2, param: 2, ..t }));
    assert(term_run(t, s) =~= (Term { rows: set_row(t.rows, t.row, Seq::empty()), col: 0, ..t }));
}

} // verus!
