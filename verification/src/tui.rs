//! The text-mode frame drawn around TUI windows, one line of box-drawing characters at a
//! time.
use vstd::prelude::*;
use vstd::string::*;

use crate::text::{push_char, push_str};

verus! {

/// The border style of a TUI window.
#[derive(Clone, Copy, Debug, PartialEq, Eq, Structural)]
pub enum TuiBorder {
    HardLines,
    SoftLines,
}

/// `n` copies of `c`.
pub open spec fn repeat(c: char, n: nat) -> Seq<char>
    decreases n,
{
    if n == 0 {
        Seq::empty()
    } else {
        repeat(c, (n - 1) as nat).push(c)
    }
}

/// `a - b`, or zero when `b` is larger.
pub open spec fn saturating_sub(a: nat, b: nat) -> nat {
    if a >= b {
        (a - b) as nat
    } else {
        0
    }
}

/// The start of the top line: the corner, two rules, and the title padded with a space
/// on each side.
pub open spec fn top_prefix(title: Option<Seq<char>>) -> Seq<char> {
    let head = seq!['┌', '─', '─'];
    match title {
        Some(t) => head + seq![' '] + t + seq![' '],
        None => head,
    }
}

pub open spec fn top_line(cols: nat, title: Option<Seq<char>>) -> Seq<char> {
    let prefix = top_prefix(title);
    prefix + repeat('─', saturating_sub(cols, prefix.len() + 1)) + seq!['┐']
}

pub open spec fn middle_line(cols: nat) -> Seq<char> {
    seq!['│'] + repeat(' ', saturating_sub(cols, 2)) + seq!['│']
}

pub open spec fn bottom_line(cols: nat) -> Seq<char> {
    seq!['└'] + repeat('─', saturating_sub(cols, 2)) + seq!['┘']
}

/// The lines of a frame `cols` characters wide and `rows` lines high: the top line, the
/// line repeated between top and bottom, how many times it is repeated, and the bottom line.
pub struct TuiFrame {
    pub top: String,
    pub middle: String,
    pub middle_rows: usize,
    pub bottom: String,
}

fn push_repeat(s: &mut String, c: char, n: usize)
    ensures
        final(s)@ == old(s)@ + repeat(c, n as nat),
{
    let ghost start = s@;
    let mut i: usize = 0;
    while i < n
        invariant
            i <= n,
            s@ == start + repeat(c, i as nat),
        decreases n - i,
    {
        push_char(s, c);
        assert(start + repeat(c, (i + 1) as nat) =~= (start + repeat(c, i as nat)).push(c));
        i = i + 1;
    }
}

proof fn lemma_repeat_len(c: char, n: nat)
    ensures
        repeat(c, n).len() == n,
    decreases n,
{
    if n > 0 {
        lemma_repeat_len(c, (n - 1) as nat);
    }
}

/// Builds the frame's lines. Widths in characters.
pub fn tui_frame(cols: usize, rows: usize, title: Option<&str>) -> (r: TuiFrame)
    requires
        match title {
            Some(t) => t@.len() + 6 <= usize::MAX,
            None => true,
        },
    ensures
        r.top@ == top_line(cols as nat, match title {
            Some(t) => Some(t@),
            None => None::<Seq<char>>,
        }),
        r.middle@ == middle_line(cols as nat),
        r.bottom@ == bottom_line(cols as nat),
        r.middle_rows == saturating_sub(rows as nat, 2),
{
    let ghost title_view = match title {
        Some(t) => Some(t@),
        None => None::<Seq<char>>,
    };
    let mut top = String::new();
    push_char(&mut top, '┌');
    push_char(&mut top, '─');
    push_char(&mut top, '─');
    let mut prefix_len: usize = 3;
    match title {
        Some(t) => {
            push_char(&mut top, ' ');
            push_str(&mut top, t);
            push_char(&mut top, ' ');
            prefix_len = 3 + t.unicode_len() + 2;
        },
        None => {},
    }
    assert(top@ =~= top_prefix(title_view));
    let fill = if cols >= prefix_len + 1 { cols - (prefix_len + 1) } else { 0 };
    push_repeat(&mut top, '─', fill);
    push_char(&mut top, '┐');
    assert(top@ =~= top_line(cols as nat, title_view));

    let inner = if cols >= 2 { cols - 2 } else { 0 };
    let mut middle = String::new();
    push_char(&mut middle, '│');
    push_repeat(&mut middle, ' ', inner);
    push_char(&mut middle, '│');
    assert(middle@ =~= middle_line(cols as nat));

    let mut bottom = String::new();
    push_char(&mut bottom, '└');
    push_repeat(&mut bottom, '─', inner);
    push_char(&mut bottom, '┘');
    assert(bottom@ =~= bottom_line(cols as nat));

    let middle_rows = if rows >= 2 { rows - 2 } else { 0 };
    TuiFrame { top, middle, middle_rows, bottom }
}

/// A frame wide enough for its title is a rectangle: every line is exactly `cols`
/// characters wide.
pub proof fn frame_lines_have_equal_width(cols: nat, title: Option<Seq<char>>)
    requires
        cols >= top_prefix(title).len() + 1,
    ensures
        top_line(cols, title).len() == cols,
        middle_line(cols).len() == cols,
        bottom_line(cols).len() == cols,
{
    lemma_repeat_len('─', saturating_sub(cols, top_prefix(title).len() + 1));
    lemma_repeat_len(' ', saturating_sub(cols, 2));
    lemma_repeat_len('─', saturating_sub(cols, 2));
}

} // verus!
