//! Scan errors and the translation of a codepoint offset into a line and
//! column.
//!
//! A line break is any of `\r\n`, `\n` or `\r`; lines count from 1 and the
//! column counts the codepoints since the last line break.

use vstd::prelude::*;
use vstd::string::StringExecFns;

verus! {

/// The line and column of a position in a text, with `\r\n` counted as one
/// line break.  Defined over the prefix of the text before the position.
pub open spec fn spec_pos_of(text: Seq<char>) -> (nat, nat)
    decreases text.len(),
{
    if text.len() == 0 {
        (1nat, 0nat)
    } else {
        let last = text[text.len() - 1];
        if last == '\n' {
            if text.len() >= 2 && text[text.len() - 2] == '\r' {
                (spec_pos_of(text.subrange(0, text.len() - 2)).0 + 1, 0nat)
            } else {
                (spec_pos_of(text.subrange(0, text.len() - 1)).0 + 1, 0nat)
            }
        } else if last == '\r' {
            (spec_pos_of(text.subrange(0, text.len() - 1)).0 + 1, 0nat)
        } else {
            let p = spec_pos_of(text.subrange(0, text.len() - 1));
            (p.0, p.1 + 1)
        }
    }
}

/// A line and column pair, both measured in codepoints; lines count from 1.
pub struct CursorPos {
    pub col: usize,
    pub line: usize,
}

/// The line and column of the position `end` (a codepoint offset) in `text`.
pub fn cursor_pos(text: &Vec<char>, end: usize) -> (r: CursorPos)
    requires
        end <= text@.len(),
        text@.len() < usize::MAX,
    ensures
        r.line as nat == spec_pos_of(text@.subrange(0, end as int)).0,
        r.col as nat == spec_pos_of(text@.subrange(0, end as int)).1,
{
    let mut line: usize = 1;
    let mut col: usize = 0;
    let mut i: usize = 0;
    proof {
        assert(text@.subrange(0, 0) =~= Seq::<char>::empty());
    }
    while i < end
        invariant
            i <= end <= text@.len() < usize::MAX,
            line as nat == spec_pos_of(text@.subrange(0, i as int)).0,
            col as nat == spec_pos_of(text@.subrange(0, i as int)).1,
            line <= i + 1,
            col <= i,
        decreases end - i,
    {
        let c = text[i];
        proof {
            let pre = text@.subrange(0, i as int);
            let cur = text@.subrange(0, i + 1);
            assert(cur.len() == i + 1);
            assert(cur[i as int] == c);
            assert(cur.subrange(0, i as int) =~= pre);
            if c == '\n' && i >= 1 && text@[i - 1] == '\r' {
                assert(cur[i - 1] == '\r');
                assert(cur.subrange(0, i - 1) =~= pre.subrange(0, i - 1));
                assert(pre[i - 1] == '\r');
                assert(pre.len() >= 1 && pre[pre.len() - 1] == '\r');
                assert(spec_pos_of(cur).0 == spec_pos_of(pre.subrange(0, i - 1)).0 + 1);
                assert(spec_pos_of(pre).0 == spec_pos_of(pre.subrange(0, i - 1)).0 + 1);
                assert(spec_pos_of(cur) == (spec_pos_of(pre).0, 0nat));
            }
        }
        if c == '\n' {
            if i >= 1 && text[i - 1] == '\r' {
                col = 0;
            } else {
                line = line + 1;
                col = 0;
            }
        } else if c == '\r' {
            line = line + 1;
            col = 0;
        } else {
            col = col + 1;
        }
        i = i + 1;
    }
    CursorPos { col, line }
}

/// An error produced by a scan: a message and the position it refers to,
/// as a line and column (both counted in codepoints, lines from 1).
#[derive(Debug)]
pub struct RuleError {
    pub col: usize,
    pub line: usize,
    pub msg: String,
}

impl RuleError {
    /// The position an error at codepoint offset `index` refers to: offsets
    /// past the end of the text (the end-of-input matcher reports progress
    /// beyond it) are clamped to the end.
    pub open spec fn spec_clamp(text: Seq<char>, index: nat) -> int {
        if index <= text.len() {
            index as int
        } else {
            text.len() as int
        }
    }

    /// Builds the error for message `msg` at codepoint offset `index` of
    /// `text`.
    pub fn new(text: &Vec<char>, index: usize, msg: String) -> (e: RuleError)
        requires
            text@.len() < usize::MAX,
        ensures
            e.msg == msg,
            e.line as nat == spec_pos_of(text@.subrange(0, Self::spec_clamp(text@, index as nat))).0,
            e.col as nat == spec_pos_of(text@.subrange(0, Self::spec_clamp(text@, index as nat))).1,
    {
        let end = if index <= text.len() {
            index
        } else {
            text.len()
        };
        let pos = cursor_pos(text, end);
        RuleError { col: pos.col, line: pos.line, msg }
    }

    /// The rendered form of an error: `Error found at line L, column: C: M`.
    pub open spec fn spec_render(&self) -> Seq<char> {
        "Error found at line "@ + dec_digits(self.line as nat) + ", column: "@ + dec_digits(
            self.col as nat,
        ) + ": "@ + self.msg@
    }

    /// The error rendered as text, in the shape
    /// `Error found at line L, column: C: message`.
    pub fn render(&self) -> (s: String)
        ensures
            s@ == self.spec_render(),
    {
        let mut out = "Error found at line ".to_owned();
        append_usize(&mut out, self.line);
        out.append(", column: ");
        append_usize(&mut out, self.col);
        out.append(": ");
        out.append(self.msg.as_str());
        proof {
            assert(out@ =~= self.spec_render());
        }
        out
    }
}

/// The character for one decimal digit.
pub open spec fn digit_char(d: nat) -> char {
    if d == 0 {
        '0'
    } else if d == 1 {
        '1'
    } else if d == 2 {
        '2'
    } else if d == 3 {
        '3'
    } else if d == 4 {
        '4'
    } else if d == 5 {
        '5'
    } else if d == 6 {
        '6'
    } else if d == 7 {
        '7'
    } else if d == 8 {
        '8'
    } else {
        '9'
    }
}

/// The decimal digits of `n`, most significant first.
pub open spec fn dec_digits(n: nat) -> Seq<char>
    decreases n,
{
    if n < 10 {
        seq![digit_char(n)]
    } else {
        dec_digits(n / 10).push(digit_char(n % 10))
    }
}

/// The text of one decimal digit.
fn digit_str(d: usize) -> (s: &'static str)
    requires
        d < 10,
    ensures
        s@ =~= seq![digit_char(d as nat)],
{
    proof {
        reveal_strlit("0");
        reveal_strlit("1");
        reveal_strlit("2");
        reveal_strlit("3");
        reveal_strlit("4");
        reveal_strlit("5");
        reveal_strlit("6");
        reveal_strlit("7");
        reveal_strlit("8");
        reveal_strlit("9");
    }
    match d {
        0 => "0",
        1 => "1",
        2 => "2",
        3 => "3",
        4 => "4",
        5 => "5",
        6 => "6",
        7 => "7",
        8 => "8",
        _ => "9",
    }
}

/// Appends the decimal digits of `n` to `out`.
fn append_usize(out: &mut String, n: usize)
    ensures
        final(out)@ == old(out)@ + dec_digits(n as nat),
    decreases n,
{
    if n >= 10 {
        append_usize(out, n / 10);
        out.append(digit_str(n % 10));
        proof {
            assert(out@ =~= old(out)@ + dec_digits(n as nat));
        }
    } else {
        out.append(digit_str(n));
        proof {
            assert(out@ =~= old(out)@ + dec_digits(n as nat));
        }
    }
}

} // verus!
