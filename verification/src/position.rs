use vstd::prelude::*;
use vstd::string::StrSliceExecFns;
use vstd::string::StringExecFns;

use crate::text::{all_blank, char_run, dec_digits, is_all_blank, pad_left, push_padded_dec,
    push_run};

verus! {

/// A byte/character range within one source line, used to anchor diagnostics
/// and to stamp every token and syntax-tree node. Columns are 1-based and
/// inclusive; a `start_column` of 0 means "before the first character".
#[derive(Debug, PartialEq)]
pub struct Position {
    pub line_number: usize,
    pub line_text: String,
    pub start_column: usize,
    pub end_column: usize,
}

pub ghost struct PosV {
    pub line_number: int,
    pub line_text: Seq<char>,
    pub start_column: int,
    pub end_column: int,
}

impl View for Position {
    type V = PosV;

    open spec fn view(&self) -> PosV {
        PosV {
            line_number: self.line_number as int,
            line_text: self.line_text@,
            start_column: self.start_column as int,
            end_column: self.end_column as int,
        }
    }
}

impl PosV {
    /// The column range lies within the line and the line number is 1-based.
    pub open spec fn wf(self) -> bool {
        &&& 1 <= self.line_number
        &&& 0 <= self.start_column <= self.end_column <= self.line_text.len()
    }
}

/// The substitute shown for an emphasised slice that holds only blanks: a
/// run of box-drawing dashes ending in an arrow head, of the slice's length
/// (never shorter than the arrow head itself).
pub open spec fn blank_filler(n: int) -> Seq<char> {
    char_run('\u{2500}', if n <= 1 { 0 } else { n - 1 }) + ">"@
}

/// The emphasised form of the referenced slice: the slice itself, or a
/// visible filler when the slice is entirely blank.
pub open spec fn spec_mark(p: PosV) -> Seq<char> {
    let s1 = if p.start_column <= 0 { 0 } else { p.start_column - 1 };
    let raw = p.line_text.subrange(s1, p.end_column);
    if all_blank(raw) {
        blank_filler(raw.len() as int)
    } else {
        raw
    }
}

/// The two-line "gutter + underline" rendering of a position: a line-number
/// gutter, the full source line with the referenced slice emphasised, and a
/// second gutter line carrying `^` marks aligned under the slice.
pub open spec fn spec_render(p: PosV) -> Seq<char> {
    let s1 = if p.start_column <= 0 { 0 } else { p.start_column - 1 };
    "\n      \u{2502}\n"@
        + pad_left(dec_digits(p.line_number), 5)
        + " \u{2502} "@
        + p.line_text.subrange(0, s1)
        + spec_mark(p)
        + p.line_text.subrange(p.end_column, p.line_text.len() as int)
        + "\n      \u{2502}"@
        + char_run(' ', if p.start_column < 1 { 1 } else { p.start_column })
        + char_run('^', p.end_column - p.start_column + 1)
}

impl Clone for Position {
    fn clone(&self) -> (p: Self)
        ensures
            p@ == self@,
    {
        Position {
            line_number: self.line_number,
            line_text: self.line_text.clone(),
            start_column: self.start_column,
            end_column: self.end_column,
        }
    }
}

impl Position {
    pub fn new(line_number: usize, line_text: String, start_column: usize, end_column: usize)
        -> (p: Position)
        ensures
            p == (Position { line_number, line_text, start_column, end_column }),
    {
        Position { line_number, line_text, start_column, end_column }
    }

    /// Renders the position for a diagnostic message: never panics and never
    /// mutates the position, and its output depends on the position alone.
    pub fn render(&self) -> (r: String)
        requires
            self@.wf(),
        ensures
            r@ == spec_render(self@),
    {
        let line = self.line_text.as_str();
        let len = line.unicode_len();
        let s1: usize = if self.start_column == 0 { 0 } else { self.start_column - 1 };
        let mut r = String::new();
        r.append("\n      \u{2502}\n");
        push_padded_dec(&mut r, self.line_number, 5);
        r.append(" \u{2502} ");
        r.append(line.substring_char(0, s1));
        let raw = line.substring_char(s1, self.end_column);
        if is_all_blank(raw) {
            let rawlen = raw.unicode_len();
            if rawlen > 1 {
                proof {
                    reveal_strlit("\u{2500}");
                }
                push_run(&mut r, "\u{2500}", rawlen - 1);
            }
            r.append(">");
        } else {
            r.append(raw);
        }
        r.append(line.substring_char(self.end_column, len));
        r.append("\n      \u{2502}");
        let lead: usize = if self.start_column == 0 { 1 } else { self.start_column };
        proof {
            reveal_strlit(" ");
            reveal_strlit("^");
            reveal_strlit(">");
        }
        push_run(&mut r, " ", lead);
        push_run(&mut r, "^", self.end_column - self.start_column);
        r.append("^");
        proof {
            assert(char_run('^', self.end_column - self.start_column + 1)
                =~= char_run('^', self.end_column as int - self.start_column as int) + "^"@);
            assert(r@ =~= spec_render(self@));
        }
        r
    }
}

/// Law: rendering depends on the position alone, so rendering the same
/// position twice yields byte-identical output.
pub proof fn lemma_render_deterministic(p1: Position, p2: Position, r1: Seq<char>, r2: Seq<char>)
    requires
        p1@ == p2@,
        r1 == spec_render(p1@),
        r2 == spec_render(p2@),
    ensures
        r1 == r2,
{
}

} // verus!
