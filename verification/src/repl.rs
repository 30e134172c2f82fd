//! What an interactive session does with each line that it reads.
//!
//! A session reads a line, and more lines for as long as the line before
//! ended with a backslash; the lines together, without the backslashes, are
//! one input to evaluate. Blanks at the end of a line do not count.

use vstd::prelude::*;
use crate::lexer::chars_of;
use crate::text::push_char;

verus! {

/// What to do after a line was read.
#[derive(Debug, PartialEq, Eq)]
pub enum ReplStep {
    /// The line was empty: read another one.
    Skip,
    /// The line ended with a backslash: read a line that continues the input
    /// so far, which is held here.
    Continue(String),
    /// The input is complete: evaluate it.
    Evaluate(String),
}

/// The mathematical value of a [`ReplStep`].
pub ghost enum ReplStepModel {
    Skip,
    Continue(Seq<char>),
    Evaluate(Seq<char>),
}

impl View for ReplStep {
    type V = ReplStepModel;

    open spec fn view(&self) -> ReplStepModel {
        match self {
            ReplStep::Skip => ReplStepModel::Skip,
            ReplStep::Continue(input) => ReplStepModel::Continue(input@),
            ReplStep::Evaluate(input) => ReplStepModel::Evaluate(input@),
        }
    }
}

/// A line without the blanks at its end.
pub open spec fn without_trailing_blanks(line: Seq<char>) -> Seq<char>
    decreases line.len(),
{
    if line.len() > 0 && line.last() == ' ' {
        without_trailing_blanks(line.drop_last())
    } else {
        line
    }
}

/// What to do after `line` was read, where `pending` is the input of the
/// lines before that it continues; `continuing` says whether it continues
/// any. An empty first line is skipped. A line that ends with a backslash
/// adds what stands before the backslash to the input and asks for more. Any
/// other line completes the input.
pub open spec fn next_step(pending: Seq<char>, line: Seq<char>, continuing: bool)
    -> ReplStepModel {
    let text = without_trailing_blanks(line);
    if !continuing && text.len() == 0 {
        ReplStepModel::Skip
    } else if text.len() > 0 && text.last() == '\\' {
        ReplStepModel::Continue(pending + text.drop_last())
    } else {
        ReplStepModel::Evaluate(pending + text)
    }
}

/// What to do after `line` was read.
pub fn read_step(pending: String, line: &str, continuing: bool) -> (step: ReplStep)
    ensures
        step@ == next_step(pending@, line@, continuing),
{
    let chars = chars_of(line);
    // leave out the blanks at the end
    let mut end = chars.len();
    assert(chars@.subrange(0, end as int) =~= chars@);
    while end > 0 && chars[end - 1] == ' '
        invariant
            end <= chars@.len(),
            without_trailing_blanks(chars@) == without_trailing_blanks(
                chars@.subrange(0, end as int),
            ),
        decreases end,
    {
        proof {
            let shorter = chars@.subrange(0, end as int);
            assert(shorter.drop_last() =~= chars@.subrange(0, end - 1));
        }
        end -= 1;
    }
    let ghost text = chars@.subrange(0, end as int);
    assert(without_trailing_blanks(chars@) == text);
    if !continuing && end == 0 {
        return ReplStep::Skip;
    }
    let more = end > 0 && chars[end - 1] == '\\';
    let stop = if more {
        end - 1
    } else {
        end
    };
    let mut input = pending;
    let mut i: usize = 0;
    while i < stop
        invariant
            i <= stop <= end <= chars@.len(),
            input@ == pending@ + chars@.subrange(0, i as int),
        decreases stop - i,
    {
        push_char(&mut input, chars[i]);
        i += 1;
        assert(input@ =~= pending@ + chars@.subrange(0, i as int));
    }
    if more {
        assert(text.drop_last() =~= chars@.subrange(0, stop as int));
        ReplStep::Continue(input)
    } else {
        ReplStep::Evaluate(input)
    }
}

} // verus!
