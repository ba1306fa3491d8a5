//! What is copied between two rows: the raw text that neither of them shows.
use crate::lines;
use crate::lines::{push_chars, white_space};
use vstd::prelude::*;

verus! {

/// Whether `gap` holds anything but white space.
pub open spec fn inked(gap: Seq<char>) -> bool {
    exists|i: int| 0 <= i < gap.len() && !lines::is_white_space(#[trigger] gap[i])
}

/// Whether `gap` holds a paragraph break, two newlines in a row.
pub open spec fn has_break(gap: Seq<char>) -> bool {
    exists|i: int| 0 <= i < gap.len() - 1 && #[trigger] gap[i] == '\n' && gap[i + 1] == '\n'
}

/// What stands for `gap` in the copied text. Text and paragraph breaks stay as they are, any other
/// white space, or nothing at all, becomes one newline. Before the first row white space is left
/// out.
pub open spec fn gap_text(gap: Seq<char>, first: bool) -> Seq<char> {
    if inked(gap) {
        gap
    } else if first {
        Seq::empty()
    } else if has_break(gap) {
        gap
    } else {
        seq!['\n']
    }
}

/// Where the white space at the end of `gap` begins.
pub open spec fn tail_start(gap: Seq<char>, end: int) -> int
    decreases end,
{
    if end > 0 && lines::is_white_space(gap[end - 1]) {
        tail_start(gap, end - 1)
    } else {
        end
    }
}

/// What stands for a gap between two lines: of a gap that crosses a line only the white space at
/// its end counts.
pub open spec fn inter_gap_text(gap: Seq<char>, first: bool) -> Seq<char> {
    if gap.contains('\n') {
        gap_text(gap.subrange(tail_start(gap, gap.len() as int), gap.len() as int), first)
    } else {
        gap_text(gap, first)
    }
}

/// White space ends `gap` from `tail_start` on, and no earlier.
pub proof fn lemma_tail_start(gap: Seq<char>, end: int)
    requires
        0 <= end <= gap.len(),
    ensures
        0 <= tail_start(gap, end) <= end,
        forall|i: int| tail_start(gap, end) <= i < end ==> lines::is_white_space(#[trigger] gap[i]),
        tail_start(gap, end) > 0 ==> !lines::is_white_space(gap[tail_start(gap, end) - 1]),
    decreases end,
{
    if end > 0 && lines::is_white_space(gap[end - 1]) {
        lemma_tail_start(gap, end - 1);
    }
}

/// A gap that crosses a line is never copied with anything but white space: text between the
/// lines, such as a code fence, is dropped.
pub proof fn law_crossing_gap_is_white(gap: Seq<char>, first: bool)
    requires
        gap.contains('\n'),
    ensures
        !inked(inter_gap_text(gap, first)),
{
    lemma_tail_start(gap, gap.len() as int);
    let tail = gap.subrange(tail_start(gap, gap.len() as int), gap.len() as int);
    assert forall|i: int| 0 <= i < tail.len() implies lines::is_white_space(#[trigger] tail[i]) by {
        assert(tail[i] == gap[tail_start(gap, gap.len() as int) + i]);
    }
    assert(!inked(tail));
}

/// Between two rows at least something is copied: a gap that is not before the first row never
/// runs them together.
pub proof fn law_gap_separates(gap: Seq<char>)
    ensures
        gap_text(gap, false).len() > 0,
        inter_gap_text(gap, false).len() > 0,
{
}

/// Appends what stands for `gap`. `first_non_blank` says that no row has been copied yet.
pub fn emit_gap(out: &mut String, gap: &[char], first_non_blank: bool)
    ensures
        final(out)@ == old(out)@ + gap_text(gap@, first_non_blank),
{
    let mut paragraph: bool = false;
    let mut i: usize = 0;
    while i < gap.len()
        invariant
            i <= gap.len(),
            out@ == old(out)@,
            forall|j: int| 0 <= j < i ==> lines::is_white_space(#[trigger] gap@[j]),
            paragraph == (exists|j: int|
                0 <= j < i - 1 && #[trigger] gap@[j] == '\n' && gap@[j + 1] == '\n'),
        decreases gap.len() - i,
    {
        if !white_space(gap[i]) {
            assert(inked(gap@));
            push_chars(out, gap);
            return ;
        }
        if i > 0 && gap[i] == '\n' && gap[i - 1] == '\n' {
            assert(gap@[i - 1] == '\n' && gap@[(i - 1) + 1] == '\n');
            paragraph = true;
        }
        i += 1;
    }
    assert(!inked(gap@));
    assert(paragraph == has_break(gap@));
    if first_non_blank {
        assert(out@ =~= old(out)@ + gap_text(gap@, first_non_blank));
    } else if paragraph {
        push_chars(out, gap);
    } else {
        out.push('\n');
        assert(out@ =~= old(out)@ + seq!['\n']);
    }
}

/// Appends what stands for a gap between two lines: for the whole gap where it stays on one line,
/// and for the white space at its end where it crosses one. Text on one line is kept as it is;
/// white space alone becomes a newline, unless it holds a paragraph break.
pub fn emit_inter_gap(out: &mut String, gap: &[char], first_non_blank: bool)
    ensures
        final(out)@ == old(out)@ + inter_gap_text(gap@, first_non_blank),
{
    let mut crosses: bool = false;
    let mut i: usize = 0;
    while i < gap.len()
        invariant
            i <= gap.len(),
            crosses == (exists|j: int| 0 <= j < i && #[trigger] gap@[j] == '\n'),
        decreases gap.len() - i,
    {
        if gap[i] == '\n' {
            crosses = true;
        }
        i += 1;
    }
    assert(crosses == gap@.contains('\n'));
    if !crosses {
        emit_gap(out, gap, first_non_blank);
        return ;
    }
    let mut keep: usize = gap.len();
    while keep > 0 && white_space(gap[keep - 1])
        invariant
            keep <= gap.len(),
            tail_start(gap@, gap@.len() as int) == tail_start(gap@, keep as int),
        decreases keep,
    {
        keep -= 1;
    }
    emit_gap(out, vstd::slice::slice_subrange(gap, keep, gap.len()), first_non_blank);
}

} // verus!
