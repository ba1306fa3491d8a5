//! The markdown tokens that a renderer leaves out: emphasis, code and list markers.
use crate::lines;
use crate::lines::digit;
use vstd::prelude::*;

verus! {

/// Whether `raw` holds `c` twice at `i`, before `bound`.
pub open spec fn twice(raw: Seq<char>, i: int, bound: int, c: char) -> bool {
    i + 2 <= bound && raw[i] == c && raw[i + 1] == c
}

/// Whether a code fence, three backticks, stands at `i`, before `bound`.
pub open spec fn fence(raw: Seq<char>, i: int, bound: int) -> bool {
    i + 3 <= bound && raw[i] == '`' && raw[i + 1] == '`' && raw[i + 2] == '`'
}

/// The length of the token at `i` that can close a span of text, or 0 where there is none.
pub open spec fn closing_token(raw: Seq<char>, i: int, bound: int) -> int {
    if fence(raw, i, bound) {
        3
    } else if twice(raw, i, bound, '*') || twice(raw, i, bound, '_') || twice(raw, i, bound, '~') {
        2
    } else if i < bound && (raw[i] == '`' || raw[i] == '*' || raw[i] == '_') {
        1
    } else {
        0
    }
}

/// The position behind the closing tokens that follow `pos`, before `bound`. A single newline
/// before a token is passed over; a paragraph break or any other character ends the run.
pub open spec fn closing_end(raw: Seq<char>, pos: int, bound: int) -> int
    decreases bound - pos,
{
    if pos >= bound {
        pos
    } else {
        let i = if raw[pos] == '\n' {
            pos + 1
        } else {
            pos
        };
        let n = closing_token(raw, i, bound);
        if n == 0 {
            pos
        } else {
            closing_end(raw, i + n, bound)
        }
    }
}

/// The first position at or behind `pos`, at most `bound`, that does not hold `c`.
pub open spec fn skip_over(raw: Seq<char>, pos: int, bound: int, c: char) -> int
    decreases bound - pos,
{
    if pos < bound && raw[pos] == c {
        skip_over(raw, pos + 1, bound, c)
    } else {
        pos
    }
}

/// The position behind the digits at `pos`, at most `bound`.
pub open spec fn skip_digits(raw: Seq<char>, pos: int, bound: int) -> int
    decreases bound - pos,
{
    if pos < bound && lines::is_digit(raw[pos]) {
        skip_digits(raw, pos + 1, bound)
    } else {
        pos
    }
}

/// Whether a heading or bullet character and a space stand at `i`, before `bound`.
pub open spec fn marker(raw: Seq<char>, i: int, bound: int) -> bool {
    &&& i + 2 <= bound
    &&& raw[i] == '#' || raw[i] == '-' || raw[i] == '*' || raw[i] == '+'
    &&& raw[i + 1] == ' '
}

/// The length of the token at `i` that can open a line or a span of text, or 0 where there is
/// none.
pub open spec fn opening_token(raw: Seq<char>, i: int, bound: int) -> int {
    let j = skip_digits(raw, i, bound);
    if fence(raw, i, bound) {
        3
    } else if twice(raw, i, bound, '*') || twice(raw, i, bound, '_') || twice(raw, i, bound, '~') {
        2
    } else if i < bound && raw[i] == '`' {
        1
    } else if marker(raw, i, bound) {
        2
    } else if i < bound && (raw[i] == '*' || raw[i] == '_') {
        1
    } else if i < j && j + 2 <= bound && raw[j] == '.' && raw[j + 1] == ' ' {
        j - i + 2
    } else {
        0
    }
}

/// Where the next token is looked for from `pos` on: behind newlines, and behind the indent of
/// the line they lead to.
pub open spec fn token_start(raw: Seq<char>, pos: int, bound: int) -> int {
    let i = skip_over(raw, pos, bound, '\n');
    if i > pos {
        skip_over(raw, i, bound, ' ')
    } else {
        i
    }
}

/// The position behind the opening tokens that follow `pos`, before `bound`.
pub open spec fn opening_end(raw: Seq<char>, pos: int, bound: int) -> int
    decreases bound - pos,
{
    if pos >= bound {
        pos
    } else {
        proof {
            lemma_token_start(raw, pos, bound);
            lemma_skip_digits(raw, token_start(raw, pos, bound), bound);
        }
        let i = token_start(raw, pos, bound);
        let n = opening_token(raw, i, bound);
        if n == 0 {
            pos
        } else {
            opening_end(raw, i + n, bound)
        }
    }
}

/// A run of one character ends at or behind where it begins, within the bound.
pub proof fn lemma_skip_over(raw: Seq<char>, pos: int, bound: int, c: char)
    requires
        pos <= bound,
    ensures
        pos <= skip_over(raw, pos, bound, c) <= bound,
    decreases bound - pos,
{
    if pos < bound && raw[pos] == c {
        lemma_skip_over(raw, pos + 1, bound, c);
    }
}

/// A run of digits ends at or behind where it begins, within the bound.
pub proof fn lemma_skip_digits(raw: Seq<char>, pos: int, bound: int)
    requires
        pos <= bound,
    ensures
        pos <= skip_digits(raw, pos, bound) <= bound,
    decreases bound - pos,
{
    if pos < bound && lines::is_digit(raw[pos]) {
        lemma_skip_digits(raw, pos + 1, bound);
    }
}

/// A token is looked for at or behind the position, within the bound.
pub proof fn lemma_token_start(raw: Seq<char>, pos: int, bound: int)
    requires
        pos <= bound,
    ensures
        pos <= token_start(raw, pos, bound) <= bound,
{
    lemma_skip_over(raw, pos, bound, '\n');
    lemma_skip_over(raw, skip_over(raw, pos, bound, '\n'), bound, ' ');
}

/// A scan for closing tokens never goes back and never passes its bound, and what it stops at is
/// no closing token: scanning again from there finds nothing more.
pub proof fn law_closing_end(raw: Seq<char>, pos: int, bound: int)
    ensures
        pos <= closing_end(raw, pos, bound),
        pos <= bound ==> closing_end(raw, pos, bound) <= bound,
        closing_end(raw, closing_end(raw, pos, bound), bound) == closing_end(raw, pos, bound),
    decreases bound - pos,
{
    if pos < bound {
        let i = if raw[pos] == '\n' {
            pos + 1
        } else {
            pos
        };
        let n = closing_token(raw, i, bound);
        if n != 0 {
            law_closing_end(raw, i + n, bound);
        }
    }
}

/// A scan for opening tokens never goes back and never passes its bound, and scanning again from
/// where it stops finds nothing more.
pub proof fn law_opening_end(raw: Seq<char>, pos: int, bound: int)
    ensures
        pos <= opening_end(raw, pos, bound),
        pos <= bound ==> opening_end(raw, pos, bound) <= bound,
        opening_end(raw, opening_end(raw, pos, bound), bound) == opening_end(raw, pos, bound),
    decreases bound - pos,
{
    if pos < bound {
        lemma_token_start(raw, pos, bound);
        let i = token_start(raw, pos, bound);
        lemma_skip_digits(raw, i, bound);
        if opening_token(raw, i, bound) != 0 {
            law_opening_end(raw, i + opening_token(raw, i, bound), bound);
        }
    }
}

/// A scan that stops at `end` stops there under every bound from `end` up to the one it had.
pub proof fn law_closing_end_bound(raw: Seq<char>, pos: int, bound: int, tighter: int)
    requires
        closing_end(raw, pos, bound) <= tighter <= bound,
    ensures
        closing_end(raw, pos, tighter) == closing_end(raw, pos, bound),
    decreases bound - pos,
{
    law_closing_end(raw, pos, bound);
    if pos < tighter {
        let i = if raw[pos] == '\n' {
            pos + 1
        } else {
            pos
        };
        let n = closing_token(raw, i, bound);
        if n != 0 {
            law_closing_end(raw, i + n, bound);
            assert(closing_token(raw, i, tighter) == n);
            law_closing_end_bound(raw, i + n, bound, tighter);
        }
    }
}

/// Whether `c` stands twice at `i`, before `bound`.
fn stands_twice(raw: &[char], i: usize, bound: usize, c: char) -> (r: bool)
    requires
        i <= bound <= raw.len(),
    ensures
        r == twice(raw@, i as int, bound as int, c),
{
    bound - i >= 2 && raw[i] == c && raw[i + 1] == c
}

/// Whether a code fence stands at `i`, before `bound`.
fn stands_fence(raw: &[char], i: usize, bound: usize) -> (r: bool)
    requires
        i <= bound <= raw.len(),
    ensures
        r == fence(raw@, i as int, bound as int),
{
    bound - i >= 3 && raw[i] == '`' && raw[i + 1] == '`' && raw[i + 2] == '`'
}

/// The position behind the closing tokens that follow `pos`, or `pos` where there is none. Stops
/// at a paragraph break, at any other character and at `bound`.
pub fn scan_closing_syntax(raw: &[char], pos: usize, bound: usize) -> (end: usize)
    requires
        pos < bound ==> bound <= raw.len(),
    ensures
        end == closing_end(raw@, pos as int, bound as int),
{
    let mut end: usize = pos;
    while end < bound
        invariant
            pos < bound ==> bound <= raw.len(),
            pos <= end,
            closing_end(raw@, end as int, bound as int) == closing_end(
                raw@,
                pos as int,
                bound as int,
            ),
        decreases bound - end,
    {
        let i: usize = if raw[end] == '\n' {
            end + 1
        } else {
            end
        };
        let n: usize = if stands_fence(raw, i, bound) {
            3
        } else if stands_twice(raw, i, bound, '*') || stands_twice(raw, i, bound, '_')
            || stands_twice(raw, i, bound, '~') {
            2
        } else if i < bound && (raw[i] == '`' || raw[i] == '*' || raw[i] == '_') {
            1
        } else {
            return end;
        };
        end = i + n;
    }
    end
}

/// The position behind the run of `c` at `pos`, at most `bound`.
fn skip_run(raw: &[char], pos: usize, bound: usize, c: char) -> (r: usize)
    requires
        pos <= bound <= raw.len(),
    ensures
        r == skip_over(raw@, pos as int, bound as int, c),
        pos <= r <= bound,
{
    let mut i: usize = pos;
    while i < bound && raw[i] == c
        invariant
            pos <= i <= bound <= raw.len(),
            skip_over(raw@, i as int, bound as int, c) == skip_over(
                raw@,
                pos as int,
                bound as int,
                c,
            ),
        decreases bound - i,
    {
        i += 1;
    }
    i
}

/// The length of the opening token at `i`, or 0 where there is none.
fn opening_length(raw: &[char], i: usize, bound: usize) -> (n: usize)
    requires
        i <= bound <= raw.len(),
    ensures
        n == opening_token(raw@, i as int, bound as int),
        i + n <= bound,
{
    if stands_fence(raw, i, bound) {
        return 3;
    }
    if stands_twice(raw, i, bound, '*') || stands_twice(raw, i, bound, '_') || stands_twice(
        raw,
        i,
        bound,
        '~',
    ) {
        return 2;
    }
    if i == bound {
        return 0;
    }
    let first: char = raw[i];
    if first == '`' {
        return 1;
    }
    if (first == '#' || first == '-' || first == '*' || first == '+') && bound - i >= 2 && raw[i + 1]
        == ' ' {
        return 2;
    }
    if first == '*' || first == '_' {
        return 1;
    }
    let mut j: usize = i;
    while j < bound && digit(raw[j])
        invariant
            i <= j <= bound <= raw.len(),
            skip_digits(raw@, j as int, bound as int) == skip_digits(
                raw@,
                i as int,
                bound as int,
            ),
        decreases bound - j,
    {
        j += 1;
    }
    if i < j && bound - j >= 2 && raw[j] == '.' && raw[j + 1] == ' ' {
        (j - i) + 2
    } else {
        0
    }
}

/// The position behind the opening tokens that follow `pos`, or `pos` where there is none.
pub fn scan_opening_syntax(raw: &[char], pos: usize, bound: usize) -> (end: usize)
    requires
        pos < bound ==> bound <= raw.len(),
    ensures
        end == opening_end(raw@, pos as int, bound as int),
{
    let mut end: usize = pos;
    while end < bound
        invariant
            pos < bound ==> bound <= raw.len(),
            pos <= end,
            opening_end(raw@, end as int, bound as int) == opening_end(
                raw@,
                pos as int,
                bound as int,
            ),
        decreases bound - end,
    {
        let mut i: usize = skip_run(raw, end, bound, '\n');
        if i > end {
            i = skip_run(raw, i, bound, ' ');
        }
        let n: usize = opening_length(raw, i, bound);
        if n == 0 {
            return end;
        }
        end = i + n;
    }
    end
}

} // verus!
