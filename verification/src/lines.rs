//! Characters and lines of the raw markdown, as a sequence of `char`.
use vstd::prelude::*;

verus! {

/// `String::push` puts one character behind the last.
pub assume_specification[ String::push ](s: &mut String, c: char)
    ensures
        final(s)@ == old(s)@.push(c),
;

/// `String::pop` takes the last character away and returns it; an empty string stays empty and
/// gives `None`.
pub assume_specification[ String::pop ](s: &mut String) -> (r: Option<char>)
    ensures
        old(s)@.len() == 0 ==> r is None && final(s)@ == old(s)@,
        old(s)@.len() > 0 ==> r == Some(old(s)@.last()) && final(s)@ == old(s)@.drop_last(),
;

/// The characters with Unicode's `White_Space` property.
pub open spec fn is_white_space(c: char) -> bool {
    let n = c as u32;
    ||| 0x9 <= n <= 0xd
    ||| n == 0x20
    ||| n == 0x85
    ||| n == 0xa0
    ||| n == 0x1680
    ||| 0x2000 <= n <= 0x200a
    ||| n == 0x2028
    ||| n == 0x2029
    ||| n == 0x202f
    ||| n == 0x205f
    ||| n == 0x3000
}

/// Whether `c` is white space.
pub fn white_space(c: char) -> (r: bool)
    ensures
        r == is_white_space(c),
{
    let n = c as u32;
    (0x9 <= n && n <= 0xd) || n == 0x20 || n == 0x85 || n == 0xa0 || n == 0x1680 || (0x2000 <= n
        && n <= 0x200a) || n == 0x2028 || n == 0x2029 || n == 0x202f || n == 0x205f || n == 0x3000
}

/// `0` to `9`.
pub open spec fn is_digit(c: char) -> bool {
    '0' <= c && c <= '9'
}

/// Whether `c` is an ASCII digit.
pub fn digit(c: char) -> (r: bool)
    ensures
        r == is_digit(c),
{
    '0' <= c && c <= '9'
}

/// Whether a line begins at `pos`.
pub open spec fn at_line_start(raw: Seq<char>, pos: int) -> bool {
    pos == 0 || raw[pos - 1] == '\n'
}

/// Where the line through `pos` ends: the first newline at or behind `pos`, or the end of `raw`.
pub open spec fn line_end(raw: Seq<char>, pos: int) -> int
    decreases raw.len() - pos,
{
    if pos >= raw.len() {
        raw.len() as int
    } else if raw[pos] == '\n' {
        pos
    } else {
        line_end(raw, pos + 1)
    }
}

/// Where the line through `pos` begins: behind the last newline before `pos`, or at 0.
pub open spec fn line_start(raw: Seq<char>, pos: int) -> int
    decreases pos,
{
    if pos <= 0 {
        0
    } else if raw[pos - 1] == '\n' {
        pos
    } else {
        line_start(raw, pos - 1)
    }
}

/// The line through `pos` ends at or behind `pos`, at a newline or at the end, and holds no
/// newline in between.
pub proof fn lemma_line_end(raw: Seq<char>, pos: int)
    requires
        0 <= pos <= raw.len(),
    ensures
        pos <= line_end(raw, pos) <= raw.len(),
        line_end(raw, pos) < raw.len() ==> raw[line_end(raw, pos)] == '\n',
        forall|i: int| pos <= i < line_end(raw, pos) ==> raw[i] != '\n',
    decreases raw.len() - pos,
{
    if pos < raw.len() && raw[pos] != '\n' {
        lemma_line_end(raw, pos + 1);
    }
}

/// The line through `pos` begins at or before `pos`, at 0 or behind a newline, and holds no
/// newline in between.
pub proof fn lemma_line_start(raw: Seq<char>, pos: int)
    requires
        0 <= pos <= raw.len(),
    ensures
        0 <= line_start(raw, pos) <= pos,
        at_line_start(raw, line_start(raw, pos)),
        forall|i: int| line_start(raw, pos) <= i < pos ==> raw[i] != '\n',
    decreases pos,
{
    if pos > 0 && raw[pos - 1] != '\n' {
        lemma_line_start(raw, pos - 1);
    }
}

/// A line end is the end of the line of every position on the way to it.
pub proof fn lemma_line_end_same(raw: Seq<char>, p: int, q: int)
    requires
        0 <= p <= q <= line_end(raw, p),
        p <= raw.len(),
    ensures
        line_end(raw, q) == line_end(raw, p),
    decreases q - p,
{
    lemma_line_end(raw, p);
    if p < q {
        lemma_line_end_same(raw, p + 1, q);
    }
}

/// Later positions have later line ends.
pub proof fn lemma_line_end_monotone(raw: Seq<char>, p: int, q: int)
    requires
        0 <= p <= q <= raw.len(),
    ensures
        line_end(raw, p) <= line_end(raw, q),
{
    lemma_line_end(raw, p);
    lemma_line_end(raw, q);
    if q <= line_end(raw, p) {
        lemma_line_end_same(raw, p, q);
    }
}

/// The end of the line through `pos`.
pub fn find_line_end(raw: &[char], pos: usize) -> (r: usize)
    requires
        pos <= raw.len(),
    ensures
        r == line_end(raw@, pos as int),
{
    let mut i: usize = pos;
    while i < raw.len() && raw[i] != '\n'
        invariant
            pos <= i <= raw.len(),
            line_end(raw@, i as int) == line_end(raw@, pos as int),
        decreases raw.len() - i,
    {
        i += 1;
    }
    i
}

/// The start of the line through `pos`.
pub fn find_line_start(raw: &[char], pos: usize) -> (r: usize)
    requires
        pos <= raw.len(),
    ensures
        r == line_start(raw@, pos as int),
{
    let mut i: usize = pos;
    while i > 0 && raw[i - 1] != '\n'
        invariant
            i <= pos <= raw.len(),
            line_start(raw@, i as int) == line_start(raw@, pos as int),
        decreases i,
    {
        i -= 1;
    }
    i
}

/// `s` without the spaces at its end.
pub open spec fn trim_spaces(s: Seq<char>) -> Seq<char>
    decreases s.len(),
{
    if s.len() > 0 && s.last() == ' ' {
        trim_spaces(s.drop_last())
    } else {
        s
    }
}

/// Takes the spaces off the end of `out`.
pub fn trim_trailing_spaces(out: &mut String)
    ensures
        final(out)@ == trim_spaces(old(out)@),
{
    loop
        invariant_except_break
            trim_spaces(out@) == trim_spaces(old(out)@),
        ensures
            out@ == trim_spaces(old(out)@),
        decreases out@.len(),
    {
        let ghost before = out@;
        match out.pop() {
            Some(c) => {
                if c != ' ' {
                    out.push(c);
                    assert(out@ =~= before);
                    break ;
                }
            },
            None => {
                break ;
            },
        }
    }
}

/// Appends the characters of `piece` to `out`.
pub fn push_chars(out: &mut String, piece: &[char])
    ensures
        final(out)@ == old(out)@ + piece@,
{
    let mut i: usize = 0;
    while i < piece.len()
        invariant
            i <= piece.len(),
            out@ == old(out)@ + piece@.subrange(0, i as int),
        decreases piece.len() - i,
    {
        out.push(piece[i]);
        i += 1;
        assert(piece@.subrange(0, i as int) =~= piece@.subrange(0, i - 1).push(piece@[i - 1]));
    }
    assert(piece@.subrange(0, i as int) =~= piece@);
}

/// The characters of `s`, in order.
pub fn chars_of(s: &str) -> (r: Vec<char>)
    ensures
        r@ == s@,
{
    let mut r: Vec<char> = Vec::new();
    for c in it: s.chars()
        invariant
            r@ == it.seq().subrange(0, it.index()),
            it.seq() == s@,
    {
        r.push(c);
    }
    assert(r@ =~= s@);
    r
}

} // verus!
