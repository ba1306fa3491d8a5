//! Finding drawn text in the raw markdown it was rendered from.
use vstd::prelude::*;

verus! {

/// The first place at or behind `from` where `raw` holds `c`, or the end of `raw`.
pub open spec fn first_place(raw: Seq<char>, from: int, c: char) -> int
    decreases raw.len() - from,
{
    if from >= raw.len() {
        raw.len() as int
    } else if raw[from] == c {
        from
    } else {
        first_place(raw, from + 1, c)
    }
}

/// The position behind the last of `places`, or `pos` where there is none.
pub open spec fn behind(places: Seq<int>, pos: int) -> int {
    if places.len() == 0 {
        pos
    } else {
        places.last() + 1
    }
}

/// Where the characters of `text` are found in `raw` from `pos` on, each at the first place behind
/// the one before it; `None` where one of them is not found.
pub open spec fn places(raw: Seq<char>, pos: int, text: Seq<char>) -> Option<Seq<int>>
    decreases text.len(),
{
    if text.len() == 0 {
        Some(Seq::empty())
    } else {
        match places(raw, pos, text.drop_last()) {
            None => None,
            Some(before) => {
                let i = first_place(raw, behind(before, pos), text.last());
                if i < raw.len() {
                    Some(before.push(i))
                } else {
                    None
                }
            },
        }
    }
}

/// The characters of a drawn text, without their columns.
pub open spec fn bare(text: Seq<(u16, char)>) -> Seq<char> {
    Seq::new(text.len(), |i: int| text[i].1)
}

/// The column, index and raw position of each drawn character.
pub open spec fn match_triples(text: Seq<(u16, char)>, found: Seq<int>) -> Seq<(int, int, int)> {
    Seq::new(text.len(), |i: int| (text[i].0 as int, i, found[i]))
}

/// The numbers of a list of matches.
pub open spec fn triples(m: Seq<(u16, usize, usize)>) -> Seq<(int, int, int)> {
    Seq::new(m.len(), |i: int| (m[i].0 as int, m[i].1 as int, m[i].2 as int))
}

/// `found` puts the characters of `text` in order into `raw`, from `pos` on.
pub open spec fn is_embedding(
    raw: Seq<char>,
    pos: int,
    text: Seq<char>,
    found: Seq<int>,
) -> bool {
    &&& found.len() == text.len()
    &&& forall|i: int|
        0 <= i < found.len() ==> pos <= #[trigger] found[i] < raw.len() && raw[found[i]] == text[i]
    &&& forall|i: int, j: int| 0 <= i < j < found.len() ==> found[i] < found[j]
}

proof fn lemma_first_place(raw: Seq<char>, from: int, c: char)
    requires
        0 <= from,
    ensures
        first_place(raw, from, c) <= raw.len(),
        first_place(raw, from, c) < raw.len() ==> from <= first_place(raw, from, c)
            && raw[first_place(raw, from, c)] == c,
        forall|i: int| from <= i < raw.len() && raw[i] == c ==> first_place(raw, from, c) <= i,
    decreases raw.len() - from,
{
    if from < raw.len() && raw[from] != c {
        lemma_first_place(raw, from + 1, c);
    }
}

/// Where the text is found, it is found in order, at places no later than those of any other way
/// to put it into `raw`; where it is not found, there is no way.
pub proof fn law_places_least(raw: Seq<char>, pos: int, text: Seq<char>, other: Seq<int>)
    requires
        0 <= pos,
    ensures
        places(raw, pos, text) matches Some(found) ==> is_embedding(raw, pos, text, found),
        is_embedding(raw, pos, text, other) ==> {
            &&& places(raw, pos, text) matches Some(found)
            &&& forall|i: int| 0 <= i < text.len() ==> #[trigger] found[i] <= other[i]
        },
    decreases text.len(),
{
    if text.len() > 0 {
        let head = text.drop_last();
        let n = head.len() as int;
        let shorter = other.take(n);
        law_places_least(raw, pos, head, shorter);
        if let Some(before) = places(raw, pos, head) {
            lemma_first_place(raw, behind(before, pos), text.last());
        }
        if is_embedding(raw, pos, text, other) {
            assert(is_embedding(raw, pos, head, shorter)) by {
                assert forall|i: int| 0 <= i < shorter.len() implies pos <= #[trigger] shorter[i]
                    < raw.len() && raw[shorter[i]] == head[i] by {
                    assert(shorter[i] == other[i]);
                }
            }
            let before = places(raw, pos, head).unwrap();
            assert(pos <= other[n] < raw.len() && raw[other[n]] == text.last());
            if n > 0 {
                assert(before[n - 1] <= shorter[n - 1]);
                assert(other[n - 1] < other[n]);
            }
            assert(behind(before, pos) <= other[n]);
            assert forall|i: int| 0 <= i < text.len() implies #[trigger] places(
                raw,
                pos,
                text,
            ).unwrap()[i] <= other[i] by {
                if i < n {
                    assert(before[i] <= shorter[i]);
                }
            }
        }
    }
}

/// A text whose beginning is not found is not found.
proof fn lemma_places_prefix(raw: Seq<char>, pos: int, text: Seq<char>, n: int)
    requires
        0 <= n <= text.len(),
        places(raw, pos, text.take(n)) is None,
    ensures
        places(raw, pos, text) is None,
    decreases text.len() - n,
{
    if n < text.len() {
        assert(text.take(n + 1).drop_last() =~= text.take(n));
        lemma_places_prefix(raw, pos, text, n + 1);
    } else {
        assert(text.take(n) =~= text);
    }
}

/// Finds the drawn characters in `raw` from `raw_pos` on, each at the first place behind the one
/// before it. Returns the column, index and place of each, and the position behind the last. All
/// or nothing: where one is not found, nothing is matched and the position stays.
pub fn match_subsequence(
    raw: &[char],
    raw_pos: usize,
    rendered: &[(u16, char)],
) -> (r: (Vec<(u16, usize, usize)>, usize))
    ensures
        match places(raw@, raw_pos as int, bare(rendered@)) {
            Some(found) => {
                &&& triples(r.0@) == match_triples(rendered@, found)
                &&& r.1 == behind(found, raw_pos as int)
            },
            None => r.0@.len() == 0 && r.1 == raw_pos,
        },
{
    let mut matches: Vec<(u16, usize, usize)> = Vec::with_capacity(rendered.len());
    let mut rp: usize = raw_pos;
    let mut ri: usize = 0;
    let ghost text = bare(rendered@);
    let ghost mut found: Seq<int> = Seq::empty();
    assert(text.take(0) =~= Seq::empty());
    while ri < rendered.len()
        invariant
            ri <= rendered.len(),
            text == bare(rendered@),
            places(raw@, raw_pos as int, text.take(ri as int)) == Some(found),
            found.len() == ri,
            matches@.len() == ri,
            rp == behind(found, raw_pos as int),
            triples(matches@) == match_triples(rendered@.take(ri as int), found),
        decreases rendered.len() - ri,
    {
        let (screen_col, ch) = rendered[ri];
        let ghost start = rp;
        while rp < raw.len() && raw[rp] != ch
            invariant
                start <= rp,
                rp <= raw.len() || rp == start,
                first_place(raw@, rp as int, ch) == first_place(raw@, start as int, ch),
            decreases raw.len() - rp,
        {
            rp += 1;
        }
        assert(text.take(ri + 1).drop_last() =~= text.take(ri as int));
        if rp >= raw.len() {
            proof {
                lemma_places_prefix(raw@, raw_pos as int, text, ri + 1);
            }
            return (Vec::new(), raw_pos);
        }
        let ghost before = matches@;
        matches.push((screen_col, ri, rp));
        proof {
            let grown = found.push(rp as int);
            assert forall|i: int| 0 <= i < ri + 1 implies triples(matches@)[i] == match_triples(
                rendered@.take(ri + 1),
                grown,
            )[i] by {
                if i < ri {
                    assert(triples(matches@)[i] == triples(before)[i]);
                    assert(triples(before)[i] == match_triples(rendered@.take(ri as int), found)[i]);
                }
            }
            assert(triples(matches@) =~= match_triples(rendered@.take(ri + 1), grown));
            found = grown;
        }
        rp += 1;
        ri += 1;
    }
    assert(text.take(ri as int) =~= text);
    assert(rendered@.take(ri as int) =~= rendered@);
    (matches, rp)
}

} // verus!
