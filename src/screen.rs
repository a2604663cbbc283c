use vstd::prelude::*;

use crate::text::{chars_of, string_from_chars, trim, trim_end, trim_vec, is_whitespace};

verus! {

/// The text of one screen row from its cells' characters: trailing blanks dropped.
pub fn row_text(cells: &Vec<char>) -> (r: String)
    ensures
        r@ == trim_end(cells@),
{
    let mut j: usize = cells.len();
    assert(cells@.subrange(0, j as int) =~= cells@);
    while j > 0 && is_whitespace(cells[j - 1])
        invariant
            j <= cells@.len(),
            trim_end(cells@) == trim_end(cells@.subrange(0, j as int)),
        decreases j,
    {
        assert(cells@.subrange(0, j as int).drop_last() =~= cells@.subrange(0, j - 1));
        j = j - 1;
    }
    string_from_chars(crate::text::slice_chars(cells, 0, j))
}

/// The lines that hold any text, in order.
pub fn non_empty_lines(lines: Vec<String>) -> (r: Vec<String>)
    ensures
        r@.map_values(|l: String| l@) == lines@.map_values(|l: String| l@).filter(|l: Seq<char>| l.len() > 0),
{
    let ghost all = lines@.map_values(|l: String| l@);
    let mut r: Vec<String> = Vec::new();
    let mut i: usize = 0;
    while i < lines.len()
        invariant
            i <= lines@.len(),
            all == lines@.map_values(|l: String| l@),
            r@.map_values(|l: String| l@) == all.take(i as int).filter(|l: Seq<char>| l.len() > 0),
        decreases lines.len() - i,
    {
        proof {
            assert(all.take(i + 1).drop_last() =~= all.take(i as int));
            reveal(Seq::filter);
        }
        let line = lines[i].clone();
        if line.as_str().is_empty() {
        } else {
            let ghost before = r@;
            r.push(line);
            proof {
                assert(r@.map_values(|l: String| l@) =~= before.map_values(|l: String| l@).push(all[i as int]));
            }
        }
        i = i + 1;
    }
    assert(all.take(lines@.len() as int) =~= all);
    r
}

/// Whether a screen's text is blank.
pub fn is_blank(contents: &str) -> (r: bool)
    ensures
        r == (trim(contents@).len() == 0),
{
    let c = chars_of(contents);
    trim_vec(&c).len() == 0
}

} // verus!
