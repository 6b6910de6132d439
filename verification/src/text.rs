//! Position arithmetic over the source text.
//!
//! The source is one document, viewed as a sequence of characters; rows are
//! separated by `'\n'`. A `Point` names a character position by row and
//! column, and these functions turn points into absolute character indices
//! and extract the text a point range addresses. Positions past the end of
//! the text or of a row saturate at the end of the text, so every lookup is
//! total: malformed coordinates yield an empty or truncated slice, never a
//! failure.

use vstd::prelude::*;

use crate::wrappers::Point;

verus! {

/// Index just past the row that the character at index `i` lies in: one past
/// the next `'\n'` at or after `i`, or the end of the text if there is none.
pub open spec fn next_line_start(src: Seq<char>, i: int) -> int
    decreases src.len() - i
        when 0 <= i <= src.len()
{
    if i >= src.len() {
        src.len() as int
    } else if src[i] == '\n' {
        i + 1
    } else {
        next_line_start(src, i + 1)
    }
}

pub proof fn lemma_next_line_start_bounds(src: Seq<char>, i: int)
    requires
        0 <= i <= src.len(),
    ensures
        i <= next_line_start(src, i) <= src.len(),
    decreases src.len() - i,
{
    if i < src.len() && src[i] != '\n' {
        lemma_next_line_start_bounds(src, i + 1);
    }
}

/// Index of the first character of row `row`; the end of the text once
/// `row` runs past the last row.
pub open spec fn line_start(src: Seq<char>, row: int) -> int
    decreases row
        when row >= 0
{
    if row <= 0 {
        0
    } else {
        next_line_start(src, line_start(src, row - 1))
    }
}

pub proof fn lemma_line_start_bounds(src: Seq<char>, row: int)
    requires
        row >= 0,
    ensures
        0 <= line_start(src, row) <= src.len(),
    decreases row,
{
    if row > 0 {
        lemma_line_start_bounds(src, row - 1);
        lemma_next_line_start_bounds(src, line_start(src, row - 1));
    }
}

pub proof fn lemma_line_start_saturates(src: Seq<char>, row1: int, row2: int)
    requires
        0 <= row1 <= row2,
        line_start(src, row1) == src.len(),
    ensures
        line_start(src, row2) == src.len(),
    decreases row2 - row1,
{
    if row1 < row2 {
        lemma_line_start_saturates(src, row1 + 1, row2);
    }
}

/// Absolute character index of point `p`, saturating at the end of the text.
pub open spec fn pos_index(src: Seq<char>, p: Point) -> int {
    let base = line_start(src, p.row as int);
    if base + p.column <= src.len() {
        base + p.column
    } else {
        src.len() as int
    }
}

pub proof fn lemma_pos_index_bounds(src: Seq<char>, p: Point)
    ensures
        0 <= pos_index(src, p) <= src.len(),
{
    lemma_line_start_bounds(src, p.row as int);
}

/// The text addressed by the half-open range from `a` to `b`; empty when
/// `b` does not come after `a`.
pub open spec fn slice_at(src: Seq<char>, a: Point, b: Point) -> Seq<char> {
    let i = pos_index(src, a);
    let j = pos_index(src, b);
    if i <= j {
        src.subrange(i, j)
    } else {
        Seq::empty()
    }
}

fn next_line_start_exec(source: &str, i: usize) -> (r: usize)
    requires
        i <= source@.len(),
    ensures
        r == next_line_start(source@, i as int),
        r <= source@.len(),
{
    let n = source.unicode_len();
    let mut j = i;
    loop
        invariant
            i <= j <= n,
            n == source@.len(),
            next_line_start(source@, j as int) == next_line_start(source@, i as int),
        decreases n - j,
    {
        if j >= n {
            return n;
        }
        if source.get_char(j) == '\n' {
            return j + 1;
        }
        j = j + 1;
    }
}

fn line_start_exec(source: &str, row: usize) -> (r: usize)
    ensures
        r == line_start(source@, row as int),
        r <= source@.len(),
{
    let n = source.unicode_len();
    let mut ls: usize = 0;
    let mut r: usize = 0;
    while r < row
        invariant
            r <= row,
            n == source@.len(),
            ls == line_start(source@, r as int),
            ls <= n,
        decreases row - r,
    {
        if ls >= n {
            proof {
                lemma_line_start_saturates(source@, r as int, row as int);
            }
            return n;
        }
        ls = next_line_start_exec(source, ls);
        r = r + 1;
    }
    ls
}

/// Absolute character index of `p` in `source`.
pub fn position_index(source: &str, p: Point) -> (r: usize)
    ensures
        r == pos_index(source@, p),
        r <= source@.len(),
{
    let n = source.unicode_len();
    let base = line_start_exec(source, p.row);
    if p.column <= n - base {
        base + p.column
    } else {
        n
    }
}

/// The text addressed by the half-open range from `a` to `b`.
pub fn slice_text(source: &str, a: Point, b: Point) -> (r: String)
    ensures
        r@ == slice_at(source@, a, b),
{
    let i = position_index(source, a);
    let j = position_index(source, b);
    if i <= j {
        String::from_str(source.substring_char(i, j))
    } else {
        String::new()
    }
}

} // verus!
