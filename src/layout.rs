use vstd::prelude::*;
use crate::element::Element;

verus! {

/// Record `i` of `elements` sits at (`row`, `col`).
pub open spec fn sits_at(elements: Seq<Element>, i: int, row: int, col: int) -> bool {
    elements[i].position.0 as int == row && elements[i].position.1 as int == col
}

/// No two records share a position.
pub open spec fn positions_distinct(elements: Seq<Element>) -> bool {
    forall|i: int, j: int|
        0 <= i < j < elements.len() ==> elements[i].position != elements[j].position
}

/// `n` is one more than the largest row of any record (zero when there is none).
pub open spec fn is_row_count(elements: Seq<Element>, n: int) -> bool {
    &&& forall|i: int| 0 <= i < elements.len() ==> (#[trigger] elements[i].position).0 < n
    &&& (n == 0 || exists|i: int| 0 <= i < elements.len() && (#[trigger] elements[i].position).0 + 1 == n)
}

/// `n` is one more than the largest column of any record (zero when there is none).
pub open spec fn is_column_count(elements: Seq<Element>, n: int) -> bool {
    &&& forall|i: int| 0 <= i < elements.len() ==> (#[trigger] elements[i].position).1 < n
    &&& (n == 0 || exists|i: int| 0 <= i < elements.len() && (#[trigger] elements[i].position).1 + 1 == n)
}

/// What the cell at (`row`, `col`) holds: the record placed there, if any.
pub open spec fn cell_content(elements: Seq<Element>, row: int, col: int) -> Option<Element> {
    if exists|i: int| 0 <= i < elements.len() && #[trigger] sits_at(elements, i, row, col) {
        let i = choose|i: int| 0 <= i < elements.len() && #[trigger] sits_at(elements, i, row, col);
        Some(elements[i])
    } else {
        None
    }
}

/// The grid that places each record of `elements` at its position.
pub open spec fn is_layout_of(layout: Seq<Vec<Option<Element>>>, elements: Seq<Element>) -> bool {
    &&& is_row_count(elements, layout.len() as int)
    &&& forall|r: int| 0 <= r < layout.len() ==> is_column_count(elements, #[trigger] layout[r]@.len() as int)
    &&& forall|r: int, c: int|
        0 <= r < layout.len() && 0 <= c < layout[r]@.len() ==> #[trigger] layout[r]@[c] == cell_content(elements, r, c)
}

/// The index of a record at (`row`, `col`), if there is one.
fn find_at(elements: &Vec<Element>, row: u8, col: u8) -> (r: Option<usize>)
    ensures
        match r {
            Some(i) => i < elements@.len() && sits_at(elements@, i as int, row as int, col as int),
            None => forall|i: int| 0 <= i < elements@.len() ==> !#[trigger] sits_at(elements@, i, row as int, col as int),
        },
{
    let mut i: usize = 0;
    while i < elements.len()
        invariant
            i <= elements@.len(),
            forall|k: int| 0 <= k < i ==> !#[trigger] sits_at(elements@, k, row as int, col as int),
        decreases elements@.len() - i,
    {
        if elements[i].position.0 == row && elements[i].position.1 == col {
            return Some(i);
        }
        i = i + 1;
    }
    None
}

/// The first two records that share a position, as indices `(i, j)` with `i < j`: `j` is
/// the first record whose position an earlier one already has, and `i` the first of those.
pub fn find_duplicate_position(elements: &Vec<Element>) -> (r: Option<(usize, usize)>)
    ensures
        r.is_none() <==> positions_distinct(elements@),
        match r {
            Some((i, j)) => {
                &&& i < j < elements@.len()
                &&& elements@[i as int].position == elements@[j as int].position
                &&& positions_distinct(elements@.take(j as int))
                &&& forall|a: int| 0 <= a < i ==> elements@[a].position != elements@[j as int].position
            },
            None => true,
        },
{
    let n = elements.len();
    let mut j: usize = 0;
    while j < n
        invariant
            n == elements@.len(),
            j <= n,
            forall|a: int, b: int| 0 <= a < b < j ==> elements@[a].position != elements@[b].position,
        decreases n - j,
    {
        let mut i: usize = 0;
        while i < j
            invariant
                n == elements@.len(),
                i <= j < n,
                forall|a: int, b: int| 0 <= a < b < j ==> elements@[a].position != elements@[b].position,
                forall|a: int| 0 <= a < i ==> elements@[a].position != elements@[j as int].position,
            decreases j - i,
        {
            if elements[i].position.0 == elements[j].position.0 && elements[i].position.1 == elements[j].position.1 {
                proof {
                    let t = elements@.take(j as int);
                    assert forall|a: int, b: int| 0 <= a < b < t.len() implies t[a].position != t[b].position by {
                        assert(t[a] == elements@[a] && t[b] == elements@[b]);
                    }
                }
                return Some((i, j));
            }
            i = i + 1;
        }
        j = j + 1;
    }
    None
}

/// The number of rows and columns needed to hold every record.
fn table_size(elements: &Vec<Element>) -> (r: (usize, usize))
    ensures
        is_row_count(elements@, r.0 as int),
        is_column_count(elements@, r.1 as int),
        r.0 <= 256,
        r.1 <= 256,
{
    let mut rows: usize = 0;
    let mut cols: usize = 0;
    let mut i: usize = 0;
    while i < elements.len()
        invariant
            i <= elements@.len(),
            is_row_count(elements@.take(i as int), rows as int),
            is_column_count(elements@.take(i as int), cols as int),
            rows <= 256,
            cols <= 256,
        decreases elements@.len() - i,
    {
        let ghost prefix = elements@.take(i as int);
        let ghost next = elements@.take(i + 1);
        assert(forall|k: int| 0 <= k < i ==> next[k] == prefix[k]);
        let p = elements[i].position;
        if p.0 as usize + 1 > rows {
            rows = p.0 as usize + 1;
        }
        if p.1 as usize + 1 > cols {
            cols = p.1 as usize + 1;
        }
        assert(next[i as int] == elements@[i as int]);
        i = i + 1;
    }
    assert(elements@.take(i as int) =~= elements@);
    (rows, cols)
}

/// Builds the grid that holds each record at its position, sized to the largest row and
/// column in use. Every record lands in exactly one cell and every other cell is empty.
pub fn build_table_layout(elements: &Vec<Element>) -> (layout: Vec<Vec<Option<Element>>>)
    requires
        positions_distinct(elements@),
    ensures
        is_layout_of(layout@, elements@),
        forall|i: int| 0 <= i < elements@.len() ==> {
            let p = #[trigger] elements@[i].position;
            &&& (p.0 as int) < layout@.len()
            &&& (p.1 as int) < layout@[p.0 as int]@.len()
            &&& layout@[p.0 as int]@[p.1 as int] == Some(elements@[i])
        },
{
    let (rows, cols) = table_size(elements);
    let mut layout: Vec<Vec<Option<Element>>> = Vec::new();
    let mut r: usize = 0;
    while r < rows
        invariant
            r <= rows <= 256,
            cols <= 256,
            is_row_count(elements@, rows as int),
            is_column_count(elements@, cols as int),
            positions_distinct(elements@),
            layout@.len() == r,
            forall|rr: int| 0 <= rr < r ==> (#[trigger] layout@[rr])@.len() == cols,
            forall|rr: int, c: int|
                0 <= rr < r && 0 <= c < cols ==> #[trigger] layout@[rr]@[c] == cell_content(elements@, rr, c),
        decreases rows - r,
    {
        let mut line: Vec<Option<Element>> = Vec::new();
        let mut c: usize = 0;
        while c < cols
            invariant
                r < rows <= 256,
                c <= cols <= 256,
                positions_distinct(elements@),
                line@.len() == c,
                forall|cc: int| 0 <= cc < c ==> #[trigger] line@[cc] == cell_content(elements@, r as int, cc),
            decreases cols - c,
        {
            match find_at(elements, r as u8, c as u8) {
                Some(i) => {
                    proof {
                        let j = choose|j: int| 0 <= j < elements@.len() && #[trigger] sits_at(elements@, j, r as int, c as int);
                        assert(j == i as int);
                    }
                    line.push(Some(elements[i].clone()));
                },
                None => {
                    line.push(None);
                },
            }
            c = c + 1;
        }
        layout.push(line);
        r = r + 1;
    }
    assert forall|i: int| 0 <= i < elements@.len() implies {
        let p = #[trigger] elements@[i].position;
        &&& (p.0 as int) < layout@.len()
        &&& (p.1 as int) < layout@[p.0 as int]@.len()
        &&& layout@[p.0 as int]@[p.1 as int] == Some(elements@[i])
    } by {
        let p = elements@[i].position;
        assert(sits_at(elements@, i, p.0 as int, p.1 as int));
        let j = choose|j: int| 0 <= j < elements@.len() && #[trigger] sits_at(elements@, j, p.0 as int, p.1 as int);
        assert(j == i);
    }
    layout
}

} // verus!
