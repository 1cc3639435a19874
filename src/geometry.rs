use vstd::prelude::*;

verus! {

/// Width of one drawn cell, in terminal columns.
pub const CELL_WIDTH: u16 = 5;

/// Height of one drawn cell, in terminal rows.
pub const CELL_HEIGHT: u16 = 3;

/// A rectangle of the screen, in terminal cells.
#[derive(Clone, Copy, Debug, PartialEq, Eq, Structural)]
pub struct ScreenRect {
    pub x: u16,
    pub y: u16,
    pub width: u16,
    pub height: u16,
}

/// The margin that centres `needed` cells in `available` ones (none when they do not fit).
pub open spec fn centering_offset(available: int, needed: int) -> int {
    if available > needed {
        (available - needed) / 2
    } else {
        0
    }
}

/// Screen column of the left edge of the cells of grid column `col`.
pub open spec fn cell_left(area: ScreenRect, cols: int, col: int) -> int {
    area.x + centering_offset(area.width as int, cols * CELL_WIDTH) + col * CELL_WIDTH
}

/// Screen row of the top edge of the cells of grid row `row`.
pub open spec fn cell_top(area: ScreenRect, rows: int, row: int) -> int {
    area.y + centering_offset(area.height as int, rows * CELL_HEIGHT) + row * CELL_HEIGHT
}

/// The cell (`row`, `col`) of a `rows` by `cols` grid centred in `area` lies wholly
/// inside `area` and on the screen, so it is drawn.
pub open spec fn cell_visible(area: ScreenRect, rows: int, cols: int, row: int, col: int) -> bool {
    &&& 0 <= row < rows
    &&& 0 <= col < cols
    &&& cell_left(area, cols, col) + CELL_WIDTH <= area.x + area.width
    &&& cell_top(area, rows, row) + CELL_HEIGHT <= area.y + area.height
    &&& cell_left(area, cols, col) + CELL_WIDTH <= u16::MAX
    &&& cell_top(area, rows, row) + CELL_HEIGHT <= u16::MAX
}

/// The screen point (`px`, `py`) lies in the drawn rectangle of cell (`row`, `col`).
pub open spec fn cell_contains(
    area: ScreenRect,
    rows: int,
    cols: int,
    row: int,
    col: int,
    px: int,
    py: int,
) -> bool {
    &&& cell_visible(area, rows, cols, row, col)
    &&& cell_left(area, cols, col) <= px < cell_left(area, cols, col) + CELL_WIDTH
    &&& cell_top(area, rows, row) <= py < cell_top(area, rows, row) + CELL_HEIGHT
}

/// The rectangle that cell (`row`, `col`) occupies on screen.
pub open spec fn cell_rect_spec(area: ScreenRect, rows: int, cols: int, row: int, col: int) -> ScreenRect {
    ScreenRect {
        x: cell_left(area, cols, col) as u16,
        y: cell_top(area, rows, row) as u16,
        width: CELL_WIDTH,
        height: CELL_HEIGHT,
    }
}

proof fn lemma_div_unique(d: int, c: int, w: int) by (nonlinear_arith)
    requires
        w > 0,
        c * w <= d < c * w + w,
    ensures
        d / w == c,
{
}

/// Drawn cells do not overlap: a screen point lies in at most one of them.
pub proof fn lemma_cell_contains_unique(
    area: ScreenRect,
    rows: int,
    cols: int,
    r1: int,
    c1: int,
    r2: int,
    c2: int,
    px: int,
    py: int,
)
    requires
        cell_contains(area, rows, cols, r1, c1, px, py),
        cell_contains(area, rows, cols, r2, c2, px, py),
    ensures
        r1 == r2,
        c1 == c2,
{
    let left0 = area.x + centering_offset(area.width as int, cols * CELL_WIDTH);
    let top0 = area.y + centering_offset(area.height as int, rows * CELL_HEIGHT);
    lemma_div_unique(px - left0, c1, 5);
    lemma_div_unique(px - left0, c2, 5);
    lemma_div_unique(py - top0, r1, 3);
    lemma_div_unique(py - top0, r2, 3);
}

/// The margin that centres `count` items of `size` cells each in `available` cells.
fn centered_offset(available: u16, count: usize, size: u16) -> (r: u16)
    requires
        1 <= size <= CELL_WIDTH,
    ensures
        r as int == centering_offset(available as int, count * size),
{
    if count >= 65536 {
        assert(count * size >= 65536) by (nonlinear_arith)
            requires count >= 65536, size >= 1;
        0
    } else {
        assert(count * size <= 65536 * 5) by (nonlinear_arith)
            requires count < 65536, size <= 5;
        let needed: u64 = count as u64 * size as u64;
        if available as u64 > needed {
            ((available as u64 - needed) / 2) as u16
        } else {
            0
        }
    }
}

/// The on-screen rectangle of cell (`row`, `col`) of a `rows` by `cols` grid centred in
/// `area`, or `None` where the cell does not fit and is not drawn.
pub fn cell_rect(area: ScreenRect, rows: usize, cols: usize, row: usize, col: usize) -> (r: Option<ScreenRect>)
    ensures
        r == if cell_visible(area, rows as int, cols as int, row as int, col as int) {
            Some(cell_rect_spec(area, rows as int, cols as int, row as int, col as int))
        } else {
            None::<ScreenRect>
        },
{
    if row >= rows || col >= cols || row >= 65536 || col >= 65536 {
        return None;
    }
    let x_off = centered_offset(area.width, cols, CELL_WIDTH);
    let y_off = centered_offset(area.height, rows, CELL_HEIGHT);
    let left: u64 = area.x as u64 + x_off as u64 + col as u64 * 5;
    let top: u64 = area.y as u64 + y_off as u64 + row as u64 * 3;
    if left + 5 <= area.x as u64 + area.width as u64 && top + 3 <= area.y as u64 + area.height as u64
        && left + 5 <= 65535 && top + 3 <= 65535 {
        Some(ScreenRect { x: left as u16, y: top as u16, width: CELL_WIDTH, height: CELL_HEIGHT })
    } else {
        None
    }
}

/// The cell of a `rows` by `cols` grid centred in `area` whose drawn rectangle holds the
/// screen point (`px`, `py`), or `None` where the point lies in no drawn cell.
pub fn cell_at(area: ScreenRect, rows: usize, cols: usize, px: u16, py: u16) -> (r: Option<(usize, usize)>)
    ensures
        match r {
            Some((row, col)) => cell_contains(area, rows as int, cols as int, row as int, col as int, px as int, py as int),
            None => forall|row: int, col: int|
                !#[trigger] cell_contains(area, rows as int, cols as int, row, col, px as int, py as int),
        },
{
    let x_off = centered_offset(area.width, cols, CELL_WIDTH);
    let y_off = centered_offset(area.height, rows, CELL_HEIGHT);
    let left0: u64 = area.x as u64 + x_off as u64;
    let top0: u64 = area.y as u64 + y_off as u64;
    if (px as u64) < left0 || (py as u64) < top0 {
        assert forall|row: int, col: int|
            !#[trigger] cell_contains(area, rows as int, cols as int, row, col, px as int, py as int) by {
            if cell_contains(area, rows as int, cols as int, row, col, px as int, py as int) {
                assert(col * 5 >= 0) by (nonlinear_arith) requires col >= 0;
                assert(row * 3 >= 0) by (nonlinear_arith) requires row >= 0;
            }
        }
        return None;
    }
    let col: u64 = (px as u64 - left0) / 5;
    let row: u64 = (py as u64 - top0) / 3;
    let found = (row as usize) < rows && (col as usize) < cols
        && left0 + col * 5 + 5 <= area.x as u64 + area.width as u64
        && top0 + row * 3 + 3 <= area.y as u64 + area.height as u64
        && left0 + col * 5 + 5 <= 65535 && top0 + row * 3 + 3 <= 65535;
    assert forall|rr: int, cc: int|
        #[trigger] cell_contains(area, rows as int, cols as int, rr, cc, px as int, py as int)
            implies rr == row && cc == col by {
        lemma_div_unique(px - left0, cc, 5);
        lemma_div_unique(py - top0, rr, 3);
    }
    if found {
        assert((px - left0) - col * 5 < 5 && col * 5 <= px - left0) by (nonlinear_arith)
            requires col == (px - left0) / 5, px - left0 >= 0;
        assert((py - top0) - row * 3 < 3 && row * 3 <= py - top0) by (nonlinear_arith)
            requires row == (py - top0) / 3, py - top0 >= 0;
        Some((row as usize, col as usize))
    } else {
        None
    }
}

} // verus!
