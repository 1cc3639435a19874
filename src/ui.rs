use vstd::prelude::*;
use crate::element::{Element, category_rgb};
use crate::geometry::{
    CELL_HEIGHT, CELL_WIDTH, ScreenRect, cell_at, cell_contains, cell_left, cell_rect, cell_rect_spec,
    cell_top, cell_visible, lemma_cell_contains_unique,
};

verus! {

/// An input event, as the controller sees it.
#[derive(Clone, Copy, Debug, PartialEq, Eq, Structural)]
pub enum UiEvent {
    /// Leave the viewer.
    Quit,
    Up,
    Down,
    Left,
    Right,
    /// Confirm the element under the cursor.
    Activate,
    /// A press of the primary pointer button at a screen point.
    Click { column: u16, row: u16 },
    /// Anything else; it is ignored.
    Other,
}

/// The cell (`r`, `c`) exists in `layout` and holds an element.
pub open spec fn occupied(layout: Seq<Vec<Option<Element>>>, r: int, c: int) -> bool {
    &&& 0 <= r < layout.len()
    &&& 0 <= c < layout[r]@.len()
    &&& layout[r]@[c] is Some
}

/// What the cell (`r`, `c`) holds; `None` outside the grid.
pub open spec fn cell(layout: Seq<Vec<Option<Element>>>, r: int, c: int) -> Option<Element> {
    if 0 <= r < layout.len() && 0 <= c < layout[r]@.len() {
        layout[r]@[c]
    } else {
        None
    }
}

/// Some cell of `layout` holds an element.
pub open spec fn has_element(layout: Seq<Vec<Option<Element>>>) -> bool {
    exists|r: int, c: int| #[trigger] occupied(layout, r, c)
}

/// (`r`, `c`) is the first occupied cell in row-major order.
pub open spec fn is_first_occupied(layout: Seq<Vec<Option<Element>>>, r: int, c: int) -> bool {
    &&& occupied(layout, r, c)
    &&& forall|r2: int, c2: int| (r2 < r || (r2 == r && c2 < c)) ==> !#[trigger] occupied(layout, r2, c2)
}

/// `c` is the leftmost occupied column of row `r`.
pub open spec fn is_first_in_row(layout: Seq<Vec<Option<Element>>>, r: int, c: int) -> bool {
    &&& occupied(layout, r, c)
    &&& forall|u: int| u < c ==> !#[trigger] occupied(layout, r, u)
}

/// `t` is the nearest occupied column left of column `c` in row `r`.
pub open spec fn is_nearest_left(layout: Seq<Vec<Option<Element>>>, r: int, c: int, t: int) -> bool {
    &&& t < c
    &&& occupied(layout, r, t)
    &&& forall|u: int| t < u < c ==> !#[trigger] occupied(layout, r, u)
}

/// `t` is the nearest occupied column right of column `c` in row `r`.
pub open spec fn is_nearest_right(layout: Seq<Vec<Option<Element>>>, r: int, c: int, t: int) -> bool {
    &&& c < t
    &&& occupied(layout, r, t)
    &&& forall|u: int| c < u < t ==> !#[trigger] occupied(layout, r, u)
}

/// Number of columns of the grid, taken from its first row.
pub open spec fn column_count(layout: Seq<Vec<Option<Element>>>) -> int {
    if layout.len() == 0 {
        0
    } else {
        layout[0]@.len() as int
    }
}

/// Where a vertical move from `cursor` into row `r` lands: the same column if it is
/// occupied, else the leftmost occupied cell of row `r`, else nowhere (the cursor stays).
pub open spec fn vertical_target(
    layout: Seq<Vec<Option<Element>>>,
    cursor: (usize, usize),
    r: int,
) -> (usize, usize) {
    if occupied(layout, r, cursor.1 as int) {
        (r as usize, cursor.1)
    } else if exists|c: int| #[trigger] is_first_in_row(layout, r, c) {
        (r as usize, (choose|c: int| #[trigger] is_first_in_row(layout, r, c)) as usize)
    } else {
        cursor
    }
}

/// The cursor after `event`, for a grid drawn centred in `area`.
pub open spec fn next_cursor(
    layout: Seq<Vec<Option<Element>>>,
    area: ScreenRect,
    cursor: (usize, usize),
    event: UiEvent,
) -> (usize, usize) {
    match event {
        UiEvent::Up => if cursor.0 == 0 {
            cursor
        } else {
            vertical_target(layout, cursor, cursor.0 - 1)
        },
        UiEvent::Down => if cursor.0 + 1 < layout.len() {
            vertical_target(layout, cursor, cursor.0 + 1)
        } else {
            cursor
        },
        UiEvent::Left => if exists|t: int| #[trigger] is_nearest_left(layout, cursor.0 as int, cursor.1 as int, t) && 0 <= t {
            (cursor.0, (choose|t: int| #[trigger] is_nearest_left(layout, cursor.0 as int, cursor.1 as int, t) && 0 <= t) as usize)
        } else {
            cursor
        },
        UiEvent::Right => if exists|t: int| #[trigger] is_nearest_right(layout, cursor.0 as int, cursor.1 as int, t) {
            (cursor.0, (choose|t: int| #[trigger] is_nearest_right(layout, cursor.0 as int, cursor.1 as int, t)) as usize)
        } else {
            cursor
        },
        UiEvent::Click { column, row } => if exists|r: int, c: int|
            #[trigger] cell_contains(area, layout.len() as int, column_count(layout), r, c, column as int, row as int)
                && occupied(layout, r, c) {
            let (r, c) = choose|r: int, c: int|
                #[trigger] cell_contains(area, layout.len() as int, column_count(layout), r, c, column as int, row as int)
                    && occupied(layout, r, c);
            (r as usize, c as usize)
        } else {
            cursor
        },
        _ => cursor,
    }
}

/// The cursor after `event` has been applied `n` times from `cursor`.
pub open spec fn repeat_event(
    layout: Seq<Vec<Option<Element>>>,
    area: ScreenRect,
    cursor: (usize, usize),
    event: UiEvent,
    n: nat,
) -> (usize, usize)
    decreases n,
{
    if n == 0 {
        cursor
    } else {
        repeat_event(layout, area, next_cursor(layout, area, cursor, event), event, (n - 1) as nat)
    }
}

/// Every row count and column count of `layout` is an index a `Vec` can have, as is
/// true of any grid held in memory.
pub open spec fn indexable(layout: Seq<Vec<Option<Element>>>) -> bool {
    &&& layout.len() <= usize::MAX
    &&& forall|r: int| 0 <= r < layout.len() ==> (#[trigger] layout[r])@.len() <= usize::MAX
}

/// Every event takes a cursor that rests on an element to a cursor that rests on an
/// element: moves that find no destination leave it where it was.
pub proof fn lemma_event_keeps_cursor_on_element(
    layout: Seq<Vec<Option<Element>>>,
    area: ScreenRect,
    cursor: (usize, usize),
    event: UiEvent,
)
    requires
        indexable(layout),
        occupied(layout, cursor.0 as int, cursor.1 as int),
    ensures
        ({
            let next = next_cursor(layout, area, cursor, event);
            occupied(layout, next.0 as int, next.1 as int)
        }),
{
    match event {
        UiEvent::Up => {
            if cursor.0 > 0 && exists|c: int| #[trigger] is_first_in_row(layout, cursor.0 - 1, c) {
                let c = choose|c: int| #[trigger] is_first_in_row(layout, cursor.0 - 1, c);
                assert(0 <= c < layout[cursor.0 - 1]@.len());
            }
        },
        UiEvent::Down => {
            if exists|c: int| #[trigger] is_first_in_row(layout, cursor.0 + 1, c) {
                let c = choose|c: int| #[trigger] is_first_in_row(layout, cursor.0 + 1, c);
                assert(0 <= c < layout[cursor.0 + 1]@.len());
            }
        },
        UiEvent::Left => {
            if exists|t: int| #[trigger] is_nearest_left(layout, cursor.0 as int, cursor.1 as int, t) && 0 <= t {
                let t = choose|t: int| #[trigger] is_nearest_left(layout, cursor.0 as int, cursor.1 as int, t) && 0 <= t;
                assert(occupied(layout, cursor.0 as int, t));
            }
        },
        UiEvent::Right => {
            if exists|t: int| #[trigger] is_nearest_right(layout, cursor.0 as int, cursor.1 as int, t) {
                let t = choose|t: int| #[trigger] is_nearest_right(layout, cursor.0 as int, cursor.1 as int, t);
                assert(occupied(layout, cursor.0 as int, t));
            }
        },
        UiEvent::Click { column, row } => {
            let rows = layout.len() as int;
            let cols = column_count(layout);
            if exists|r: int, c: int|
                #[trigger] cell_contains(area, rows, cols, r, c, column as int, row as int) && occupied(layout, r, c) {
                let (r, c) = choose|r: int, c: int|
                    #[trigger] cell_contains(area, rows, cols, r, c, column as int, row as int) && occupied(layout, r, c);
                assert(occupied(layout, r, c));
            }
        },
        _ => {},
    }
}

/// A move that is rejected once is rejected every time: repeating it any number of
/// times leaves the cursor, and so the selected element, exactly where they were.
pub proof fn lemma_rejected_event_is_idempotent(
    layout: Seq<Vec<Option<Element>>>,
    area: ScreenRect,
    cursor: (usize, usize),
    event: UiEvent,
    n: nat,
)
    requires
        next_cursor(layout, area, cursor, event) == cursor,
    ensures
        repeat_event(layout, area, cursor, event, n) == cursor,
        cell(layout, repeat_event(layout, area, cursor, event, n).0 as int,
            repeat_event(layout, area, cursor, event, n).1 as int) == cell(layout, cursor.0 as int, cursor.1 as int),
    decreases n,
{
    if n > 0 {
        lemma_rejected_event_is_idempotent(layout, area, cursor, event, (n - 1) as nat);
    }
}

/// Moving left from the first column, moving up from the first row, and moving up
/// into a row without elements are all rejected.
pub proof fn lemma_edge_moves_rejected(
    layout: Seq<Vec<Option<Element>>>,
    area: ScreenRect,
    cursor: (usize, usize),
)
    ensures
        cursor.1 == 0 ==> next_cursor(layout, area, cursor, UiEvent::Left) == cursor,
        cursor.0 == 0 ==> next_cursor(layout, area, cursor, UiEvent::Up) == cursor,
        cursor.0 > 0 && (forall|c: int| !#[trigger] occupied(layout, cursor.0 - 1, c))
            ==> next_cursor(layout, area, cursor, UiEvent::Up) == cursor,
{
    if cursor.1 == 0 {
        assert forall|t: int| !(#[trigger] is_nearest_left(layout, cursor.0 as int, 0, t) && 0 <= t) by {}
    }
    if cursor.0 > 0 && (forall|c: int| !#[trigger] occupied(layout, cursor.0 - 1, c)) {
        assert forall|c: int| !#[trigger] is_first_in_row(layout, cursor.0 - 1, c) by {}
    }
}

/// A click inside the rectangle drawn for an occupied cell selects that cell, and a
/// click that falls in no drawn cell leaves the cursor where it was. A cell is drawn when
/// it lies inside the table area, whose right and bottom edges are on the screen.
pub proof fn lemma_click_hits_drawn_cell(
    layout: Seq<Vec<Option<Element>>>,
    area: ScreenRect,
    cursor: (usize, usize),
    r: int,
    c: int,
    column: u16,
    row: u16,
)
    requires
        area.x + area.width <= u16::MAX,
        area.y + area.height <= u16::MAX,
    ensures
        ({
            let rows = layout.len() as int;
            let cols = column_count(layout);
            let rect = cell_rect_spec(area, rows, cols, r, c);
            &&& 0 <= r < rows
            &&& 0 <= c < cols
            &&& cell_left(area, cols, c) + CELL_WIDTH <= area.x + area.width
            &&& cell_top(area, rows, r) + CELL_HEIGHT <= area.y + area.height
            &&& occupied(layout, r, c)
            &&& rect.x <= column < rect.x + rect.width
            &&& rect.y <= row < rect.y + rect.height
        }) ==> next_cursor(layout, area, cursor, UiEvent::Click { column, row }) == (r as usize, c as usize),
        (forall|r2: int, c2: int|
            !#[trigger] cell_contains(area, layout.len() as int, column_count(layout), r2, c2, column as int, row as int))
            ==> next_cursor(layout, area, cursor, UiEvent::Click { column, row }) == cursor,
{
    let rows = layout.len() as int;
    let cols = column_count(layout);
    let rect = cell_rect_spec(area, rows, cols, r, c);
    if 0 <= r < rows && 0 <= c < cols
        && cell_left(area, cols, c) + CELL_WIDTH <= area.x + area.width
        && cell_top(area, rows, r) + CELL_HEIGHT <= area.y + area.height
        && occupied(layout, r, c)
        && rect.x <= column < rect.x + rect.width && rect.y <= row < rect.y + rect.height {
        assert(cell_visible(area, rows, cols, r, c));
        assert(cell_contains(area, rows, cols, r, c, column as int, row as int));
        let (r2, c2) = choose|r2: int, c2: int|
            #[trigger] cell_contains(area, rows, cols, r2, c2, column as int, row as int) && occupied(layout, r2, c2);
        lemma_cell_contains_unique(area, rows, cols, r, c, r2, c2, column as int, row as int);
    }
}

/// A vertical move into a row whose cell in the cursor's column is empty lands on the
/// leftmost element of that row, scanning from column 0.
pub proof fn lemma_vertical_move_snaps_to_first_in_row(
    layout: Seq<Vec<Option<Element>>>,
    area: ScreenRect,
    cursor: (usize, usize),
    event: UiEvent,
    c: int,
)
    requires
        indexable(layout),
        event == UiEvent::Up || event == UiEvent::Down,
        event == UiEvent::Up ==> cursor.0 > 0,
        event == UiEvent::Down ==> cursor.0 + 1 < layout.len(),
    ensures
        ({
            let target = if event == UiEvent::Up { cursor.0 - 1 } else { cursor.0 + 1 };
            !occupied(layout, target, cursor.1 as int) && is_first_in_row(layout, target, c)
                ==> next_cursor(layout, area, cursor, event) == (target as usize, c as usize)
        }),
{
    let target = if event == UiEvent::Up { cursor.0 - 1 } else { cursor.0 + 1 };
    if !occupied(layout, target, cursor.1 as int) && is_first_in_row(layout, target, c) {
        let t = choose|t: int| #[trigger] is_first_in_row(layout, target, t);
        if t < c {
            assert(!occupied(layout, target, t));
        }
        if c < t {
            assert(!occupied(layout, target, c));
        }
    }
}

/// One element cell as it is to be drawn.
#[derive(Clone, Copy, Debug)]
pub struct DrawnCell {
    pub row: usize,
    pub col: usize,
    /// Where on screen the cell goes.
    pub rect: ScreenRect,
    /// The tint of the cell, from its element's category.
    pub color: (u8, u8, u8),
    /// The cursor rests on this cell.
    pub highlighted: bool,
}

/// The cell (`r`, `c`) holds an element and fits in `area`, so it is drawn.
pub open spec fn is_drawn(layout: Seq<Vec<Option<Element>>>, area: ScreenRect, r: int, c: int) -> bool {
    &&& occupied(layout, r, c)
    &&& cell_visible(area, layout.len() as int, column_count(layout), r, c)
}

/// `d` is how the cell it names is drawn for this grid, area and cursor.
pub open spec fn describes(
    d: DrawnCell,
    layout: Seq<Vec<Option<Element>>>,
    area: ScreenRect,
    cursor: (usize, usize),
) -> bool {
    &&& is_drawn(layout, area, d.row as int, d.col as int)
    &&& d.rect == cell_rect_spec(area, layout.len() as int, column_count(layout), d.row as int, d.col as int)
    &&& d.color == category_rgb(layout[d.row as int]@[d.col as int].unwrap().category)
    &&& d.highlighted == (cursor == (d.row, d.col))
}

/// (`r1`, `c1`) comes before (`r2`, `c2`) in row-major order.
pub open spec fn before(r1: int, c1: int, r2: int, c2: int) -> bool {
    r1 < r2 || (r1 == r2 && c1 < c2)
}

/// The viewer's state: the grid, the cursor, the element shown in the details panel and
/// the screen area that the grid was last drawn into.
pub struct PeriodicTableUi {
    pub table_layout: Vec<Vec<Option<Element>>>,
    pub selected_element: Option<Element>,
    pub cursor_position: (usize, usize),
    pub table_area: ScreenRect,
}

impl PeriodicTableUi {
    /// The cursor rests on an element whenever the grid holds one (at the origin
    /// otherwise), and the selected element is the one under the cursor.
    pub open spec fn wf(&self) -> bool {
        let l = self.table_layout@;
        &&& has_element(l) ==> occupied(l, self.cursor_position.0 as int, self.cursor_position.1 as int)
        &&& !has_element(l) ==> self.cursor_position == (0usize, 0usize)
        &&& self.selected_element == cell(l, self.cursor_position.0 as int, self.cursor_position.1 as int)
    }

    /// A viewer over `table_layout` whose cursor starts on its first element in
    /// row-major order, or at the origin with nothing selected when it has none.
    pub fn new(table_layout: Vec<Vec<Option<Element>>>) -> (ui: Self)
        ensures
            ui.wf(),
            ui.table_layout == table_layout,
            ui.table_area == (ScreenRect { x: 0, y: 0, width: 0, height: 0 }),
            has_element(table_layout@) ==> is_first_occupied(
                table_layout@,
                ui.cursor_position.0 as int,
                ui.cursor_position.1 as int,
            ),
            !has_element(table_layout@) ==> ui.cursor_position == (0usize, 0usize) && ui.selected_element.is_none(),
    {
        let mut ui = PeriodicTableUi {
            table_layout,
            selected_element: None,
            cursor_position: (0, 0),
            table_area: ScreenRect { x: 0, y: 0, width: 0, height: 0 },
        };
        ui.find_and_select_valid_element();
        proof {
            let l = ui.table_layout@;
            if !has_element(l) {
                if 0 < l.len() && 0 < l[0]@.len() {
                    assert(!occupied(l, 0, 0));
                }
            }
        }
        ui
    }

    /// Moves the cursor to the first element in row-major order and selects it; with no
    /// element in the grid, leaves cursor and selection as they were.
    fn find_and_select_valid_element(&mut self)
        ensures
            final(self).table_layout == old(self).table_layout,
            final(self).table_area == old(self).table_area,
            has_element(old(self).table_layout@) ==> {
                &&& is_first_occupied(
                    old(self).table_layout@,
                    final(self).cursor_position.0 as int,
                    final(self).cursor_position.1 as int,
                )
                &&& final(self).selected_element == cell(
                    old(self).table_layout@,
                    final(self).cursor_position.0 as int,
                    final(self).cursor_position.1 as int,
                )
            },
            !has_element(old(self).table_layout@) ==> {
                &&& final(self).cursor_position == old(self).cursor_position
                &&& final(self).selected_element == old(self).selected_element
            },
    {
        let ghost l = self.table_layout@;
        let mut r: usize = 0;
        while r < self.table_layout.len()
            invariant
                self.table_layout == old(self).table_layout,
                l == old(self).table_layout@,
                self.table_area == old(self).table_area,
                self.cursor_position == old(self).cursor_position,
                self.selected_element == old(self).selected_element,
                r <= l.len(),
                forall|r2: int, c2: int| r2 < r ==> !#[trigger] occupied(l, r2, c2),
            decreases l.len() - r,
        {
            let mut c: usize = 0;
            while c < self.table_layout[r].len()
                invariant
                    self.table_layout == old(self).table_layout,
                    l == old(self).table_layout@,
                    self.table_area == old(self).table_area,
                    self.cursor_position == old(self).cursor_position,
                    self.selected_element == old(self).selected_element,
                    r < l.len(),
                    c <= l[r as int]@.len(),
                    forall|r2: int, c2: int| (r2 < r || (r2 == r && c2 < c)) ==> !#[trigger] occupied(l, r2, c2),
                decreases l[r as int]@.len() - c,
            {
                if self.table_layout[r][c].is_some() {
                    assert(occupied(l, r as int, c as int));
                    self.cursor_position = (r, c);
                    self.update_selected_element();
                    return;
                }
                c = c + 1;
            }
            r = r + 1;
        }
        assert forall|r2: int, c2: int| !#[trigger] occupied(l, r2, c2) by {
            if occupied(l, r2, c2) {
                assert(r2 < r);
            }
        }
    }

    /// Applies one input event. Returns `false` for `Quit`, which asks the caller to stop,
    /// and `true` otherwise. A move with no element to land on leaves the state as it was.
    pub fn handle_event(&mut self, event: &UiEvent) -> (keep_running: bool)
        requires
            old(self).wf(),
        ensures
            keep_running == !(*event is Quit),
            final(self).wf(),
            final(self).table_layout == old(self).table_layout,
            final(self).table_area == old(self).table_area,
            final(self).cursor_position == next_cursor(
                old(self).table_layout@,
                old(self).table_area,
                old(self).cursor_position,
                *event,
            ),
            final(self).selected_element == cell(
                final(self).table_layout@,
                final(self).cursor_position.0 as int,
                final(self).cursor_position.1 as int,
            ),
    {
        match event {
            UiEvent::Quit => {
                return false;
            },
            UiEvent::Up => {
                if self.cursor_position.0 > 0 {
                    self.move_to_row(self.cursor_position.0 - 1);
                }
            },
            UiEvent::Down => {
                if self.table_layout.len() > 0 && self.cursor_position.0 < self.table_layout.len() - 1 {
                    self.move_to_row(self.cursor_position.0 + 1);
                }
            },
            UiEvent::Left => {
                self.move_left();
            },
            UiEvent::Right => {
                self.move_right();
            },
            UiEvent::Activate => {
                self.update_selected_element();
            },
            UiEvent::Click { column, row } => {
                self.select_at(*column, *row);
            },
            UiEvent::Other => {},
        }
        true
    }

    /// The cells to draw: every element cell that fits in the table area, in row-major
    /// order, each with its rectangle, its category colour and whether the cursor is on it.
    pub fn table_cells(&self) -> (cells: Vec<DrawnCell>)
        ensures
            forall|k: int| 0 <= k < cells@.len() ==> describes(
                #[trigger] cells@[k],
                self.table_layout@,
                self.table_area,
                self.cursor_position,
            ),
            forall|k1: int, k2: int| 0 <= k1 < k2 < cells@.len() ==> before(
                cells@[k1].row as int,
                cells@[k1].col as int,
                cells@[k2].row as int,
                cells@[k2].col as int,
            ),
            forall|r: int, c: int| #[trigger] is_drawn(self.table_layout@, self.table_area, r, c) ==> exists|k: int|
                0 <= k < cells@.len() && cells@[k].row == r && cells@[k].col == c,
    {
        let ghost l = self.table_layout@;
        let area = self.table_area;
        let rows = self.table_layout.len();
        let cols = if rows > 0 {
            self.table_layout[0].len()
        } else {
            0
        };
        assert(cols as int == column_count(l));
        let mut cells: Vec<DrawnCell> = Vec::new();
        let mut r: usize = 0;
        while r < rows
            invariant
                l == self.table_layout@,
                area == self.table_area,
                rows == l.len(),
                cols as int == column_count(l),
                r <= rows,
                forall|k: int| 0 <= k < cells@.len() ==> describes(#[trigger] cells@[k], l, area, self.cursor_position),
                forall|k: int| 0 <= k < cells@.len() ==> (#[trigger] cells@[k]).row < r,
                forall|k1: int, k2: int| 0 <= k1 < k2 < cells@.len() ==> before(
                    cells@[k1].row as int,
                    cells@[k1].col as int,
                    cells@[k2].row as int,
                    cells@[k2].col as int,
                ),
                forall|r2: int, c2: int| r2 < r && #[trigger] is_drawn(l, area, r2, c2) ==> exists|k: int|
                    0 <= k < cells@.len() && cells@[k].row == r2 && cells@[k].col == c2,
            decreases rows - r,
        {
            let mut c: usize = 0;
            let width = self.table_layout[r].len();
            while c < width
                invariant
                    l == self.table_layout@,
                    area == self.table_area,
                    rows == l.len(),
                    cols as int == column_count(l),
                    r < rows,
                    width == l[r as int]@.len(),
                    c <= width,
                    forall|k: int| 0 <= k < cells@.len() ==> describes(#[trigger] cells@[k], l, area, self.cursor_position),
                    forall|k: int| 0 <= k < cells@.len() ==> before(
                        (#[trigger] cells@[k]).row as int,
                        cells@[k].col as int,
                        r as int,
                        c as int,
                    ),
                    forall|k1: int, k2: int| 0 <= k1 < k2 < cells@.len() ==> before(
                        cells@[k1].row as int,
                        cells@[k1].col as int,
                        cells@[k2].row as int,
                        cells@[k2].col as int,
                    ),
                    forall|r2: int, c2: int| before(r2, c2, r as int, c as int) && #[trigger] is_drawn(l, area, r2, c2)
                        ==> exists|k: int| 0 <= k < cells@.len() && cells@[k].row == r2 && cells@[k].col == c2,
                decreases width - c,
            {
                let ghost earlier = cells@;
                if let Some(element) = &self.table_layout[r][c] {
                    if let Some(rect) = cell_rect(area, rows, cols, r, c) {
                        let d = DrawnCell {
                            row: r,
                            col: c,
                            rect,
                            color: element.color(),
                            highlighted: self.cursor_position.0 == r && self.cursor_position.1 == c,
                        };
                        cells.push(d);
                        assert(cells@[cells@.len() - 1] == d);
                    }
                }
                assert forall|r2: int, c2: int| before(r2, c2, r as int, c + 1) && #[trigger] is_drawn(l, area, r2, c2)
                    implies exists|k: int| 0 <= k < cells@.len() && cells@[k].row == r2 && cells@[k].col == c2 by {
                    if before(r2, c2, r as int, c as int) {
                        let k = choose|k: int| 0 <= k < earlier.len() && earlier[k].row == r2 && earlier[k].col == c2;
                        assert(cells@[k] == earlier[k]);
                    } else {
                        assert(cells@[cells@.len() - 1].row == r2 && cells@[cells@.len() - 1].col == c2);
                    }
                }
                c = c + 1;
            }
            assert forall|r2: int, c2: int| r2 <= r && #[trigger] is_drawn(l, area, r2, c2) implies exists|k: int|
                0 <= k < cells@.len() && cells@[k].row == r2 && cells@[k].col == c2 by {
                assert(before(r2, c2, r as int, c as int));
            }
            r = r + 1;
        }
        cells
    }

    /// Records the screen area that the grid is drawn into, for pointer hit-testing.
    pub fn set_table_area(&mut self, area: ScreenRect)
        ensures
            final(self).table_area == area,
            final(self).table_layout == old(self).table_layout,
            final(self).cursor_position == old(self).cursor_position,
            final(self).selected_element == old(self).selected_element,
    {
        self.table_area = area;
    }

    /// Vertical move into row `target`: same column if occupied, else the leftmost element
    /// of that row, else no move.
    fn move_to_row(&mut self, target: usize)
        requires
            old(self).wf(),
            target < old(self).table_layout@.len(),
        ensures
            final(self).wf(),
            final(self).table_layout == old(self).table_layout,
            final(self).table_area == old(self).table_area,
            final(self).cursor_position == vertical_target(
                old(self).table_layout@,
                old(self).cursor_position,
                target as int,
            ),
    {
        let ghost l = self.table_layout@;
        let old_row = self.cursor_position.0;
        self.cursor_position.0 = target;
        if !self.is_valid_position() {
            self.find_valid_element_in_row(target);
            if !self.is_valid_position() {
                self.cursor_position.0 = old_row;
            } else {
                proof {
                    let c = choose|c: int| #[trigger] is_first_in_row(l, target as int, c);
                    let f = self.cursor_position.1 as int;
                    assert(is_first_in_row(l, target as int, f));
                    if c < f {
                        assert(!occupied(l, target as int, c));
                    }
                    if f < c {
                        assert(!occupied(l, target as int, f));
                    }
                }
            }
        }
        self.update_selected_element();
    }

    /// Moves the cursor to the nearest element on its left, if there is one.
    fn move_left(&mut self)
        requires
            old(self).wf(),
        ensures
            final(self).wf(),
            final(self).table_layout == old(self).table_layout,
            final(self).table_area == old(self).table_area,
            final(self).cursor_position == next_cursor(
                old(self).table_layout@,
                old(self).table_area,
                old(self).cursor_position,
                UiEvent::Left,
            ),
    {
        let ghost l = self.table_layout@;
        let ghost row = self.cursor_position.0 as int;
        if self.cursor_position.1 > 0 {
            let old_col = self.cursor_position.1;
            self.cursor_position.1 = self.cursor_position.1 - 1;
            let mut valid = self.is_valid_position();
            while !valid && self.cursor_position.1 > 0
                invariant
                    self.table_layout == old(self).table_layout,
                    self.table_area == old(self).table_area,
                    self.selected_element == old(self).selected_element,
                    self.cursor_position.0 == old(self).cursor_position.0,
                    l == old(self).table_layout@,
                    row == self.cursor_position.0,
                    old_col == old(self).cursor_position.1,
                    self.cursor_position.1 < old_col,
                    valid == occupied(l, row, self.cursor_position.1 as int),
                    forall|u: int| self.cursor_position.1 < u < old_col ==> !#[trigger] occupied(l, row, u),
                decreases self.cursor_position.1,
            {
                self.cursor_position.1 = self.cursor_position.1 - 1;
                valid = self.is_valid_position();
            }
            if !valid {
                self.cursor_position.1 = old_col;
                assert forall|t: int| !(#[trigger] is_nearest_left(l, row, old_col as int, t) && 0 <= t) by {
                    if is_nearest_left(l, row, old_col as int, t) && 0 <= t {
                        assert(occupied(l, row, t));
                    }
                }
            } else {
                let ghost f = self.cursor_position.1 as int;
                assert(is_nearest_left(l, row, old_col as int, f) && 0 <= f);
                proof {
                    let t = choose|t: int| #[trigger] is_nearest_left(l, row, old_col as int, t) && 0 <= t;
                    if t < f {
                        assert(!occupied(l, row, t));
                    }
                    if f < t {
                        assert(!occupied(l, row, f));
                    }
                }
            }
            self.update_selected_element();
        } else {
            assert forall|t: int| !(#[trigger] is_nearest_left(l, row, 0, t) && 0 <= t) by {}
        }
    }

    /// Moves the cursor to the nearest element on its right, if there is one.
    fn move_right(&mut self)
        requires
            old(self).wf(),
        ensures
            final(self).wf(),
            final(self).table_layout == old(self).table_layout,
            final(self).table_area == old(self).table_area,
            final(self).cursor_position == next_cursor(
                old(self).table_layout@,
                old(self).table_area,
                old(self).cursor_position,
                UiEvent::Right,
            ),
    {
        let ghost l = self.table_layout@;
        let ghost row = self.cursor_position.0 as int;
        let ghost start = self.cursor_position.1 as int;
        let width = if self.cursor_position.0 < self.table_layout.len() {
            self.table_layout[self.cursor_position.0].len()
        } else {
            0
        };
        if width > 0 && self.cursor_position.1 < width - 1 {
            let old_col = self.cursor_position.1;
            self.cursor_position.1 = self.cursor_position.1 + 1;
            let mut valid = self.is_valid_position();
            while !valid && self.cursor_position.1 < width - 1
                invariant
                    self.table_layout == old(self).table_layout,
                    self.table_area == old(self).table_area,
                    self.selected_element == old(self).selected_element,
                    self.cursor_position.0 == old(self).cursor_position.0,
                    l == old(self).table_layout@,
                    row == self.cursor_position.0,
                    0 <= row < l.len(),
                    width > 0,
                    width == l[row]@.len(),
                    old_col == old(self).cursor_position.1,
                    old_col < self.cursor_position.1 < width,
                    valid == occupied(l, row, self.cursor_position.1 as int),
                    forall|u: int| old_col < u < self.cursor_position.1 ==> !#[trigger] occupied(l, row, u),
                decreases width - self.cursor_position.1,
            {
                self.cursor_position.1 = self.cursor_position.1 + 1;
                valid = self.is_valid_position();
            }
            if !valid {
                self.cursor_position.1 = old_col;
                assert forall|t: int| !#[trigger] is_nearest_right(l, row, old_col as int, t) by {
                    if is_nearest_right(l, row, old_col as int, t) {
                        assert(occupied(l, row, t));
                    }
                }
            } else {
                let ghost f = self.cursor_position.1 as int;
                assert(is_nearest_right(l, row, old_col as int, f));
                proof {
                    let t = choose|t: int| #[trigger] is_nearest_right(l, row, old_col as int, t);
                    if t < f {
                        assert(!occupied(l, row, t));
                    }
                    if f < t {
                        assert(!occupied(l, row, f));
                    }
                }
            }
            self.update_selected_element();
        } else {
            assert forall|t: int| !#[trigger] is_nearest_right(l, row, start, t) by {
                if is_nearest_right(l, row, start, t) {
                    assert(occupied(l, row, t));
                }
            }
        }
    }

    /// Moves the cursor to the element whose drawn cell holds the screen point
    /// (`column`, `row`), if there is one.
    #[verifier::spinoff_prover]
    fn select_at(&mut self, column: u16, row: u16)
        requires
            old(self).wf(),
        ensures
            final(self).wf(),
            final(self).table_layout == old(self).table_layout,
            final(self).table_area == old(self).table_area,
            final(self).cursor_position == next_cursor(
                old(self).table_layout@,
                old(self).table_area,
                old(self).cursor_position,
                UiEvent::Click { column, row },
            ),
    {
        let ghost l = self.table_layout@;
        let rows = self.table_layout.len();
        let cols = if rows > 0 {
            self.table_layout[0].len()
        } else {
            0
        };
        let ghost rows_i = rows as int;
        let ghost cols_i = cols as int;
        assert(cols_i == column_count(l));
        match cell_at(self.table_area, rows, cols, column, row) {
            Some((r, c)) => {
                if r < rows && c < self.table_layout[r].len() && self.table_layout[r][c].is_some() {
                    self.cursor_position = (r, c);
                    proof {
                        assert(cell_contains(self.table_area, rows_i, cols_i, r as int, c as int, column as int, row as int)
                            && occupied(l, r as int, c as int));
                        assert(exists|r2: int, c2: int|
                            #[trigger] cell_contains(self.table_area, rows_i, cols_i, r2, c2, column as int, row as int)
                                && occupied(l, r2, c2));
                        let (r2, c2) = choose|r2: int, c2: int|
                            #[trigger] cell_contains(self.table_area, rows_i, cols_i, r2, c2, column as int, row as int)
                                && occupied(l, r2, c2);
                        lemma_cell_contains_unique(self.table_area, rows_i, cols_i, r as int, c as int, r2, c2, column as int, row as int);
                    }
                    self.update_selected_element();
                } else {
                    assert forall|r2: int, c2: int|
                        !(#[trigger] cell_contains(self.table_area, rows_i, cols_i, r2, c2, column as int, row as int)
                            && occupied(l, r2, c2)) by {
                        if cell_contains(self.table_area, rows_i, cols_i, r2, c2, column as int, row as int) {
                            lemma_cell_contains_unique(self.table_area, rows_i, cols_i, r as int, c as int, r2, c2, column as int, row as int);
                        }
                    }
                }
            },
            None => {
                assert forall|r2: int, c2: int|
                    !(#[trigger] cell_contains(self.table_area, rows_i, cols_i, r2, c2, column as int, row as int)
                        && occupied(l, r2, c2)) by {}
            },
        }
    }

    /// Whether the cursor rests on an element.
    fn is_valid_position(&self) -> (r: bool)
        ensures
            r == occupied(self.table_layout@, self.cursor_position.0 as int, self.cursor_position.1 as int),
    {
        let (row, col) = self.cursor_position;
        if row < self.table_layout.len() && col < self.table_layout[row].len() {
            self.table_layout[row][col].is_some()
        } else {
            false
        }
    }

    /// Moves the cursor to the leftmost element of `row`, if that row has one.
    fn find_valid_element_in_row(&mut self, row: usize)
        ensures
            final(self).table_layout == old(self).table_layout,
            final(self).table_area == old(self).table_area,
            final(self).selected_element == old(self).selected_element,
            final(self).cursor_position.0 == old(self).cursor_position.0,
            if exists|c: int| #[trigger] is_first_in_row(old(self).table_layout@, row as int, c) {
                is_first_in_row(old(self).table_layout@, row as int, final(self).cursor_position.1 as int)
            } else {
                final(self).cursor_position == old(self).cursor_position
            },
    {
        let ghost l = self.table_layout@;
        if row >= self.table_layout.len() {
            return;
        }
        let mut col: usize = 0;
        while col < self.table_layout[row].len()
            invariant
                self.table_layout == old(self).table_layout,
                l == old(self).table_layout@,
                self.table_area == old(self).table_area,
                self.selected_element == old(self).selected_element,
                self.cursor_position == old(self).cursor_position,
                row < l.len(),
                col <= l[row as int]@.len(),
                forall|u: int| u < col ==> !#[trigger] occupied(l, row as int, u),
            decreases l[row as int]@.len() - col,
        {
            if self.table_layout[row][col].is_some() {
                self.cursor_position.1 = col;
                assert(is_first_in_row(l, row as int, col as int));
                return;
            }
            col = col + 1;
        }
        assert forall|c: int| !#[trigger] is_first_in_row(l, row as int, c) by {
            if is_first_in_row(l, row as int, c) {
                assert(occupied(l, row as int, c));
            }
        }
    }

    /// Re-reads the element under the cursor into the selection.
    fn update_selected_element(&mut self)
        ensures
            final(self).table_layout == old(self).table_layout,
            final(self).table_area == old(self).table_area,
            final(self).cursor_position == old(self).cursor_position,
            ({
                let l = old(self).table_layout@;
                let (r, c) = old(self).cursor_position;
                if r < l.len() && c < l[r as int]@.len() {
                    final(self).selected_element == cell(l, r as int, c as int)
                } else {
                    final(self).selected_element == old(self).selected_element
                }
            }),
    {
        let (row, col) = self.cursor_position;
        if row < self.table_layout.len() && col < self.table_layout[row].len() {
            self.selected_element = self.table_layout[row][col].clone();
        }
    }
}

} // verus!
