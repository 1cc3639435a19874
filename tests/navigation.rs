use periodic_table::element::{category_color, Element, ElementCategory};
use periodic_table::geometry::{cell_at, cell_rect, ScreenRect};
use periodic_table::layout::{build_table_layout, find_duplicate_position};
use periodic_table::ui::{PeriodicTableUi, UiEvent};

fn el(number: u8, symbol: &str, row: u8, col: u8, category: ElementCategory) -> Element {
    Element {
        number,
        symbol: symbol.to_string(),
        name: format!("element {}", number),
        mass: format!("{}.0", number),
        category,
        position: (row, col),
        description: String::new(),
    }
}

fn selected_symbol(ui: &PeriodicTableUi) -> Option<String> {
    ui.selected_element.as_ref().map(|e| e.symbol.clone())
}

fn assert_on_element(ui: &PeriodicTableUi) {
    let (r, c) = ui.cursor_position;
    let here = ui.table_layout[r][c].as_ref().expect("cursor rests on an element");
    assert_eq!(selected_symbol(ui), Some(here.symbol.clone()));
}

/// Hydrogen and helium at both ends of the first row.
fn first_period() -> PeriodicTableUi {
    let elements = vec![
        el(1, "H", 0, 0, ElementCategory::Nonmetal),
        el(2, "He", 0, 17, ElementCategory::NobleGas),
    ];
    PeriodicTableUi::new(build_table_layout(&elements))
}

/// A main-table row with beryllium at column 2 above a lanthanide row filling columns 3 to 17.
fn lanthanide_block() -> PeriodicTableUi {
    let mut elements = vec![el(4, "Be", 0, 2, ElementCategory::AlkalineEarthMetal)];
    for col in 3u8..18 {
        elements.push(el(54 + col, "Ln", 1, col, ElementCategory::Lanthanide));
    }
    PeriodicTableUi::new(build_table_layout(&elements))
}

#[test]
fn move_right_jumps_gap_to_helium() {
    let mut ui = first_period();
    assert_eq!(ui.cursor_position, (0, 0));
    assert_eq!(selected_symbol(&ui), Some("H".to_string()));
    assert!(ui.handle_event(&UiEvent::Right));
    assert_eq!(ui.cursor_position, (0, 17));
    assert_eq!(selected_symbol(&ui), Some("He".to_string()));
}

#[test]
fn move_left_jumps_gap_back_to_hydrogen() {
    let mut ui = first_period();
    ui.handle_event(&UiEvent::Right);
    ui.handle_event(&UiEvent::Left);
    assert_eq!(ui.cursor_position, (0, 0));
    assert_eq!(selected_symbol(&ui), Some("H".to_string()));
}

#[test]
fn move_up_from_top_row_is_rejected() {
    let mut ui = first_period();
    ui.handle_event(&UiEvent::Right);
    assert!(ui.handle_event(&UiEvent::Up));
    assert_eq!(ui.cursor_position, (0, 17));
    assert_eq!(selected_symbol(&ui), Some("He".to_string()));
}

#[test]
fn move_down_snaps_to_first_element_of_row() {
    let mut ui = lanthanide_block();
    assert_eq!(ui.cursor_position, (0, 2));
    ui.handle_event(&UiEvent::Down);
    assert_eq!(ui.cursor_position, (1, 3));
    assert_eq!(ui.selected_element.as_ref().map(|e| e.number), Some(57));
}

#[test]
fn move_down_keeps_column_when_occupied() {
    let mut ui = lanthanide_block();
    ui.handle_event(&UiEvent::Down);
    ui.handle_event(&UiEvent::Right);
    ui.handle_event(&UiEvent::Right);
    assert_eq!(ui.cursor_position, (1, 5));
    ui.handle_event(&UiEvent::Up);
    assert_eq!(ui.cursor_position, (0, 2));
    ui.handle_event(&UiEvent::Down);
    assert_eq!(ui.cursor_position, (1, 3));
}

#[test]
fn move_down_from_last_row_is_rejected() {
    let mut ui = lanthanide_block();
    ui.handle_event(&UiEvent::Down);
    ui.handle_event(&UiEvent::Down);
    assert_eq!(ui.cursor_position, (1, 3));
}

#[test]
fn move_up_into_empty_row_is_rejected() {
    let elements = vec![
        el(1, "H", 0, 0, ElementCategory::Nonmetal),
        el(3, "Li", 2, 0, ElementCategory::AlkaliMetal),
    ];
    let mut ui = PeriodicTableUi::new(build_table_layout(&elements));
    ui.handle_event(&UiEvent::Down);
    assert_eq!(ui.cursor_position, (0, 0));
    ui.cursor_position = (2, 0);
    ui.selected_element = Some(el(3, "Li", 2, 0, ElementCategory::AlkaliMetal));
    for _ in 0..3 {
        ui.handle_event(&UiEvent::Up);
        assert_eq!(ui.cursor_position, (2, 0));
        assert_eq!(selected_symbol(&ui), Some("Li".to_string()));
    }
}

#[test]
fn repeated_rejected_left_is_idempotent() {
    let mut ui = first_period();
    for _ in 0..5 {
        assert!(ui.handle_event(&UiEvent::Left));
        assert_eq!(ui.cursor_position, (0, 0));
        assert_eq!(selected_symbol(&ui), Some("H".to_string()));
    }
}

#[test]
fn cursor_stays_on_elements_through_move_sequence() {
    let mut ui = lanthanide_block();
    let moves = [
        UiEvent::Up,
        UiEvent::Left,
        UiEvent::Down,
        UiEvent::Right,
        UiEvent::Right,
        UiEvent::Down,
        UiEvent::Left,
        UiEvent::Left,
        UiEvent::Left,
        UiEvent::Up,
        UiEvent::Right,
        UiEvent::Activate,
        UiEvent::Other,
    ];
    for event in moves.iter() {
        assert!(ui.handle_event(event));
        assert_on_element(&ui);
    }
}

#[test]
fn quit_stops_and_changes_nothing() {
    let mut ui = first_period();
    assert!(!ui.handle_event(&UiEvent::Quit));
    assert_eq!(ui.cursor_position, (0, 0));
    assert_eq!(selected_symbol(&ui), Some("H".to_string()));
}

#[test]
fn empty_layout_selects_nothing() {
    let mut ui = PeriodicTableUi::new(Vec::new());
    assert_eq!(ui.cursor_position, (0, 0));
    assert!(ui.selected_element.is_none());
    for event in [UiEvent::Up, UiEvent::Down, UiEvent::Left, UiEvent::Right, UiEvent::Activate].iter() {
        assert!(ui.handle_event(event));
        assert_eq!(ui.cursor_position, (0, 0));
        assert!(ui.selected_element.is_none());
    }
    let mut blank = PeriodicTableUi::new(vec![vec![None, None], vec![None, None]]);
    blank.handle_event(&UiEvent::Down);
    blank.handle_event(&UiEvent::Right);
    assert_eq!(blank.cursor_position, (0, 0));
    assert!(blank.selected_element.is_none());
}

#[test]
fn click_on_drawn_cell_selects_it() {
    let mut ui = lanthanide_block();
    let area = ScreenRect { x: 0, y: 1, width: 100, height: 20 };
    ui.set_table_area(area);
    assert_eq!(
        cell_rect(area, 2, 18, 1, 3),
        Some(ScreenRect { x: 20, y: 11, width: 5, height: 3 })
    );
    assert!(ui.handle_event(&UiEvent::Click { column: 22, row: 12 }));
    assert_eq!(ui.cursor_position, (1, 3));
    assert_eq!(ui.selected_element.as_ref().map(|e| e.number), Some(57));
    ui.handle_event(&UiEvent::Click { column: 24, row: 13 });
    assert_eq!(ui.cursor_position, (1, 3));
    ui.handle_event(&UiEvent::Click { column: 15, row: 8 });
    assert_eq!(ui.cursor_position, (0, 2));
}

#[test]
fn click_in_margin_is_ignored() {
    let mut ui = lanthanide_block();
    ui.set_table_area(ScreenRect { x: 0, y: 1, width: 100, height: 20 });
    ui.handle_event(&UiEvent::Click { column: 2, row: 2 });
    assert_eq!(ui.cursor_position, (0, 2));
    ui.handle_event(&UiEvent::Click { column: 96, row: 12 });
    assert_eq!(ui.cursor_position, (0, 2));
    // An empty cell inside the grid is no target either.
    ui.handle_event(&UiEvent::Click { column: 6, row: 12 });
    assert_eq!(ui.cursor_position, (0, 2));
}

#[test]
fn cell_at_inverts_cell_rect() {
    let area = ScreenRect { x: 3, y: 2, width: 97, height: 31 };
    for row in 0..10usize {
        for col in 0..18usize {
            let rect = cell_rect(area, 10, 18, row, col).expect("cell fits");
            for dx in 0..rect.width {
                for dy in 0..rect.height {
                    assert_eq!(cell_at(area, 10, 18, rect.x + dx, rect.y + dy), Some((row, col)));
                }
            }
        }
    }
    assert_eq!(cell_at(area, 10, 18, 3, 2), None);
    assert_eq!(cell_at(area, 10, 18, 99, 32), None);
}

#[test]
fn cells_that_do_not_fit_are_not_drawn() {
    let area = ScreenRect { x: 0, y: 0, width: 20, height: 6 };
    assert_eq!(cell_rect(area, 2, 18, 0, 3), Some(ScreenRect { x: 15, y: 0, width: 5, height: 3 }));
    assert_eq!(cell_rect(area, 2, 18, 0, 4), None);
    assert_eq!(cell_at(area, 2, 18, 21, 1), None);
    assert_eq!(cell_rect(area, 2, 18, 2, 0), None);
}

#[test]
fn table_cells_lists_drawn_elements() {
    let mut ui = first_period();
    ui.set_table_area(ScreenRect { x: 1, y: 1, width: 92, height: 5 });
    let cells = ui.table_cells();
    assert_eq!(cells.len(), 2);
    assert_eq!((cells[0].row, cells[0].col), (0, 0));
    assert_eq!(cells[0].rect, ScreenRect { x: 2, y: 2, width: 5, height: 3 });
    assert_eq!(cells[0].color, (102, 255, 102));
    assert!(cells[0].highlighted);
    assert_eq!((cells[1].row, cells[1].col), (0, 17));
    assert_eq!(cells[1].rect, ScreenRect { x: 87, y: 2, width: 5, height: 3 });
    assert_eq!(cells[1].color, (204, 153, 204));
    assert!(!cells[1].highlighted);
    ui.set_table_area(ScreenRect { x: 0, y: 0, width: 10, height: 3 });
    assert_eq!(ui.table_cells().len(), 1);
}

#[test]
fn category_colors_are_distinct() {
    let all = [
        ElementCategory::AlkaliMetal,
        ElementCategory::AlkalineEarthMetal,
        ElementCategory::Lanthanide,
        ElementCategory::Actinide,
        ElementCategory::TransitionMetal,
        ElementCategory::PostTransitionMetal,
        ElementCategory::Metalloid,
        ElementCategory::Nonmetal,
        ElementCategory::Halogen,
        ElementCategory::NobleGas,
        ElementCategory::Unknown,
    ];
    for (i, a) in all.iter().enumerate() {
        for b in all.iter().skip(i + 1) {
            assert_ne!(category_color(*a), category_color(*b));
        }
    }
    assert_eq!(category_color(ElementCategory::AlkaliMetal), (255, 102, 102));
    assert_eq!(category_color(ElementCategory::Unknown), (180, 180, 180));
    assert_eq!(el(26, "Fe", 3, 7, ElementCategory::TransitionMetal).color(), (255, 255, 102));
}

#[test]
fn layout_places_each_element() {
    let elements = vec![
        el(1, "H", 0, 0, ElementCategory::Nonmetal),
        el(2, "He", 0, 17, ElementCategory::NobleGas),
        el(57, "La", 8, 3, ElementCategory::Lanthanide),
    ];
    assert_eq!(find_duplicate_position(&elements), None);
    let layout = build_table_layout(&elements);
    assert_eq!(layout.len(), 9);
    assert!(layout.iter().all(|row| row.len() == 18));
    let placed: usize = layout.iter().map(|row| row.iter().filter(|c| c.is_some()).count()).sum();
    assert_eq!(placed, 3);
    assert_eq!(layout[8][3].as_ref().map(|e| e.symbol.as_str()), Some("La"));
    assert_eq!(layout[0][17].as_ref().map(|e| e.number), Some(2));
    assert!(layout[1][0].is_none());
    assert!(build_table_layout(&Vec::new()).is_empty());
}

#[test]
fn duplicate_position_is_reported() {
    let elements = vec![
        el(1, "H", 0, 0, ElementCategory::Nonmetal),
        el(2, "He", 0, 17, ElementCategory::NobleGas),
        el(3, "Li", 0, 0, ElementCategory::AlkaliMetal),
    ];
    assert_eq!(find_duplicate_position(&elements), Some((0, 2)));
}
