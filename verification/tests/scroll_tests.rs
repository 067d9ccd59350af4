use ndless_text_viewer::scroll::{map_key, Command, KeyInput, ScrollAction, Viewport};
use ndless_text_viewer::types::{Direction, ScreenInfo};

#[test]
fn screen_info_from_default_cell() {
    let info = ScreenInfo::from_cell(6, 11).unwrap();
    assert_eq!(info.char_width, 6);
    assert_eq!(info.char_height, 11);
    assert_eq!(info.max_cols, 53);
    assert_eq!(info.max_lines, 21);
}

#[test]
fn screen_info_rejects_zero_cell() {
    assert!(ScreenInfo::from_cell(0, 11).is_none());
    assert!(ScreenInfo::from_cell(6, 0).is_none());
}

#[test]
fn key_bindings() {
    assert_eq!(map_key(KeyInput::Escape), Command::Quit);
    assert_eq!(map_key(KeyInput::Enter), Command::Quit);
    assert_eq!(map_key(KeyInput::Digit5), Command::Quit);
    assert_eq!(map_key(KeyInput::DownArrow), Command::ScrollDown);
    assert_eq!(map_key(KeyInput::Digit2), Command::ScrollDown);
    assert_eq!(map_key(KeyInput::UpArrow), Command::ScrollUp);
    assert_eq!(map_key(KeyInput::Digit8), Command::ScrollUp);
    assert_eq!(map_key(KeyInput::Other), Command::Ignore);
}

#[test]
fn scroll_down_noop_when_all_visible() {
    let mut v = Viewport::new(5, 21);
    let a = v.apply(Command::ScrollDown);
    assert_eq!(a, ScrollAction::Stay);
    assert_eq!(v.first_visible_line, 0);
}

#[test]
fn scroll_down_reaches_bound_then_stops() {
    let mut v = Viewport::new(25, 21);
    for step in 1..=4usize {
        let a = v.apply(Command::ScrollDown);
        assert_eq!(a, ScrollAction::RedrawRow { row: 20, shift: Direction::Up });
        assert_eq!(v.first_visible_line, step);
    }
    let a = v.apply(Command::ScrollDown);
    assert_eq!(a, ScrollAction::Stay);
    assert_eq!(v.first_visible_line, 4);
}

#[test]
fn scroll_up_noop_at_top() {
    let mut v = Viewport::new(25, 21);
    let a = v.apply(Command::ScrollUp);
    assert_eq!(a, ScrollAction::Stay);
    assert_eq!(v.first_visible_line, 0);
}

#[test]
fn scroll_up_after_down_redraws_top_row() {
    let mut v = Viewport::new(25, 21);
    v.apply(Command::ScrollDown);
    let a = v.apply(Command::ScrollUp);
    assert_eq!(a, ScrollAction::RedrawRow { row: 0, shift: Direction::Down });
    assert_eq!(v.first_visible_line, 0);
}

#[test]
fn quit_and_ignore_leave_state_alone() {
    let mut v = Viewport::new(25, 21);
    assert_eq!(v.apply(Command::Ignore), ScrollAction::Stay);
    assert_eq!(v.apply(Command::Quit), ScrollAction::Exit);
    assert_eq!(v.first_visible_line, 0);
}

#[test]
fn visible_line_counts() {
    assert_eq!(Viewport::new(5, 21).visible_lines(), 5);
    assert_eq!(Viewport::new(30, 21).visible_lines(), 21);
    assert_eq!(Viewport::new(0, 21).visible_lines(), 0);
}
