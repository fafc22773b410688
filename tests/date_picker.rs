use tasklist::date_picker::DatePicker;
use tasklist::key::Key;

fn open_on(due: &str) -> DatePicker {
    let mut p = DatePicker::new();
    p.start(due, 2024, 3, 15);
    p
}

fn press(p: &mut DatePicker, keys: &[Key]) {
    for k in keys {
        assert!(p.handle_key_press_event(*k));
    }
}

fn commit(p: &mut DatePicker) -> String {
    assert!(p.handle_key_press_event(Key::F(1)));
    p.get_date().expect("a committed date")
}

#[test]
fn new_editor_is_closed_and_ignores_keys() {
    let mut p = DatePicker::new();
    assert!(!p.is_editing());
    assert!(!p.handle_key_press_event(Key::F(1)));
    assert!(!p.handle_key_press_event(Key::Char('5')));
    assert_eq!(p.cells(), [2, 0, 2, 5, 0, 1, 0, 1]);
    assert_eq!(p.get_date(), None);
}

#[test]
fn start_seeds_cells_from_due_date() {
    let p = open_on("2025/02/28");
    assert!(p.is_editing());
    assert_eq!(p.position(), 0);
    assert_eq!(p.cells(), [2, 0, 2, 5, 0, 2, 2, 8]);
}

#[test]
fn malformed_due_date_falls_back_to_today() {
    assert_eq!(open_on("2025-02-28").cells(), [2, 0, 2, 4, 0, 3, 1, 5]);
    assert_eq!(open_on("").cells(), [2, 0, 2, 4, 0, 3, 1, 5]);
    assert_eq!(open_on("2025/02/2").cells(), [2, 0, 2, 4, 0, 3, 1, 5]);
    assert_eq!(open_on("2025/0x/28").cells(), [2, 0, 2, 4, 0, 3, 1, 5]);
    assert_eq!(open_on("2025/02/281").cells(), [2, 0, 2, 4, 0, 3, 1, 5]);
}

#[test]
fn start_without_due_date_uses_today() {
    let mut p = DatePicker::new();
    p.start("", 2031, 11, 9);
    assert_eq!(p.cells(), [2, 0, 3, 1, 1, 1, 0, 9]);
    assert!(p.is_editing());
    assert_eq!(p.position(), 0);
}

#[test]
fn start_clamps_today_year_to_four_digits() {
    let mut p = DatePicker::new();
    p.start("", 12345, 1, 2);
    assert_eq!(p.cells(), [9, 9, 9, 9, 0, 1, 0, 2]);
    p.start("", -5, 1, 2);
    assert_eq!(p.cells(), [0, 0, 0, 0, 0, 1, 0, 2]);
}

#[test]
fn start_keeps_well_formed_due_date() {
    let mut p = DatePicker::new();
    p.start(&String::from("1999/12/31"), 2024, 3, 15);
    assert_eq!(p.cells(), [1, 9, 9, 9, 1, 2, 3, 1]);
}

#[test]
fn day_increment_at_end_of_february_wraps_to_first() {
    let mut p = open_on("2025/02/28");
    press(&mut p, &[Key::Tab, Key::Tab, Key::Char('k')]);
    assert_eq!(p.cells(), [2, 0, 2, 5, 0, 2, 0, 1]);
    assert_eq!(p.position(), 6);
}

#[test]
fn day_increment_in_leap_february_reaches_29() {
    let mut p = open_on("2024/02/28");
    press(&mut p, &[Key::Tab, Key::Tab, Key::Char('k')]);
    assert_eq!(p.cells(), [2, 0, 2, 4, 0, 2, 2, 9]);
    press(&mut p, &[Key::Char('k')]);
    assert_eq!(p.cells(), [2, 0, 2, 4, 0, 2, 0, 1]);
}

#[test]
fn day_decrement_at_first_wraps_to_month_end() {
    let mut p = open_on("2024/02/01");
    press(&mut p, &[Key::BackTab, Key::Char('j')]);
    assert_eq!(p.cells(), [2, 0, 2, 4, 0, 2, 2, 9]);
    let mut p = open_on("2023/04/01");
    press(&mut p, &[Key::BackTab, Key::Char('j')]);
    assert_eq!(p.cells(), [2, 0, 2, 3, 0, 4, 3, 0]);
}

#[test]
fn day_step_down_clamps_an_overlong_day() {
    let mut p = open_on("2023/02/31");
    press(&mut p, &[Key::BackTab, Key::Char('j')]);
    assert_eq!(p.cells(), [2, 0, 2, 3, 0, 2, 2, 8]);
}

#[test]
fn month_wraps_both_ways_and_keeps_year() {
    let mut p = open_on("2025/12/10");
    press(&mut p, &[Key::Tab, Key::Char('k')]);
    assert_eq!(p.cells(), [2, 0, 2, 5, 0, 1, 1, 0]);
    assert_eq!(p.position(), 4);
    press(&mut p, &[Key::Char('j')]);
    assert_eq!(p.cells(), [2, 0, 2, 5, 1, 2, 1, 0]);
}

#[test]
fn month_step_from_second_cell_snaps_cursor_to_field_start() {
    let mut p = open_on("2025/05/10");
    press(&mut p, &[Key::Tab, Key::Char('l'), Key::Char('k')]);
    assert_eq!(p.cells(), [2, 0, 2, 5, 0, 6, 1, 0]);
    assert_eq!(p.position(), 4);
}

#[test]
fn year_wraps_modulo_ten_thousand() {
    let mut p = open_on("9999/01/01");
    press(&mut p, &[Key::Char('l'), Key::Char('k')]);
    assert_eq!(p.cells(), [0, 0, 0, 0, 0, 1, 0, 1]);
    assert_eq!(p.position(), 0);
    press(&mut p, &[Key::Char('j')]);
    assert_eq!(p.cells(), [9, 9, 9, 9, 0, 1, 0, 1]);
    press(&mut p, &[Key::Char('j')]);
    assert_eq!(p.cells(), [9, 9, 9, 8, 0, 1, 0, 1]);
}

#[test]
fn cursor_left_right_wrap_at_both_ends() {
    let mut p = open_on("2025/01/01");
    press(&mut p, &[Key::Char('h')]);
    assert_eq!(p.position(), 7);
    press(&mut p, &[Key::Char('l')]);
    assert_eq!(p.position(), 0);
    press(&mut p, &[Key::Char('l'), Key::Char('l')]);
    assert_eq!(p.position(), 2);
}

#[test]
fn space_and_backspace_are_ignored() {
    let mut p = open_on("2025/01/01");
    press(&mut p, &[Key::Backspace, Key::Char(' ')]);
    assert_eq!(p.position(), 0);
    press(&mut p, &[Key::Char('h'), Key::Char(' '), Key::Backspace]);
    assert_eq!(p.position(), 7);
    assert_eq!(p.cells(), [2, 0, 2, 5, 0, 1, 0, 1]);
}

#[test]
fn tab_and_backtab_cycle_through_fields() {
    let mut p = open_on("2025/01/01");
    press(&mut p, &[Key::Tab]);
    assert_eq!(p.position(), 4);
    press(&mut p, &[Key::Tab]);
    assert_eq!(p.position(), 6);
    press(&mut p, &[Key::Tab]);
    assert_eq!(p.position(), 0);
    press(&mut p, &[Key::BackTab]);
    assert_eq!(p.position(), 6);
    press(&mut p, &[Key::BackTab]);
    assert_eq!(p.position(), 4);
    press(&mut p, &[Key::BackTab]);
    assert_eq!(p.position(), 0);
}

#[test]
fn digits_overwrite_and_advance_with_wrap() {
    let mut p = open_on("2025/01/01");
    let keys: Vec<Key> = "19870615".chars().map(Key::Char).collect();
    press(&mut p, &keys);
    assert_eq!(p.cells(), [1, 9, 8, 7, 0, 6, 1, 5]);
    assert_eq!(p.position(), 0);
    press(&mut p, &[Key::Char('3')]);
    assert_eq!(p.position(), 1);
    assert_eq!(p.cells()[0], 3);
}

#[test]
fn other_keys_are_consumed_without_effect() {
    let mut p = open_on("2025/01/01");
    press(&mut p, &[Key::Char('x'), Key::Enter, Key::Other, Key::F(2)]);
    assert_eq!(p.cells(), [2, 0, 2, 5, 0, 1, 0, 1]);
    assert_eq!(p.position(), 0);
    assert!(p.is_editing());
}

#[test]
fn commit_formats_zero_padded_date() {
    let mut p = open_on("0042/07/04");
    assert_eq!(commit(&mut p), "0042/07/04");
    assert!(!p.is_editing());
}

#[test]
fn commit_clamps_month_and_day() {
    let mut p = open_on("2023/02/31");
    assert_eq!(commit(&mut p), "2023/02/28");
    let mut p = open_on("2024/02/31");
    assert_eq!(commit(&mut p), "2024/02/29");
    let mut p = open_on("2023/13/40");
    assert_eq!(commit(&mut p), "2023/12/31");
    let mut p = open_on("2023/00/00");
    assert_eq!(commit(&mut p), "2023/01/01");
}

#[test]
fn cancel_gives_empty_result() {
    let mut p = open_on("2023/05/05");
    assert!(p.handle_key_press_event(Key::Esc));
    assert_eq!(p.get_date(), Some(String::new()));
    assert!(!p.is_editing());
}

#[test]
fn second_commit_has_no_effect() {
    let mut p = open_on("2023/05/05");
    p.done();
    p.done();
    p.cancel();
    assert_eq!(p.get_date(), Some(String::from("2023/05/05")));
    p.done();
    assert_eq!(p.get_date(), None);
    assert!(!p.handle_key_press_event(Key::F(1)));
    assert_eq!(p.get_date(), None);
}

#[test]
fn parse_helpers_accept_only_digits_of_exact_length() {
    assert_eq!(DatePicker::parse_four("2025"), Some([2, 0, 2, 5]));
    assert_eq!(DatePicker::parse_four("20a5"), None);
    assert_eq!(DatePicker::parse_four("202"), None);
    assert_eq!(DatePicker::parse_four("20255"), None);
    assert_eq!(DatePicker::parse_two("07"), Some([0, 7]));
    assert_eq!(DatePicker::parse_two("7"), None);
    assert_eq!(DatePicker::parse_two("-7"), None);
}

#[test]
fn split_helpers_give_decimal_digits() {
    assert_eq!(DatePicker::split_four(2025), [2, 0, 2, 5]);
    assert_eq!(DatePicker::split_four(7), [0, 0, 0, 7]);
    assert_eq!(DatePicker::split_two(9), [0, 9]);
    assert_eq!(DatePicker::split_two(123), [2, 3]);
}

#[test]
fn cursor_column_skips_separators() {
    let mut p = open_on("2025/01/01");
    let mut columns = Vec::new();
    for _ in 0..8 {
        columns.push(p.cursor_column());
        press(&mut p, &[Key::Char('l')]);
    }
    assert_eq!(columns, vec![0, 1, 2, 3, 5, 6, 8, 9]);
}

#[test]
fn month_step_reclamps_day_to_new_month() {
    let mut p = open_on("2025/01/31");
    press(&mut p, &[Key::Tab, Key::Char('k')]);
    assert_eq!(p.cells(), [2, 0, 2, 5, 0, 2, 2, 8]);
    assert_eq!(p.position(), 4);
    let mut p = open_on("2024/01/31");
    press(&mut p, &[Key::Tab, Key::Char('k')]);
    assert_eq!(p.cells(), [2, 0, 2, 4, 0, 2, 2, 9]);
    let mut p = open_on("2023/05/31");
    press(&mut p, &[Key::Tab, Key::Char('j')]);
    assert_eq!(p.cells(), [2, 0, 2, 3, 0, 4, 3, 0]);
    let mut p = open_on("2023/04/00");
    press(&mut p, &[Key::Tab, Key::Char('k')]);
    assert_eq!(p.cells(), [2, 0, 2, 3, 0, 5, 0, 1]);
}

#[test]
fn month_step_keeps_a_day_that_fits() {
    let mut p = open_on("2023/03/15");
    press(&mut p, &[Key::Tab, Key::Char('j')]);
    assert_eq!(p.cells(), [2, 0, 2, 3, 0, 2, 1, 5]);
}
