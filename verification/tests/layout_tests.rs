use countdown::layout::{choose_layout, Layout};

#[test]
fn horizontal_preferred_when_it_fits() {
    let h = vec![0u8, 1];
    let m = vec![0u8, 2];
    let s = vec![0u8, 3];
    // widths: (11 + 5) + (11 + 5) + 11 = 43, height 5
    assert_eq!(
        choose_layout(&(43, 5), &h, &m, &s, 0),
        Layout::Horizontal((43, 5))
    );
    assert_eq!(
        choose_layout(&(200, 80), &h, &m, &s, 0),
        Layout::Horizontal((43, 5))
    );
}

#[test]
fn narrow_terminal_falls_back_to_vertical() {
    let h = vec![0u8, 1];
    let m = vec![0u8, 2];
    let s = vec![0u8, 3];
    // vertical: width 33, height 6 + 6 + 5 = 17
    assert_eq!(
        choose_layout(&(42, 17), &h, &m, &s, 0),
        Layout::Vertical((33, 17))
    );
}

#[test]
fn too_small_terminal_is_impossible() {
    let h = vec![0u8, 1];
    let m = vec![0u8, 2];
    let s = vec![0u8, 3];
    assert_eq!(
        choose_layout(&(42, 16), &h, &m, &s, 0),
        Layout::Impossible([(43, 5), (33, 17)])
    );
}

#[test]
fn suppressed_fields_contribute_nothing() {
    let zz = vec![0u8, 0];
    let m = vec![0u8, 2];
    let s = vec![0u8, 3];
    // hours suppressed: (11 + 5) + 11 = 27 wide
    assert_eq!(
        choose_layout(&(27, 5), &zz, &m, &s, 0),
        Layout::Horizontal((27, 5))
    );
    // hours and minutes suppressed: seconds alone, 11 wide
    assert_eq!(
        choose_layout(&(11, 5), &zz, &zz, &s, 0),
        Layout::Horizontal((11, 5))
    );
    assert_eq!(
        choose_layout(&(10, 30), &zz, &zz, &s, 0),
        Layout::Impossible([(11, 5), (11, 5)])
    );
}

#[test]
fn single_message_line_reserves_no_space() {
    let zz = vec![0u8, 0];
    let s = vec![0u8, 3];
    assert_eq!(
        choose_layout(&(11, 5), &zz, &zz, &s, 1),
        Layout::Horizontal((11, 5))
    );
}

#[test]
fn multi_line_message_reserves_blank_row_plus_lines() {
    let zz = vec![0u8, 0];
    let s = vec![0u8, 3];
    // two lines: height 5 + 1 + 2 = 8
    assert_eq!(
        choose_layout(&(11, 8), &zz, &zz, &s, 2),
        Layout::Horizontal((11, 8))
    );
    assert_eq!(
        choose_layout(&(11, 7), &zz, &zz, &s, 2),
        Layout::Impossible([(11, 8), (11, 8)])
    );
}
