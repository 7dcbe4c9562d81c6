use countdown::render::{center, render_frame, u64_to_string};

#[test]
fn center_pads_left_by_half_the_slack() {
    assert_eq!(center("ab", 6), "  ab");
}

#[test]
fn center_never_truncates() {
    assert_eq!(center("abcdef", 4), "abcdef");
}

#[test]
fn decimal_text() {
    assert_eq!(u64_to_string(0), "0");
    assert_eq!(u64_to_string(7), "7");
    assert_eq!(u64_to_string(1234), "1234");
}

#[test]
fn seconds_only_frame_draws_just_the_seconds_block() {
    // 45 seconds: hours and minutes are suppressed, only [4, 5] is drawn.
    let frame = render_frame(45, &None, &(80, 24), true);
    assert!(frame.clear_all);
    assert_eq!(frame.cmds.len(), 5);
    for (r, cmd) in frame.cmds.iter().enumerate() {
        assert_eq!(cmd.row, 9 + r as u64); // top = (24 - 5) / 2
        assert_eq!(cmd.col, 34); // (80 - 11) / 2
        assert!(!cmd.styled);
    }
    assert_eq!(frame.cmds[0].text, "█   █ █████");
    assert_eq!(frame.cmds[4].text, "    █ █████");
}

#[test]
fn one_second_frame_fits_the_minimum_footprint() {
    let frame = render_frame(1, &None, &(11, 5), true);
    assert_eq!(frame.cmds.len(), 5);
    assert_eq!(frame.cmds[0].row, 0);
    assert_eq!(frame.cmds[0].col, 0);
    assert_eq!(frame.cmds[0].text, "█████   █  ");
}

#[test]
fn vertical_frame_stacks_blocks_with_blank_rows() {
    // 3661 seconds: h = [0,1], m = [0,1], s = [0,1]; horizontal needs 43
    // columns, vertical is 33 by 17.
    let frame = render_frame(3661, &None, &(35, 24), true);
    assert_eq!(frame.cmds.len(), 15);
    // top = (24 - 17) / 2 = 3; blocks start one row down, a blank row apart
    assert_eq!(frame.cmds[0].row, 4);
    assert_eq!(frame.cmds[5].row, 10);
    assert_eq!(frame.cmds[10].row, 16);
    assert_eq!(frame.cmds[0].col, 12); // (35 - 11) / 2
    assert_eq!(frame.cmds[0].text, "█████   █  ");
}

#[test]
fn single_line_message_is_drawn_below_the_block_on_full_redraw() {
    let frame = render_frame(45, &Some(String::from("hello brave new world")), &(30, 24), true);
    assert_eq!(frame.cmds.len(), 6);
    let msg = &frame.cmds[5];
    assert!(msg.styled);
    assert_eq!(msg.row, 15); // top 9, block 5 rows, one below
    assert_eq!(msg.col, 4); // (30 - 21) / 2
    assert_eq!(msg.text, "hello brave new world");
}

#[test]
fn long_message_is_wrapped_to_the_terminal_width() {
    // At 13 columns the message must break into two lines; the layout
    // reserves one blank row plus both lines.
    let frame = render_frame(45, &Some(String::from("hello brave new world")), &(13, 40), true);
    let styled: Vec<_> = frame.cmds.iter().filter(|c| c.styled).collect();
    assert_eq!(styled.len(), 2);
    assert_eq!(styled[0].text, "hello brave");
    assert_eq!(styled[1].text, "new world");
    // horizontal box is 11 by 8; top = (40 - 8) / 2 = 16
    assert_eq!(styled[0].row, 22);
    assert_eq!(styled[1].row, 22);
    assert_eq!(styled[0].col, 1);
    assert_eq!(styled[1].col, 2);
}

#[test]
fn partial_redraw_leaves_the_message_alone() {
    let frame = render_frame(45, &Some(String::from("hi")), &(30, 24), false);
    assert!(!frame.clear_all);
    assert_eq!(frame.cmds.len(), 5);
    assert!(frame.cmds.iter().all(|c| !c.styled));
}

#[test]
fn impossible_frame_is_one_diagnostic_line() {
    let frame = render_frame(45, &None, &(10, 4), true);
    assert!(frame.clear_all);
    assert_eq!(frame.cmds.len(), 1);
    assert_eq!(frame.cmds[0].row, 0);
    assert_eq!(frame.cmds[0].col, 0);
    assert_eq!(
        frame.cmds[0].text,
        "Error: terminal too small. Current: 10x4 Horizontal: 11x5 Vertical: 11x5"
    );
}
