use countdown::engine::{Action, Countdown, Event, Key, KeyPress, Phase};

fn press(key: Key, ctrl: bool) -> Option<Event> {
    Some(Event::Pressed(KeyPress { key, ctrl }))
}

#[test]
fn counts_down_and_expires_on_the_boundary() {
    let mut c = Countdown::new(3, (80, 24));
    assert_eq!(c.step(None, 0), Action::Draw(3, true));
    assert_eq!(c.step(None, 1), Action::Draw(2, false));
    assert_eq!(c.step(None, 2), Action::Draw(1, false));
    assert_eq!(c.step(None, 3), Action::Stop);
    assert_eq!(c.phase, Phase::Expired);
}

#[test]
fn overshot_clock_never_shows_a_wrapped_time() {
    let mut c = Countdown::new(3, (80, 24));
    assert_eq!(c.step(None, 1000), Action::Stop);
    assert_eq!(c.phase, Phase::Expired);
}

#[test]
fn quit_keys_end_the_run() {
    for ev in [
        press(Key::Esc, false),
        press(Key::Char('q'), false),
        press(Key::Char('c'), true),
    ] {
        let mut c = Countdown::new(30, (80, 24));
        assert_eq!(c.step(ev, 0), Action::Stop);
        assert_eq!(c.phase, Phase::UserQuit);
    }
}

#[test]
fn plain_c_does_not_quit() {
    let mut c = Countdown::new(30, (80, 24));
    assert_eq!(c.step(press(Key::Char('c'), false), 0), Action::Draw(30, true));
    assert_eq!(c.phase, Phase::Running);
}

#[test]
fn resize_updates_dimensions_and_forces_a_full_redraw() {
    let mut c = Countdown::new(30, (80, 24));
    assert_eq!(c.step(None, 0), Action::Draw(30, true));
    assert_eq!(c.step(Some(Event::Resized(100, 50)), 1), Action::Draw(29, true));
    assert_eq!(c.term, (100, 50));
    assert_eq!(c.step(None, 2), Action::Draw(28, false));
}

#[test]
fn other_input_is_ignored() {
    let mut c = Countdown::new(30, (80, 24));
    assert_eq!(c.step(Some(Event::Other), 0), Action::Draw(30, true));
    assert_eq!(c.step(press(Key::Char('x'), false), 1), Action::Draw(29, false));
    assert_eq!(c.phase, Phase::Running);
}
