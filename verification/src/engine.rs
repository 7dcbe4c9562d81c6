//! The countdown loop as a state machine: each poll round hands the
//! verified step one optional input event and the elapsed wall-clock
//! seconds, and gets back what to do — draw one frame or stop.
//!
//! The terminal shell owns the polling, the clock and the screen; every
//! decision is made here.

use vstd::prelude::*;

verus! {

/// A pressed key, reduced to what the loop cares about.
#[derive(Debug, Clone, Copy, PartialEq, Eq)]
pub enum Key {
    Esc,
    Char(char),
    Other,
}

/// One key press with its control-modifier flag.
#[derive(Debug, Clone, Copy, PartialEq, Eq)]
pub struct KeyPress {
    pub key: Key,
    pub ctrl: bool,
}

/// One thing the bounded poll turned up.
#[derive(Debug, Clone, Copy, PartialEq, Eq)]
pub enum Event {
    Pressed(KeyPress),
    Resized(u16, u16),
    Other,
}

/// Where the countdown stands; the two terminal phases say how it ended.
#[derive(Debug, Clone, Copy, PartialEq, Eq)]
pub enum Phase {
    Running,
    Expired,
    UserQuit,
}

/// What the shell is to do after one step: draw the remaining seconds
/// (fully repainting when the flag holds), or leave the loop.
#[derive(Debug, Clone, Copy, PartialEq, Eq)]
pub enum Action {
    Draw(u64, bool),
    Stop,
}

/// Escape, `q`, and control-`c` end the countdown early.
pub open spec fn is_quit(k: KeyPress) -> bool {
    k.key == Key::Esc || k.key == Key::Char('q') || (k.key == Key::Char('c') && k.ctrl)
}

pub open spec fn quit_event(e: Option<Event>) -> bool {
    match e {
        Some(Event::Pressed(k)) => is_quit(k),
        _ => false,
    }
}

/// The stored terminal size after an event: a resize replaces it.
pub open spec fn term_after(e: Option<Event>, t: (u16, u16)) -> (u16, u16) {
    match e {
        Some(Event::Resized(w, h)) => (w, h),
        _ => t,
    }
}

/// Whether the next redraw repaints everything: a resize demands it.
pub open spec fn full_after(e: Option<Event>, f: bool) -> bool {
    match e {
        Some(Event::Resized(w, h)) => true,
        _ => f,
    }
}

/// Does this key press end the countdown?
pub fn is_quit_key(k: &KeyPress) -> (b: bool)
    ensures
        b == is_quit(*k),
{
    match k.key {
        Key::Esc => true,
        Key::Char(c) => c == 'q' || (c == 'c' && k.ctrl),
        Key::Other => false,
    }
}

/// The countdown's whole state between poll rounds.
pub struct Countdown {
    pub target: u64,
    pub term: (u16, u16),
    pub full_redraw: bool,
    pub phase: Phase,
}

impl Countdown {
    /// Start a countdown of `target_seconds` on a terminal of `term_dim`
    /// cells; the first redraw paints the whole screen.
    pub fn new(target_seconds: u64, term_dim: (u16, u16)) -> (c: Countdown)
        ensures
            c.target == target_seconds,
            c.term == term_dim,
            c.full_redraw,
            c.phase == Phase::Running,
    {
        Countdown { target: target_seconds, term: term_dim, full_redraw: true, phase: Phase::Running }
    }

    /// One loop iteration's decision. A quit key ends the run at once; a
    /// resize stores the new size and demands a full redraw. Otherwise,
    /// once the elapsed time has reached the target the countdown is
    /// expired — the remaining time never goes below zero — and until then
    /// exactly one draw of the positive remainder is requested.
    pub fn step(&mut self, event: Option<Event>, elapsed_seconds: u64) -> (a: Action)
        requires
            old(self).phase == Phase::Running,
        ensures
            final (self).target == old(self).target,
            quit_event(event) ==> final (self).phase == Phase::UserQuit && a == Action::Stop
                && final (self).term == old(self).term && final (self).full_redraw == old(
                self,
            ).full_redraw,
            !quit_event(event) ==> final (self).term == term_after(event, old(self).term),
            !quit_event(event) && elapsed_seconds >= old(self).target ==> final (self).phase
                == Phase::Expired && a == Action::Stop && final (self).full_redraw == full_after(
                event,
                old(self).full_redraw,
            ),
            !quit_event(event) && elapsed_seconds < old(self).target ==> final (self).phase
                == Phase::Running && !final (self).full_redraw && a == Action::Draw(
                (old(self).target - elapsed_seconds) as u64,
                full_after(event, old(self).full_redraw),
            ) && old(self).target - elapsed_seconds > 0,
    {
        let quitting: bool = match &event {
            Some(Event::Pressed(k)) => is_quit_key(k),
            _ => false,
        };
        if quitting {
            self.phase = Phase::UserQuit;
            return Action::Stop;
        }
        match event {
            Some(Event::Resized(w, h)) => {
                self.term = (w, h);
                self.full_redraw = true;
            },
            _ => {},
        }
        if elapsed_seconds >= self.target {
            self.phase = Phase::Expired;
            Action::Stop
        } else {
            let full: bool = self.full_redraw;
            self.full_redraw = false;
            Action::Draw(self.target - elapsed_seconds, full)
        }
    }
}

} // verus!
