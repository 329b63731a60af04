use vstd::prelude::*;
use crate::tabs::{next_index, prev_index, TabsState};

verus! {

/// What a key press asks for.
#[derive(Clone, Copy, Debug, PartialEq, Eq, Structural)]
pub enum Action {
    Quit,
    ScrollUp,
    ScrollDown,
    NextTab,
    PreviousTab,
    Nothing,
}

/// The keys the viewer listens to, kept as data so that each binding can be changed.
#[derive(Clone, Copy, Debug, PartialEq, Eq, Structural)]
pub struct KeyBindings {
    pub quit: char,
    pub scroll_up: char,
    pub scroll_down: char,
    pub previous_tab: Key,
    pub next_tab: Key,
}

/// A key as the terminal reports it.
#[derive(Clone, Copy, Debug, PartialEq, Eq, Structural)]
pub enum Key {
    Char(char),
    Left,
    Right,
    Other,
}

/// A mouse event.
#[derive(Clone, Copy, Debug, PartialEq, Eq, Structural)]
pub enum Mouse {
    WheelUp,
    WheelDown,
    Other,
}

/// An input event handed in by the terminal.
#[derive(Clone, Copy, Debug, PartialEq, Eq, Structural)]
pub enum InputEvent {
    /// A key; `pressed` is false for a release or a repeat.
    Key { key: Key, pressed: bool },
    Mouse(Mouse),
    Other,
}

/// What the loop does after one iteration.
#[derive(Clone, Copy, Debug, PartialEq, Eq, Structural)]
pub struct StepOutcome {
    /// The tick fired: restart the tick clock.
    pub reset_tick: bool,
    /// Leave the loop.
    pub quit: bool,
}

/// The scroll counter after action `a`: up and down move it by one, saturating.
pub open spec fn scrolled(v: usize, a: Action) -> usize {
    match a {
        Action::ScrollUp => if v == usize::MAX {
            usize::MAX
        } else {
            (v + 1) as usize
        },
        Action::ScrollDown => if v == 0 {
            0
        } else {
            (v - 1) as usize
        },
        _ => v,
    }
}

/// The tab index after action `a` over `k` titles.
pub open spec fn switched(i: int, k: int, a: Action) -> int {
    match a {
        Action::NextTab => next_index(i, k),
        Action::PreviousTab => prev_index(i, k),
        _ => i,
    }
}

/// The action a character key is bound to.
pub open spec fn char_action(b: KeyBindings, c: char) -> Action {
    if c == b.quit {
        Action::Quit
    } else if c == b.scroll_up {
        Action::ScrollUp
    } else if c == b.scroll_down {
        Action::ScrollDown
    } else {
        Action::Nothing
    }
}

/// The action a pressed key is bound to: a character binding first, then the tab keys.
pub open spec fn key_action(b: KeyBindings, k: Key) -> Action {
    let by_char = match k {
        Key::Char(c) => char_action(b, c),
        _ => Action::Nothing,
    };
    if by_char != Action::Nothing {
        by_char
    } else if k == b.previous_tab {
        Action::PreviousTab
    } else if k == b.next_tab {
        Action::NextTab
    } else {
        Action::Nothing
    }
}

/// The action an input event asks for. Releases, mouse events and the rest ask for
/// nothing; the mouse wheel is left for scrolling later.
pub open spec fn event_action(b: KeyBindings, e: InputEvent) -> Action {
    match e {
        InputEvent::Key { key, pressed } => if pressed {
            key_action(b, key)
        } else {
            Action::Nothing
        },
        InputEvent::Mouse(_) => Action::Nothing,
        InputEvent::Other => Action::Nothing,
    }
}

impl KeyBindings {
    /// `q` quits, `j` scrolls up, `k` scrolls down, Left and Right change tab.
    pub fn standard() -> (r: KeyBindings)
        ensures
            r.quit == 'q' && r.scroll_up == 'j' && r.scroll_down == 'k',
            r.previous_tab == Key::Left && r.next_tab == Key::Right,
    {
        KeyBindings {
            quit: 'q',
            scroll_up: 'j',
            scroll_down: 'k',
            previous_tab: Key::Left,
            next_tab: Key::Right,
        }
    }

    /// The action bound to character `c`; the quit binding is looked at first.
    pub fn action_for_char(&self, c: char) -> (r: Action)
        ensures
            r == char_action(*self, c),
    {
        if c == self.quit {
            Action::Quit
        } else if c == self.scroll_up {
            Action::ScrollUp
        } else if c == self.scroll_down {
            Action::ScrollDown
        } else {
            Action::Nothing
        }
    }

    /// The action bound to a pressed key.
    pub fn action_for_key(&self, k: Key) -> (r: Action)
        ensures
            r == key_action(*self, k),
    {
        let by_char = match k {
            Key::Char(c) => self.action_for_char(c),
            _ => Action::Nothing,
        };
        if by_char != Action::Nothing {
            by_char
        } else if k == self.previous_tab {
            Action::PreviousTab
        } else if k == self.next_tab {
            Action::NextTab
        } else {
            Action::Nothing
        }
    }

    /// The action an input event asks for.
    pub fn action_for_event(&self, e: InputEvent) -> (r: Action)
        ensures
            r == event_action(*self, e),
    {
        match e {
            InputEvent::Key { key, pressed } => {
                if pressed {
                    self.action_for_key(key)
                } else {
                    Action::Nothing
                }
            },
            InputEvent::Mouse(_) => Action::Nothing,
            InputEvent::Other => Action::Nothing,
        }
    }
}

/// How long to wait for input: what is left of the tick, never below zero.
pub fn poll_timeout(tick_rate: u64, elapsed: u64) -> (r: u64)
    ensures
        r == if elapsed >= tick_rate { 0 } else { tick_rate - elapsed },
{
    tick_rate.saturating_sub(elapsed)
}

/// Whether the tick has come: a whole tick has passed since the last one.
pub fn tick_due(tick_rate: u64, elapsed: u64) -> (r: bool)
    ensures
        r == (elapsed >= tick_rate),
{
    elapsed >= tick_rate
}

/// The viewer's state between frames: the selected tab, the scroll counter, whether to quit.
pub struct App<'a> {
    pub title: &'a str,
    pub should_quit: bool,
    pub tabs: TabsState<'a>,
    pub vertical_scroll: usize,
    pub show_tabs: bool,
    pub logs_border: bool,
    pub keys: KeyBindings,
}

impl<'a> App<'a> {
    /// The tab selection is valid.
    pub open spec fn wf(&self) -> bool {
        self.tabs.wf()
    }

    /// Everything but the scroll counter, the quit flag and the selected tab stayed as in `o`.
    pub open spec fn same_setup(&self, o: &App<'a>) -> bool {
        &&& self.title == o.title
        &&& self.tabs.titles@ == o.tabs.titles@
        &&& self.show_tabs == o.show_tabs
        &&& self.logs_border == o.logs_border
        &&& self.keys == o.keys
    }

    /// A running viewer on the first of its three tabs, scrolled to the top, with the
    /// standard keys, tabs shown and a bordered log pane.
    pub fn new(title: &'a str) -> (r: App<'a>)
        ensures
            r.wf(),
            r.title == title,
            !r.should_quit,
            r.tabs.titles@ == seq!["Events", "Placeholder", "Placeholder"],
            r.tabs.index == 0,
            r.vertical_scroll == 0,
            r.show_tabs,
            r.logs_border,
            r.keys.quit == 'q' && r.keys.scroll_up == 'j' && r.keys.scroll_down == 'k',
            r.keys.previous_tab == Key::Left && r.keys.next_tab == Key::Right,
    {
        App {
            title,
            should_quit: false,
            tabs: TabsState::new(vec!["Events", "Placeholder", "Placeholder"]),
            vertical_scroll: 0,
            show_tabs: true,
            logs_border: true,
            keys: KeyBindings::standard(),
        }
    }

    /// Selects the next tab.
    pub fn on_right(&mut self)
        requires
            old(self).wf(),
        ensures
            final(self).wf(),
            final(self).same_setup(old(self)),
            final(self).tabs.index as int == next_index(
                old(self).tabs.index as int,
                old(self).tabs.titles@.len() as int,
            ),
            final(self).should_quit == old(self).should_quit,
            final(self).vertical_scroll == old(self).vertical_scroll,
    {
        self.tabs.next();
    }

    /// Selects the previous tab.
    pub fn on_left(&mut self)
        requires
            old(self).wf(),
        ensures
            final(self).wf(),
            final(self).same_setup(old(self)),
            final(self).tabs.index as int == prev_index(
                old(self).tabs.index as int,
                old(self).tabs.titles@.len() as int,
            ),
            final(self).should_quit == old(self).should_quit,
            final(self).vertical_scroll == old(self).vertical_scroll,
    {
        self.tabs.previous();
    }

    /// Raises the scroll counter by one, stopping at its largest value.
    pub fn scroll_up(&mut self)
        requires
            old(self).wf(),
        ensures
            final(self).wf(),
            final(self).same_setup(old(self)),
            final(self).vertical_scroll == if old(self).vertical_scroll == usize::MAX {
                usize::MAX
            } else {
                (old(self).vertical_scroll + 1) as usize
            },
            final(self).tabs.index == old(self).tabs.index,
            final(self).should_quit == old(self).should_quit,
    {
        self.vertical_scroll = self.vertical_scroll.saturating_add(1);
    }

    /// Lowers the scroll counter by one, stopping at zero.
    pub fn scroll_down(&mut self)
        requires
            old(self).wf(),
        ensures
            final(self).wf(),
            final(self).same_setup(old(self)),
            final(self).vertical_scroll == if old(self).vertical_scroll == 0 {
                0
            } else {
                (old(self).vertical_scroll - 1) as usize
            },
            final(self).tabs.index == old(self).tabs.index,
            final(self).should_quit == old(self).should_quit,
    {
        self.vertical_scroll = self.vertical_scroll.saturating_sub(1);
    }

    /// Acts on an action: quits, scrolls or changes tab.
    pub fn apply(&mut self, a: Action)
        requires
            old(self).wf(),
        ensures
            final(self).wf(),
            final(self).same_setup(old(self)),
            final(self).should_quit == (old(self).should_quit || a == Action::Quit),
            final(self).vertical_scroll == scrolled(old(self).vertical_scroll, a),
            final(self).tabs.index as int == switched(
                old(self).tabs.index as int,
                old(self).tabs.titles@.len() as int,
                a,
            ),
    {
        match a {
            Action::Quit => {
                self.should_quit = true;
            },
            Action::ScrollUp => self.scroll_up(),
            Action::ScrollDown => self.scroll_down(),
            Action::NextTab => self.on_right(),
            Action::PreviousTab => self.on_left(),
            Action::Nothing => {},
        }
    }

    /// Acts on a character key as the key bindings say.
    pub fn on_key(&mut self, c: char)
        requires
            old(self).wf(),
        ensures
            final(self).wf(),
            final(self).same_setup(old(self)),
            final(self).should_quit == (old(self).should_quit || key_action(
                old(self).keys,
                Key::Char(c),
            ) == Action::Quit),
            final(self).vertical_scroll == scrolled(
                old(self).vertical_scroll,
                key_action(old(self).keys, Key::Char(c)),
            ),
            final(self).tabs.index as int == switched(
                old(self).tabs.index as int,
                old(self).tabs.titles@.len() as int,
                key_action(old(self).keys, Key::Char(c)),
            ),
    {
        let a = self.keys.action_for_key(Key::Char(c));
        self.apply(a);
    }

    /// The periodic hook; it has nothing to do yet.
    pub fn on_tick(&mut self)
        requires
            old(self).wf(),
        ensures
            final(self).wf(),
            final(self).same_setup(old(self)),
            final(self).tabs.index == old(self).tabs.index,
            final(self).should_quit == old(self).should_quit,
            final(self).vertical_scroll == old(self).vertical_scroll,
    {
    }

    /// One iteration of the frame loop after the frame was drawn: acts on the input event
    /// that came in, if any, fires the tick once `tick_rate` has passed since the last one,
    /// and says whether to restart the tick clock and whether to leave the loop.
    pub fn step(&mut self, event: Option<InputEvent>, elapsed: u64, tick_rate: u64) -> (r:
        StepOutcome)
        requires
            old(self).wf(),
        ensures
            final(self).wf(),
            final(self).same_setup(old(self)),
            r.reset_tick == (elapsed >= tick_rate),
            r.quit == final(self).should_quit,
            ({
                let a = match event {
                    Some(e) => event_action(old(self).keys, e),
                    None => Action::Nothing,
                };
                &&& final(self).should_quit == (old(self).should_quit || a == Action::Quit)
                &&& final(self).vertical_scroll == scrolled(old(self).vertical_scroll, a)
                &&& final(self).tabs.index as int == switched(
                    old(self).tabs.index as int,
                    old(self).tabs.titles@.len() as int,
                    a,
                )
            }),
    {
        match event {
            Some(e) => {
                let a = self.keys.action_for_event(e);
                self.apply(a);
            },
            None => {},
        }
        let reset_tick = tick_due(tick_rate, elapsed);
        if reset_tick {
            self.on_tick();
        }
        StepOutcome { reset_tick, quit: self.should_quit }
    }
}

} // verus!
