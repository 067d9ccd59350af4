//! The viewport and scroll controller: it owns the index of the first
//! visible display line, validates scroll commands, and decides between a
//! full repaint and a one-line incremental repaint. An out-of-range scroll
//! is a silent no-op, never an error.

use vstd::prelude::*;
use crate::types::Direction;

verus! {

/// A key the viewer reacts to; every other key maps to `Other`.
#[derive(Clone, Copy, PartialEq, Eq, Structural, Debug)]
pub enum KeyInput {
    Escape,
    Enter,
    Digit5,
    DownArrow,
    Digit2,
    UpArrow,
    Digit8,
    Other,
}

/// What one key asks the viewer to do.
#[derive(Clone, Copy, PartialEq, Eq, Structural, Debug)]
pub enum Command {
    Quit,
    ScrollDown,
    ScrollUp,
    Ignore,
}

/// The key bindings: enter, escape and the digit 5 quit; down-arrow and the
/// digit 2 scroll down one line; up-arrow and the digit 8 scroll up one
/// line; everything else is ignored.
pub open spec fn map_key_spec(k: KeyInput) -> Command {
    match k {
        KeyInput::Escape | KeyInput::Enter | KeyInput::Digit5 => Command::Quit,
        KeyInput::DownArrow | KeyInput::Digit2 => Command::ScrollDown,
        KeyInput::UpArrow | KeyInput::Digit8 => Command::ScrollUp,
        KeyInput::Other => Command::Ignore,
    }
}

/// Maps a pressed key to the command the viewer runs.
pub fn map_key(k: KeyInput) -> (c: Command)
    ensures
        c == map_key_spec(k),
{
    match k {
        KeyInput::Escape | KeyInput::Enter | KeyInput::Digit5 => Command::Quit,
        KeyInput::DownArrow | KeyInput::Digit2 => Command::ScrollDown,
        KeyInput::UpArrow | KeyInput::Digit8 => Command::ScrollUp,
        KeyInput::Other => Command::Ignore,
    }
}

/// What the display must do after a command was applied: leave the session,
/// shift the framebuffer one glyph row along `shift` and redraw exactly the
/// display row `row`, or nothing at all.
#[derive(Clone, Copy, PartialEq, Eq, Structural, Debug)]
pub enum ScrollAction {
    Exit,
    RedrawRow { row: usize, shift: Direction },
    Stay,
}

/// The scroll state over one fixed sequence of display lines: `n_lines` of
/// them, a window of `max_lines` rows, and the index of the first visible
/// line.
#[derive(Clone, Copy, PartialEq, Eq, Structural, Debug)]
pub struct Viewport {
    pub n_lines: usize,
    pub max_lines: usize,
    pub first_visible_line: usize,
}

impl Viewport {
    /// The offset stays between 0 and `max(0, n_lines - max_lines)`.
    pub open spec fn wf(self) -> bool {
        if self.n_lines >= self.max_lines {
            self.first_visible_line <= self.n_lines - self.max_lines
        } else {
            self.first_visible_line == 0
        }
    }

    /// More content lies below the fold.
    pub open spec fn can_scroll_down(self) -> bool {
        self.n_lines - self.first_visible_line > self.max_lines
    }

    /// Some content lies above the fold.
    pub open spec fn can_scroll_up(self) -> bool {
        self.first_visible_line > 0
    }

    /// The state after a scroll-down command: one line further when content
    /// remains below, unchanged otherwise.
    pub open spec fn scroll_down_spec(self) -> Viewport {
        if self.can_scroll_down() {
            Viewport { first_visible_line: (self.first_visible_line + 1) as usize, ..self }
        } else {
            self
        }
    }

    /// The state after a scroll-up command: one line back when the top is
    /// not visible, unchanged otherwise.
    pub open spec fn scroll_up_spec(self) -> Viewport {
        if self.can_scroll_up() {
            Viewport { first_visible_line: (self.first_visible_line - 1) as usize, ..self }
        } else {
            self
        }
    }

    /// How many display lines are on screen: a full window, or everything
    /// that is left below the offset.
    pub open spec fn visible_count(self) -> int {
        if self.n_lines - self.first_visible_line >= self.max_lines {
            self.max_lines as int
        } else {
            self.n_lines - self.first_visible_line
        }
    }

    /// A fresh session: nothing scrolled yet.
    pub fn new(n_lines: usize, max_lines: usize) -> (v: Viewport)
        ensures
            v == (Viewport { n_lines, max_lines, first_visible_line: 0 }),
            v.wf(),
    {
        Viewport { n_lines, max_lines, first_visible_line: 0 }
    }

    /// How many display lines the initial full repaint draws.
    pub fn visible_lines(&self) -> (c: usize)
        requires
            self.wf(),
        ensures
            c == self.visible_count(),
            self.first_visible_line + c <= self.n_lines,
    {
        let below = self.n_lines - self.first_visible_line;
        if below >= self.max_lines {
            self.max_lines
        } else {
            below
        }
    }

    /// Runs one command: a quit leaves the session; a valid scroll moves the
    /// offset one line and asks for a one-line repaint of the newly exposed
    /// row; an invalid scroll and an ignored key change nothing, silently.
    pub fn apply(&mut self, cmd: Command) -> (a: ScrollAction)
        requires
            old(self).wf(),
            old(self).max_lines >= 1,
        ensures
            final(self).wf(),
            final(self).n_lines == old(self).n_lines,
            final(self).max_lines == old(self).max_lines,
            match cmd {
                Command::Quit => a == ScrollAction::Exit && *final(self) == *old(self),
                Command::ScrollDown => {
                    &&& *final(self) == old(self).scroll_down_spec()
                    &&& if old(self).can_scroll_down() {
                        a == (ScrollAction::RedrawRow {
                            row: (old(self).max_lines - 1) as usize,
                            shift: Direction::Up,
                        })
                    } else {
                        a == ScrollAction::Stay
                    }
                },
                Command::ScrollUp => {
                    &&& *final(self) == old(self).scroll_up_spec()
                    &&& if old(self).can_scroll_up() {
                        a == (ScrollAction::RedrawRow { row: 0, shift: Direction::Down })
                    } else {
                        a == ScrollAction::Stay
                    }
                },
                Command::Ignore => a == ScrollAction::Stay && *final(self) == *old(self),
            },
    {
        match cmd {
            Command::Quit => ScrollAction::Exit,
            Command::ScrollDown => {
                if self.n_lines - self.first_visible_line > self.max_lines {
                    self.first_visible_line = self.first_visible_line + 1;
                    ScrollAction::RedrawRow { row: self.max_lines - 1, shift: Direction::Up }
                } else {
                    ScrollAction::Stay
                }
            },
            Command::ScrollUp => {
                if self.first_visible_line > 0 {
                    self.first_visible_line = self.first_visible_line - 1;
                    ScrollAction::RedrawRow { row: 0, shift: Direction::Down }
                } else {
                    ScrollAction::Stay
                }
            },
            Command::Ignore => ScrollAction::Stay,
        }
    }
}

/// Scroll-down never leaves the valid range: with everything on one screen
/// it is a no-op; otherwise it advances the offset by exactly one until the
/// offset reaches `n_lines - max_lines`, and from there on it is a no-op.
pub proof fn lemma_scroll_down_progress(v: Viewport)
    requires
        v.wf(),
    ensures
        v.scroll_down_spec().wf(),
        v.n_lines <= v.max_lines ==> v.scroll_down_spec() == v,
        v.n_lines > v.max_lines && v.first_visible_line < v.n_lines - v.max_lines
            ==> v.scroll_down_spec().first_visible_line == v.first_visible_line + 1,
        v.n_lines > v.max_lines && v.first_visible_line == v.n_lines - v.max_lines
            ==> v.scroll_down_spec() == v,
{
}

/// Scroll-up never leaves the valid range: at the top it is a no-op, below
/// the top it moves the offset back by exactly one.
pub proof fn lemma_scroll_up_progress(v: Viewport)
    requires
        v.wf(),
    ensures
        v.scroll_up_spec().wf(),
        v.first_visible_line == 0 ==> v.scroll_up_spec() == v,
        v.first_visible_line > 0 ==> v.scroll_up_spec().first_visible_line
            == v.first_visible_line - 1,
{
}

/// The state after `k` scroll-down commands in a row.
pub open spec fn scroll_down_n(v: Viewport, k: int) -> Viewport
    decreases k,
{
    if k <= 0 {
        v
    } else {
        scroll_down_n(v, k - 1).scroll_down_spec()
    }
}

/// Starting at the top, repeated scroll-down commands move the offset up by
/// exactly one each until it reaches `n_lines - max_lines`; every further
/// command, and every command when everything fits one screen, is a no-op.
pub proof fn lemma_scroll_down_repeated(v: Viewport, k: int)
    requires
        v.wf(),
        v.first_visible_line == 0,
        k >= 0,
    ensures
        scroll_down_n(v, k).wf(),
        scroll_down_n(v, k).n_lines == v.n_lines,
        scroll_down_n(v, k).max_lines == v.max_lines,
        scroll_down_n(v, k).first_visible_line == if v.n_lines <= v.max_lines {
            0
        } else if k <= v.n_lines - v.max_lines {
            k
        } else {
            v.n_lines - v.max_lines
        },
    decreases k,
{
    if k > 0 {
        lemma_scroll_down_repeated(v, k - 1);
    }
}

/// The controller never asks for a display line out of range: the offset
/// plus the number of lines actually drawn stays within the sequence.
pub proof fn lemma_visible_in_range(v: Viewport)
    requires
        v.wf(),
    ensures
        v.first_visible_line + v.visible_count() <= v.n_lines,
{
}

} // verus!
