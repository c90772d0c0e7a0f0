//! The command palette (`Ctrl+P`): a query filters the command table.
use vstd::prelude::*;

use crate::commands::{spec_commands, spec_matches, Command, CommandSpec, COMMANDS};
use crate::text::{pop_char, push_char, string_of};
use crate::keymap::{KeyCode, KeyModifiers};

verus! {

broadcast use vstd::seq_lib::group_filter_ensures;

pub struct CommandPalette {
    query: String,
    cursor: usize,
    scroll: usize,
    height: usize,
}

/// The observable state of the palette.
pub struct PaletteView {
    pub query: Seq<char>,
    pub cursor: int,
    pub scroll: int,
    pub height: int,
}

/// Table entries that a query matches, in table order.
pub open spec fn spec_palette_matches(query: Seq<char>) -> Seq<CommandSpec> {
    spec_commands().filter(|s: CommandSpec| spec_matches(s, query))
}

/// The scroll offset that keeps `cursor` inside a window of `height` rows.
pub open spec fn followed_scroll(cursor: int, scroll: int, height: int) -> int {
    if cursor < scroll {
        cursor
    } else if cursor >= scroll + height {
        cursor + 1 - height
    } else {
        scroll
    }
}

impl View for CommandPalette {
    type V = PaletteView;

    closed spec fn view(&self) -> PaletteView {
        PaletteView {
            query: self.query@,
            cursor: self.cursor as int,
            scroll: self.scroll as int,
            height: self.height as int,
        }
    }
}

impl CommandPalette {
    /// Well-formedness: the window is at least one row high and shows the cursor row;
    /// the cursor never passes the table.
    pub closed spec fn wf(&self) -> bool {
        &&& self.height >= 1
        &&& self.scroll <= self.cursor
        &&& self.cursor < self.scroll + self.height
        &&& self.cursor < spec_commands().len()
    }

    /// A well-formed palette's window is at least one row high and shows the
    /// highlighted row.
    pub proof fn lemma_window_shows_cursor(&self)
        requires
            self.wf(),
        ensures
            self@.height >= 1,
            self@.scroll <= self@.cursor < self@.scroll + self@.height,
    {
    }

    pub fn new() -> (r: Self)
        ensures
            r.wf(),
            r@.query.len() == 0,
            r@.cursor == 0,
            r@.scroll == 0,
            r@.height == 10,
    {
        CommandPalette { query: String::new(), cursor: 0, scroll: 0, height: 10 }
    }

    pub fn query(&self) -> (r: &str)
        ensures
            r@ == self@.query,
    {
        self.query.as_str()
    }

    pub fn cursor(&self) -> (r: usize)
        ensures
            r == self@.cursor,
    {
        self.cursor
    }

    pub fn scroll(&self) -> (r: usize)
        ensures
            r == self@.scroll,
    {
        self.scroll
    }

    /// The entries the current query matches.
    pub fn matches(&self) -> (r: Vec<CommandSpec>)
        ensures
            r@ == spec_palette_matches(self@.query),
    {
        let table = COMMANDS();
        let mut out: Vec<CommandSpec> = Vec::new();
        let mut i: usize = 0;
        while i < table.len()
            invariant
                table@ == spec_commands(),
                i <= table.len(),
                out@ == table@.take(i as int).filter(
                    |s: CommandSpec| spec_matches(s, self@.query),
                ),
            decreases table.len() - i,
        {
            reveal_with_fuel(Seq::<_>::filter, 1);
            assert(table@.take(i as int + 1).drop_last() == table@.take(i as int));
            if table[i].matches(self.query.as_str()) {
                out.push(table[i]);
            }
            i = i + 1;
        }
        assert(table@.take(table.len() as int) == table@);
        out
    }

    pub fn match_count(&self) -> (r: usize)
        ensures
            r == spec_palette_matches(self@.query).len(),
    {
        self.matches().len()
    }

    /// The selected command; `None` when nothing matches.
    pub fn selected(&self) -> (r: Option<Command>)
        ensures
            r == (if self@.cursor < spec_palette_matches(self@.query).len() {
                Some(spec_palette_matches(self@.query)[self@.cursor].cmd)
            } else {
                None::<Command>
            }),
    {
        let m = self.matches();
        if self.cursor < m.len() {
            Some(m[self.cursor].cmd)
        } else {
            None
        }
    }

    /// Sets the window height (at least one row) and scrolls to keep the cursor visible.
    pub fn set_height(&mut self, h: usize)
        requires
            old(self).wf(),
        ensures
            final(self).wf(),
            final(self)@.height == (if h < 1 { 1 } else { h as int }),
            final(self)@.query == old(self)@.query,
            final(self)@.cursor == old(self)@.cursor,
            final(self)@.scroll == followed_scroll(
                old(self)@.cursor,
                old(self)@.scroll,
                final(self)@.height,
            ),
    {
        self.height = if h < 1 { 1 } else { h };
        self.follow_cursor();
    }

    /// Types one character into the query; the cursor returns to the top.
    pub fn input_char(&mut self, c: char)
        requires
            old(self).wf(),
        ensures
            final(self).wf(),
            final(self)@.query == old(self)@.query.push(c),
            final(self)@.cursor == 0,
            final(self)@.scroll == 0,
            final(self)@.height == old(self)@.height,
    {
        push_char(&mut self.query, c);
        self.reset_cursor();
    }

    /// Deletes the last character of the query; the cursor returns to the top.
    pub fn backspace(&mut self)
        requires
            old(self).wf(),
        ensures
            final(self).wf(),
            final(self)@.query == (if old(self)@.query.len() == 0 {
                old(self)@.query
            } else {
                old(self)@.query.drop_last()
            }),
            final(self)@.cursor == 0,
            final(self)@.scroll == 0,
            final(self)@.height == old(self)@.height,
    {
        pop_char(&mut self.query);
        self.reset_cursor();
    }

    fn reset_cursor(&mut self)
        requires
            old(self).height >= 1,
        ensures
            final(self).wf(),
            final(self).query == old(self).query,
            final(self).height == old(self).height,
            final(self).cursor == 0,
            final(self).scroll == 0,
    {
        self.cursor = 0;
        self.scroll = 0;
    }

    /// Moves the highlight down one row, stopping at the last match.
    pub fn move_down(&mut self)
        requires
            old(self).wf(),
        ensures
            final(self).wf(),
            final(self)@.query == old(self)@.query,
            final(self)@.height == old(self)@.height,
            final(self)@.cursor == (if spec_palette_matches(old(self)@.query).len() > 0 {
                vstd::math::min(
                    old(self)@.cursor + 1,
                    spec_palette_matches(old(self)@.query).len() - 1,
                )
            } else {
                old(self)@.cursor
            }),
            final(self)@.scroll == followed_scroll(
                final(self)@.cursor,
                old(self)@.scroll,
                old(self)@.height,
            ),
    {
        let n = self.match_count();
        if n > 0 {
            let next = self.cursor + 1;
            self.cursor = if next < n - 1 { next } else { n - 1 };
        }
        self.follow_cursor();
    }

    /// Moves the highlight up one row, stopping at the first.
    pub fn move_up(&mut self)
        requires
            old(self).wf(),
        ensures
            final(self).wf(),
            final(self)@.query == old(self)@.query,
            final(self)@.height == old(self)@.height,
            final(self)@.cursor == (if old(self)@.cursor > 0 {
                old(self)@.cursor - 1
            } else {
                0
            }),
            final(self)@.scroll == followed_scroll(
                final(self)@.cursor,
                old(self)@.scroll,
                old(self)@.height,
            ),
    {
        self.cursor = if self.cursor > 0 { self.cursor - 1 } else { 0 };
        self.follow_cursor();
    }

    fn follow_cursor(&mut self)
        requires
            old(self).height >= 1,
            old(self).cursor < spec_commands().len(),
        ensures
            final(self).wf(),
            final(self).query == old(self).query,
            final(self).height == old(self).height,
            final(self).cursor == old(self).cursor,
            final(self).scroll == followed_scroll(
                old(self).cursor as int,
                old(self).scroll as int,
                old(self).height as int,
            ),
    {
        if self.cursor < self.scroll {
            self.scroll = self.cursor;
        } else if self.cursor - self.scroll >= self.height {
            self.scroll = self.cursor + 1 - self.height;
        }
    }

    /// One palette row: name, description and key binding.
    pub fn row(c: &CommandSpec) -> (r: (String, String, String))
        ensures
            r.0@ == c.name@,
            r.1@ == c.desc@,
            r.2@ == c.keys@,
    {
        (string_of(c.name), string_of(c.desc), string_of(c.keys))
    }
}


/// What the caller is asked to do after a key in the command palette.
#[derive(Debug, Clone, Copy, PartialEq, Eq, Structural)]
pub enum PaletteAction {
    Nothing,
    Close,
    /// Enter: close the palette first (a command may open an overlay of its
    /// own), then run the selected command, when one matches.
    Run(Option<Command>),
}

impl CommandPalette {
    /// A key while the palette is on top: Enter runs the selection, Esc
    /// closes, Up and Down move, Backspace and characters (without Ctrl) edit
    /// the query.
    pub fn on_key(&mut self, code: KeyCode, mods: KeyModifiers) -> (r: PaletteAction)
        requires
            old(self).wf(),
        ensures
            final(self).wf(),
            code == KeyCode::Enter ==> final(self)@ == old(self)@ && r == PaletteAction::Run(
                if old(self)@.cursor < spec_palette_matches(old(self)@.query).len() {
                    Some(spec_palette_matches(old(self)@.query)[old(self)@.cursor].cmd)
                } else {
                    None::<Command>
                },
            ),
            code == KeyCode::Esc ==> final(self)@ == old(self)@ && r == PaletteAction::Close,
            code == KeyCode::Down ==> r == PaletteAction::Nothing && final(self)@ == (PaletteView {
                cursor: if spec_palette_matches(old(self)@.query).len() > 0 {
                    vstd::math::min(old(self)@.cursor + 1, spec_palette_matches(old(self)@.query).len() - 1)
                } else {
                    old(self)@.cursor
                },
                scroll: followed_scroll(
                    if spec_palette_matches(old(self)@.query).len() > 0 {
                        vstd::math::min(old(self)@.cursor + 1, spec_palette_matches(old(self)@.query).len() - 1)
                    } else {
                        old(self)@.cursor
                    },
                    old(self)@.scroll,
                    old(self)@.height,
                ),
                ..old(self)@
            }),
            code == KeyCode::Up ==> r == PaletteAction::Nothing && final(self)@ == (PaletteView {
                cursor: if old(self)@.cursor > 0 { old(self)@.cursor - 1 } else { 0 },
                scroll: followed_scroll(
                    if old(self)@.cursor > 0 { old(self)@.cursor - 1 } else { 0 },
                    old(self)@.scroll,
                    old(self)@.height,
                ),
                ..old(self)@
            }),
            code == KeyCode::Backspace ==> r == PaletteAction::Nothing && final(self)@ == (PaletteView {
                query: if old(self)@.query.len() == 0 { old(self)@.query } else { old(self)@.query.drop_last() },
                cursor: 0,
                scroll: 0,
                ..old(self)@
            }),
            code matches KeyCode::Char(c) ==> r == PaletteAction::Nothing && final(self)@ == if !mods.control {
                PaletteView { query: old(self)@.query.push(c), cursor: 0, scroll: 0, ..old(self)@ }
            } else {
                old(self)@
            },
            !(code == KeyCode::Enter || code == KeyCode::Esc || code == KeyCode::Down || code == KeyCode::Up || code
                == KeyCode::Backspace || code is Char) ==> r == PaletteAction::Nothing && final(self)@ == old(self)@,
    {
        match code {
            KeyCode::Enter => PaletteAction::Run(self.selected()),
            KeyCode::Esc => PaletteAction::Close,
            KeyCode::Down => {
                self.move_down();
                PaletteAction::Nothing
            },
            KeyCode::Up => {
                self.move_up();
                PaletteAction::Nothing
            },
            KeyCode::Backspace => {
                self.backspace();
                PaletteAction::Nothing
            },
            KeyCode::Char(c) => {
                if !mods.control {
                    self.input_char(c);
                }
                PaletteAction::Nothing
            },
            _ => PaletteAction::Nothing,
        }
    }
}

} // verus!
