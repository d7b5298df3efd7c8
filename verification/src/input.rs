//! The command input field: its text and cursor, one character at a time.

use vstd::prelude::*;

verus! {

/// Mathematical image of the input field.
pub ghost struct InputView {
    pub command: Seq<char>,
    pub cursor: int,
}

/// The command being typed and the cursor position within it, counted in
/// characters.
pub struct InputComponent {
    command: Vec<char>,
    cursor_position: usize,
}

impl View for InputComponent {
    type V = InputView;

    closed spec fn view(&self) -> InputView {
        InputView { command: self.command@, cursor: self.cursor_position as int }
    }
}

impl InputComponent {
    /// The cursor never leaves the text.
    pub open spec fn wf(&self) -> bool {
        0 <= self@.cursor <= self@.command.len()
    }

    /// An empty input with the cursor at the start.
    pub fn new() -> (c: InputComponent)
        ensures
            c@.command == Seq::<char>::empty(),
            c@.cursor == 0,
            c.wf(),
    {
        let c = InputComponent { command: Vec::new(), cursor_position: 0 };
        proof {
            assert(c@.command =~= Seq::<char>::empty());
        }
        c
    }

    /// Inserts a character at the cursor and moves the cursor past it.
    pub fn enter_char(&mut self, ch: char)
        requires
            old(self).wf(),
        ensures
            final(self).wf(),
            final(self)@.command == old(self)@.command.insert(old(self)@.cursor, ch),
            final(self)@.cursor == old(self)@.cursor + 1,
    {
        let index = self.byte_index();
        self.command.insert(index, ch);
        self.move_cursor_right();
    }

    /// Removes the character before the cursor and moves the cursor back;
    /// at the start of the text nothing changes.
    pub fn backspace(&mut self)
        requires
            old(self).wf(),
        ensures
            final(self).wf(),
            old(self)@.cursor == 0 ==> final(self)@ == old(self)@,
            old(self)@.cursor > 0 ==> final(self)@.command == old(self)@.command.remove(
                old(self)@.cursor - 1,
            ) && final(self)@.cursor == old(self)@.cursor - 1,
    {
        if self.cursor_position > 0 {
            self.move_cursor_left();
            let index = self.byte_index();
            self.command.remove(index);
        }
    }

    /// Moves the cursor one place left, stopping at the start.
    pub fn move_cursor_left(&mut self)
        requires
            old(self).wf(),
        ensures
            final(self).wf(),
            final(self)@.command == old(self)@.command,
            final(self)@.cursor == (if old(self)@.cursor > 0 {
                old(self)@.cursor - 1
            } else {
                0int
            }),
    {
        let new_pos = if self.cursor_position > 0 {
            self.cursor_position - 1
        } else {
            0
        };
        self.cursor_position = self.clamp_cursor(new_pos);
    }

    /// Moves the cursor one place right, stopping at the end of the text.
    pub fn move_cursor_right(&mut self)
        requires
            old(self).wf(),
        ensures
            final(self).wf(),
            final(self)@.command == old(self)@.command,
            final(self)@.cursor == (if old(self)@.cursor < old(self)@.command.len() {
                old(self)@.cursor + 1
            } else {
                old(self)@.command.len() as int
            }),
    {
        let new_pos = if self.cursor_position < self.command.len() {
            self.cursor_position + 1
        } else {
            self.cursor_position
        };
        self.cursor_position = self.clamp_cursor(new_pos);
    }

    /// Moves the cursor to the start of the text.
    pub fn move_cursor_start(&mut self)
        ensures
            final(self).wf(),
            final(self)@.command == old(self)@.command,
            final(self)@.cursor == 0,
    {
        self.cursor_position = 0;
    }

    /// Moves the cursor to the end of the text.
    pub fn move_cursor_end(&mut self)
        ensures
            final(self).wf(),
            final(self)@.command == old(self)@.command,
            final(self)@.cursor == old(self)@.command.len(),
    {
        self.cursor_position = self.command.len();
    }

    /// The text typed so far.
    pub fn get_command(&self) -> (s: String)
        ensures
            s@ == self@.command,
    {
        crate::text::chars_to_string(&self.command)
    }

    /// Empties the field and puts the cursor back at the start.
    pub fn clear(&mut self)
        ensures
            final(self).wf(),
            final(self)@.command == Seq::<char>::empty(),
            final(self)@.cursor == 0,
    {
        self.command = Vec::new();
        self.cursor_position = 0;
        proof {
            assert(self@.command =~= Seq::<char>::empty());
        }
    }

    /// The index of the cursor within the stored text.  The text is stored
    /// one character per element, so the character index is the element
    /// index.
    fn byte_index(&self) -> (i: usize)
        ensures
            i == self@.cursor,
    {
        self.cursor_position
    }

    /// Caps a candidate cursor position at the end of the text.
    fn clamp_cursor(&self, new_cursor_pos: usize) -> (r: usize)
        ensures
            r == (if new_cursor_pos <= self@.command.len() {
                new_cursor_pos as int
            } else {
                self@.command.len() as int
            }),
    {
        if new_cursor_pos > self.command.len() {
            self.command.len()
        } else {
            new_cursor_pos
        }
    }
}

} // verus!
