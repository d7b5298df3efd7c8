//! The command output area: the current text, the history, and the scroll
//! position.

use vstd::prelude::*;

use crate::text::string_views;

verus! {

/// Mathematical image of the output area.
pub ghost struct OutputView {
    pub text: Seq<char>,
    pub history: Seq<Seq<char>>,
    pub scroll: int,
}

/// The output currently displayed, the previously committed outputs, and
/// how far down the view is scrolled.
pub struct OutputComponent {
    output_text: String,
    history: Vec<String>,
    scroll_offset: usize,
}

impl View for OutputComponent {
    type V = OutputView;

    closed spec fn view(&self) -> OutputView {
        OutputView {
            text: self.output_text@,
            history: string_views(self.history@),
            scroll: self.scroll_offset as int,
        }
    }
}

impl OutputComponent {
    /// An empty output area, unscrolled, with no history.
    pub fn new() -> (c: OutputComponent)
        ensures
            c@.text == Seq::<char>::empty(),
            c@.history == Seq::<Seq<char>>::empty(),
            c@.scroll == 0,
    {
        let c = OutputComponent {
            output_text: String::new(),
            history: Vec::new(),
            scroll_offset: 0,
        };
        proof {
            assert(c@.text =~= Seq::<char>::empty());
            assert(c@.history =~= Seq::<Seq<char>>::empty());
        }
        c
    }

    /// Replaces the displayed text and scrolls back to the top, so new
    /// content is shown from its beginning.
    pub fn set_output(&mut self, text: String)
        ensures
            final(self)@.text == text@,
            final(self)@.history == old(self)@.history,
            final(self)@.scroll == 0,
    {
        self.output_text = text;
        self.reset_scroll();
    }

    /// Appends text to the display, on a new line when something is already
    /// shown.
    pub fn append_output(&mut self, text: &str)
        ensures
            final(self)@.text == (if old(self)@.text.len() == 0 {
                old(self)@.text + text@
            } else {
                old(self)@.text + "\n"@ + text@
            }),
            final(self)@.history == old(self)@.history,
            final(self)@.scroll == old(self)@.scroll,
    {
        if !self.output_text.as_str().is_empty() {
            self.output_text.append("\n");
        }
        self.output_text.append(text);
    }

    /// Keeps a copy of the displayed text in the history; an empty display
    /// is not recorded.
    pub fn commit_to_history(&mut self)
        ensures
            final(self)@.text == old(self)@.text,
            final(self)@.scroll == old(self)@.scroll,
            old(self)@.text.len() == 0 ==> final(self)@.history == old(self)@.history,
            old(self)@.text.len() > 0 ==> final(self)@.history == old(self)@.history.push(
                old(self)@.text,
            ),
    {
        if !self.output_text.as_str().is_empty() {
            let ghost prev = self.history@;
            let copy = self.output_text.clone();
            self.history.push(copy);
            proof {
                assert(string_views(self.history@) =~= string_views(prev).push(
                    self.history@[prev.len() as int]@,
                ));
            }
        }
    }

    /// Clears the displayed text; the history and the scroll position stay.
    pub fn clear(&mut self)
        ensures
            final(self)@.text == Seq::<char>::empty(),
            final(self)@.history == old(self)@.history,
            final(self)@.scroll == old(self)@.scroll,
    {
        self.output_text = String::new();
        proof {
            assert(self@.text =~= Seq::<char>::empty());
        }
    }

    /// The displayed text.
    pub fn get_output(&self) -> (s: &str)
        ensures
            s@ == self@.text,
    {
        self.output_text.as_str()
    }

    /// The committed outputs, oldest first.
    pub fn get_history(&self) -> (r: &[String])
        ensures
            string_views(r@) == self@.history,
    {
        self.history.as_slice()
    }

    /// Scrolls up by `lines`, stopping at the top.
    pub fn scroll_up(&mut self, lines: usize)
        ensures
            final(self)@.text == old(self)@.text,
            final(self)@.history == old(self)@.history,
            final(self)@.scroll == (if old(self)@.scroll >= lines {
                old(self)@.scroll - lines
            } else {
                0int
            }),
    {
        self.scroll_offset = self.scroll_offset.saturating_sub(lines);
    }

    /// Scrolls down by `lines`; the renderer caps the offset at the last
    /// line, so an offset past the end simply shows the bottom.
    pub fn scroll_down(&mut self, lines: usize)
        ensures
            final(self)@.text == old(self)@.text,
            final(self)@.history == old(self)@.history,
            final(self)@.scroll == (if old(self)@.scroll + lines <= usize::MAX {
                old(self)@.scroll + lines
            } else {
                usize::MAX as int
            }),
    {
        self.scroll_offset = self.scroll_offset.saturating_add(lines);
    }

    /// Scrolls to the very top.
    pub fn scroll_to_top(&mut self)
        ensures
            final(self)@.text == old(self)@.text,
            final(self)@.history == old(self)@.history,
            final(self)@.scroll == 0,
    {
        self.scroll_offset = 0;
    }

    /// Scrolls as far down as the offset can express; the renderer caps it
    /// at the last line of the content.
    pub fn scroll_to_bottom(&mut self)
        ensures
            final(self)@.text == old(self)@.text,
            final(self)@.history == old(self)@.history,
            final(self)@.scroll == usize::MAX,
    {
        self.scroll_offset = usize::MAX;
    }

    /// Puts the scroll position back at the top for fresh content.
    fn reset_scroll(&mut self)
        ensures
            final(self)@.text == old(self)@.text,
            final(self)@.history == old(self)@.history,
            final(self)@.scroll == 0,
    {
        self.scroll_offset = 0;
    }
}

} // verus!
