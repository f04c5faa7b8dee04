//! A single line: a spinner followed by text.
use vstd::prelude::*;

use crate::ansi::{clear_line_text, ClearLine};
use crate::spinner::Spinner;
use crate::Frames;

verus! {

/// A single line with a spinner and text.
pub struct Line {
    show_spinner: bool,
    spinner: Spinner,
    text: String,
}

/// What a line shows: the spinner's text when it is visible, a space when
/// the spinner printed something (or may have) and there is text, then
/// the text.
pub open spec fn line_text(show: bool, spinner: Spinner, text: Seq<char>) -> Seq<char> {
    if show {
        let printed = match spinner.known_len() {
            Some(l) => l != 0,
            None => true,
        };
        spinner.shown() + (if printed && text.len() > 0 { seq![' '] } else { Seq::empty() }) + text
    } else {
        text
    }
}

impl Line {
    /// The text after the spinner.
    pub closed spec fn text_view(&self) -> Seq<char> {
        self.text@
    }

    /// Whether the spinner is shown.
    pub closed spec fn spinner_visible(&self) -> bool {
        self.show_spinner
    }

    /// The line's spinner.
    pub closed spec fn spinner_view(&self) -> Spinner {
        self.spinner
    }

    /// Creates a line with the given spinner, shown, and no text.
    pub fn new(spinner: Spinner) -> (r: Self)
        ensures
            r.spinner_view() == spinner,
            r.spinner_visible(),
            r.text_view() == Seq::<char>::empty(),
    {
        Line { show_spinner: true, spinner, text: String::new() }
    }

    /// The text that is displayed after the spinner.
    pub fn text(&self) -> (r: &str)
        ensures
            r@ == self.text_view(),
    {
        self.text.as_str()
    }

    /// Sets the text that is displayed after the spinner.
    pub fn set_text(&mut self, text: &str) -> (r: &mut Self)
        ensures
            r.text_view() == text@,
            r.spinner_visible() == old(self).spinner_visible(),
            r.spinner_view() == old(self).spinner_view(),
            *final(self) == *final(r),
    {
        self.text = String::from_str(text);
        self
    }

    /// Sets the text that is displayed after the spinner.
    pub fn with_text(self, text: &str) -> (r: Self)
        ensures
            r.text_view() == text@,
            r.spinner_visible() == self.spinner_visible(),
            r.spinner_view() == self.spinner_view(),
    {
        let mut line = self;
        line.text = String::from_str(text);
        line
    }

    /// Shows or hides the spinner.
    pub fn set_spinner_visible(&mut self, show: bool) -> (r: &mut Self)
        ensures
            r.spinner_visible() == show,
            r.text_view() == old(self).text_view(),
            r.spinner_view() == old(self).spinner_view(),
            *final(self) == *final(r),
    {
        self.show_spinner = show;
        self
    }

    /// Shows or hides the spinner.
    pub fn with_spinner_visible(self, show: bool) -> (r: Self)
        ensures
            r.spinner_visible() == show,
            r.text_view() == self.text_view(),
            r.spinner_view() == self.spinner_view(),
    {
        let mut line = self;
        line.show_spinner = show;
        line
    }

    /// The escape codes that erase this line: back to its first column,
    /// then clear it.
    pub fn clear(&self) -> (r: String)
        ensures
            r@ == seq!['\r'] + clear_line_text(),
    {
        let mut out = String::new();
        proof { reveal_strlit("\r"); }
        out.append("\r");
        ClearLine.write_to(&mut out);
        assert(out@ =~= seq!['\r'] + clear_line_text());
        out
    }
}

impl Frames for Line {
    open spec fn inv(&self) -> bool {
        self.spinner_view().inv()
    }

    open spec fn shown(&self) -> Seq<char> {
        line_text(self.spinner_visible(), self.spinner_view(), self.text_view())
    }

    open spec fn erased(&self) -> Seq<char> {
        seq!['\r'] + clear_line_text()
    }

    open spec fn line_count(&self) -> nat {
        1
    }

    open spec fn known_len(&self) -> Option<nat> {
        None
    }

    open spec fn advanced_from(&self, before: Self) -> bool {
        &&& self.spinner_view().advanced_from(before.spinner_view())
        &&& self.spinner_visible() == before.spinner_visible()
        &&& self.text_view() == before.text_view()
    }

    open spec fn reset_from(&self, before: Self) -> bool {
        &&& self.spinner_view().reset_from(before.spinner_view())
        &&& self.spinner_visible() == before.spinner_visible()
        &&& self.text_view() == before.text_view()
    }

    fn render(&self) -> (r: String) {
        let mut out = String::new();
        if self.show_spinner {
            out = self.spinner.render();
            let printed = match self.spinner.print_len() {
                Some(l) => l != 0,
                None => true,
            };
            if printed && !self.text.as_str().is_empty() {
                proof { reveal_strlit(" "); }
                out.append(" ");
            }
        }
        out.append(self.text.as_str());
        assert(out@ =~= self.shown());
        out
    }

    fn advance(&mut self) {
        self.spinner.advance();
    }

    fn reset(&mut self) {
        self.spinner.reset();
    }

    fn clear(&self) -> (r: String) {
        Line::clear(self)
    }

    fn lines(&self) -> (r: usize) {
        1
    }

    fn print_len(&self) -> (r: Option<usize>) {
        None
    }
}

} // verus!
