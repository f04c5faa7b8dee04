//! Multi-line terminal spinners drawn with ANSI escape sequences.
//!
//! Frames form a tree of lines and indented groups. Each frame knows the
//! text it shows, how many terminal lines that text takes and the escape
//! codes that erase it again; the render loop's decisions are a state
//! machine over that tree.
use vstd::prelude::*;

pub mod ansi;
pub mod group;
pub mod line;
pub mod loops;
pub mod spinner;
pub mod terminal;

pub use group::{Group, Node};
pub use line::Line;
pub use loops::{Drawing, Loop};

verus! {

/// Something that can be drawn on the terminal, animated and erased.
///
/// The shown text does not end with a new line: a group that holds the
/// frame adds one new line for each line the frame reports.
pub trait Frames: Sized {
    /// The frame is well formed.
    spec fn inv(&self) -> bool;

    /// The text the frame shows in its current state.
    spec fn shown(&self) -> Seq<char>;

    /// The escape codes that erase what `shown` printed.
    spec fn erased(&self) -> Seq<char>;

    /// The number of lines the frame asks its group to end it with.
    spec fn line_count(&self) -> nat;

    /// The printed length, where it is known in advance.
    spec fn known_len(&self) -> Option<nat>;

    /// `self` is `before` moved on by one animation step.
    spec fn advanced_from(&self, before: Self) -> bool;

    /// `self` is `before` taken back to its first animation step.
    spec fn reset_from(&self, before: Self) -> bool;

    /// The text of the current state.
    fn render(&self) -> (r: String)
        requires
            self.inv(),
        ensures
            r@ == self.shown(),
    ;

    /// Moves on to the next animation step.
    fn advance(&mut self)
        requires
            old(self).inv(),
        ensures
            final(self).inv(),
            final(self).advanced_from(*old(self)),
    ;

    /// Goes back to the first animation step.
    fn reset(&mut self)
        requires
            old(self).inv(),
        ensures
            final(self).inv(),
            final(self).reset_from(*old(self)),
    ;

    /// The escape codes that erase the printed text.
    fn clear(&self) -> (r: String)
        requires
            self.inv(),
        ensures
            r@ == self.erased(),
    ;

    /// The number of lines the frame takes in a group.
    fn lines(&self) -> (r: usize)
        requires
            self.inv(),
        ensures
            r as nat == self.line_count(),
    ;

    /// The printed length, where it is known in advance.
    fn print_len(&self) -> (r: Option<usize>)
        requires
            self.inv(),
        ensures
            r.is_some() == self.known_len().is_some(),
            r.is_some() ==> r.unwrap() as nat == self.known_len().unwrap(),
    ;
}

} // verus!
