//! Groups: ordered, indented lists of frames, nested to any depth.
//!
//! The end of the module proves, over the terminal model of
//! [`crate::terminal`], that the clear codes of a frame erase exactly what
//! its text drew.
use vstd::prelude::*;

use crate::ansi::{clear_line_text, cursor_up_text, CursorUp};
use crate::terminal::{
    fresh, lemma_run_append, lemma_run_cursor_up, lemma_run_line_erase, lemma_run_newlines,
    lemma_run_plain, printable, term_run, Term,
};
use crate::line::Line;
use crate::spinner::Spinner;
use crate::Frames;

verus! {

broadcast use {
    vstd::std_specs::vec::axiom_vec_index_decreases,
    vstd::std_specs::vec::axiom_vec_decreases_to_view,
    vstd::seq::axiom_seq_index_decreases,
};

/// A frame that a group can hold.
pub enum Node {
    Spinner(Spinner),
    Line(Line),
    Group(Group),
}

/// A group of frames, each shown on its own lines.
///
/// A group reports no lines to the group that holds it: the text it shows
/// already ends with a new line for each line of its children, and its
/// clear codes move the cursor up over all of them.
pub struct Group {
    indent: usize,
    frames: Vec<Node>,
}

/// `k` levels of indentation, two spaces each.
pub open spec fn indent_text(k: nat) -> Seq<char>
    decreases k,
{
    if k == 0 {
        Seq::empty()
    } else {
        indent_text((k - 1) as nat) + seq![' ', ' ']
    }
}

/// `k` new lines.
pub open spec fn newlines(k: nat) -> Seq<char>
    decreases k,
{
    if k == 0 {
        Seq::empty()
    } else {
        newlines((k - 1) as nat) + seq!['\n']
    }
}

/// The lines a frame reports to its group.
pub open spec fn node_lines(n: Node) -> nat {
    match n {
        Node::Spinner(s) => s.line_count(),
        Node::Line(l) => l.line_count(),
        Node::Group(g) => 0,
    }
}

/// The frame and every frame inside it are well formed.
pub open spec fn node_inv(n: Node) -> bool
    decreases n, 1nat,
{
    match n {
        Node::Spinner(s) => s.inv(),
        Node::Line(l) => l.inv(),
        Node::Group(g) => children_inv(g, g.children().len()),
    }
}

/// What a frame shows.
pub open spec fn node_shown(n: Node) -> Seq<char>
    decreases n, 1nat,
{
    match n {
        Node::Spinner(s) => s.shown(),
        Node::Line(l) => l.shown(),
        Node::Group(g) => children_shown(g, g.children().len()),
    }
}

/// What the first `k` children of a group show: each child that takes
/// lines is indented, and ended with one new line per line.
pub open spec fn children_shown(g: Group, k: nat) -> Seq<char>
    decreases g, k + 1,
{
    if k == 0 || k > g.children().len() {
        Seq::empty()
    } else {
        children_shown(g, (k - 1) as nat) + child_text(g.indent_level(), g.children()[k - 1])
    }
}

/// What a group at indentation `ind` writes for its child `c`.
pub open spec fn child_text(ind: nat, c: Node) -> Seq<char>
    decreases c, 2nat,
{
    (if node_lines(c) > 0 {
        indent_text(ind)
    } else {
        Seq::empty()
    }) + node_shown(c) + newlines(node_lines(c))
}

/// The codes that erase what a frame shows.
pub open spec fn node_erased(n: Node) -> Seq<char>
    decreases n, 1nat,
{
    match n {
        Node::Spinner(s) => s.erased(),
        Node::Line(l) => l.erased(),
        Node::Group(g) => children_erased(g, 0),
    }
}

/// The codes that erase the children of a group from index `i` on, last
/// child first: for each, move up over its lines, then its own codes.
pub open spec fn children_erased(g: Group, i: nat) -> Seq<char>
    decreases g, g.children().len() - i + 1,
{
    if i >= g.children().len() {
        Seq::empty()
    } else {
        children_erased(g, i + 1) + child_erase(g.children()[i as int])
    }
}

/// The codes a group writes to erase its child `c`.
pub open spec fn child_erase(c: Node) -> Seq<char>
    decreases c, 2nat,
{
    cursor_up_text(node_lines(c)) + node_erased(c)
}

/// The printed length of a frame, where it is known in advance.
pub open spec fn node_known_len(n: Node) -> Option<nat> {
    match n {
        Node::Spinner(s) => s.known_len(),
        Node::Line(l) => l.known_len(),
        Node::Group(g) => None,
    }
}

/// `a` is `b` moved on by one animation step, every frame inside it too.
pub open spec fn node_advanced(a: Node, b: Node) -> bool
    decreases a, 1nat,
{
    match (a, b) {
        (Node::Spinner(x), Node::Spinner(y)) => x.advanced_from(y),
        (Node::Line(x), Node::Line(y)) => x.advanced_from(y),
        (Node::Group(x), Node::Group(y)) => {
            &&& x.indent_level() == y.indent_level()
            &&& x.children().len() == y.children().len()
            &&& children_advanced(x, y, x.children().len())
        },
        _ => false,
    }
}

/// `a` is `b` taken back to its first animation step, every frame inside
/// it too.
pub open spec fn node_reset(a: Node, b: Node) -> bool
    decreases a, 1nat,
{
    match (a, b) {
        (Node::Spinner(x), Node::Spinner(y)) => x.reset_from(y),
        (Node::Line(x), Node::Line(y)) => x.reset_from(y),
        (Node::Group(x), Node::Group(y)) => {
            &&& x.indent_level() == y.indent_level()
            &&& x.children().len() == y.children().len()
            &&& children_reset(x, y, x.children().len())
        },
        _ => false,
    }
}

/// The first `k` children of `x` are those of `y` moved on by one step.
pub open spec fn children_advanced(x: Group, y: Group, k: nat) -> bool
    decreases x, k,
{
    if k == 0 || k > x.children().len() || k > y.children().len() {
        true
    } else {
        children_advanced(x, y, (k - 1) as nat) && node_advanced(x.children()[k - 1], y.children()[k - 1])
    }
}

/// The first `k` children of `x` are those of `y` taken back to their
/// first step.
pub open spec fn children_reset(x: Group, y: Group, k: nat) -> bool
    decreases x, k,
{
    if k == 0 || k > x.children().len() || k > y.children().len() {
        true
    } else {
        children_reset(x, y, (k - 1) as nat) && node_reset(x.children()[k - 1], y.children()[k - 1])
    }
}

/// The first `k` children of a group are well formed.
pub open spec fn children_inv(g: Group, k: nat) -> bool
    decreases g, k,
{
    if k == 0 || k > g.children().len() {
        true
    } else {
        children_inv(g, (k - 1) as nat) && node_inv(g.children()[k - 1])
    }
}

proof fn lemma_children_inv(g: Group, k: nat)
    requires
        k <= g.children().len(),
    ensures
        children_inv(g, k) <==> forall|i: int| 0 <= i < k ==> #[trigger] node_inv(g.children()[i]),
    decreases k,
{
    if k > 0 {
        lemma_children_inv(g, (k - 1) as nat);
        assert(children_inv(g, k) == (children_inv(g, (k - 1) as nat) && node_inv(g.children()[k - 1])));
    } else {
        assert(children_inv(g, k));
    }
}

proof fn lemma_children_advanced(x: Group, y: Group, k: nat)
    requires
        k <= x.children().len(),
        k <= y.children().len(),
    ensures
        children_advanced(x, y, k) <==> forall|i: int|
            0 <= i < k ==> #[trigger] node_advanced(x.children()[i], y.children()[i]),
    decreases k,
{
    if k > 0 {
        lemma_children_advanced(x, y, (k - 1) as nat);
        assert(children_advanced(x, y, k) == (children_advanced(x, y, (k - 1) as nat) && node_advanced(
            x.children()[k - 1],
            y.children()[k - 1],
        )));
    } else {
        assert(children_advanced(x, y, k));
    }
}

proof fn lemma_children_reset(x: Group, y: Group, k: nat)
    requires
        k <= x.children().len(),
        k <= y.children().len(),
    ensures
        children_reset(x, y, k) <==> forall|i: int|
            0 <= i < k ==> #[trigger] node_reset(x.children()[i], y.children()[i]),
    decreases k,
{
    if k > 0 {
        lemma_children_reset(x, y, (k - 1) as nat);
        assert(children_reset(x, y, k) == (children_reset(x, y, (k - 1) as nat) && node_reset(
            x.children()[k - 1],
            y.children()[k - 1],
        )));
    } else {
        assert(children_reset(x, y, k));
    }
}

impl Group {
    /// The children, in order.
    pub closed spec fn children(&self) -> Seq<Node> {
        self.frames@
    }

    /// The indentation level.
    pub closed spec fn indent_level(&self) -> nat {
        self.indent as nat
    }

    fn render_children(&self) -> (r: String)
        requires
            node_inv(Node::Group(*self)),
        ensures
            r@ == children_shown(*self, self.children().len()),
        decreases self,
    {
        proof {
            lemma_children_inv(*self, self.children().len());
        }
        let mut out = String::new();
        let mut i: usize = 0;
        while i < self.frames.len()
            invariant
                i <= self.frames@.len(),
                forall|j: int| 0 <= j < self.children().len() ==> #[trigger] node_inv(self.children()[j]),
                out@ == children_shown(*self, i as nat),
            decreases self.frames@.len() - i,
        {
            let child = &self.frames[i];
            assert(node_inv(self.children()[i as int]));
            let lines = child.lines_node();
            if lines > 0 {
                let mut k: usize = 0;
                while k < self.indent
                    invariant
                        k <= self.indent,
                        out@ == children_shown(*self, i as nat) + indent_text(k as nat),
                    decreases self.indent - k,
                {
                    proof { reveal_strlit("  "); }
                    out.append("  ");
                    k = k + 1;
                    assert(out@ =~= children_shown(*self, i as nat) + indent_text(k as nat));
                }
            }
            let ghost before = out@;
            let text = child.render_node();
            out.append(text.as_str());
            let mut k: usize = 0;
            while k < lines
                invariant
                    k <= lines,
                    out@ == before + text@ + newlines(k as nat),
                decreases lines - k,
            {
                proof { reveal_strlit("\n"); }
                out.append("\n");
                k = k + 1;
                assert(out@ =~= before + text@ + newlines(k as nat));
            }
            assert(child_text(self.indent_level(), self.children()[i as int]) == (if lines > 0 {
                indent_text(self.indent_level())
            } else {
                Seq::empty()
            }) + text@ + newlines(lines as nat));
            i = i + 1;
            assert(out@ =~= children_shown(*self, i as nat));
        }
        out
    }

    fn clear_children(&self) -> (r: String)
        requires
            node_inv(Node::Group(*self)),
        ensures
            r@ == children_erased(*self, 0),
        decreases self,
    {
        proof {
            lemma_children_inv(*self, self.children().len());
        }
        let mut out = String::new();
        let mut i: usize = self.frames.len();
        while i > 0
            invariant
                i <= self.frames@.len(),
                forall|j: int| 0 <= j < self.children().len() ==> #[trigger] node_inv(self.children()[j]),
                out@ == children_erased(*self, i as nat),
            decreases i,
        {
            i = i - 1;
            let child = &self.frames[i];
            assert(node_inv(self.children()[i as int]));
            CursorUp(child.lines_node()).write_to(&mut out);
            let codes = child.clear_node();
            out.append(codes.as_str());
            assert(child_erase(self.children()[i as int]) == cursor_up_text(node_lines(self.children()[i as int])) + codes@);
            assert(out@ =~= children_erased(*self, i as nat));
        }
        out
    }

    fn advance_children(&mut self)
        requires
            node_inv(Node::Group(*old(self))),
        ensures
            node_inv(Node::Group(*final(self))),
            node_advanced(Node::Group(*final(self)), Node::Group(*old(self))),
        decreases *old(self),
    {
        let ghost g0 = *self;
        proof {
            lemma_children_inv(g0, g0.children().len());
        }
        let mut i: usize = 0;
        while i < self.frames.len()
            invariant
                i <= self.frames@.len(),
                g0 == *old(self),
                forall|j: int| 0 <= j < g0.frames@.len() ==> #[trigger] node_inv(g0.frames@[j]),
                self.frames@.len() == old(self).frames@.len(),
                self.indent == old(self).indent,
                forall|j: int| 0 <= j < i ==> #[trigger] node_advanced(self.frames@[j], old(self).frames@[j]),
                forall|j: int| 0 <= j < i ==> #[trigger] node_inv(self.frames@[j]),
                forall|j: int| i <= j < self.frames@.len() ==> #[trigger] self.frames@[j] == old(self).frames@[j],
                node_inv(Node::Group(*old(self))),
            decreases self.frames@.len() - i,
        {
            assert(node_inv(g0.frames@[i as int]));
            self.frames[i].advance_node();
            i = i + 1;
        }
        assert forall|j: int| 0 <= j < self.children().len() implies #[trigger] node_inv(self.children()[j]) by {
            assert(node_inv(self.frames@[j]));
        }
        assert forall|j: int| 0 <= j < self.children().len() implies #[trigger] node_advanced(self.children()[j], old(self).children()[j]) by {
            assert(node_advanced(self.frames@[j], old(self).frames@[j]));
        }
        proof {
            lemma_children_inv(*self, self.children().len());
            lemma_children_advanced(*self, *old(self), self.children().len());
        }
    }

    fn reset_children(&mut self)
        requires
            node_inv(Node::Group(*old(self))),
        ensures
            node_inv(Node::Group(*final(self))),
            node_reset(Node::Group(*final(self)), Node::Group(*old(self))),
        decreases *old(self),
    {
        let ghost g0 = *self;
        proof {
            lemma_children_inv(g0, g0.children().len());
        }
        let mut i: usize = 0;
        while i < self.frames.len()
            invariant
                i <= self.frames@.len(),
                g0 == *old(self),
                forall|j: int| 0 <= j < g0.frames@.len() ==> #[trigger] node_inv(g0.frames@[j]),
                self.frames@.len() == old(self).frames@.len(),
                self.indent == old(self).indent,
                forall|j: int| 0 <= j < i ==> #[trigger] node_reset(self.frames@[j], old(self).frames@[j]),
                forall|j: int| 0 <= j < i ==> #[trigger] node_inv(self.frames@[j]),
                forall|j: int| i <= j < self.frames@.len() ==> #[trigger] self.frames@[j] == old(self).frames@[j],
                node_inv(Node::Group(*old(self))),
            decreases self.frames@.len() - i,
        {
            assert(node_inv(g0.frames@[i as int]));
            self.frames[i].reset_node();
            i = i + 1;
        }
        assert forall|j: int| 0 <= j < self.children().len() implies #[trigger] node_inv(self.children()[j]) by {
            assert(node_inv(self.frames@[j]));
        }
        assert forall|j: int| 0 <= j < self.children().len() implies #[trigger] node_reset(self.children()[j], old(self).children()[j]) by {
            assert(node_reset(self.frames@[j], old(self).frames@[j]));
        }
        proof {
            lemma_children_inv(*self, self.children().len());
            lemma_children_reset(*self, *old(self), self.children().len());
        }
    }
}

impl Node {
    fn lines_node(&self) -> (r: usize)
        requires
            node_inv(*self),
        ensures
            r as nat == node_lines(*self),
    {
        match self {
            Node::Spinner(s) => s.lines(),
            Node::Line(l) => l.lines(),
            Node::Group(_) => 0,
        }
    }

    fn render_node(&self) -> (r: String)
        requires
            node_inv(*self),
        ensures
            r@ == node_shown(*self),
        decreases self,
    {
        match self {
            Node::Spinner(s) => s.render(),
            Node::Line(l) => l.render(),
            Node::Group(g) => g.render_children(),
        }
    }

    fn clear_node(&self) -> (r: String)
        requires
            node_inv(*self),
        ensures
            r@ == node_erased(*self),
        decreases self,
    {
        match self {
            Node::Spinner(s) => s.clear(),
            Node::Line(l) => l.clear(),
            Node::Group(g) => g.clear_children(),
        }
    }

    fn advance_node(&mut self)
        requires
            node_inv(*old(self)),
        ensures
            node_inv(*final(self)),
            node_advanced(*final(self), *old(self)),
        decreases *old(self),
    {
        match self {
            Node::Spinner(s) => s.advance(),
            Node::Line(l) => l.advance(),
            Node::Group(g) => g.advance_children(),
        }
    }

    fn reset_node(&mut self)
        requires
            node_inv(*old(self)),
        ensures
            node_inv(*final(self)),
            node_reset(*final(self), *old(self)),
        decreases *old(self),
    {
        match self {
            Node::Spinner(s) => s.reset(),
            Node::Line(l) => l.reset(),
            Node::Group(g) => g.reset_children(),
        }
    }
}

} // verus!

verus! {

/// The items of `s` whose flag in `keep` is set, in order.
pub open spec fn kept(s: Seq<Node>, keep: Seq<bool>) -> Seq<Node>
    decreases s.len(),
{
    if s.len() == 0 || keep.len() != s.len() {
        Seq::empty()
    } else {
        kept(s.drop_last(), keep.drop_last()) + if keep.last() {
            seq![s.last()]
        } else {
            Seq::empty()
        }
    }
}

impl Group {
    /// Creates an empty group without indentation.
    pub fn new() -> (r: Self)
        ensures
            r.children() == Seq::<Node>::empty(),
            r.indent_level() == 0,
    {
        Group { indent: 0, frames: Vec::new() }
    }

    /// The number of children.
    pub fn len(&self) -> (r: usize)
        ensures
            r as nat == self.children().len(),
    {
        self.frames.len()
    }

    /// Whether the group has no children.
    pub fn is_empty(&self) -> (r: bool)
        ensures
            r == (self.children().len() == 0),
    {
        self.frames.is_empty()
    }

    /// Inserts a frame at position `idx`; `idx` may be the length, which
    /// appends it.
    pub fn insert(&mut self, idx: usize, frames: Node) -> (r: &mut Self)
        requires
            idx <= old(self).children().len(),
        ensures
            r.children() == old(self).children().insert(idx as int, frames),
            r.indent_level() == old(self).indent_level(),
            *final(self) == *final(r),
    {
        self.frames.insert(idx, frames);
        self
    }

    /// Appends a frame.
    pub fn push(&mut self, frames: Node) -> (r: &mut Self)
        ensures
            r.children() == old(self).children().push(frames),
            r.indent_level() == old(self).indent_level(),
            *final(self) == *final(r),
    {
        self.frames.push(frames);
        self
    }

    /// Appends frames, in order.
    pub fn extend(&mut self, frames: Vec<Node>) -> (r: &mut Self)
        ensures
            r.children() == old(self).children() + frames@,
            r.indent_level() == old(self).indent_level(),
            *final(self) == *final(r),
    {
        let mut rest = frames;
        let mut taken: Vec<Node> = Vec::new();
        while rest.len() > 0
            invariant
                taken@ + rest@.reverse() == frames@.reverse(),
            decreases rest@.len(),
        {
            let f = rest.pop().unwrap();
            proof {
                assert(rest@.push(f).reverse() =~= seq![f] + rest@.reverse());
            }
            taken.push(f);
            assert(taken@ + rest@.reverse() =~= frames@.reverse());
        }
        assert(taken@ =~= frames@.reverse());
        let ghost start = self.frames@;
        while taken.len() > 0
            invariant
                self.frames@ + taken@.reverse() == start + frames@,
                self.indent == old(self).indent,
                start == old(self).frames@,
            decreases taken@.len(),
        {
            let f = taken.pop().unwrap();
            proof {
                assert(taken@.push(f).reverse() =~= seq![f] + taken@.reverse());
            }
            self.frames.push(f);
            assert(self.frames@ + taken@.reverse() =~= start + frames@);
        }
        assert(self.frames@ =~= start + frames@);
        self
    }

    /// Removes the frame at position `idx`; does nothing where there is
    /// none.
    pub fn remove(&mut self, idx: usize) -> (r: &mut Self)
        ensures
            r.children() == if idx < old(self).children().len() {
                old(self).children().remove(idx as int)
            } else {
                old(self).children()
            },
            r.indent_level() == old(self).indent_level(),
            *final(self) == *final(r),
    {
        if idx < self.frames.len() {
            self.frames.remove(idx);
        }
        self
    }

    /// The children, in order.
    pub fn iter(&self) -> (r: &[Node])
        ensures
            r@ == self.children(),
    {
        self.frames.as_slice()
    }

    /// The children, in order, to change in place.
    pub fn iter_mut(&mut self) -> (r: &mut [Node])
        ensures
            r@ == old(self).children(),
            final(self).children() == final(r)@,
            final(self).indent_level() == old(self).indent_level(),
    {
        self.frames.as_mut_slice()
    }

    /// Keeps only the children for which `f` holds, in order.
    pub fn retain<P: Fn(&Node) -> bool>(&mut self, f: P)
        requires
            forall|n: &Node| #[trigger] f.requires((n,)),
        ensures
            final(self).indent_level() == old(self).indent_level(),
            exists|keep: Seq<bool>|
                {
                    &&& keep.len() == old(self).children().len()
                    &&& forall|i: int|
                        0 <= i < keep.len() ==> #[trigger] f.ensures((&old(self).children()[i],), keep[i])
                    &&& final(self).children() == kept(old(self).children(), keep)
                },
    {
        let mut rest: Vec<Node> = Vec::new();
        std::mem::swap(&mut rest, &mut self.frames);
        let ghost all = rest@;
        let total = rest.len();
        let ghost mut keep: Seq<bool> = Seq::empty();
        let mut i: usize = 0;
        while rest.len() > 0
            invariant
                forall|n: &Node| #[trigger] f.requires((n,)),
                all == old(self).frames@,
                self.indent == old(self).indent,
                i <= all.len(),
                keep.len() == i,
                rest@ == all.subrange(i as int, all.len() as int),
                all.len() == i + rest@.len(),
                all.len() == total,
                forall|j: int| 0 <= j < i ==> #[trigger] f.ensures((&all[j],), keep[j]),
                self.frames@ == kept(all.subrange(0, i as int), keep),
            decreases rest@.len(),
        {
            let n = rest.remove(0);
            let b = f(&n);
            let ghost old_keep = keep;
            proof {
                keep = keep.push(b);
            }
            if b {
                self.frames.push(n);
            }
            assert(i < all.len());
            i = i + 1;
            proof {
                let pre = all.subrange(0, i as int);
                assert(pre.drop_last() =~= all.subrange(0, i as int - 1));
                assert(keep.drop_last() =~= old_keep);
                assert(pre.last() == n);
                assert(keep.last() == b);
                assert(rest@ =~= all.subrange(i as int, all.len() as int));
                assert(self.frames@ =~= kept(all.subrange(0, i as int), keep));
            }
        }
        assert(all.subrange(0, i as int) =~= all);
        assert(forall|j: int|
            0 <= j < keep.len() ==> #[trigger] f.ensures((&old(self).children()[j],), keep[j]));
        assert(final(self).children() == kept(old(self).children(), keep));
    }

    /// The escape codes that erase what this group printed.
    pub fn clear(&self) -> (r: String)
        requires
            self.inv(),
        ensures
            r@ == self.erased(),
    {
        self.clear_children()
    }

    /// The indentation level.
    pub fn get_indent(&self) -> (r: usize)
        ensures
            r as nat == self.indent_level(),
    {
        self.indent
    }

    /// Sets the indentation level.
    pub fn with_indent(self, level: usize) -> (r: Self)
        ensures
            r.indent_level() == level as nat,
            r.children() == self.children(),
    {
        let mut g = self;
        g.indent = level;
        g
    }

    /// Sets the indentation level.
    pub fn set_indent(&mut self, level: usize) -> (r: &mut Self)
        ensures
            r.indent_level() == level as nat,
            r.children() == old(self).children(),
            *final(self) == *final(r),
    {
        self.indent = level;
        self
    }
}

/// Inserting at the current length appends: a group gets the same
/// children as from a push.
pub proof fn lemma_insert_at_length_appends(g: Group, n: Node)
    ensures
        g.children().insert(g.children().len() as int, n) == g.children().push(n),
{
    assert(g.children().insert(g.children().len() as int, n) =~= g.children().push(n));
}

impl Frames for Group {
    open spec fn inv(&self) -> bool {
        node_inv(Node::Group(*self))
    }

    open spec fn shown(&self) -> Seq<char> {
        node_shown(Node::Group(*self))
    }

    open spec fn erased(&self) -> Seq<char> {
        node_erased(Node::Group(*self))
    }

    open spec fn line_count(&self) -> nat {
        0
    }

    open spec fn known_len(&self) -> Option<nat> {
        None
    }

    open spec fn advanced_from(&self, before: Self) -> bool {
        node_advanced(Node::Group(*self), Node::Group(before))
    }

    open spec fn reset_from(&self, before: Self) -> bool {
        node_reset(Node::Group(*self), Node::Group(before))
    }

    fn render(&self) -> (r: String) {
        self.render_children()
    }

    fn advance(&mut self) {
        self.advance_children();
    }

    fn reset(&mut self) {
        self.reset_children();
    }

    fn clear(&self) -> (r: String) {
        self.clear_children()
    }

    fn lines(&self) -> (r: usize) {
        0
    }

    fn print_len(&self) -> (r: Option<usize>) {
        None
    }
}

impl Frames for Node {
    open spec fn inv(&self) -> bool {
        node_inv(*self)
    }

    open spec fn shown(&self) -> Seq<char> {
        node_shown(*self)
    }

    open spec fn erased(&self) -> Seq<char> {
        node_erased(*self)
    }

    open spec fn line_count(&self) -> nat {
        node_lines(*self)
    }

    open spec fn known_len(&self) -> Option<nat> {
        node_known_len(*self)
    }

    open spec fn advanced_from(&self, before: Self) -> bool {
        node_advanced(*self, before)
    }

    open spec fn reset_from(&self, before: Self) -> bool {
        node_reset(*self, before)
    }

    fn render(&self) -> (r: String) {
        self.render_node()
    }

    fn advance(&mut self) {
        self.advance_node();
    }

    fn reset(&mut self) {
        self.reset_node();
    }

    fn clear(&self) -> (r: String) {
        self.clear_node()
    }

    fn lines(&self) -> (r: usize) {
        self.lines_node()
    }

    fn print_len(&self) -> (r: Option<usize>) {
        match self {
            Node::Spinner(s) => s.print_len(),
            Node::Line(l) => l.print_len(),
            Node::Group(_) => None,
        }
    }
}

} // verus!

verus! {

// Laws that tie a frame's text to its clear codes.

/// Every line in the frame shows printable text, and every spinner that
/// stands alone (outside a line) shows nothing.
pub open spec fn node_printable(n: Node) -> bool
    decreases n, 1nat,
{
    match n {
        Node::Spinner(s) => s.shown() == Seq::<char>::empty(),
        Node::Line(l) => printable(l.shown()),
        Node::Group(g) => children_printable(g, g.children().len()),
    }
}

/// The first `k` children of `g` are printable.
pub open spec fn children_printable(g: Group, k: nat) -> bool
    decreases g, k + 1,
{
    if k == 0 || k > g.children().len() {
        true
    } else {
        children_printable(g, (k - 1) as nat) && node_printable(g.children()[k - 1])
    }
}

/// The number of terminal rows a frame's text ends, as a group writes it.
pub open spec fn node_rows(n: Node) -> nat
    decreases n, 1nat,
{
    match n {
        Node::Spinner(_) => 0,
        Node::Line(_) => 1,
        Node::Group(g) => children_rows(g, g.children().len()),
    }
}

/// The rows of the first `k` children of `g`.
pub open spec fn children_rows(g: Group, k: nat) -> nat
    decreases g, k + 1,
{
    if k == 0 || k > g.children().len() {
        0
    } else {
        children_rows(g, (k - 1) as nat) + node_rows(g.children()[k - 1])
    }
}

/// The codes that erase the first `k` children of `g`, last first.
pub open spec fn erased_prefix(g: Group, k: nat) -> Seq<char>
    decreases k,
{
    if k == 0 || k > g.children().len() {
        Seq::empty()
    } else {
        child_erase(g.children()[k - 1]) + erased_prefix(g, (k - 1) as nat)
    }
}

proof fn lemma_erased_prefix(g: Group, i: nat)
    requires
        i <= g.children().len(),
    ensures
        children_erased(g, i) + erased_prefix(g, i) == erased_prefix(g, g.children().len()),
    decreases g.children().len() - i,
{
    if i == g.children().len() {
        assert(children_erased(g, i) + erased_prefix(g, i) =~= erased_prefix(g, i));
    } else {
        lemma_erased_prefix(g, i + 1);
        assert(erased_prefix(g, i + 1) == child_erase(g.children()[i as int]) + erased_prefix(g, i));
        assert(children_erased(g, i) + erased_prefix(g, i) =~= children_erased(g, i + 1)
            + erased_prefix(g, i + 1));
    }
}

proof fn lemma_indent_printable(k: nat)
    ensures
        printable(indent_text(k)),
    decreases k,
{
    if k > 0 {
        lemma_indent_printable((k - 1) as nat);
    }
}

/// Writing a child of a group on fresh rows, then its erase codes.
proof fn lemma_child_trip(ind: nat, c: Node, s: Term)
    requires
        fresh(s),
        node_printable(c),
    ensures
        fresh(term_run(s, child_text(ind, c))),
        term_run(s, child_text(ind, c)).row == s.row + node_rows(c),
        forall|i: int| i < s.row ==> #[trigger] (term_run(s, child_text(ind, c)).rows)(i) == (s.rows)(i),
        term_run(term_run(s, child_text(ind, c)), child_erase(c)) == s,
    decreases c, 3nat,
{
    match c {
        Node::Spinner(sp) => {
            assert(child_text(ind, c) =~= Seq::<char>::empty());
            assert(child_erase(c) =~= Seq::<char>::empty());
        },
        Node::Line(l) => {
            let body = indent_text(ind) + l.shown();
            lemma_indent_printable(ind);
            assert(printable(body));
            assert(child_text(ind, c) == body + newlines(1));
            lemma_run_append(s, body, newlines(1));
            lemma_run_plain(s, body);
            let w = term_run(s, body);
            lemma_run_newlines(w, 1);
            let t = term_run(s, child_text(ind, c));
            assert(t =~= (Term { row: s.row + 1, col: 0, ..w }));
            assert(child_erase(c) == cursor_up_text(1) + (seq!['\r'] + clear_line_text()));
            lemma_run_append(t, cursor_up_text(1), seq!['\r'] + clear_line_text());
            lemma_run_cursor_up(t, 1);
            let u = term_run(t, cursor_up_text(1));
            lemma_run_line_erase(u);
            assert(term_run(t, child_erase(c)) =~= s);
        },
        Node::Group(g) => {
            assert(child_text(ind, c) =~= children_shown(g, g.children().len()));
            lemma_erased_prefix(g, 0);
            assert(erased_prefix(g, 0) =~= Seq::<char>::empty());
            assert(child_erase(c) =~= erased_prefix(g, g.children().len()));
            lemma_group_trip(g, g.children().len(), s);
        },
    }
}

/// Writing the first `k` children of a group on fresh rows, then their
/// erase codes.
proof fn lemma_group_trip(g: Group, k: nat, s: Term)
    requires
        fresh(s),
        k <= g.children().len(),
        children_printable(g, k),
    ensures
        fresh(term_run(s, children_shown(g, k))),
        term_run(s, children_shown(g, k)).row == s.row + children_rows(g, k),
        forall|i: int| i < s.row ==> #[trigger] (term_run(s, children_shown(g, k)).rows)(i) == (s.rows)(i),
        term_run(term_run(s, children_shown(g, k)), erased_prefix(g, k)) == s,
    decreases g, k + 1,
{
    if k == 0 {
        assert(children_shown(g, 0) =~= Seq::<char>::empty());
    } else {
        let c = g.children()[k - 1];
        lemma_group_trip(g, (k - 1) as nat, s);
        let t0 = term_run(s, children_shown(g, (k - 1) as nat));
        lemma_child_trip(g.indent_level(), c, t0);
        lemma_run_append(s, children_shown(g, (k - 1) as nat), child_text(g.indent_level(), c));
        let t1 = term_run(s, children_shown(g, k));
        lemma_run_append(t1, child_erase(c), erased_prefix(g, (k - 1) as nat));
    }
}

/// Whatever a frame draws on fresh rows, its clear codes erase again:
/// the terminal is as it was, cursor included. So drawing, clearing and
/// drawing the same state again leaves the terminal as one drawing does.
pub proof fn lemma_redraw_round_trip(n: Node, s: Term)
    requires
        fresh(s),
        node_printable(n),
    ensures
        term_run(term_run(s, n.shown()), n.erased()) == s,
        term_run(term_run(term_run(s, n.shown()), n.erased()), n.shown()) == term_run(s, n.shown()),
{
    match n {
        Node::Spinner(sp) => {
            assert(n.shown() =~= Seq::<char>::empty());
        },
        Node::Line(l) => {
            lemma_run_plain(s, l.shown());
            let t = term_run(s, l.shown());
            lemma_run_line_erase(t);
            assert(term_run(t, n.erased()) =~= s);
        },
        Node::Group(g) => {
            lemma_group_trip(g, g.children().len(), s);
            lemma_erased_prefix(g, 0);
            assert(erased_prefix(g, 0) =~= Seq::<char>::empty());
            assert(n.erased() =~= erased_prefix(g, g.children().len()));
        },
    }
}

/// A frame in a group, drawn on fresh rows, ends on the start of a fresh
/// row exactly `node_rows` rows down (for a line or a spinner, its
/// `line_count`: each line it reports is one new-line-ended row), leaves
/// the rows above untouched, and its erase codes move back up over those
/// rows and blank each of them.
pub proof fn lemma_lines_match(ind: nat, c: Node, s: Term)
    requires
        fresh(s),
        node_printable(c),
    ensures
        !(c is Group) ==> node_rows(c) == c.line_count(),
        fresh(term_run(s, child_text(ind, c))),
        term_run(s, child_text(ind, c)).row == s.row + node_rows(c),
        forall|i: int| i < s.row ==> #[trigger] (term_run(s, child_text(ind, c)).rows)(i) == (s.rows)(i),
        term_run(term_run(s, child_text(ind, c)), child_erase(c)) == s,
{
    lemma_child_trip(ind, c, s);
}

/// The number of new lines in `s`.
pub open spec fn count_newlines(s: Seq<char>) -> nat
    decreases s.len(),
{
    if s.len() == 0 {
        0
    } else {
        count_newlines(s.drop_last()) + if s.last() == '\n' {
            1nat
        } else {
            0nat
        }
    }
}

/// `k` copies of `s`, one after another.
pub open spec fn repeat_text(s: Seq<char>, k: nat) -> Seq<char>
    decreases k,
{
    if k == 0 {
        Seq::empty()
    } else {
        repeat_text(s, (k - 1) as nat) + s
    }
}

/// The codes that erase one line: up one row, back to its start, clear it.
pub open spec fn line_erase_text() -> Seq<char> {
    cursor_up_text(1) + seq!['\r'] + clear_line_text()
}

/// The text holds no new line.
pub open spec fn no_newline(s: Seq<char>) -> bool {
    forall|i: int| 0 <= i < s.len() ==> s[i] != '\n'
}

/// No line or spinner in the frame shows a new line.
pub open spec fn node_no_newline(n: Node) -> bool
    decreases n, 1nat,
{
    match n {
        Node::Spinner(s) => no_newline(s.shown()),
        Node::Line(l) => no_newline(l.shown()),
        Node::Group(g) => children_no_newline(g, g.children().len()),
    }
}

/// No line or spinner in the first `k` children of `g` shows a new line.
pub open spec fn children_no_newline(g: Group, k: nat) -> bool
    decreases g, k + 1,
{
    if k == 0 || k > g.children().len() {
        true
    } else {
        children_no_newline(g, (k - 1) as nat) && node_no_newline(g.children()[k - 1])
    }
}

proof fn lemma_count_append(a: Seq<char>, b: Seq<char>)
    ensures
        count_newlines(a + b) == count_newlines(a) + count_newlines(b),
    decreases b.len(),
{
    if b.len() == 0 {
        assert(a + b =~= a);
    } else {
        lemma_count_append(a, b.drop_last());
        assert((a + b).drop_last() =~= a + b.drop_last());
    }
}

proof fn lemma_count_none(s: Seq<char>)
    requires
        no_newline(s),
    ensures
        count_newlines(s) == 0,
    decreases s.len(),
{
    if s.len() > 0 {
        lemma_count_none(s.drop_last());
    }
}

proof fn lemma_count_newlines(k: nat)
    ensures
        count_newlines(newlines(k)) == k,
    decreases k,
{
    if k > 0 {
        lemma_count_newlines((k - 1) as nat);
        lemma_count_append(newlines((k - 1) as nat), seq!['\n']);
        assert(seq!['\n'].drop_last() =~= Seq::<char>::empty());
        assert(count_newlines(Seq::<char>::empty()) == 0);
        assert(count_newlines(seq!['\n']) == 1);
    }
}

proof fn lemma_repeat_append(s: Seq<char>, a: nat, b: nat)
    ensures
        repeat_text(s, a) + repeat_text(s, b) == repeat_text(s, a + b),
    decreases b,
{
    if b == 0 {
        assert(repeat_text(s, a) + repeat_text(s, b) =~= repeat_text(s, a));
    } else {
        lemma_repeat_append(s, a, (b - 1) as nat);
        assert(repeat_text(s, a) + repeat_text(s, b) =~= repeat_text(s, a) + repeat_text(s, (b - 1) as nat) + s);
    }
}

proof fn lemma_child_counts(ind: nat, c: Node)
    requires
        node_no_newline(c),
    ensures
        count_newlines(child_text(ind, c)) == node_rows(c),
        child_erase(c) == repeat_text(line_erase_text(), node_rows(c)),
    decreases c, 3nat,
{
    let pre = if node_lines(c) > 0 { indent_text(ind) } else { Seq::empty() };
    lemma_count_append(pre + node_shown(c), newlines(node_lines(c)));
    lemma_count_append(pre, node_shown(c));
    lemma_count_newlines(node_lines(c));
    lemma_indent_printable(ind);
    lemma_count_none(pre);
    match c {
        Node::Spinner(sp) => {
            lemma_count_none(sp.shown());
            assert(child_erase(c) =~= repeat_text(line_erase_text(), 0));
        },
        Node::Line(l) => {
            lemma_count_none(l.shown());
            assert(repeat_text(line_erase_text(), 0) =~= Seq::<char>::empty());
            assert(repeat_text(line_erase_text(), 1) =~= line_erase_text());
            assert(child_erase(c) =~= line_erase_text());
        },
        Node::Group(cg) => {
            lemma_group_counts(cg, cg.children().len());
            lemma_erased_prefix(cg, 0);
            assert(erased_prefix(cg, 0) =~= Seq::<char>::empty());
            assert(child_erase(c) =~= erased_prefix(cg, cg.children().len()));
        },
    }
}

proof fn lemma_group_counts(g: Group, k: nat)
    requires
        k <= g.children().len(),
        children_no_newline(g, k),
    ensures
        count_newlines(children_shown(g, k)) == children_rows(g, k),
        erased_prefix(g, k) == repeat_text(line_erase_text(), children_rows(g, k)),
    decreases g, k + 1,
{
    if k > 0 {
        let c = g.children()[k - 1];
        lemma_group_counts(g, (k - 1) as nat);
        lemma_child_counts(g.indent_level(), c);
        lemma_count_append(children_shown(g, (k - 1) as nat), child_text(g.indent_level(), c));
        lemma_repeat_append(line_erase_text(), node_rows(c), children_rows(g, (k - 1) as nat));
    }
}

/// A group's text ends exactly `node_rows` lines (one per line it holds,
/// nested groups included), and its clear codes are exactly that many
/// copies of the codes that erase one line: as many cursor-up moves of one
/// row, and as many line clears, as the text has new lines.
pub proof fn lemma_clear_matches_lines(g: Group)
    requires
        node_no_newline(Node::Group(g)),
    ensures
        count_newlines(g.shown()) == node_rows(Node::Group(g)),
        g.erased() == repeat_text(line_erase_text(), node_rows(Node::Group(g))),
{
    lemma_group_counts(g, g.children().len());
    lemma_erased_prefix(g, 0);
    assert(erased_prefix(g, 0) =~= Seq::<char>::empty());
    assert(g.erased() =~= erased_prefix(g, g.children().len()));
}

} // verus!
