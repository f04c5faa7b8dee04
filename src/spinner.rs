//! Leaf spinners: cycles of glyphs, and one that shows nothing.
use vstd::prelude::*;

use crate::Frames;
use vstd::arithmetic::div_mod::{
    lemma_fundamental_div_mod, lemma_fundamental_div_mod_converse, lemma_mod_pos_bound,
};

verus! {

/// Creates a spinner that shows nothing.
pub fn empty() -> (r: Empty) {
    Empty
}

/// Creates a spinner from the common braille dots.
pub fn dots() -> (r: FromArray)
    ensures
        r.inv(),
        r.index() == 0,
        r.glyphs() == seq![
            "⠋"@, "⠙"@, "⠹"@, "⠸"@, "⠼"@, "⠴"@, "⠦"@, "⠧"@, "⠇"@, "⠏"@,
        ],
{
    let mut array: Vec<String> = Vec::new();
    array.push(String::from_str("⠋"));
    array.push(String::from_str("⠙"));
    array.push(String::from_str("⠹"));
    array.push(String::from_str("⠸"));
    array.push(String::from_str("⠼"));
    array.push(String::from_str("⠴"));
    array.push(String::from_str("⠦"));
    array.push(String::from_str("⠧"));
    array.push(String::from_str("⠇"));
    array.push(String::from_str("⠏"));
    let r = FromArray::new(array);
    assert(r.glyphs() =~= seq![
        "⠋"@, "⠙"@, "⠹"@, "⠸"@, "⠼"@, "⠴"@, "⠦"@, "⠧"@, "⠇"@, "⠏"@,
    ]);
    r
}

/// Creates a spinner that cycles through a non-empty list of glyphs.
pub fn from_array(array: Vec<String>) -> (r: FromArray)
    requires
        array@.len() > 0,
    ensures
        r.inv(),
        r.index() == 0,
        r.glyphs() == strings_view(array@),
{
    FromArray::new(array)
}

/// Creates a spinner that replays a list of glyphs, restarting when it
/// runs out.
pub fn from_iter(items: Vec<String>) -> (r: FromIter)
    ensures
        r.inv(),
        r.is_start_of(strings_view(items@)),
{
    FromIter::new(items)
}

/// The texts of a list of strings.
pub open spec fn strings_view(v: Seq<String>) -> Seq<Seq<char>> {
    v.map_values(|s: String| s@)
}

/// A spinner that shows nothing and never changes.
pub struct Empty;

impl Frames for Empty {
    open spec fn inv(&self) -> bool {
        true
    }

    open spec fn shown(&self) -> Seq<char> {
        Seq::empty()
    }

    open spec fn erased(&self) -> Seq<char> {
        Seq::empty()
    }

    open spec fn line_count(&self) -> nat {
        0
    }

    open spec fn known_len(&self) -> Option<nat> {
        Some(0)
    }

    open spec fn advanced_from(&self, before: Self) -> bool {
        true
    }

    open spec fn reset_from(&self, before: Self) -> bool {
        true
    }

    fn render(&self) -> (r: String) {
        String::new()
    }

    fn advance(&mut self) {
    }

    fn reset(&mut self) {
    }

    fn clear(&self) -> (r: String) {
        String::new()
    }

    fn lines(&self) -> (r: usize) {
        0
    }

    fn print_len(&self) -> (r: Option<usize>) {
        Some(0)
    }
}

/// The position after `i` in a cycle of length `n`.
pub open spec fn cycle_next(i: nat, n: nat) -> nat {
    if i + 1 >= n {
        0
    } else {
        i + 1
    }
}

/// A spinner that cycles through a fixed, non-empty list of glyphs.
pub struct FromArray {
    idx: usize,
    array: Vec<String>,
}

impl FromArray {
    /// The index of the glyph shown now.
    pub closed spec fn index(&self) -> nat {
        self.idx as nat
    }

    /// The glyphs, in order.
    pub closed spec fn glyphs(&self) -> Seq<Seq<char>> {
        strings_view(self.array@)
    }

    /// Creates the spinner; it starts at the first glyph.
    pub fn new(array: Vec<String>) -> (r: Self)
        requires
            array@.len() > 0,
        ensures
            r.inv(),
            r.index() == 0,
            r.glyphs() == strings_view(array@),
    {
        FromArray { idx: 0, array }
    }
}

impl Frames for FromArray {
    open spec fn inv(&self) -> bool {
        &&& self.glyphs().len() > 0
        &&& self.index() < self.glyphs().len()
    }

    open spec fn shown(&self) -> Seq<char> {
        self.glyphs()[self.index() as int]
    }

    open spec fn erased(&self) -> Seq<char> {
        Seq::empty()
    }

    open spec fn line_count(&self) -> nat {
        0
    }

    open spec fn known_len(&self) -> Option<nat> {
        None
    }

    open spec fn advanced_from(&self, before: Self) -> bool {
        &&& self.glyphs() == before.glyphs()
        &&& self.index() == cycle_next(before.index(), before.glyphs().len())
    }

    open spec fn reset_from(&self, before: Self) -> bool {
        &&& self.glyphs() == before.glyphs()
        &&& self.index() == 0
    }

    fn render(&self) -> (r: String) {
        self.array[self.idx].clone()
    }

    fn advance(&mut self) {
        if self.idx >= self.array.len() - 1 {
            self.idx = 0;
        } else {
            self.idx = self.idx + 1;
        }
    }

    fn reset(&mut self) {
        self.idx = 0;
    }

    fn clear(&self) -> (r: String) {
        String::new()
    }

    fn lines(&self) -> (r: usize) {
        0
    }

    fn print_len(&self) -> (r: Option<usize>) {
        None
    }
}

/// A spinner that replays a list of glyphs.
///
/// It pulls the next glyph from its current position; once the list is
/// exhausted it starts over from the beginning within the same step, so
/// the animation never stalls. An empty list shows nothing.
pub struct FromIter {
    start: Vec<String>,
    pos: usize,
    frame: Option<usize>,
}

impl FromIter {
    /// The glyphs, in order.
    pub closed spec fn items(&self) -> Seq<Seq<char>> {
        strings_view(self.start@)
    }

    /// How many glyphs have been pulled since the last start.
    pub closed spec fn position(&self) -> nat {
        self.pos as nat
    }

    /// The index of the glyph shown now, if any.
    pub closed spec fn current(&self) -> Option<nat> {
        match self.frame {
            Some(i) => Some(i as nat),
            None => None,
        }
    }

    /// The spinner is in the state a new spinner over `items` starts in:
    /// the first glyph (if any) is shown and counts as pulled, so the next
    /// step shows the second.
    pub open spec fn is_start_of(&self, items: Seq<Seq<char>>) -> bool {
        &&& self.items() == items
        &&& self.position() == if items.len() > 0 { 1nat } else { 0nat }
        &&& self.current() == if items.len() > 0 { Some(0nat) } else { None }
    }

    /// Creates the spinner; it shows the first glyph, if there is one.
    pub fn new(items: Vec<String>) -> (r: Self)
        ensures
            r.inv(),
            r.is_start_of(strings_view(items@)),
    {
        if items.len() > 0 {
            FromIter { start: items, pos: 1, frame: Some(0) }
        } else {
            FromIter { start: items, pos: 0, frame: None }
        }
    }
}

impl Frames for FromIter {
    open spec fn inv(&self) -> bool {
        &&& self.position() <= self.items().len()
        &&& self.current() matches Some(i) ==> i < self.items().len()
        &&& self.items().len() == 0 ==> self.current() is None
    }

    open spec fn shown(&self) -> Seq<char> {
        match self.current() {
            Some(i) => self.items()[i as int],
            None => Seq::empty(),
        }
    }

    open spec fn erased(&self) -> Seq<char> {
        Seq::empty()
    }

    open spec fn line_count(&self) -> nat {
        0
    }

    open spec fn known_len(&self) -> Option<nat> {
        None
    }

    open spec fn advanced_from(&self, before: Self) -> bool {
        &&& self.items() == before.items()
        &&& if before.position() < before.items().len() {
            &&& self.current() == Some(before.position())
            &&& self.position() == before.position() + 1
        } else if before.items().len() > 0 {
            &&& self.current() == Some(0nat)
            &&& self.position() == 1
        } else {
            &&& self.current() is None
            &&& self.position() == 0
        }
    }

    open spec fn reset_from(&self, before: Self) -> bool {
        self.is_start_of(before.items())
    }

    fn render(&self) -> (r: String) {
        match self.frame {
            Some(i) => self.start[i].clone(),
            None => String::new(),
        }
    }

    fn advance(&mut self) {
        if self.pos < self.start.len() {
            self.frame = Some(self.pos);
            self.pos = self.pos + 1;
        } else if self.start.len() > 0 {
            self.frame = Some(0);
            self.pos = 1;
        } else {
            self.frame = None;
            self.pos = 0;
        }
    }

    fn reset(&mut self) {
        if self.start.len() > 0 {
            self.pos = 1;
            self.frame = Some(0);
        } else {
            self.pos = 0;
            self.frame = None;
        }
    }

    fn clear(&self) -> (r: String) {
        String::new()
    }

    fn lines(&self) -> (r: usize) {
        0
    }

    fn print_len(&self) -> (r: Option<usize>) {
        None
    }
}

/// Any of the leaf spinners.
pub enum Spinner {
    Empty(Empty),
    Array(FromArray),
    Iter(FromIter),
}

impl Frames for Spinner {
    open spec fn inv(&self) -> bool {
        match self {
            Spinner::Empty(s) => s.inv(),
            Spinner::Array(s) => s.inv(),
            Spinner::Iter(s) => s.inv(),
        }
    }

    open spec fn shown(&self) -> Seq<char> {
        match self {
            Spinner::Empty(s) => s.shown(),
            Spinner::Array(s) => s.shown(),
            Spinner::Iter(s) => s.shown(),
        }
    }

    open spec fn erased(&self) -> Seq<char> {
        Seq::empty()
    }

    open spec fn line_count(&self) -> nat {
        0
    }

    open spec fn known_len(&self) -> Option<nat> {
        match self {
            Spinner::Empty(s) => s.known_len(),
            Spinner::Array(s) => s.known_len(),
            Spinner::Iter(s) => s.known_len(),
        }
    }

    open spec fn advanced_from(&self, before: Self) -> bool {
        match (*self, before) {
            (Spinner::Empty(a), Spinner::Empty(b)) => a.advanced_from(b),
            (Spinner::Array(a), Spinner::Array(b)) => a.advanced_from(b),
            (Spinner::Iter(a), Spinner::Iter(b)) => a.advanced_from(b),
            _ => false,
        }
    }

    open spec fn reset_from(&self, before: Self) -> bool {
        match (*self, before) {
            (Spinner::Empty(a), Spinner::Empty(b)) => a.reset_from(b),
            (Spinner::Array(a), Spinner::Array(b)) => a.reset_from(b),
            (Spinner::Iter(a), Spinner::Iter(b)) => a.reset_from(b),
            _ => false,
        }
    }

    fn render(&self) -> (r: String) {
        match self {
            Spinner::Empty(s) => s.render(),
            Spinner::Array(s) => s.render(),
            Spinner::Iter(s) => s.render(),
        }
    }

    fn advance(&mut self) {
        match self {
            Spinner::Empty(s) => s.advance(),
            Spinner::Array(s) => s.advance(),
            Spinner::Iter(s) => s.advance(),
        }
    }

    fn reset(&mut self) {
        match self {
            Spinner::Empty(s) => s.reset(),
            Spinner::Array(s) => s.reset(),
            Spinner::Iter(s) => s.reset(),
        }
    }

    fn clear(&self) -> (r: String) {
        String::new()
    }

    fn lines(&self) -> (r: usize) {
        0
    }

    fn print_len(&self) -> (r: Option<usize>) {
        match self {
            Spinner::Empty(s) => s.print_len(),
            Spinner::Array(s) => s.print_len(),
            Spinner::Iter(s) => s.print_len(),
        }
    }
}

/// One more step round a cycle of length `n` is one more step modulo `n`.
proof fn lemma_mod_succ(a: nat, n: nat)
    requires
        n > 0,
    ensures
        cycle_next(a % n, n) == (a + 1) % n,
{
    lemma_fundamental_div_mod(a as int, n as int);
    lemma_mod_pos_bound(a as int, n as int);
    let q = (a as int) / (n as int);
    let r = (a as int) % (n as int);
    assert(a + 1 == q * n + r + 1) by (nonlinear_arith)
        requires
            a == n * q + r,
    ;
    if r + 1 < n {
        lemma_fundamental_div_mod_converse((a + 1) as int, n as int, q, r + 1);
    } else {
        assert((q + 1) * n == q * n + n) by (nonlinear_arith);
        lemma_fundamental_div_mod_converse((a + 1) as int, n as int, q + 1, 0);
    }
}

/// After `k` steps a fixed-array spinner has moved `k` places round its
/// cycle.
proof fn lemma_from_array_steps(states: Seq<FromArray>, k: int)
    requires
        0 <= k < states.len(),
        states[0].inv(),
        forall|j: int| 0 < j < states.len() ==> #[trigger] states[j].advanced_from(states[j - 1]),
    ensures
        states[k].glyphs() == states[0].glyphs(),
        states[k].index() == (states[0].index() + k) % (states[0].glyphs().len() as int),
    decreases k,
{
    let n = states[0].glyphs().len();
    if k == 0 {
        lemma_fundamental_div_mod_converse(states[0].index() as int, n as int, 0, states[0].index() as int);
    } else {
        lemma_from_array_steps(states, k - 1);
        assert(states[k].advanced_from(states[k - 1]));
        lemma_mod_succ((states[0].index() + k - 1) as nat, n);
    }
}

/// A fixed-array spinner that is advanced as many times as it has glyphs
/// comes back to the glyph it started from: `states[j]` is
/// `states[j - 1]` advanced once.
pub proof fn lemma_from_array_full_cycle(states: Seq<FromArray>)
    requires
        states.len() > 0,
        states[0].inv(),
        states.len() == states[0].glyphs().len() + 1,
        forall|j: int| 0 < j < states.len() ==> #[trigger] states[j].advanced_from(states[j - 1]),
    ensures
        states.last().glyphs() == states[0].glyphs(),
        states.last().index() == states[0].index(),
{
    let n = states[0].glyphs().len();
    let i0 = states[0].index();
    lemma_from_array_steps(states, n as int);
    lemma_fundamental_div_mod_converse((i0 + n) as int, n as int, 1, i0 as int);
}

/// After `k` steps from its start, a spinner over `n > 0` glyphs shows
/// glyph `k % n` and has pulled one glyph more than that.
proof fn lemma_from_iter_steps(states: Seq<FromIter>, items: Seq<Seq<char>>, k: int)
    requires
        items.len() > 0,
        0 <= k < states.len(),
        states[0].is_start_of(items),
        forall|j: int| 0 < j < states.len() ==> #[trigger] states[j].advanced_from(states[j - 1]),
    ensures
        states[k].items() == items,
        states[k].current() == Some((k % (items.len() as int)) as nat),
        states[k].position() == (k % (items.len() as int)) as nat + 1,
    decreases k,
{
    let n = items.len();
    if k == 0 {
        lemma_fundamental_div_mod_converse(0, n as int, 0, 0);
    } else {
        assert(states[k].advanced_from(states[k - 1]));
        lemma_from_iter_steps(states, items, k - 1);
        lemma_mod_succ((k - 1) as nat, n);
        lemma_fundamental_div_mod((k - 1) as int, n as int);
        lemma_mod_pos_bound((k - 1) as int, n as int);
    }
}

/// A spinner over `n > 0` glyphs that has been advanced `k` times from its
/// start shows glyph `k % n`: each step shows the next glyph, and once the
/// glyphs run out it shows them again from the first, without stalling.
/// `states[j]` is `states[j - 1]` advanced once.
pub proof fn lemma_from_iter_repeats(states: Seq<FromIter>, items: Seq<Seq<char>>)
    requires
        items.len() > 0,
        states.len() > 0,
        states[0].is_start_of(items),
        forall|j: int| 0 < j < states.len() ==> #[trigger] states[j].advanced_from(states[j - 1]),
    ensures
        forall|k: int| 0 <= k < states.len() ==> #[trigger] states[k].current() == Some((k % (items.len() as int)) as nat),
        forall|k: int| 0 <= k < states.len() ==> #[trigger] states[k].shown() == items[k % (items.len() as int)],
        forall|k: int| 0 <= k && k + items.len() < states.len() ==> #[trigger] states[k + items.len()].shown() == states[k].shown(),
{
    let n = items.len();
    assert forall|k: int| 0 <= k < states.len() implies #[trigger] states[k].current() == Some((k % (items.len() as int)) as nat) by {
        lemma_from_iter_steps(states, items, k);
    }
    assert forall|k: int| 0 <= k < states.len() implies #[trigger] states[k].shown() == items[k % (items.len() as int)] by {
        lemma_from_iter_steps(states, items, k);
    }
    assert forall|k: int| 0 <= k && k + items.len() < states.len() implies #[trigger] states[k + items.len()].shown() == states[k].shown() by {
        let m = k + n;
        lemma_from_iter_steps(states, items, k);
        lemma_from_iter_steps(states, items, m);
        lemma_fundamental_div_mod(k, n as int);
        lemma_mod_pos_bound(k, n as int);
        let q = k / (n as int);
        let r = k % (n as int);
        assert(m == (q + 1) * n + r) by (nonlinear_arith)
            requires
                k == n * q + r,
                m == k + n,
        ;
        lemma_fundamental_div_mod_converse(m, n as int, k / (n as int) + 1, k % (n as int));
    }
}

} // verus!
