//! The annotations drawn on a screenshot, with undo and redo.
//!
//! Numbered markers count 1, 2, 3, ...: the counter follows the markers that
//! are undone and redone.

use vstd::prelude::*;

verus! {

/// What the history holds: the shapes drawn, the shapes undone (last undone
/// at the end), which of each are numbered markers, and the last number given.
#[verifier::ext_equal]
pub struct HistoryView<S> {
    pub shapes: Seq<S>,
    pub numbered: Seq<bool>,
    pub undone: Seq<S>,
    pub undone_numbered: Seq<bool>,
    pub counter: nat,
}

/// The state after undo: the last shape moves to the undone list; undoing a
/// numbered marker gives its number back (not below zero).
pub open spec fn undo_view<S>(h: HistoryView<S>) -> HistoryView<S> {
    if h.shapes.len() == 0 {
        h
    } else {
        let numbered = h.numbered.last();
        HistoryView {
            shapes: h.shapes.drop_last(),
            numbered: h.numbered.drop_last(),
            undone: h.undone.push(h.shapes.last()),
            undone_numbered: h.undone_numbered.push(numbered),
            counter: if numbered && h.counter > 0 {
                (h.counter - 1) as nat
            } else {
                h.counter
            },
        }
    }
}

/// The state after redo: the last undone shape comes back; a numbered marker
/// takes its number again.
pub open spec fn redo_view<S>(h: HistoryView<S>) -> HistoryView<S> {
    if h.undone.len() == 0 {
        h
    } else {
        let numbered = h.undone_numbered.last();
        HistoryView {
            shapes: h.shapes.push(h.undone.last()),
            numbered: h.numbered.push(numbered),
            undone: h.undone.drop_last(),
            undone_numbered: h.undone_numbered.drop_last(),
            counter: if numbered {
                h.counter + 1
            } else {
                h.counter
            },
        }
    }
}

/// The state after drawing `s`: it is added, and nothing is left to redo.
pub open spec fn push_view<S>(h: HistoryView<S>, s: S, numbered: bool) -> HistoryView<S> {
    HistoryView {
        shapes: h.shapes.push(s),
        numbered: h.numbered.push(numbered),
        undone: Seq::empty(),
        undone_numbered: Seq::empty(),
        counter: h.counter,
    }
}

/// The shapes of a screenshot with their undo history.
pub struct Annotations<S> {
    shapes: Vec<S>,
    numbered: Vec<bool>,
    undone: Vec<S>,
    undone_numbered: Vec<bool>,
    counter: u32,
}

impl<S> View for Annotations<S> {
    type V = HistoryView<S>;

    closed spec fn view(&self) -> HistoryView<S> {
        HistoryView {
            shapes: self.shapes@,
            numbered: self.numbered@,
            undone: self.undone@,
            undone_numbered: self.undone_numbered@,
            counter: self.counter as nat,
        }
    }
}

impl<S> Annotations<S> {
    /// Each shape and each undone shape has its flag.
    pub open spec fn wf(&self) -> bool {
        &&& self@.shapes.len() == self@.numbered.len()
        &&& self@.undone.len() == self@.undone_numbered.len()
    }

    pub fn new() -> (r: Self)
        ensures
            r.wf(),
            r@.shapes.len() == 0,
            r@.numbered.len() == 0,
            r@.undone.len() == 0,
            r@.undone_numbered.len() == 0,
            r@.counter == 0,
    {
        Annotations {
            shapes: Vec::new(),
            numbered: Vec::new(),
            undone: Vec::new(),
            undone_numbered: Vec::new(),
            counter: 0,
        }
    }

    /// The shapes, oldest first.
    pub fn shapes(&self) -> (r: &Vec<S>)
        ensures
            r@ == self@.shapes,
    {
        &self.shapes
    }

    pub fn len(&self) -> (r: usize)
        ensures
            r == self@.shapes.len(),
    {
        self.shapes.len()
    }

    /// The last number given to a marker.
    pub fn counter(&self) -> (r: u32)
        ensures
            r == self@.counter,
    {
        self.counter
    }

    /// Takes the next marker number (the counter goes up by one).
    pub fn next_number(&mut self) -> (r: u32)
        requires
            old(self).wf(),
            old(self)@.counter < u32::MAX,
        ensures
            final(self).wf(),
            r == old(self)@.counter + 1,
            final(self)@ == (HistoryView { counter: r as nat, ..old(self)@ }),
    {
        self.counter = self.counter + 1;
        self.counter
    }

    /// Adds a shape; what was undone can no longer be redone.
    pub fn push(&mut self, s: S, numbered: bool)
        requires
            old(self).wf(),
        ensures
            final(self).wf(),
            final(self)@ == push_view(old(self)@, s, numbered),
    {
        self.shapes.push(s);
        self.numbered.push(numbered);
        self.undone.clear();
        self.undone_numbered.clear();
    }

    /// Removes the shape at `i` (an abandoned text, a stroke too small to keep).
    pub fn remove(&mut self, i: usize) -> (r: S)
        requires
            old(self).wf(),
            i < old(self)@.shapes.len(),
        ensures
            final(self).wf(),
            r == old(self)@.shapes[i as int],
            final(self)@ == (HistoryView {
                shapes: old(self)@.shapes.remove(i as int),
                numbered: old(self)@.numbered.remove(i as int),
                ..old(self)@
            }),
    {
        self.numbered.remove(i);
        self.shapes.remove(i)
    }

    /// The shape at `i`.
    pub fn get(&self, i: usize) -> (r: &S)
        requires
            i < self@.shapes.len(),
        ensures
            *r == self@.shapes[i as int],
    {
        &self.shapes[i]
    }

    /// Replaces the shape at `i` (while it is being drawn or typed), giving back the old one.
    pub fn replace(&mut self, i: usize, s: S) -> (r: S)
        requires
            old(self).wf(),
            i < old(self)@.shapes.len(),
        ensures
            final(self).wf(),
            r == old(self)@.shapes[i as int],
            final(self)@ == (HistoryView { shapes: old(self)@.shapes.update(i as int, s), ..old(self)@ }),
    {
        let mut s = s;
        std::mem::swap(&mut s, &mut self.shapes[i]);
        s
    }

    /// Undoes the last shape, if any.
    pub fn undo(&mut self)
        requires
            old(self).wf(),
        ensures
            final(self).wf(),
            final(self)@ == undo_view(old(self)@),
    {
        match self.shapes.pop() {
            None => {},
            Some(s) => {
                let numbered = match self.numbered.pop() {
                    Some(b) => b,
                    None => false,
                };
                if numbered {
                    self.counter = self.counter.saturating_sub(1);
                }
                self.undone.push(s);
                self.undone_numbered.push(numbered);
            },
        }
    }

    /// Whether the shape redo would bring back is a numbered marker.
    pub fn redo_is_numbered(&self) -> (r: bool)
        requires
            self.wf(),
        ensures
            r == (self@.undone_numbered.len() > 0 && self@.undone_numbered.last()),
    {
        let n = self.undone_numbered.len();
        n > 0 && self.undone_numbered[n - 1]
    }

    /// Brings back the last undone shape, if any.
    pub fn redo(&mut self)
        requires
            old(self).wf(),
            old(self)@.undone_numbered.len() > 0 && old(self)@.undone_numbered.last() ==> old(
                self,
            )@.counter < u32::MAX,
        ensures
            final(self).wf(),
            final(self)@ == redo_view(old(self)@),
    {
        match self.undone.pop() {
            None => {},
            Some(s) => {
                let numbered = match self.undone_numbered.pop() {
                    Some(b) => b,
                    None => false,
                };
                if numbered {
                    self.counter = self.counter + 1;
                }
                self.shapes.push(s);
                self.numbered.push(numbered);
            },
        }
    }
}

/// With a shape to undo, redo gives back exactly what undo took, unless the
/// undone marker's number could not be given back because the counter was
/// already at zero.
pub proof fn lemma_redo_undoes_undo<S>(h: HistoryView<S>)
    requires
        h.shapes.len() == h.numbered.len(),
        h.undone.len() == h.undone_numbered.len(),
        h.shapes.len() > 0,
        h.numbered.last() ==> h.counter > 0,
    ensures
        redo_view(undo_view(h)) == h,
{
    if h.shapes.len() > 0 {
        assert(redo_view(undo_view(h)).shapes =~= h.shapes);
        assert(redo_view(undo_view(h)).numbered =~= h.numbered);
        assert(redo_view(undo_view(h)).undone =~= h.undone);
        assert(redo_view(undo_view(h)).undone_numbered =~= h.undone_numbered);
        assert(redo_view(undo_view(h)) =~= h);
    }
}

/// With a shape to redo, undo takes back exactly what redo brought.
pub proof fn lemma_undo_undoes_redo<S>(h: HistoryView<S>)
    requires
        h.shapes.len() == h.numbered.len(),
        h.undone.len() == h.undone_numbered.len(),
        h.undone.len() > 0,
    ensures
        undo_view(redo_view(h)) == h,
{
    if h.undone.len() > 0 {
        assert(undo_view(redo_view(h)).shapes =~= h.shapes);
        assert(undo_view(redo_view(h)).numbered =~= h.numbered);
        assert(undo_view(redo_view(h)).undone =~= h.undone);
        assert(undo_view(redo_view(h)).undone_numbered =~= h.undone_numbered);
        assert(undo_view(redo_view(h)) =~= h);
    }
}

/// Undo loses no stroke: the shapes, followed by the undone list with the most
/// recently undone first, are the same before and after.
pub proof fn lemma_undo_keeps_strokes<S>(h: HistoryView<S>)
    requires
        h.shapes.len() == h.numbered.len(),
    ensures
        undo_view(h).shapes + undo_view(h).undone.reverse() == h.shapes + h.undone.reverse(),
{
    if h.shapes.len() > 0 {
        let u = undo_view(h);
        assert(u.undone.reverse() =~= seq![h.shapes.last()] + h.undone.reverse());
        assert(u.shapes + u.undone.reverse() =~= h.shapes + h.undone.reverse());
    }
}

/// Drawing after an undo drops what could have been redone.
pub proof fn lemma_push_clears_redo<S>(h: HistoryView<S>, s: S, numbered: bool)
    ensures
        redo_view(push_view(h, s, numbered)) == push_view(h, s, numbered),
{
}

/// Undoing a numbered marker gives its number back: the next marker placed
/// takes that number again.
pub proof fn lemma_undo_frees_number<S>(h: HistoryView<S>)
    requires
        h.shapes.len() == h.numbered.len(),
        h.shapes.len() > 0,
        h.numbered.last(),
        h.counter > 0,
    ensures
        undo_view(h).counter + 1 == h.counter,
{
}

/// Moving the last item of `a` onto the end of `b` leaves `a` followed by
/// `b` reversed as it was.
proof fn lemma_move_last<T>(a: Seq<T>, b: Seq<T>)
    requires
        a.len() > 0,
    ensures
        a.drop_last() + b.push(a.last()).reverse() == a + b.reverse(),
{
    assert(b.push(a.last()).reverse() =~= seq![a.last()] + b.reverse());
    assert(a.drop_last() + b.push(a.last()).reverse() =~= a + b.reverse());
}

/// How many of the flags are set.
pub open spec fn count_set(f: Seq<bool>) -> nat
    decreases f.len(),
{
    if f.len() == 0 {
        0
    } else {
        count_set(f.drop_last()) + if f.last() {
            1nat
        } else {
            0nat
        }
    }
}

/// Every shape drawn, then those undone, in the order they were drawn.
pub open spec fn strokes<S>(h: HistoryView<S>) -> Seq<S> {
    h.shapes + h.undone.reverse()
}

/// Which of [`strokes`] are numbered markers.
pub open spec fn stroke_flags<S>(h: HistoryView<S>) -> Seq<bool> {
    h.numbered + h.undone_numbered.reverse()
}

/// The markers carry the numbers 1, 2, 3, ... in the order they were drawn
/// (`num` reads a marker's number), undone ones included, and the counter is
/// the number of markers drawn and not undone.
pub open spec fn numbered_in_order<S>(h: HistoryView<S>, num: spec_fn(S) -> nat) -> bool {
    &&& h.shapes.len() == h.numbered.len()
    &&& h.undone.len() == h.undone_numbered.len()
    &&& count_set(h.numbered) == h.counter
    &&& forall|j: int|
        0 <= j < strokes(h).len() && stroke_flags(h)[j] ==> num(#[trigger] strokes(h)[j])
            == count_set(stroke_flags(h).take(j)) + 1
}

/// Placing a marker: the next number is taken, then the marker is drawn.
pub open spec fn place_marker_view<S>(h: HistoryView<S>, s: S) -> HistoryView<S> {
    push_view(HistoryView { counter: h.counter + 1, ..h }, s, true)
}

/// A fresh history has its markers in order.
pub proof fn lemma_numbering_starts<S>(h: HistoryView<S>, num: spec_fn(S) -> nat)
    requires
        h.shapes.len() == 0,
        h.numbered.len() == 0,
        h.undone.len() == 0,
        h.undone_numbered.len() == 0,
        h.counter == 0,
    ensures
        numbered_in_order(h, num),
{
    assert(strokes(h).len() == 0);
}

/// Undo keeps the markers numbered 1, 2, 3, ... with the counter on the last
/// one left.
pub proof fn lemma_undo_keeps_numbering<S>(h: HistoryView<S>, num: spec_fn(S) -> nat)
    requires
        numbered_in_order(h, num),
    ensures
        numbered_in_order(undo_view(h), num),
{
    if h.shapes.len() > 0 {
        let u = undo_view(h);
        lemma_move_last(h.shapes, h.undone);
        lemma_move_last(h.numbered, h.undone_numbered);
        assert(strokes(u) == strokes(h));
        assert(stroke_flags(u) == stroke_flags(h));
    }
}

/// Redo keeps the markers numbered 1, 2, 3, ... with the counter on the last
/// one drawn.
pub proof fn lemma_redo_keeps_numbering<S>(h: HistoryView<S>, num: spec_fn(S) -> nat)
    requires
        numbered_in_order(h, num),
    ensures
        numbered_in_order(redo_view(h), num),
{
    if h.undone.len() > 0 {
        let r = redo_view(h);
        lemma_move_last(r.shapes, r.undone);
        lemma_move_last(r.numbered, r.undone_numbered);
        assert(r.shapes.drop_last() =~= h.shapes);
        assert(r.undone.push(r.shapes.last()) =~= h.undone);
        assert(r.numbered.drop_last() =~= h.numbered);
        assert(r.undone_numbered.push(r.numbered.last()) =~= h.undone_numbered);
        assert(strokes(r) == strokes(h));
        assert(stroke_flags(r) == stroke_flags(h));
        assert(r.numbered.drop_last() == h.numbered);
    }
}

/// Drawing a shape that is not a marker keeps the numbering.
pub proof fn lemma_push_keeps_numbering<S>(h: HistoryView<S>, s: S, num: spec_fn(S) -> nat)
    requires
        numbered_in_order(h, num),
    ensures
        numbered_in_order(push_view(h, s, false), num),
{
    let p = push_view(h, s, false);
    assert(strokes(p) =~= h.shapes.push(s));
    assert(stroke_flags(p) =~= h.numbered.push(false));
    assert(p.numbered.drop_last() =~= h.numbered);
    assert forall|j: int|
        0 <= j < strokes(p).len() && stroke_flags(p)[j] implies num(#[trigger] strokes(p)[j])
        == count_set(stroke_flags(p).take(j)) + 1 by {
        assert(j < h.shapes.len());
        assert(strokes(p)[j] == strokes(h)[j]);
        assert(stroke_flags(p).take(j) =~= stroke_flags(h).take(j));
    }
}

/// A marker placed with the number the counter gave it keeps the markers
/// numbered 1, 2, 3, ... in drawing order.
pub proof fn lemma_marker_keeps_numbering<S>(h: HistoryView<S>, s: S, num: spec_fn(S) -> nat)
    requires
        numbered_in_order(h, num),
        num(s) == h.counter + 1,
    ensures
        numbered_in_order(place_marker_view(h, s), num),
{
    let p = place_marker_view(h, s);
    assert(strokes(p) =~= h.shapes.push(s));
    assert(stroke_flags(p) =~= h.numbered.push(true));
    assert(p.numbered.drop_last() =~= h.numbered);
    assert forall|j: int|
        0 <= j < strokes(p).len() && stroke_flags(p)[j] implies num(#[trigger] strokes(p)[j])
        == count_set(stroke_flags(p).take(j)) + 1 by {
        if j < h.shapes.len() {
            assert(strokes(p)[j] == strokes(h)[j]);
            assert(stroke_flags(p).take(j) =~= stroke_flags(h).take(j));
        } else {
            assert(stroke_flags(p).take(j) =~= h.numbered);
        }
    }
}

/// With the markers in order, undo then redo gives back exactly the history
/// there was.
pub proof fn lemma_undo_redo_restores<S>(h: HistoryView<S>, num: spec_fn(S) -> nat)
    requires
        numbered_in_order(h, num),
        h.shapes.len() > 0,
    ensures
        redo_view(undo_view(h)) == h,
{
    assert(h.numbered.drop_last() + seq![h.numbered.last()] =~= h.numbered);
    lemma_redo_undoes_undo(h);
}

} // verus!
