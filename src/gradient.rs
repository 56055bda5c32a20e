use vstd::prelude::*;

verus! {

/// The abstract state of a [`Gradient`]: its input and the half-open range
/// `[start, end)` of the window it stands on, of width `width`.
pub struct GradientView<G> {
    pub input: Seq<G>,
    pub start: nat,
    pub end: nat,
    pub width: nat,
    pub max_width: Option<nat>,
}

impl<G> GradientView<G> {
    /// The state of a fresh gradient over `input`, with an optional maximum
    /// width: no window produced yet.
    pub open spec fn initial(input: Seq<G>, max_width: Option<nat>) -> GradientView<G> {
        GradientView { input, start: 0, end: 0, width: 1, max_width }
    }

    pub open spec fn len(self) -> nat {
        self.input.len()
    }

    /// Nothing is left to produce: the input is empty, or the single window
    /// of full width has been reached.
    pub open spec fn finished(self) -> bool {
        self.len() == 0 || (self.end == self.len() && self.width == self.len())
    }

    /// Whether windows of width `w` lie within the configured maximum.
    pub open spec fn allows(self, w: nat) -> bool {
        match self.max_width {
            Some(m) => w <= m,
            None => true,
        }
    }

    /// The state after one advance: the window one step to the right at the
    /// same width, or, once a pass has reached the right edge, the leftmost
    /// window one wider. A finished state stays as it is.
    pub open spec fn advanced(self) -> GradientView<G> {
        if self.finished() {
            self
        } else if self.end < self.len() {
            let s = (self.end + 1 - self.width) as nat;
            GradientView { start: s, end: s + self.width, ..self }
        } else {
            let w = self.width + 1;
            GradientView { start: 0, end: w, width: w, ..self }
        }
    }

    /// Whether an advance from this state produces a window.
    pub open spec fn yields(self) -> bool {
        !self.finished() && self.allows(self.advanced().width)
    }

    /// The elements of the current window.
    pub open spec fn window(self) -> Seq<G> {
        self.input.subrange(self.start as int, self.end as int)
    }
}

/// A cursor that produces every contiguous window of its owned input, all
/// windows of one width from left to right before any wider one.
#[derive(Debug, PartialEq, Eq, PartialOrd, Ord, Hash)]
pub struct Gradient<G> {
    input: Vec<G>,
    at: Cursor,
    max_width: Option<usize>,
}

/// The position of a gradient: the window `[start, end)` of `width`
/// elements, and whether the pass at this width has not yet reached the
/// right edge.
#[derive(Clone, Copy, Debug, PartialEq, Eq, PartialOrd, Ord, Hash)]
struct Cursor {
    start: usize,
    end: usize,
    width: usize,
    wide: bool,
}

impl<G> View for Gradient<G> {
    type V = GradientView<G>;

    closed spec fn view(&self) -> GradientView<G> {
        GradientView {
            input: self.input@,
            start: self.at.start as nat,
            end: self.at.end as nat,
            width: self.at.width as nat,
            max_width: match self.max_width {
                Some(m) => Some(m as nat),
                None => None,
            },
        }
    }
}

impl<G> Gradient<G> {
    /// Either nothing has been produced yet, or `[start, end)` is a window of
    /// `width` elements and `wide` says that the pass at this width goes on.
    #[verifier::type_invariant]
    spec fn inv(self) -> bool {
        let c = self.at;
        &&& 1 <= c.width
        &&& c.end <= self.input.len()
        &&& if c.end == 0 {
            c.start == 0 && c.width == 1 && c.wide
        } else {
            &&& c.width <= c.end
            &&& c.start == c.end - c.width
            &&& c.wide == (c.end < self.input.len())
        }
    }

    /// Takes ownership of `s`; the gradient starts before its first window.
    pub fn new(s: Vec<G>) -> (r: Gradient<G>)
        ensures
            r@ == GradientView::initial(s@, None),
    {
        Gradient {
            input: s,
            at: Cursor { start: 0, end: 0, width: 1, wide: true },
            max_width: None,
        }
    }

    /// The same gradient, at the same position, producing no window wider
    /// than `width`.
    pub fn with_max_width(self, width: usize) -> (r: Gradient<G>)
        ensures
            r@ == (GradientView { max_width: Some(width as nat), ..self@ }),
    {
        proof {
            use_type_invariant(&self);
        }
        Gradient { max_width: Some(width), ..self }
    }

    /// Advances to the next window and returns its elements, or returns
    /// `None` once the gradient is exhausted or the next window is wider than
    /// the maximum. The window borrows from the gradient until the next call.
    pub fn next(&mut self) -> (r: Option<&[G]>)
        ensures
            final(self)@ == old(self)@.advanced(),
            r is Some <==> old(self)@.yields(),
            r matches Some(w) ==> w@ == final(self)@.window(),
            final(self)@.width >= old(self)@.width,
            r is Some ==> {
                &&& final(self)@.end - final(self)@.start == final(self)@.width
                &&& final(self)@.end <= final(self)@.len()
                &&& final(self)@.allows(final(self)@.width)
            },
    {
        if self.finished() {
            return None;
        }
        proof {
            use_type_invariant(&*self);
        }
        let c = self.at;
        let len = self.input.len();
        self.at = if c.wide {
            let end = c.end + 1;
            Cursor { start: end - c.width, end, width: c.width, wide: end < len }
        } else {
            let width = c.width + 1;
            Cursor { start: 0, end: width, width, wide: width < len }
        };
        if let Some(max_width) = self.max_width {
            if self.at.width > max_width {
                return None;
            }
        }
        Some(self.window())
    }

    /// Whether nothing is left to produce: the input is empty, or the window
    /// of full width has been produced.
    pub fn finished(&self) -> (r: bool)
        ensures
            r == self@.finished(),
    {
        if self.len() == 0 {
            return true;
        }
        self.at.end == self.len() && self.at.width == self.len()
    }

    /// The elements of the current window; empty before the first advance.
    pub fn window(&self) -> (r: &[G])
        ensures
            r@ == self@.window(),
    {
        proof {
            use_type_invariant(self);
        }
        vstd::slice::slice_subrange(self.input.as_slice(), self.at.start, self.at.end)
    }

    /// The width of the current pass.
    pub fn width(&self) -> (r: usize)
        ensures
            r == self@.width,
    {
        self.at.width
    }

    /// The first offset of the current window.
    pub fn start(&self) -> (r: usize)
        ensures
            r == self@.start,
    {
        self.at.start
    }

    /// The offset one past the last element of the current window.
    pub fn end(&self) -> (r: usize)
        ensures
            r == self@.end,
    {
        self.at.end
    }

    /// The current window as a half-open range of offsets into the input.
    pub fn range(&self) -> (r: core::ops::Range<usize>)
        ensures
            r.start == self@.start,
            r.end == self@.end,
    {
        self.at.start..self.at.end
    }

    /// The number of elements of the whole input.
    pub fn len(&self) -> (r: usize)
        ensures
            r == self@.len(),
    {
        self.input.len()
    }
}

impl<G: Clone> Gradient<G> {
    /// A copy of the whole input, element by element.
    pub fn input(&self) -> (r: Vec<G>)
        ensures
            r@.len() == self@.input.len(),
            forall|i: int| 0 <= i < r@.len() ==> cloned::<G>(self@.input[i], r@[i]),
    {
        self.input.clone()
    }
}

impl<G: Clone> Clone for Gradient<G> {
    /// A gradient at the same position and with the same maximum, over a
    /// clone of each element of the input.
    fn clone(&self) -> (r: Gradient<G>)
        ensures
            r@.input.len() == self@.input.len(),
            forall|i: int| 0 <= i < r@.input.len() ==> cloned::<G>(self@.input[i], r@.input[i]),
            r@.start == self@.start,
            r@.end == self@.end,
            r@.width == self@.width,
            r@.max_width == self@.max_width,
    {
        proof {
            use_type_invariant(self);
        }
        Gradient {
            input: self.input.clone(),
            at: self.at,
            max_width: self.max_width,
        }
    }
}

} // verus!
