//! The piece that a drawing surface drives once per frame.

use crate::matrix::{column_cell, Matrix};
use vstd::prelude::*;

verus! {

/// Holds the function that turns what a cell shows into a cell of the
/// drawing surface.
#[verifier::reject_recursive_types(T)]
pub struct MatrixWidget<F, T> where F: FnMut(Option<u16>) -> T {
    f: F,
}

impl<F, T> MatrixWidget<F, T> where F: FnMut(Option<u16>) -> T {
    /// The function that the widget was made with.
    pub closed spec fn painter(self) -> F {
        self.f
    }

    /// A widget that paints with `f`.
    pub fn new(f: F) -> (widget: Self)
        ensures
            widget.painter() == f,
    {
        Self { f }
    }
}

impl<F, T> MatrixWidget<F, T> where F: FnMut(Option<u16>) -> T, T: Default + Clone {
    /// One frame: brings `state` to `width` columns and `height` rows, then
    /// ticks it with the widget's function. The cells are left in the map of
    /// `state` for the surface to take.
    pub fn advance(self, width: u16, height: u16, state: &mut Matrix<T>)
        requires
            old(state).wf(),
            forall|shown: Option<u16>| self.painter().requires((shown,)),
        ensures
            final(state).wf(),
            final(state)@.width == width,
            final(state)@.height == height,
            final(state)@.same_tuning(old(state)@),
            forall|col: int|
                0 <= col < width ==> old(state)@.sized(width as int, height as int).ticked(
                    old(state)@.sized(width as int, height as int).strains[col],
                    #[trigger] final(state)@.strains[col],
                ),
            forall|row: int, col: int|
                0 <= row < height && 0 <= col < width ==> self.painter().ensures(
                    (column_cell(final(state)@.strains[col], height as int, row),),
                    #[trigger] final(state)@.map[row][col],
                ),
            old(state)@.sized(width as int, height as int).all_held() && old(state)@.sized(
                width as int,
                height as int,
            ).none_dies() ==> final(state).generator() == old(state).generator(),
    {
        assert(self.painter() == self.f);
        state.notify_size(width, height);
        state.tick(self.f);
    }
}

} // verus!
