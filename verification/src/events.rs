//! Pure decision logic of the render loop.
//!
//! The loop outside the library polls the windowing system for input and
//! hands the drained events here as plain values.  The only decision the
//! loop ever takes from input is whether to stop: a window-close request or
//! a press of the Escape key ends the run, everything else is ignored.

use vstd::prelude::*;
use crate::sim::{State, CellRect, grid_rects, next_grid, live_count};

verus! {

/// A key press, reduced to what the loop distinguishes: Escape or anything
/// else.
#[derive(Clone, Copy, PartialEq, Eq, Structural, Debug)]
pub enum KeyPress {
    Escape,
    Other,
}

/// An input event, reduced to what the loop distinguishes.  A key-down
/// event may arrive without a resolved keycode, hence the `Option`.
#[derive(Clone, Copy, PartialEq, Eq, Structural, Debug)]
pub enum LoopEvent {
    Quit,
    KeyDown { keycode: Option<KeyPress> },
    Other,
}

/// Whether a single event ends the run: a quit signal, or Escape going down.
pub open spec fn ends_run(e: LoopEvent) -> bool {
    e == LoopEvent::Quit || e == (LoopEvent::KeyDown { keycode: Some(KeyPress::Escape) })
}

/// Whether some event of a drained batch ends the run.
pub open spec fn any_ends_run(evs: Seq<LoopEvent>) -> bool {
    exists|k: int| 0 <= k < evs.len() && ends_run(evs[k])
}

/// Decide from one drained batch of events whether the loop terminates.
///
/// True exactly when some event in the batch is a quit signal or an Escape
/// key-down; every other event kind and key is ignored.
pub fn should_terminate(events: &Vec<LoopEvent>) -> (r: bool)
    ensures
        r == any_ends_run(events@),
{
    let mut idx: usize = 0;
    while idx < events.len()
        invariant
            0 <= idx <= events@.len(),
            forall|k: int| 0 <= k < idx ==> !ends_run(events@[k]),
        decreases events@.len() - idx,
    {
        let e = events[idx];
        match e {
            LoopEvent::Quit => {
                return true;
            }
            LoopEvent::KeyDown { keycode: Some(KeyPress::Escape) } => {
                return true;
            }
            _ => {}
        }
        idx = idx + 1;
    }
    false
}

/// One iteration of the run loop, after the events have been drained.
///
/// If some drained event ends the run, nothing happens: no rectangles are
/// produced for drawing and the simulation state is left exactly as it
/// was — no generation change is observable once termination is decided.
/// Otherwise the rectangles of the current generation are returned for
/// drawing and the simulation advances by one generation.
pub fn frame_step(state: &mut State, events: &Vec<LoopEvent>) -> (r: Option<Vec<CellRect>>)
    requires
        old(state).wf(),
        old(state).width <= i32::MAX,
        old(state).height <= i32::MAX,
    ensures
        any_ends_run(events@) ==> r is None && *final(state) == *old(state),
        !any_ends_run(events@) ==> {
            &&& r matches Some(rects) && rects@ == grid_rects(
                old(state).grid(),
                old(state).cell_size as int,
            )
            &&& final(state).wf()
            &&& final(state).grid() == next_grid(old(state).grid())
            &&& final(state).cell_count == live_count(final(state).grid())
            &&& final(state).width == old(state).width
            &&& final(state).height == old(state).height
            &&& final(state).cell_size == old(state).cell_size
        },
{
    if should_terminate(events) {
        None
    } else {
        let rects = state.get_cell_rects();
        state.next();
        Some(rects)
    }
}

} // verus!
