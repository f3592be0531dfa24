//! The two-click wall drawing tool with chaining: each click after the first
//! ends a wall and starts the next one there.
//!
//! `P` is a canvas position and `R` what snapping found under the cursor;
//! both are measured by the canvas and only carried here.
use vstd::prelude::*;

verus! {

/// Where the wall tool is in drawing a wall.
#[derive(Debug, Clone)]
pub enum WallToolState<P> {
    /// Waiting for the first point.
    Idle,
    /// The first point is placed; the next click ends the wall.
    Drawing { start: P },
}

/// The wall tool's state between frames.
#[derive(Debug, Clone)]
pub struct WallTool<P, R> {
    pub state: WallToolState<P>,
    /// The snapped cursor position, for the preview.
    pub preview_end: Option<P>,
    /// The first point of the current chain, to detect a closed contour.
    pub chain_start: Option<P>,
    /// The newest snap result, to attach the wall's end to another wall.
    pub last_snap: Option<R>,
    /// The snap result of the click that started the current wall.
    pub start_snap: Option<R>,
    /// The snap result of the click that started the chain.
    pub chain_start_snap: Option<R>,
}

/// The tool at rest: idle, with no chain, preview or snap.
pub open spec fn is_idle<P, R>(t: WallTool<P, R>) -> bool {
    &&& t.state is Idle
    &&& t.preview_end is None
    &&& t.chain_start is None
    &&& t.last_snap is None
    &&& t.start_snap is None
    &&& t.chain_start_snap is None
}

impl<P, R> WallTool<P, R> {
    /// A tool at rest.
    pub fn new() -> (r: Self)
        ensures
            is_idle(r),
    {
        WallTool {
            state: WallToolState::Idle,
            preview_end: None,
            chain_start: None,
            last_snap: None,
            start_snap: None,
            chain_start_snap: None,
        }
    }

    /// Back to rest, dropping the chain.
    pub fn reset(&mut self)
        ensures
            is_idle(*final(self)),
    {
        self.state = WallToolState::Idle;
        self.preview_end = None;
        self.chain_start = None;
        self.last_snap = None;
        self.start_snap = None;
        self.chain_start_snap = None;
    }

    /// Continues the chain from `point`: the next wall starts there; the
    /// chain keeps its first point.
    pub fn chain_from(&mut self, point: P)
        ensures
            final(self).state == (WallToolState::Drawing { start: point }),
            final(self).preview_end == old(self).preview_end,
            final(self).chain_start == old(self).chain_start,
            final(self).last_snap == old(self).last_snap,
            final(self).start_snap == old(self).start_snap,
            final(self).chain_start_snap == old(self).chain_start_snap,
    {
        self.state = WallToolState::Drawing { start: point };
    }
}

impl<P, R> Default for WallTool<P, R> {
    /// A tool at rest.
    fn default() -> (r: Self)
        ensures
            is_idle(r),
    {
        WallTool::new()
    }
}

} // verus!
