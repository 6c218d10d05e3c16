//! The estimator's data types: the sampling cursor, the per-line extrema
//! accumulator, the per-side coordinate lists, and the resulting rectangle.

use vstd::prelude::*;
use crate::median::{lower_median, sort_seq, lemma_sort_seq_props, sort_vec};

verus! {

/// The estimated crop rectangle, in pixel units.
#[derive(Clone, Copy, Debug, PartialEq, Eq, Structural)]
pub struct BoundingBox {
    pub x: u32,
    pub y: u32,
    pub width: u32,
    pub height: u32,
}

/// Why an estimate could not be produced.
#[derive(Clone, Copy, Debug, PartialEq, Eq, Structural)]
pub enum EstimationError {
    /// An axis's sampling step came out as zero: the image is shorter than
    /// two hundred pixels along that axis, so the `/200` scheme cannot place
    /// any sample.
    DegenerateStepSize,
    /// A side's coordinate list was empty at reduction time: no sampled line
    /// observed an edge on that axis.
    EmptyAccumulation,
    /// The reduced medians are out of order: the right or bottom median lies
    /// strictly before the left or top one, so the rectangle would have a
    /// negative extent.
    InvalidRectangle,
}

/// A bounded stepping cursor over one axis.  Starting at `50 * step_size` and
/// stopping at `150 * step_size`, it walks exactly the central half of an
/// axis of length at least `200 * step_size`.
pub struct Counter {
    pub step_size: u32,
    pub position: u32,
    pub limit: u32,
}

/// The first and last edge coordinates seen along one scanned line.  A value
/// of zero is the sentinel for "not observed": a line whose only edge sits at
/// coordinate zero is indistinguishable from a line with no edge at all.
pub struct EdgePoints {
    pub left: u32,
    pub right: u32,
    pub top: u32,
    pub bottom: u32,
}

/// Four growable coordinate lists, one per rectangle side.
pub struct Edges {
    pub north: Vec<u32>,
    pub south: Vec<u32>,
    pub east: Vec<u32>,
    pub west: Vec<u32>,
}

impl Counter {
    /// The cursor's structural invariant: a positive step, and the limit at
    /// one hundred fifty steps.
    pub open spec fn wf(self) -> bool {
        &&& self.step_size >= 1
        &&& self.limit == 150 * self.step_size
    }

    /// Builds a cursor over an axis: the walk starts a quarter of the way in
    /// and the limit sits at three quarters.
    pub fn new(step: u32) -> (c: Counter)
        requires
            1 <= step,
            150 * step <= u32::MAX,
        ensures
            c.wf(),
            c.step_size == step,
            c.position == 50 * step,
            c.limit == 150 * step,
    {
        Counter { step_size: step, position: step * 50, limit: step * 150 }
    }

    /// Whether the cursor has reached its limit.
    pub fn done(&self) -> (r: bool)
        ensures
            r == (self.position >= self.limit),
    {
        self.position >= self.limit
    }

    /// A capacity hint for the side lists: twice the current position, which
    /// at construction time is one hundred steps.
    pub fn max(&self) -> (r: usize)
        requires
            2 * self.position <= u32::MAX,
        ensures
            r == 2 * self.position,
    {
        (self.position * 2) as usize
    }

    /// Advances the cursor by one step.
    pub fn next(&mut self)
        requires
            old(self).position + old(self).step_size <= u32::MAX,
        ensures
            final(self).step_size == old(self).step_size,
            final(self).limit == old(self).limit,
            final(self).position == old(self).position + old(self).step_size,
    {
        self.position = self.position + self.step_size;
    }
}

/// A cursor built with step `s >= 1` and advanced `k` times stands at
/// `s * (50 + k)` and is exhausted exactly when `k >= 100`; the step size
/// scales the positions but never the number of steps.
pub proof fn lemma_counter_exhaustion(s: int, k: int)
    requires
        s >= 1,
        k >= 0,
    ensures
        (50 * s + k * s >= 150 * s) <==> (k >= 100),
{
    assert((50 * s + k * s >= 150 * s) <==> (k >= 100)) by (nonlinear_arith)
        requires
            s >= 1,
            k >= 0,
    ;
}

/// The scan loop stops as soon as either cursor is exhausted.  Both cursors
/// exhaust after exactly one hundred advances whatever their step sizes, so
/// the joint walk performs the minimum of the two per-axis step counts: one
/// hundred samples on each axis.
pub proof fn lemma_joint_termination(sh: int, sv: int, k: int)
    requires
        sh >= 1,
        sv >= 1,
        k >= 0,
    ensures
        ((50 * sh + k * sh >= 150 * sh) || (50 * sv + k * sv >= 150 * sv)) <==> (k >= 100),
{
    lemma_counter_exhaustion(sh, k);
    lemma_counter_exhaustion(sv, k);
}

impl EdgePoints {
    /// A fresh accumulator with every field at the sentinel.
    pub fn new() -> (ep: EdgePoints)
        ensures
            ep.left == 0,
            ep.right == 0,
            ep.top == 0,
            ep.bottom == 0,
    {
        EdgePoints { left: 0, right: 0, top: 0, bottom: 0 }
    }

    /// Returns every field to the sentinel, ready for the next line.
    pub fn reset(&mut self)
        ensures
            final(self).left == 0,
            final(self).right == 0,
            final(self).top == 0,
            final(self).bottom == 0,
    {
        self.left = 0;
        self.right = 0;
        self.top = 0;
        self.bottom = 0;
    }
}

/// What one side's list holds after recording a candidate coordinate: the
/// sentinel contributes nothing, any other value is appended.
pub open spec fn recorded(side: Seq<u32>, coord: u32) -> Seq<u32> {
    if coord != 0 {
        side.push(coord)
    } else {
        side
    }
}

/// The reduction of four side lists to a rectangle.  Every list must be
/// non-empty, and the east and south medians must not lie strictly before
/// their west and north counterparts.
pub open spec fn bounds_of(
    north: Seq<u32>,
    south: Seq<u32>,
    east: Seq<u32>,
    west: Seq<u32>,
) -> Result<BoundingBox, EstimationError> {
    if north.len() == 0 || south.len() == 0 || east.len() == 0 || west.len() == 0 {
        Err(EstimationError::EmptyAccumulation)
    } else {
        let n = lower_median(north);
        let s = lower_median(south);
        let e = lower_median(east);
        let w = lower_median(west);
        if e < w || s < n {
            Err(EstimationError::InvalidRectangle)
        } else {
            Ok(
                (BoundingBox {
                    x: w,
                    y: n,
                    width: (e - w) as u32,
                    height: (s - n) as u32,
                }),
            )
        }
    }
}

impl Edges {
    /// Four empty lists.  The arguments are capacity hints only and carry no
    /// meaning for the result.
    pub fn new(h_capacity: usize, v_capacity: usize) -> (edges: Edges)
        ensures
            edges.north@ =~= Seq::<u32>::empty(),
            edges.south@ =~= Seq::<u32>::empty(),
            edges.east@ =~= Seq::<u32>::empty(),
            edges.west@ =~= Seq::<u32>::empty(),
    {
        Edges {
            north: Vec::with_capacity(v_capacity),
            south: Vec::with_capacity(v_capacity),
            east: Vec::with_capacity(h_capacity),
            west: Vec::with_capacity(h_capacity),
        }
    }

    /// Records one line's extrema: each non-sentinel field is appended to its
    /// side's list, and a sentinel contributes nothing.
    pub fn push(&mut self, ep: &EdgePoints)
        ensures
            final(self).west@ == recorded(old(self).west@, ep.left),
            final(self).east@ == recorded(old(self).east@, ep.right),
            final(self).north@ == recorded(old(self).north@, ep.top),
            final(self).south@ == recorded(old(self).south@, ep.bottom),
    {
        if ep.left != 0 {
            self.west.push(ep.left);
        }
        if ep.right != 0 {
            self.east.push(ep.right);
        }
        if ep.top != 0 {
            self.north.push(ep.top);
        }
        if ep.bottom != 0 {
            self.south.push(ep.bottom);
        }
    }

    /// Sorts the four lists and reduces them to a rectangle: the west and
    /// north lower medians give the corner, the east and south lower medians
    /// give the far edges, and the extents are the median differences.
    pub fn to_bounds(&mut self) -> (r: Result<BoundingBox, EstimationError>)
        ensures
            final(self).north@ == sort_seq(old(self).north@),
            final(self).south@ == sort_seq(old(self).south@),
            final(self).east@ == sort_seq(old(self).east@),
            final(self).west@ == sort_seq(old(self).west@),
            r == bounds_of(old(self).north@, old(self).south@, old(self).east@, old(self).west@),
    {
        proof {
            lemma_sort_seq_props(self.north@);
            lemma_sort_seq_props(self.south@);
            lemma_sort_seq_props(self.east@);
            lemma_sort_seq_props(self.west@);
        }
        sort_vec(&mut self.north);
        sort_vec(&mut self.south);
        sort_vec(&mut self.east);
        sort_vec(&mut self.west);
        if self.north.len() == 0 || self.south.len() == 0 || self.east.len() == 0
            || self.west.len() == 0 {
            return Err(EstimationError::EmptyAccumulation);
        }
        let n_med: u32 = self.north[self.north.len() / 2];
        let s_med: u32 = self.south[self.south.len() / 2];
        let e_med: u32 = self.east[self.east.len() / 2];
        let w_med: u32 = self.west[self.west.len() / 2];
        if e_med < w_med || s_med < n_med {
            return Err(EstimationError::InvalidRectangle);
        }
        Ok(BoundingBox { x: w_med, y: n_med, width: e_med - w_med, height: s_med - n_med })
    }
}

} // verus!
