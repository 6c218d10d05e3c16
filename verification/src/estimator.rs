//! The boundary estimator: scans sampled rows and columns of an edge map and
//! reduces the per-side coordinate lists to a rectangle.
//!
//! Two cursors walk the central half of each axis, one sample line per step.
//! Every sampled row contributes its first and last edge coordinate to the
//! west and east lists, every sampled column to the north and south lists; a
//! line with no edge past the origin contributes nothing.  The scan stops as
//! soon as either cursor is exhausted, which both reach after exactly one
//! hundred steps, and the four lists are reduced to their lower medians.

use vstd::prelude::*;
use crate::types::{
    BoundingBox, Counter, EdgePoints, Edges, EstimationError, bounds_of, recorded,
    lemma_joint_termination,
};
use crate::median::lemma_lower_median_pointwise;

verus! {

/// A single-channel edge map: a row-major grid of samples, each either zero
/// (no edge) or non-zero (edge).
pub struct EdgeMap {
    pub width: u32,
    pub height: u32,
    pub data: Vec<u8>,
}

impl EdgeMap {
    /// The grid's structural invariant: one sample per cell.
    pub open spec fn wf(self) -> bool {
        self.data@.len() == self.width as int * self.height as int
    }

    /// The sample at column `x` of row `y`.
    pub open spec fn sample(self, x: int, y: int) -> u8
        recommends
            self.wf(),
            0 <= x < self.width,
            0 <= y < self.height,
    {
        self.data@[y * self.width as int + x]
    }

    /// Builds an edge map from a row-major sample buffer, rejecting a buffer
    /// whose length does not match the dimensions.
    pub fn from_raw(width: u32, height: u32, data: Vec<u8>) -> (r: Option<EdgeMap>)
        ensures
            match r {
                Some(m) => {
                    &&& m.wf()
                    &&& m.width == width
                    &&& m.height == height
                    &&& m.data@ == data@
                },
                None => data@.len() != width as int * height as int,
            },
    {
        proof {
            assert((width as int) * (height as int) <= 0xffff_ffff * 0xffff_ffff)
                by (nonlinear_arith)
                requires
                    width <= 0xffff_ffffu32,
                    height <= 0xffff_ffffu32,
            ;
        }
        let need: u64 = (width as u64) * (height as u64);
        if (data.len() as u64) == need {
            Some(EdgeMap { width, height, data })
        } else {
            None
        }
    }
}

/// The samples of row `y`, left to right.
pub open spec fn row_seq(m: EdgeMap, y: int) -> Seq<u8> {
    Seq::new(m.width as nat, |x: int| m.sample(x, y))
}

/// The samples of column `x`, top to bottom.
pub open spec fn col_seq(m: EdgeMap, x: int) -> Seq<u8> {
    Seq::new(m.height as nat, |y: int| m.sample(x, y))
}

/// The extrema of the first `n` samples of one line: the first coordinate
/// past the origin holding a non-zero sample, and the last coordinate holding
/// a non-zero sample, each left at the sentinel 0 when never set.  A non-zero
/// sample at coordinate 0 leaves the sentinel in place, so it alone is
/// invisible to the accumulation.
pub open spec fn line_fold(line: Seq<u8>, n: int) -> (u32, u32)
    recommends
        n <= line.len() <= u32::MAX,
    decreases n,
{
    if n <= 0 {
        (0u32, 0u32)
    } else {
        let prev = line_fold(line, n - 1);
        if line[n - 1] != 0 {
            ((if prev.0 == 0 {
                (n - 1) as u32
            } else {
                prev.0
            }), (n - 1) as u32)
        } else {
            prev
        }
    }
}

/// The extrema of a whole line.
pub open spec fn line_extrema(line: Seq<u8>) -> (u32, u32) {
    line_fold(line, line.len() as int)
}

/// Both extrema of a line prefix stand or fall together: they are sentinels
/// exactly when the prefix holds no non-zero sample past the origin, and
/// otherwise they are ordered coordinates of non-zero samples.
pub proof fn lemma_line_fold_props(line: Seq<u8>, n: int)
    requires
        0 <= n <= line.len(),
        line.len() <= u32::MAX,
    ensures
        (line_fold(line, n).0 == 0) <==> (line_fold(line, n).1 == 0),
        line_fold(line, n).1 != 0 ==> 0 < line_fold(line, n).0 <= line_fold(line, n).1 < n,
        line_fold(line, n).1 != 0 ==> line[line_fold(line, n).0 as int] != 0 && line[line_fold(
            line,
            n,
        ).1 as int] != 0,
        (line_fold(line, n).1 == 0) <==> !(exists|x: int| 0 < x < n && #[trigger] line[x] != 0),
    decreases n,
{
    if n > 0 {
        lemma_line_fold_props(line, n - 1);
        if line[n - 1] != 0 && n - 1 > 0 {
            assert(exists|x: int| 0 < x < n && #[trigger] line[x] != 0);
        }
    }
}

/// The west-side coordinates collected from the first `k` sampled rows, with
/// rows sampled at `sh * (50 + j)`.
pub open spec fn west_list(m: EdgeMap, sh: int, k: int) -> Seq<u32>
    decreases k,
{
    if k <= 0 {
        Seq::empty()
    } else {
        recorded(west_list(m, sh, k - 1), line_extrema(row_seq(m, sh * (50 + k - 1))).0)
    }
}

/// The east-side coordinates collected from the first `k` sampled rows.
pub open spec fn east_list(m: EdgeMap, sh: int, k: int) -> Seq<u32>
    decreases k,
{
    if k <= 0 {
        Seq::empty()
    } else {
        recorded(east_list(m, sh, k - 1), line_extrema(row_seq(m, sh * (50 + k - 1))).1)
    }
}

/// The north-side coordinates collected from the first `k` sampled columns,
/// with columns sampled at `sv * (50 + j)`.
pub open spec fn north_list(m: EdgeMap, sv: int, k: int) -> Seq<u32>
    decreases k,
{
    if k <= 0 {
        Seq::empty()
    } else {
        recorded(north_list(m, sv, k - 1), line_extrema(col_seq(m, sv * (50 + k - 1))).0)
    }
}

/// The south-side coordinates collected from the first `k` sampled columns.
pub open spec fn south_list(m: EdgeMap, sv: int, k: int) -> Seq<u32>
    decreases k,
{
    if k <= 0 {
        Seq::empty()
    } else {
        recorded(south_list(m, sv, k - 1), line_extrema(col_seq(m, sv * (50 + k - 1))).1)
    }
}

/// What the estimator returns, as a function of the edge map alone.  A step
/// size of zero on either axis is rejected before any sampling; otherwise the
/// four side lists of the one hundred sampled lines are reduced to medians.
pub open spec fn estimate_spec(m: EdgeMap) -> Result<BoundingBox, EstimationError> {
    if m.height as int / 200 < 1 || m.width as int / 200 < 1 {
        Err(EstimationError::DegenerateStepSize)
    } else {
        bounds_of(
            north_list(m, m.width as int / 200, 100),
            south_list(m, m.width as int / 200, 100),
            east_list(m, m.height as int / 200, 100),
            west_list(m, m.height as int / 200, 100),
        )
    }
}

impl EdgePoints {
    /// Scans one row of the map: `left` and `right` become the row's extrema,
    /// `top` and `bottom` are untouched.
    pub fn scan_row(&mut self, m: &EdgeMap, y: u32)
        requires
            m.wf(),
            y < m.height,
            old(self).left == 0,
            old(self).right == 0,
        ensures
            final(self).top == old(self).top,
            final(self).bottom == old(self).bottom,
            (final(self).left, final(self).right) == line_extrema(row_seq(*m, y as int)),
    {
        let ghost line = row_seq(*m, y as int);
        let total = m.data.len();
        let mut x: u32 = 0;
        while x < m.width
            invariant
                m.wf(),
                y < m.height,
                x <= m.width,
                total == m.data@.len(),
                line == row_seq(*m, y as int),
                self.top == old(self).top,
                self.bottom == old(self).bottom,
                (self.left, self.right) == line_fold(line, x as int),
            decreases m.width - x,
        {
            proof {
                assert((y as int) * (m.width as int) + (x as int) < (m.width as int) * (m.height as int))
                    by (nonlinear_arith)
                    requires
                        0 <= x as int,
                        (x as int) < (m.width as int),
                        0 <= y as int,
                        (y as int) < (m.height as int),
                ;
            }
            let idx: usize = (y as usize) * (m.width as usize) + (x as usize);
            let s = m.data[idx];
            assert(s == line[x as int]);
            if s != 0 {
                if self.left == 0 {
                    self.left = x;
                }
                self.right = x;
            }
            x = x + 1;
        }
    }

    /// Scans one column of the map: `top` and `bottom` become the column's
    /// extrema, `left` and `right` are untouched.
    pub fn scan_col(&mut self, m: &EdgeMap, x: u32)
        requires
            m.wf(),
            x < m.width,
            old(self).top == 0,
            old(self).bottom == 0,
        ensures
            final(self).left == old(self).left,
            final(self).right == old(self).right,
            (final(self).top, final(self).bottom) == line_extrema(col_seq(*m, x as int)),
    {
        let ghost line = col_seq(*m, x as int);
        let total = m.data.len();
        let mut y: u32 = 0;
        while y < m.height
            invariant
                m.wf(),
                x < m.width,
                y <= m.height,
                total == m.data@.len(),
                line == col_seq(*m, x as int),
                self.left == old(self).left,
                self.right == old(self).right,
                (self.top, self.bottom) == line_fold(line, y as int),
            decreases m.height - y,
        {
            proof {
                assert((y as int) * (m.width as int) + (x as int) < (m.width as int) * (m.height as int))
                    by (nonlinear_arith)
                    requires
                        0 <= x as int,
                        (x as int) < (m.width as int),
                        0 <= y as int,
                        (y as int) < (m.height as int),
                ;
            }
            let idx: usize = (y as usize) * (m.width as usize) + (x as usize);
            let s = m.data[idx];
            assert(s == line[y as int]);
            if s != 0 {
                if self.top == 0 {
                    self.top = y;
                }
                self.bottom = y;
            }
            y = y + 1;
        }
    }
}

proof fn lemma_mul_mono(a: int, b: int, s: int)
    requires
        a <= b,
        s >= 0,
    ensures
        a * s <= b * s,
{
    assert(a * s <= b * s) by (nonlinear_arith)
        requires
            a <= b,
            s >= 0,
    ;
}

proof fn lemma_mul_distrib(s: int, k: int)
    ensures
        s * (50 + k) == 50 * s + k * s,
{
    assert(s * (50 + k) == 50 * s + k * s) by (nonlinear_arith);
}

proof fn lemma_mul_step(s: int, k: int)
    ensures
        (k + 1) * s == k * s + s,
{
    assert((k + 1) * s == k * s + s) by (nonlinear_arith);
}

/// Estimates the content rectangle of an edge map: one hundred rows and one
/// hundred columns of the central band are scanned, each sampled line's
/// extrema are recorded per side, and the four lists are reduced to their
/// lower medians.
pub fn edge_finder(m: &EdgeMap) -> (r: Result<BoundingBox, EstimationError>)
    requires
        m.wf(),
    ensures
        r == estimate_spec(*m),
{
    let sh: u32 = m.height / 200;
    let sv: u32 = m.width / 200;
    if sh == 0 || sv == 0 {
        return Err(EstimationError::DegenerateStepSize);
    }
    proof {
        assert(200 * (m.height as int / 200) <= m.height as int);
        assert(200 * (m.width as int / 200) <= m.width as int);
    }
    let mut h_counter = Counter::new(sh);
    let mut v_counter = Counter::new(sv);
    let cap_h = h_counter.max();
    let cap_v = v_counter.max();
    let mut edges = Edges::new(cap_h, cap_v);
    let mut ep = EdgePoints::new();
    let ghost mut k: int = 0;
    loop
        invariant_except_break
            k <= 99,
        invariant
            m.wf(),
            1 <= sh,
            1 <= sv,
            sh == m.height as int / 200,
            sv == m.width as int / 200,
            200 * (sh as int) <= m.height as int,
            200 * (sv as int) <= m.width as int,
            h_counter.step_size == sh,
            h_counter.limit == 150 * (sh as int),
            v_counter.step_size == sv,
            v_counter.limit == 150 * (sv as int),
            0 <= k <= 100,
            h_counter.position == 50 * (sh as int) + k * (sh as int),
            v_counter.position == 50 * (sv as int) + k * (sv as int),
            edges.west@ == west_list(*m, sh as int, k),
            edges.east@ == east_list(*m, sh as int, k),
            edges.north@ == north_list(*m, sv as int, k),
            edges.south@ == south_list(*m, sv as int, k),
        ensures
            edges.west@ == west_list(*m, sh as int, 100),
            edges.east@ == east_list(*m, sh as int, 100),
            edges.north@ == north_list(*m, sv as int, 100),
            edges.south@ == south_list(*m, sv as int, 100),
        decreases 100 - k,
    {
        proof {
            lemma_mul_mono(k, 99, sh as int);
            lemma_mul_mono(k, 99, sv as int);
            assert(h_counter.position < m.height);
            assert(v_counter.position < m.width);
        }
        ep.reset();
        ep.scan_row(m, h_counter.position);
        ep.scan_col(m, v_counter.position);
        edges.push(&ep);
        proof {
            lemma_mul_distrib(sh as int, k);
            lemma_mul_distrib(sv as int, k);
            assert(edges.west@ == west_list(*m, sh as int, k + 1));
            assert(edges.east@ == east_list(*m, sh as int, k + 1));
            assert(edges.north@ == north_list(*m, sv as int, k + 1));
            assert(edges.south@ == south_list(*m, sv as int, k + 1));
        }
        h_counter.next();
        v_counter.next();
        proof {
            lemma_mul_step(sh as int, k);
            lemma_mul_step(sv as int, k);
            k = k + 1;
        }
        let hd = h_counter.done();
        let vd = v_counter.done();
        proof {
            lemma_joint_termination(sh as int, sv as int, k);
        }
        if hd {
            proof {
                assert(k == 100);
            }
            break;
        }
        if vd {
            proof {
                assert(k == 100);
            }
            break;
        }
        proof {
            assert(k <= 99);
        }
    }
    edges.to_bounds()
}

/// A sampled row whose samples are all zero contributes nothing: its extrema
/// stay at the sentinel, and the sentinel is never recorded, so the west and
/// east lists after that row are the lists before it.
pub proof fn lemma_blank_row_no_contribution(m: EdgeMap, sh: int, k: int)
    requires
        m.wf(),
        0 <= k,
        forall|x: int| 0 <= x < m.width ==> #[trigger] m.sample(x, sh * (50 + k)) == 0,
    ensures
        west_list(m, sh, k + 1) == west_list(m, sh, k),
        east_list(m, sh, k + 1) == east_list(m, sh, k),
{
    let line = row_seq(m, sh * (50 + k));
    assert(forall|x: int| 0 <= x < line.len() ==> #[trigger] line[x] == 0);
    lemma_line_fold_props(line, line.len() as int);
    assert(line_extrema(line).1 == 0);
    assert(line_extrema(line).0 == 0);
}

/// The column-axis counterpart: an all-zero sampled column leaves the north
/// and south lists unchanged.
pub proof fn lemma_blank_col_no_contribution(m: EdgeMap, sv: int, k: int)
    requires
        m.wf(),
        0 <= k,
        forall|y: int| 0 <= y < m.height ==> #[trigger] m.sample(sv * (50 + k), y) == 0,
    ensures
        north_list(m, sv, k + 1) == north_list(m, sv, k),
        south_list(m, sv, k + 1) == south_list(m, sv, k),
{
    let line = col_seq(m, sv * (50 + k));
    assert(forall|y: int| 0 <= y < line.len() ==> #[trigger] line[y] == 0);
    lemma_line_fold_props(line, line.len() as int);
    assert(line_extrema(line).1 == 0);
    assert(line_extrema(line).0 == 0);
}

/// A row shows an edge past the origin: some sample at a positive column
/// coordinate is non-zero.  (An edge whose only sample sits at coordinate
/// zero coincides with the sentinel and is invisible to the accumulation.)
pub open spec fn row_has_interior_edge(m: EdgeMap, y: int) -> bool {
    exists|x: int| 0 < x < m.width && #[trigger] m.sample(x, y) != 0
}

/// A column shows an edge past the origin: some sample at a positive row
/// coordinate is non-zero.
pub open spec fn col_has_interior_edge(m: EdgeMap, x: int) -> bool {
    exists|y: int| 0 < y < m.height && #[trigger] m.sample(x, y) != 0
}

/// The west and east lists always grow in step: a sampled row records either
/// both of its extrema or neither, and the recorded west coordinate never
/// passes the east one of the same row.
proof fn lemma_row_lists_aligned(m: EdgeMap, sh: int, k: int)
    requires
        m.wf(),
        0 <= k,
    ensures
        west_list(m, sh, k).len() == east_list(m, sh, k).len(),
        forall|i: int| 0 <= i < west_list(m, sh, k).len() ==> #[trigger] west_list(m, sh, k)[i]
            <= #[trigger] east_list(m, sh, k)[i],
    decreases k,
{
    if k > 0 {
        lemma_row_lists_aligned(m, sh, k - 1);
        let line = row_seq(m, sh * (50 + k - 1));
        lemma_line_fold_props(line, line.len() as int);
    }
}

/// The column-axis counterpart of `lemma_row_lists_aligned`.
proof fn lemma_col_lists_aligned(m: EdgeMap, sv: int, k: int)
    requires
        m.wf(),
        0 <= k,
    ensures
        north_list(m, sv, k).len() == south_list(m, sv, k).len(),
        forall|i: int| 0 <= i < north_list(m, sv, k).len() ==> #[trigger] north_list(m, sv, k)[i]
            <= #[trigger] south_list(m, sv, k)[i],
    decreases k,
{
    if k > 0 {
        lemma_col_lists_aligned(m, sv, k - 1);
        let line = col_seq(m, sv * (50 + k - 1));
        lemma_line_fold_props(line, line.len() as int);
    }
}

/// The estimator's medians are never inverted: a line records its west or
/// north coordinate only together with an east or south coordinate at least
/// as large, so the reduction can fail for want of samples or for a
/// degenerate step, but never with an inverted rectangle.
pub proof fn lemma_estimate_never_inverted(m: EdgeMap)
    requires
        m.wf(),
    ensures
        estimate_spec(m) != Err::<BoundingBox, EstimationError>(EstimationError::InvalidRectangle),
{
    let sh = m.height as int / 200;
    let sv = m.width as int / 200;
    if sh >= 1 && sv >= 1 {
        lemma_row_lists_aligned(m, sh, 100);
        lemma_col_lists_aligned(m, sv, 100);
        let west = west_list(m, sh, 100);
        let east = east_list(m, sh, 100);
        let north = north_list(m, sv, 100);
        let south = south_list(m, sv, 100);
        if west.len() > 0 && east.len() > 0 && north.len() > 0 && south.len() > 0 {
            lemma_lower_median_pointwise(west, east);
            lemma_lower_median_pointwise(north, south);
        }
    }
}

/// When every one of the first `k` sampled rows shows an edge past the
/// origin, the west and east lists are full and aligned: one entry per row,
/// with the west coordinate never past the east one.
proof fn lemma_row_lists_full(m: EdgeMap, sh: int, k: int)
    requires
        m.wf(),
        m.width <= u32::MAX,
        0 <= k,
        forall|j: int| 0 <= j < k ==> #[trigger] row_has_interior_edge(m, sh * (50 + j)),
    ensures
        west_list(m, sh, k).len() == k,
        east_list(m, sh, k).len() == k,
        forall|i: int| 0 <= i < k ==> #[trigger] west_list(m, sh, k)[i] <= #[trigger] east_list(
            m,
            sh,
            k,
        )[i],
    decreases k,
{
    if k > 0 {
        lemma_row_lists_full(m, sh, k - 1);
        let line = row_seq(m, sh * (50 + k - 1));
        assert(row_has_interior_edge(m, sh * (50 + k - 1)));
        let x = choose|x: int| 0 < x < m.width && #[trigger] m.sample(x, sh * (50 + k - 1)) != 0;
        assert(line[x] != 0);
        lemma_line_fold_props(line, line.len() as int);
        assert(line_extrema(line).1 != 0);
        assert(line_extrema(line).0 != 0);
        assert(line_extrema(line).0 <= line_extrema(line).1);
    }
}

/// The column-axis counterpart of `lemma_row_lists_full`.
proof fn lemma_col_lists_full(m: EdgeMap, sv: int, k: int)
    requires
        m.wf(),
        m.height <= u32::MAX,
        0 <= k,
        forall|j: int| 0 <= j < k ==> #[trigger] col_has_interior_edge(m, sv * (50 + j)),
    ensures
        north_list(m, sv, k).len() == k,
        south_list(m, sv, k).len() == k,
        forall|i: int| 0 <= i < k ==> #[trigger] north_list(m, sv, k)[i] <= #[trigger] south_list(
            m,
            sv,
            k,
        )[i],
    decreases k,
{
    if k > 0 {
        lemma_col_lists_full(m, sv, k - 1);
        let line = col_seq(m, sv * (50 + k - 1));
        assert(col_has_interior_edge(m, sv * (50 + k - 1)));
        let y = choose|y: int| 0 < y < m.height && #[trigger] m.sample(sv * (50 + k - 1), y) != 0;
        assert(line[y] != 0);
        lemma_line_fold_props(line, line.len() as int);
        assert(line_extrema(line).1 != 0);
        assert(line_extrema(line).0 != 0);
        assert(line_extrema(line).0 <= line_extrema(line).1);
    }
}

/// Whenever every sampled row and every sampled column shows an edge past the
/// origin, the estimate succeeds: each side list is full, and the west and
/// north medians cannot exceed the east and south ones, so the rectangle's
/// extents are well defined and non-negative.
pub proof fn lemma_estimate_succeeds(m: EdgeMap)
    requires
        m.wf(),
        m.height as int / 200 >= 1,
        m.width as int / 200 >= 1,
        forall|j: int| 0 <= j < 100 ==> #[trigger] row_has_interior_edge(
            m,
            (m.height as int / 200) * (50 + j),
        ),
        forall|j: int| 0 <= j < 100 ==> #[trigger] col_has_interior_edge(
            m,
            (m.width as int / 200) * (50 + j),
        ),
    ensures
        estimate_spec(m) is Ok,
{
    let sh = m.height as int / 200;
    let sv = m.width as int / 200;
    lemma_row_lists_full(m, sh, 100);
    lemma_col_lists_full(m, sv, 100);
    lemma_lower_median_pointwise(west_list(m, sh, 100), east_list(m, sh, 100));
    lemma_lower_median_pointwise(north_list(m, sv, 100), south_list(m, sv, 100));
}

/// Determinism: the estimate depends on the grid's dimensions and samples
/// alone, so two maps holding the same samples yield the same result.
pub proof fn lemma_estimate_deterministic(a: EdgeMap, b: EdgeMap)
    requires
        a.width == b.width,
        a.height == b.height,
        a.data@ == b.data@,
    ensures
        estimate_spec(a) == estimate_spec(b),
{
    lemma_lists_congruent(a, b, a.height as int / 200, a.width as int / 200, 100);
}

/// Side lists are functions of the samples: maps holding the same samples
/// accumulate the same lists.
proof fn lemma_lists_congruent(a: EdgeMap, b: EdgeMap, sh: int, sv: int, k: int)
    requires
        a.width == b.width,
        a.height == b.height,
        a.data@ == b.data@,
        0 <= k,
    ensures
        west_list(a, sh, k) == west_list(b, sh, k),
        east_list(a, sh, k) == east_list(b, sh, k),
        north_list(a, sv, k) == north_list(b, sv, k),
        south_list(a, sv, k) == south_list(b, sv, k),
    decreases k,
{
    if k > 0 {
        lemma_lists_congruent(a, b, sh, sv, k - 1);
        assert(row_seq(a, sh * (50 + k - 1)) =~= row_seq(b, sh * (50 + k - 1)));
        assert(col_seq(a, sv * (50 + k - 1)) =~= col_seq(b, sv * (50 + k - 1)));
    }
}

} // verus!
