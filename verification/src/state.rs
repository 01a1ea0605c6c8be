//! Graph view state: highlight transitions, pan/zoom transform and
//! interaction tracking.
//!
//! Node handles are the dense indices the layout engine assigns at
//! construction, so per-node tracking lives in slot vectors indexed by
//! handle; a slot of zero stands for an untracked node. Intensities are
//! micro-unit fractions of one ([`UNIT`]), times are micro-seconds.

use vstd::prelude::*;

use crate::fixed::{clamp_i, mul_div, mul_div_signed, spec_clamp, spec_isqrt, tdiv, UNIT};
use crate::theme::{spec_css_rgb, Theme};
use crate::types::{GraphData, GraphLink, GraphNode};
use vstd::string::StringExecFns;

verus! {

/// Minimum time a highlight is held before fade-out may begin, in
/// micro-seconds. Prevents flashing when the pointer briefly touches a
/// hover zone.
pub const MIN_HOLD_TIME: u64 = 120_000;

/// Tracking floor: intensities below this are dropped (0.005).
pub const INTENSITY_FLOOR: u64 = 5_000;

/// Does the edge list connect `h` and `i` by one of its first `m` edges?
pub open spec fn neighbor_upto(h: int, i: int, edges: Seq<(usize, usize)>, m: int) -> bool {
    exists|j: int|
        0 <= j < m && ((edges[j].0 == h && edges[j].1 == i) || (edges[j].1 == h && edges[j].0
            == i))
}

/// Membership in the highlight target set: the hovered node and its
/// one-hop neighbours along the edge list.
pub open spec fn spec_in_target(node: Option<usize>, i: int, edges: Seq<(usize, usize)>) -> bool {
    match node {
        Option::None => false,
        Option::Some(h) => i == h || neighbor_upto(h as int, i, edges, edges.len() as int),
    }
}

/// Smooth highlight transitions with per-node intensity tracking.
///
/// Each node has its own intensity in `[0, 1]` that eases toward its
/// target instead of toggling, with a minimum hold time before fade-out
/// so a pointer skirting a hover zone does not flash.
pub struct HighlightState {
    /// Currently hovered node, if any.
    pub hovered_node: Option<usize>,
    /// Slots of nodes that should be highlighted (hovered + neighbours).
    pub target_set: Vec<bool>,
    /// Per-node highlight intensity; zero stands for untracked.
    pub node_intensity: Vec<u64>,
    /// Smoothed intensity of the hover ring around the hovered node.
    pub hover_ring_intensity: Vec<u64>,
    /// Per-node hold time remaining before fade-out may begin.
    pub hold_timer: Vec<u64>,
    /// Cached maximum of the intensities seen by the latest tick.
    pub cached_max: u64,
}

impl HighlightState {
    /// Number of node slots tracked.
    pub open spec fn slots(self) -> int {
        self.node_intensity.len() as int
    }

    /// Well-formed: equal slot counts, everything within `[0, 1]`, and
    /// the hovered handle (if any) in range and in the target set.
    pub open spec fn wf(self) -> bool {
        &&& self.target_set.len() == self.slots()
        &&& self.hover_ring_intensity.len() == self.slots()
        &&& self.hold_timer.len() == self.slots()
        &&& forall|i: int| 0 <= i < self.slots() ==> self.node_intensity[i] <= UNIT
        &&& forall|i: int| 0 <= i < self.slots() ==> self.hover_ring_intensity[i] <= UNIT
        &&& self.cached_max <= UNIT
        &&& match self.hovered_node {
            Option::Some(h) => h < self.slots() && self.target_set[h as int],
            Option::None => forall|i: int| 0 <= i < self.slots() ==> !self.target_set[i],
        }
    }

    /// The tracked intensity of slot `i`, zero outside the slot range.
    pub open spec fn intensity_of(self, i: int) -> int {
        if 0 <= i < self.slots() {
            self.node_intensity[i] as int
        } else {
            0
        }
    }

    /// The tracked ring intensity of slot `i`, zero outside the range.
    pub open spec fn ring_of(self, i: int) -> int {
        if 0 <= i < self.slots() {
            self.hover_ring_intensity[i] as int
        } else {
            0
        }
    }

    /// A fresh state for `n` node slots: nothing hovered, nothing lit.
    pub fn new(n: usize) -> (r: HighlightState)
        ensures
            r.wf(),
            r.slots() == n,
            r.hovered_node is None,
            forall|i: int| 0 <= i < n ==> r.node_intensity[i] == 0,
            forall|i: int| 0 <= i < n ==> r.hover_ring_intensity[i] == 0,
            forall|i: int| 0 <= i < n ==> r.hold_timer[i] == 0,
            forall|i: int| 0 <= i < n ==> !r.target_set[i],
            r.cached_max == 0,
    {
        let mut target_set: Vec<bool> = Vec::new();
        let mut node_intensity: Vec<u64> = Vec::new();
        let mut hover_ring_intensity: Vec<u64> = Vec::new();
        let mut hold_timer: Vec<u64> = Vec::new();
        let mut i: usize = 0;
        while i < n
            invariant
                i <= n,
                target_set.len() == i,
                node_intensity.len() == i,
                hover_ring_intensity.len() == i,
                hold_timer.len() == i,
                forall|j: int| 0 <= j < i ==> !target_set[j],
                forall|j: int| 0 <= j < i ==> node_intensity[j] == 0,
                forall|j: int| 0 <= j < i ==> hover_ring_intensity[j] == 0,
                forall|j: int| 0 <= j < i ==> hold_timer[j] == 0,
            decreases n - i,
        {
            target_set.push(false);
            node_intensity.push(0);
            hover_ring_intensity.push(0);
            hold_timer.push(0);
            i += 1;
        }
        HighlightState {
            hovered_node: None,
            target_set,
            node_intensity,
            hover_ring_intensity,
            hold_timer,
            cached_max: 0,
        }
    }

    /// Replace the hovered node and recompute the target set: the new
    /// node plus its one-hop neighbours, each with a fresh hold timer.
    /// A repeated hover value changes nothing.
    pub fn set_hover(&mut self, node: Option<usize>, edges: &Vec<(usize, usize)>)
        requires
            old(self).wf(),
            match node {
                Option::Some(h) => h < old(self).slots(),
                Option::None => true,
            },
            forall|j: int|
                0 <= j < edges.len() ==> edges[j].0 < old(self).slots() && edges[j].1 < old(
                    self,
                ).slots(),
        ensures
            final(self).wf(),
            final(self).slots() == old(self).slots(),
            final(self).node_intensity == old(self).node_intensity,
            final(self).hover_ring_intensity == old(self).hover_ring_intensity,
            final(self).cached_max == old(self).cached_max,
            old(self).hovered_node == node ==> *final(self) == *old(self),
            old(self).hovered_node != node ==> {
                &&& final(self).hovered_node == node
                &&& forall|i: int|
                    0 <= i < final(self).slots() ==> final(self).target_set[i] == spec_in_target(
                        node,
                        i,
                        edges@,
                    )
                &&& forall|i: int|
                    0 <= i < final(self).slots() ==> final(self).hold_timer[i] == if spec_in_target(
                        node,
                        i,
                        edges@,
                    ) {
                        MIN_HOLD_TIME as int
                    } else {
                        old(self).hold_timer[i] as int
                    }
            },
    {
        let same = match (node, self.hovered_node) {
            (Option::None, Option::None) => true,
            (Option::Some(a), Option::Some(b)) => a == b,
            _ => false,
        };
        if same {
            return ;
        }
        self.hovered_node = node;

        let n = self.target_set.len();
        let mut i: usize = 0;
        while i < n
            invariant
                i <= n,
                self.target_set.len() == n,
                forall|j: int| 0 <= j < i ==> !self.target_set[j],
                *self == (HighlightState { target_set: self.target_set, hovered_node: self.hovered_node, ..*old(self) }),
                self.hovered_node == node,
            decreases n - i,
        {
            self.target_set.set(i, false);
            i += 1;
        }

        if let Some(idx) = node {
            self.target_set.set(idx, true);
            let m = edges.len();
            let mut j: usize = 0;
            while j < m
                invariant
                    j <= m,
                    m == edges.len(),
                    idx < n,
                    self.target_set.len() == n,
                    forall|e: int| 0 <= e < m ==> edges[e].0 < n && edges[e].1 < n,
                    forall|t: int|
                        0 <= t < n ==> self.target_set[t] == (t == idx || neighbor_upto(
                            idx as int,
                            t,
                            edges@,
                            j as int,
                        )),
                    *self == (HighlightState { target_set: self.target_set, hovered_node: self.hovered_node, ..*old(self) }),
                    self.hovered_node == node,
                decreases m - j,
            {
                let e = edges[j];
                if e.0 == idx {
                    self.target_set.set(e.1, true);
                } else if e.1 == idx {
                    self.target_set.set(e.0, true);
                }
                proof {
                    assert forall|t: int|
                        0 <= t < n implies self.target_set[t] == (t == idx || neighbor_upto(
                        idx as int,
                        t,
                        edges@,
                        j + 1,
                    )) by {
                        if self.target_set[t] {
                        } else {
                            assert(!neighbor_upto(idx as int, t, edges@, j as int));
                            assert(!((edges@[j as int].0 == idx && edges@[j as int].1 == t) || (
                            edges@[j as int].1 == idx && edges@[j as int].0 == t)));
                        }
                    }
                }
                j += 1;
            }

            let mut t: usize = 0;
            while t < n
                invariant
                    t <= n,
                    self.target_set.len() == n,
                    self.hold_timer.len() == n,
                    forall|i2: int|
                        0 <= i2 < n ==> self.target_set[i2] == spec_in_target(node, i2, edges@),
                    forall|i2: int|
                        0 <= i2 < t ==> self.hold_timer[i2] == if self.target_set[i2] {
                            MIN_HOLD_TIME as int
                        } else {
                            old(self).hold_timer[i2] as int
                        },
                    forall|i2: int| t <= i2 < n ==> self.hold_timer[i2] == old(self).hold_timer[i2],
                    *self == (HighlightState {
                        target_set: self.target_set,
                        hold_timer: self.hold_timer,
                        hovered_node: self.hovered_node,
                        ..*old(self)
                    }),
                    self.hovered_node == node,
                decreases n - t,
            {
                if self.target_set[t] {
                    self.hold_timer.set(t, MIN_HOLD_TIME);
                }
                t += 1;
            }
            proof {
                assert(spec_in_target(node, idx as int, edges@));
            }
        }
    }

    /// The highlight intensity of a node, zero when untracked.
    pub fn node_intensity(&self, idx: usize) -> (r: u64)
        requires
            self.wf(),
        ensures
            r == self.intensity_of(idx as int),
            r <= UNIT,
    {
        if idx < self.node_intensity.len() {
            self.node_intensity[idx]
        } else {
            0
        }
    }

    /// The hover ring intensity of a node, zero when untracked.
    pub fn hover_ring_intensity(&self, idx: usize) -> (r: u64)
        requires
            self.wf(),
        ensures
            r == self.ring_of(idx as int),
            r <= UNIT,
    {
        if idx < self.hover_ring_intensity.len() {
            self.hover_ring_intensity[idx]
        } else {
            0
        }
    }

    /// The highlight intensity of an edge: the geometric mean of its
    /// endpoint intensities, which transitions more smoothly than their
    /// minimum. The result is the integer square root of the product.
    pub fn edge_intensity(&self, idx1: usize, idx2: usize) -> (r: u64)
        requires
            self.wf(),
        ensures
            r == crate::fixed::spec_isqrt(
                self.intensity_of(idx1 as int) * self.intensity_of(idx2 as int),
            ),
            r * r <= self.intensity_of(idx1 as int) * self.intensity_of(idx2 as int),
            (r + 1) * (r + 1) > self.intensity_of(idx1 as int) * self.intensity_of(idx2 as int),
            r <= UNIT,
    {
        let i1 = self.node_intensity(idx1);
        let i2 = self.node_intensity(idx2);
        proof {
            assert(i1 * i2 <= 1_000_000 * 1_000_000) by (nonlinear_arith)
                requires
                    i1 <= 1_000_000,
                    i2 <= 1_000_000,
            ;
        }
        let r = crate::fixed::isqrt(i1 * i2);
        proof {
            assert(r <= 1_000_000) by (nonlinear_arith)
                requires
                    r * r <= 1_000_000 * 1_000_000,
                    r >= 0,
            ;
        }
        r
    }

    /// The maximum intensity of any node, cached by the latest tick;
    /// used to dim everything else. Always within `[0, 1]`.
    pub fn max_intensity(&self) -> (r: u64)
        requires
            self.wf(),
        ensures
            r == self.cached_max,
            r <= UNIT,
    {
        self.cached_max
    }
}

/// One fade-in step: exponential smoothing toward one, taking the eased
/// fraction `f` (in micro-units) of the remaining gap.
pub open spec fn fade_in_step(i: int, f: int) -> int {
    i + (1_000_000 - i) * f / 1_000_000
}

/// One fade-out step: exponential decay, keeping the fraction `d` (in
/// micro-units) of the intensity.
pub open spec fn decay_step(i: int, d: int) -> int {
    i * d / 1_000_000
}

/// The hold timer of slot `i` after a tick of `dt` micro-seconds: kept
/// for target slots, counted down to zero for the rest.
pub open spec fn spec_hold_after(s: HighlightState, dt: int, i: int) -> int {
    if s.target_set[i] {
        s.hold_timer[i] as int
    } else if s.hold_timer[i] > dt {
        s.hold_timer[i] - dt
    } else {
        0
    }
}

/// Whether slot `i` holds the hovered node.
pub open spec fn is_hovered(s: HighlightState, i: int) -> bool {
    match s.hovered_node {
        Option::Some(h) => h == i,
        Option::None => false,
    }
}

/// The intensity of slot `i` after a tick, before the tracking floor is
/// applied: target slots fade in, slots under a live hold timer freeze,
/// the rest decay.
pub open spec fn spec_intensity_raw(s: HighlightState, dt: int, f: int, d: int, i: int) -> int {
    if s.target_set[i] {
        fade_in_step(s.node_intensity[i] as int, f)
    } else if spec_hold_after(s, dt, i) > 0 {
        s.node_intensity[i] as int
    } else {
        decay_step(s.node_intensity[i] as int, d)
    }
}

/// The stored intensity after a tick: outside the target set, values
/// below the tracking floor are dropped to zero.
pub open spec fn spec_intensity_after(s: HighlightState, dt: int, f: int, d: int, i: int) -> int {
    let raw = spec_intensity_raw(s, dt, f, d, i);
    if s.target_set[i] || raw >= INTENSITY_FLOOR {
        raw
    } else {
        0
    }
}

/// The ring intensity of slot `i` after a tick, before the floor: the
/// hovered slot fades in, the rest freeze under the hold timer or decay.
pub open spec fn spec_ring_raw(s: HighlightState, dt: int, f: int, d: int, i: int) -> int {
    if is_hovered(s, i) {
        fade_in_step(s.hover_ring_intensity[i] as int, f)
    } else if spec_hold_after(s, dt, i) > 0 {
        s.hover_ring_intensity[i] as int
    } else {
        decay_step(s.hover_ring_intensity[i] as int, d)
    }
}

/// The stored ring intensity after a tick, with the floor applied to
/// every slot but the hovered one.
pub open spec fn spec_ring_after(s: HighlightState, dt: int, f: int, d: int, i: int) -> int {
    let raw = spec_ring_raw(s, dt, f, d, i);
    if is_hovered(s, i) || raw >= INTENSITY_FLOOR {
        raw
    } else {
        0
    }
}

/// The maximum over the first `n` raw intensities of a tick.
pub open spec fn spec_max_raw(s: HighlightState, dt: int, f: int, d: int, n: int) -> int
    decreases n,
{
    if n <= 0 {
        0
    } else {
        let m = spec_max_raw(s, dt, f, d, n - 1);
        let v = spec_intensity_raw(s, dt, f, d, n - 1);
        if v > m {
            v
        } else {
            m
        }
    }
}

/// A fade-in step never moves an intensity down or past one.
pub proof fn lemma_fade_in_bounds(i: int, f: int)
    requires
        0 <= i <= 1_000_000,
        0 <= f <= 1_000_000,
    ensures
        i <= fade_in_step(i, f) <= 1_000_000,
{
    let g = (1_000_000 - i) * f;
    vstd::arithmetic::mul::lemma_mul_nonnegative(1_000_000 - i, f);
    vstd::arithmetic::div_mod::lemma_div_pos_is_pos(g, 1_000_000);
    vstd::arithmetic::mul::lemma_mul_inequality(f, 1_000_000, 1_000_000 - i);
    assert(f * (1_000_000 - i) == (1_000_000 - i) * f) by (nonlinear_arith);
    assert(1_000_000 * (1_000_000 - i) == (1_000_000 - i) * 1_000_000) by (nonlinear_arith);
    vstd::arithmetic::div_mod::lemma_div_is_ordered(g, (1_000_000 - i) * 1_000_000, 1_000_000);
    vstd::arithmetic::div_mod::lemma_div_multiples_vanish(1_000_000 - i, 1_000_000);
    assert(1_000_000 * (1_000_000 - i) / 1_000_000 == 1_000_000 - i);
}

/// A fade-out step never moves an intensity up or below zero.
pub proof fn lemma_decay_bounds(i: int, d: int)
    requires
        0 <= i <= 1_000_000,
        0 <= d <= 1_000_000,
    ensures
        0 <= decay_step(i, d) <= i,
{
    vstd::arithmetic::mul::lemma_mul_nonnegative(i, d);
    vstd::arithmetic::div_mod::lemma_div_pos_is_pos(i * d, 1_000_000);
    vstd::arithmetic::mul::lemma_mul_inequality(d, 1_000_000, i);
    assert(d * i == i * d) by (nonlinear_arith);
    assert(1_000_000 * i == i * 1_000_000) by (nonlinear_arith);
    vstd::arithmetic::div_mod::lemma_div_is_ordered(i * d, i * 1_000_000, 1_000_000);
    vstd::arithmetic::div_mod::lemma_div_multiples_vanish(i, 1_000_000);
}

impl HighlightState {
    /// Animate one step of `dt` micro-seconds. The caller supplies the
    /// two eased fractions of the step, in micro-units: the fade-in
    /// factor `1 - e^(-6 dt)` and the fade-out decay `e^(-4 dt)`.
    ///
    /// Target slots ease toward one; the hovered slot's ring does the
    /// same. Hold timers of the remaining slots count down; their
    /// intensities freeze while the timer is live, then decay, and are
    /// dropped once they fall below the tracking floor. The maximum
    /// intensity seen is cached.
    pub fn tick(&mut self, dt: u64, fade_in_factor: u64, fade_out_decay: u64)
        requires
            old(self).wf(),
            fade_in_factor <= UNIT,
            fade_out_decay <= UNIT,
        ensures
            final(self).wf(),
            final(self).hovered_node == old(self).hovered_node,
            final(self).target_set == old(self).target_set,
            final(self).slots() == old(self).slots(),
            forall|i: int|
                0 <= i < old(self).slots() ==> final(self).hold_timer[i] == spec_hold_after(
                    *old(self),
                    dt as int,
                    i,
                ),
            forall|i: int|
                0 <= i < old(self).slots() ==> final(self).node_intensity[i]
                    == spec_intensity_after(
                    *old(self),
                    dt as int,
                    fade_in_factor as int,
                    fade_out_decay as int,
                    i,
                ),
            forall|i: int|
                0 <= i < old(self).slots() ==> final(self).hover_ring_intensity[i]
                    == spec_ring_after(
                    *old(self),
                    dt as int,
                    fade_in_factor as int,
                    fade_out_decay as int,
                    i,
                ),
            final(self).cached_max == spec_max_raw(
                *old(self),
                dt as int,
                fade_in_factor as int,
                fade_out_decay as int,
                old(self).slots(),
            ),
    {
        let ghost s0 = *self;
        let ghost f = fade_in_factor as int;
        let ghost d = fade_out_decay as int;
        let n = self.node_intensity.len();
        let mut new_max: u64 = 0;
        let mut idx: usize = 0;
        while idx < n
            invariant
                s0.wf(),
                n == s0.slots(),
                idx <= n,
                fade_in_factor <= UNIT,
                fade_out_decay <= UNIT,
                f == fade_in_factor as int,
                d == fade_out_decay as int,
                self.hovered_node == s0.hovered_node,
                self.target_set == s0.target_set,
                self.cached_max == s0.cached_max,
                self.node_intensity.len() == n,
                self.hover_ring_intensity.len() == n,
                self.hold_timer.len() == n,
                forall|j: int| idx <= j < n ==> self.node_intensity[j] == s0.node_intensity[j],
                forall|j: int|
                    idx <= j < n ==> self.hover_ring_intensity[j] == s0.hover_ring_intensity[j],
                forall|j: int| idx <= j < n ==> self.hold_timer[j] == s0.hold_timer[j],
                forall|j: int|
                    0 <= j < idx ==> self.hold_timer[j] == spec_hold_after(s0, dt as int, j),
                forall|j: int|
                    0 <= j < idx ==> self.node_intensity[j] == spec_intensity_after(
                        s0,
                        dt as int,
                        f,
                        d,
                        j,
                    ),
                forall|j: int|
                    0 <= j < idx ==> self.hover_ring_intensity[j] == spec_ring_after(
                        s0,
                        dt as int,
                        f,
                        d,
                        j,
                    ),
                new_max == spec_max_raw(s0, dt as int, f, d, idx as int),
                new_max <= UNIT,
            decreases n - idx,
        {
            proof {
                assert(self.node_intensity[idx as int] == s0.node_intensity[idx as int]);
                assert(self.hover_ring_intensity[idx as int] == s0.hover_ring_intensity[
                idx as int]);
                assert(self.hold_timer[idx as int] == s0.hold_timer[idx as int]);
                assert(s0.node_intensity[idx as int] <= UNIT);
                assert(s0.hover_ring_intensity[idx as int] <= UNIT);
            }
            let target = self.target_set[idx];
            let h0 = self.hold_timer[idx];
            let h1 = if target {
                h0
            } else if h0 > dt {
                h0 - dt
            } else {
                0
            };
            self.hold_timer.set(idx, h1);

            let i0 = self.node_intensity[idx];
            let raw: u64;
            if target {
                proof {
                    lemma_fade_in_bounds(i0 as int, f);
                }
                let gain = mul_div(UNIT - i0, fade_in_factor, UNIT);
                raw = i0 + gain;
            } else if h1 > 0 {
                raw = i0;
            } else {
                proof {
                    lemma_decay_bounds(i0 as int, d);
                }
                raw = mul_div(i0, fade_out_decay, UNIT);
            }
            if raw > new_max {
                new_max = raw;
            }
            let keep = if target || raw >= INTENSITY_FLOOR {
                raw
            } else {
                0
            };
            self.node_intensity.set(idx, keep);

            let hovered_here = match self.hovered_node {
                Option::Some(h) => h == idx,
                Option::None => false,
            };
            let r0 = self.hover_ring_intensity[idx];
            let rraw: u64;
            if hovered_here {
                proof {
                    lemma_fade_in_bounds(r0 as int, f);
                }
                let gain = mul_div(UNIT - r0, fade_in_factor, UNIT);
                rraw = r0 + gain;
            } else if h1 > 0 {
                rraw = r0;
            } else {
                proof {
                    lemma_decay_bounds(r0 as int, d);
                }
                rraw = mul_div(r0, fade_out_decay, UNIT);
            }
            let rkeep = if hovered_here || rraw >= INTENSITY_FLOOR {
                rraw
            } else {
                0
            };
            self.hover_ring_intensity.set(idx, rkeep);

            idx += 1;
        }
        self.cached_max = new_max;
        proof {
            assert forall|j: int| 0 <= j < n implies self.node_intensity[j] <= UNIT by {
                lemma_fade_in_bounds(s0.node_intensity[j] as int, f);
                lemma_decay_bounds(s0.node_intensity[j] as int, d);
            }
            assert forall|j: int| 0 <= j < n implies self.hover_ring_intensity[j] <= UNIT by {
                lemma_fade_in_bounds(s0.hover_ring_intensity[j] as int, f);
                lemma_decay_bounds(s0.hover_ring_intensity[j] as int, d);
            }
        }
    }
}

/// Law: while a node sits in the target set, a tick moves its intensity
/// up by exactly the eased fraction of the remaining gap: the gap to one
/// shrinks from `g` to `g - g * f / 1_000_000`, and the intensity never
/// falls or overshoots one.
pub proof fn lemma_fade_in_gap(i: int, f: int)
    requires
        0 <= i <= UNIT,
        0 <= f <= UNIT,
    ensures
        1_000_000 - fade_in_step(i, f) == (1_000_000 - i) - (1_000_000 - i) * f / 1_000_000,
        i <= fade_in_step(i, f) <= 1_000_000,
{
    lemma_fade_in_bounds(i, f);
}

/// The gap to full intensity after `n` held ticks at the fade-in
/// factor `f`: each tick takes the eased fraction of what remains, as
/// [`lemma_fade_in_gap`] shows a tick does.
pub open spec fn spec_gap_after(g: int, f: int, n: nat) -> int
    decreases n,
{
    if n == 0 {
        g
    } else {
        let p = spec_gap_after(g, f, (n - 1) as nat);
        p - p * f / 1_000_000
    }
}

/// Law: with the hover held at the sixty-per-second fade-in factor (or
/// any faster one), the gap to full intensity never grows, and once the
/// ticks outnumber the starting gap it has fallen within ten micro-units
/// of zero: the hovered intensity converges within one thousandth of
/// one.
pub proof fn lemma_gap_convergence(g: int, f: int, n: nat)
    requires
        0 <= g <= 1_000_000,
        95_162 <= f <= 1_000_000,
    ensures
        0 <= spec_gap_after(g, f, n) <= g,
        spec_gap_after(g, f, n) <= 10 || spec_gap_after(g, f, n) <= g - n,
        n >= g ==> spec_gap_after(g, f, n) <= 10,
    decreases n,
{
    if n > 0 {
        lemma_gap_convergence(g, f, (n - 1) as nat);
        let p = spec_gap_after(g, f, (n - 1) as nat);
        vstd::arithmetic::mul::lemma_mul_inequality(f, 1_000_000, p);
        assert(f * p == p * f) by (nonlinear_arith);
        assert(1_000_000 * p == p * 1_000_000) by (nonlinear_arith);
        vstd::arithmetic::div_mod::lemma_div_is_ordered(p * f, p * 1_000_000, 1_000_000);
        vstd::arithmetic::div_mod::lemma_div_multiples_vanish(p, 1_000_000);
        vstd::arithmetic::mul::lemma_mul_nonnegative(p, f);
        vstd::arithmetic::div_mod::lemma_div_pos_is_pos(p * f, 1_000_000);
        if p >= 11 {
            assert(p * f >= 11 * 95_162) by (nonlinear_arith)
                requires
                    p >= 11,
                    f >= 95_162,
            ;
            vstd::arithmetic::div_mod::lemma_div_non_zero(p * f, 1_000_000);
        }
    }
}

/// Law: holding the hover, the intensity of the hovered node climbs
/// strictly while its gap to one is at least eleven micro-units — well
/// inside one thousandth of one — whenever ticks carry at least the
/// sixty-frames-per-second fade-in factor `1 - e^(-6/60)`.
pub proof fn lemma_fade_in_converges(i: int, f: int)
    requires
        0 <= i <= UNIT,
        95_162 <= f <= UNIT,
        UNIT - i >= 11,
    ensures
        i < fade_in_step(i, f) <= UNIT,
{
    lemma_fade_in_bounds(i, f);
    let g = 1_000_000 - i;
    assert(g * f >= 11 * 95_162) by (nonlinear_arith)
        requires
            g >= 11,
            f >= 95_162,
    ;
    vstd::arithmetic::div_mod::lemma_div_non_zero(g * f, 1_000_000);
}

/// Law: with the hover held, every tick at the sixty-per-second fade-in
/// factor (or any faster one) strictly raises the hovered node's
/// intensity until it sits within eleven micro-units of one — well
/// inside one thousandth — and never pushes it past one.
pub proof fn lemma_hovered_tick_progress(s: HighlightState, dt: int, f: int, d: int)
    requires
        s.wf(),
        s.hovered_node is Some,
        95_162 <= f <= UNIT,
        ({
            let h = s.hovered_node->0 as int;
            UNIT - s.node_intensity[h] >= 11
        }),
    ensures
        ({
            let h = s.hovered_node->0 as int;
            s.node_intensity[h] < spec_intensity_after(s, dt, f, d, h) <= UNIT
        }),
{
    let h = s.hovered_node->0 as int;
    lemma_fade_in_converges(s.node_intensity[h] as int, f);
}

/// Law: an intensity outside the target set is frozen exactly while its
/// hold timer outlasts the tick; fading begins only once it expires. The
/// pruning rule keeps stored intensities at zero or at the floor and
/// above, and the law covers every such state.
pub proof fn lemma_hold_freezes(s: HighlightState, dt: int, f: int, d: int, i: int)
    requires
        s.wf(),
        0 <= i < s.slots(),
        !s.target_set[i],
        dt < s.hold_timer[i],
        s.node_intensity[i] == 0 || s.node_intensity[i] >= INTENSITY_FLOOR,
    ensures
        spec_intensity_after(s, dt, f, d, i) == s.node_intensity[i],
        spec_hold_after(s, dt, i) > 0,
{
}

/// Law: once the hold timer has expired, a tracked intensity outside the
/// target set strictly decreases at every tick with a genuine decay
/// factor, and the slot reads zero as soon as it reaches the floor.
pub proof fn lemma_fade_out_strict(s: HighlightState, dt: int, f: int, d: int, i: int)
    requires
        s.wf(),
        0 <= i < s.slots(),
        !s.target_set[i],
        s.hold_timer[i] <= dt,
        1 <= d < UNIT,
        s.node_intensity[i] >= 1,
    ensures
        spec_intensity_after(s, dt, f, d, i) < s.node_intensity[i],
        spec_intensity_raw(s, dt, f, d, i) < INTENSITY_FLOOR ==> spec_intensity_after(
            s,
            dt,
            f,
            d,
            i,
        ) == 0,
{
    let v = s.node_intensity[i] as int;
    assert(v * d < 1_000_000 * v) by (nonlinear_arith)
        requires
            d < 1_000_000,
            v >= 1,
    ;
    vstd::arithmetic::div_mod::lemma_multiply_divide_lt(v * d, 1_000_000, v);
}

/// Law: a node that is dark and outside the target set stays dark
/// through any tick, whatever the factors and however long the step.
pub proof fn lemma_untracked_stays_dark(s: HighlightState, dt: int, f: int, d: int, i: int)
    requires
        s.wf(),
        0 <= i < s.slots(),
        !s.target_set[i],
        0 <= d,
        s.node_intensity[i] == 0,
    ensures
        spec_intensity_after(s, dt, f, d, i) == 0,
{
    assert(0 * d == 0) by (nonlinear_arith);
    vstd::arithmetic::div_mod::lemma_div_of0(1_000_000);
}

/// Law: the highlight intensity of an edge does not depend on the order
/// of its endpoints — the geometric mean of the two node intensities is
/// symmetric.
pub proof fn lemma_edge_intensity_symmetric(s: HighlightState, a: int, b: int)
    ensures
        crate::fixed::spec_isqrt(s.intensity_of(a) * s.intensity_of(b))
            == crate::fixed::spec_isqrt(s.intensity_of(b) * s.intensity_of(a)),
{
    assert(s.intensity_of(a) * s.intensity_of(b) == s.intensity_of(b) * s.intensity_of(a))
        by (nonlinear_arith);
}

/// The stock cluster colors, as (group, color) pairs with unique keys.
pub open spec fn spec_cluster_colors() -> Seq<(Seq<char>, Seq<char>)> {
    seq![
        ("modules.home"@, "#1976d2"@),
        ("modules.nixos"@, "#7b1fa2"@),
        ("outputs.nixosConfigurations"@, "#e65100"@),
        ("outputs.homeConfigurations"@, "#2e7d32"@),
        ("outputs.perSystem"@, "#757575"@),
        ("hosts.server"@, "#c62828"@),
        ("hosts.vm"@, "#c62828"@),
        ("hosts.workstation"@, "#c62828"@),
        ("users.alice"@, "#00838f"@),
        ("flake"@, "#455a64"@),
        ("flake.inputs"@, "#78909c"@),
    ]
}

/// The stock cluster color table: group names mapped to fixed colors,
/// one pair per group.
pub fn default_cluster_colors() -> (r: Vec<(String, String)>)
    ensures
        r.len() == spec_cluster_colors().len(),
        forall|i: int|
            0 <= i < r.len() ==> (#[trigger] r[i]).0@ == spec_cluster_colors()[i].0 && r[i].1@
                == spec_cluster_colors()[i].1,
{
    let mut r: Vec<(String, String)> = Vec::new();
    r.push(("modules.home".to_owned(), "#1976d2".to_owned()));
    r.push(("modules.nixos".to_owned(), "#7b1fa2".to_owned()));
    r.push(("outputs.nixosConfigurations".to_owned(), "#e65100".to_owned()));
    r.push(("outputs.homeConfigurations".to_owned(), "#2e7d32".to_owned()));
    r.push(("outputs.perSystem".to_owned(), "#757575".to_owned()));
    r.push(("hosts.server".to_owned(), "#c62828".to_owned()));
    r.push(("hosts.vm".to_owned(), "#c62828".to_owned()));
    r.push(("hosts.workstation".to_owned(), "#c62828".to_owned()));
    r.push(("users.alice".to_owned(), "#00838f".to_owned()));
    r.push(("flake".to_owned(), "#455a64".to_owned()));
    r.push(("flake.inputs".to_owned(), "#78909c".to_owned()));
    r
}

/// The color of the first pair whose group matches, scanning forward
/// (keys are unique, so at most one pair can match).
pub open spec fn spec_assoc(m: Seq<(String, String)>, key: Seq<char>) -> Option<Seq<char>>
    decreases m.len(),
{
    if m.len() == 0 {
        Option::None
    } else if m[0].0@ == key {
        Option::Some(m[0].1@)
    } else {
        spec_assoc(m.drop_first(), key)
    }
}

/// Look a group name up in a cluster color table.
fn assoc_color<'a>(m: &'a Vec<(String, String)>, key: &String) -> (r: Option<&'a String>)
    ensures
        match r {
            Option::Some(v) => spec_assoc(m@, key@) == Option::Some(v@),
            Option::None => spec_assoc(m@, key@) is None,
        },
{
    let n = m.len();
    let mut i: usize = 0;
    proof {
        assert(m@.skip(0) =~= m@);
    }
    while i < n
        invariant
            i <= n,
            n == m.len(),
            spec_assoc(m@, key@) == spec_assoc(m@.skip(i as int), key@),
        decreases n - i,
    {
        proof {
            assert(m@.skip(i as int)[0] == m@[i as int]);
            assert(m@.skip(i as int).drop_first() =~= m@.skip(i + 1));
        }
        if m[i].0.eq(key) {
            return Some(&m[i].1);
        }
        i += 1;
    }
    proof {
        assert(m@.skip(n as int) =~= Seq::<(String, String)>::empty());
    }
    None
}

/// The index a node identifier resolves to: the last node carrying it,
/// as a table built front to back would have it.
pub open spec fn spec_id_index(nodes: Seq<GraphNode>, id: Seq<char>) -> Option<int>
    decreases nodes.len(),
{
    if nodes.len() == 0 {
        Option::None
    } else if nodes.last().id@ == id {
        Option::Some(nodes.len() - 1)
    } else {
        spec_id_index(nodes.drop_last(), id)
    }
}

/// A resolved index lies within the node list.
pub proof fn lemma_id_index_range(nodes: Seq<GraphNode>, id: Seq<char>)
    ensures
        match spec_id_index(nodes, id) {
            Option::Some(j) => 0 <= j < nodes.len(),
            Option::None => true,
        },
    decreases nodes.len(),
{
    if nodes.len() > 0 && nodes.last().id@ != id {
        lemma_id_index_range(nodes.drop_last(), id);
    }
}

/// Find the node index an identifier resolves to.
fn find_node_index(nodes: &Vec<GraphNode>, id: &String) -> (r: Option<usize>)
    ensures
        match r {
            Option::Some(j) => spec_id_index(nodes@, id@) == Option::Some(j as int) && j
                < nodes.len(),
            Option::None => spec_id_index(nodes@, id@) is None,
        },
{
    let n = nodes.len();
    let mut found: Option<usize> = None;
    let mut i: usize = 0;
    while i < n
        invariant
            i <= n,
            n == nodes.len(),
            match found {
                Option::Some(j) => spec_id_index(nodes@.take(i as int), id@) == Option::Some(
                    j as int,
                ) && j < n,
                Option::None => spec_id_index(nodes@.take(i as int), id@) is None,
            },
        decreases n - i,
    {
        proof {
            assert(nodes@.take(i + 1).drop_last() =~= nodes@.take(i as int));
            assert(nodes@.take(i + 1).last() == nodes@[i as int]);
        }
        if nodes[i].id.eq(id) {
            found = Some(i);
        }
        i += 1;
    }
    proof {
        assert(nodes@.take(n as int) =~= nodes@);
    }
    found
}

/// How many link endpoints (source or target) carry an identifier.
pub open spec fn spec_endpoint_count(links: Seq<GraphLink>, id: Seq<char>) -> int
    decreases links.len(),
{
    if links.len() == 0 {
        0
    } else {
        spec_endpoint_count(links.drop_last(), id) + (if links.last().source@ == id {
            1int
        } else {
            0
        }) + (if links.last().target@ == id {
            1int
        } else {
            0
        })
    }
}

/// Endpoint counts are nonnegative and at most twice the link count.
pub proof fn lemma_endpoint_count_bounds(links: Seq<GraphLink>, id: Seq<char>)
    ensures
        0 <= spec_endpoint_count(links, id) <= 2 * links.len(),
    decreases links.len(),
{
    if links.len() > 0 {
        lemma_endpoint_count_bounds(links.drop_last(), id);
    }
}

/// Count the link endpoints carrying an identifier.
fn count_endpoints(links: &Vec<GraphLink>, id: &String) -> (r: u64)
    requires
        links.len() <= 1_000_000_000,
    ensures
        r == spec_endpoint_count(links@, id@),
{
    let n = links.len();
    let mut c: u64 = 0;
    let mut i: usize = 0;
    while i < n
        invariant
            i <= n,
            n == links.len(),
            n <= 1_000_000_000,
            c == spec_endpoint_count(links@.take(i as int), id@),
            c <= 2 * i,
        decreases n - i,
    {
        proof {
            assert(links@.take(i + 1).drop_last() =~= links@.take(i as int));
            assert(links@.take(i + 1).last() == links@[i as int]);
        }
        if links[i].source.eq(id) {
            c += 1;
        }
        if links[i].target.eq(id) {
            c += 1;
        }
        i += 1;
    }
    proof {
        assert(links@.take(n as int) =~= links@);
    }
    c
}

/// The largest endpoint count among the identifiers of the first `m`
/// links' endpoints.
pub open spec fn spec_max_count_upto(links: Seq<GraphLink>, m: int) -> int
    decreases m,
{
    if m <= 0 {
        0
    } else {
        let prev = spec_max_count_upto(links, m - 1);
        let c1 = spec_endpoint_count(links, links[m - 1].source@);
        let c2 = spec_endpoint_count(links, links[m - 1].target@);
        if c1 > prev && c1 >= c2 {
            c1
        } else if c2 > prev {
            c2
        } else {
            prev
        }
    }
}

/// The divisor of the connectivity ratio: the largest endpoint count,
/// and at least one.
pub open spec fn spec_max_edges(links: Seq<GraphLink>) -> int {
    let m = spec_max_count_upto(links, links.len() as int);
    if m < 1 {
        1
    } else {
        m
    }
}

/// The running maximum covers the counts of every endpoint already seen.
proof fn lemma_max_count_covers(links: Seq<GraphLink>, m: int, j: int)
    requires
        0 <= j < m <= links.len(),
    ensures
        spec_max_count_upto(links, m) >= spec_endpoint_count(links, links[j].source@),
        spec_max_count_upto(links, m) >= spec_endpoint_count(links, links[j].target@),
    decreases m,
{
    if j < m - 1 {
        lemma_max_count_covers(links, m - 1, j);
    }
}

/// A positive endpoint count names an endpoint of some link.
proof fn lemma_count_witness(links: Seq<GraphLink>, id: Seq<char>)
    requires
        spec_endpoint_count(links, id) > 0,
    ensures
        exists|j: int|
            0 <= j < links.len() && ((#[trigger] links[j]).source@ == id || links[j].target@ == id),
    decreases links.len(),
{
    let last = links.len() - 1;
    if links.last().source@ == id || links.last().target@ == id {
        assert(links[last].source@ == id || links[last].target@ == id);
    } else {
        lemma_count_witness(links.drop_last(), id);
        let j = choose|j: int|
            0 <= j < links.drop_last().len() && ((#[trigger] links.drop_last()[j]).source@ == id
                || links.drop_last()[j].target@ == id);
        assert(links[j].source@ == id || links[j].target@ == id);
    }
}

/// A node's endpoint count never exceeds the maximum endpoint count.
pub proof fn lemma_count_le_max(links: Seq<GraphLink>, id: Seq<char>)
    ensures
        spec_endpoint_count(links, id) <= spec_max_edges(links),
{
    lemma_endpoint_count_bounds(links, id);
    if spec_endpoint_count(links, id) > 0 {
        lemma_count_witness(links, id);
        let j = choose|j: int|
            0 <= j < links.len() && ((#[trigger] links[j]).source@ == id || links[j].target@ == id);
        lemma_max_count_covers(links, links.len() as int, j);
    }
}

/// The links whose endpoints both resolve, as index pairs in link order;
/// a link naming an unknown identifier is dropped.
pub open spec fn spec_resolved_links(nodes: Seq<GraphNode>, links: Seq<GraphLink>) -> Seq<
    (usize, usize),
>
    decreases links.len(),
{
    if links.len() == 0 {
        Seq::empty()
    } else {
        let rest = spec_resolved_links(nodes, links.drop_last());
        let l = links.last();
        match (spec_id_index(nodes, l.source@), spec_id_index(nodes, l.target@)) {
            (Option::Some(s), Option::Some(t)) => rest.push((s as usize, t as usize)),
            _ => rest,
        }
    }
}

/// Per-node display metadata attached to each node in the simulation.
pub struct NodeInfo {
    pub label: Option<String>,
    /// CSS color string for the node body.
    pub color: String,
    /// Size multiplier in micro-units (one is normal, larger is more
    /// important).
    pub size: u64,
}

/// Pan and zoom transform applied to the whole view: a translation in
/// micro-pixels and a zoom factor in micro-units, kept within
/// `[0.1, 10]`.
pub struct ViewTransform {
    pub x: i64,
    pub y: i64,
    pub k: u64,
}

/// The farthest the view translation may wander, in micro-pixels: a
/// hundred million pixels, at which panning saturates.
pub const TRANSLATION_LIMIT: i64 = 100_000_000_000_000;

/// The largest screen coordinate the interaction methods accept, in
/// micro-pixels: a million pixels.
pub const COORD_LIMIT: i64 = 1_000_000_000_000;

/// Tracks an in-progress node drag operation.
pub struct DragState {
    pub active: bool,
    pub node_idx: Option<usize>,
    pub start_x: i64,
    pub start_y: i64,
    pub node_start_x: i64,
    pub node_start_y: i64,
}

impl Default for DragState {
    /// No drag in progress.
    fn default() -> (r: DragState)
        ensures
            r == (DragState {
                active: false,
                node_idx: Option::None,
                start_x: 0,
                start_y: 0,
                node_start_x: 0,
                node_start_y: 0,
            }),
    {
        DragState {
            active: false,
            node_idx: None,
            start_x: 0,
            start_y: 0,
            node_start_x: 0,
            node_start_y: 0,
        }
    }
}

/// Tracks an in-progress canvas pan operation.
pub struct PanState {
    pub active: bool,
    pub start_x: i64,
    pub start_y: i64,
    pub transform_start_x: i64,
    pub transform_start_y: i64,
}

impl Default for PanState {
    /// No pan in progress.
    fn default() -> (r: PanState)
        ensures
            r == (PanState {
                active: false,
                start_x: 0,
                start_y: 0,
                transform_start_x: 0,
                transform_start_y: 0,
            }),
    {
        PanState { active: false, start_x: 0, start_y: 0, transform_start_x: 0, transform_start_y: 0 }
    }
}

/// The color a node displays: its own override first, then its group's
/// cluster color, then the palette color of its index.
pub open spec fn spec_node_color(
    node: GraphNode,
    idx: int,
    palette: Seq<crate::theme::Color>,
    cc: Seq<(String, String)>,
) -> Seq<char> {
    match node.color {
        Option::Some(c) => c@,
        Option::None => {
            let fallback = spec_css_rgb(palette[idx % palette.len() as int]);
            match node.group {
                Option::Some(g) => match spec_assoc(cc, g@) {
                    Option::Some(v) => v,
                    Option::None => fallback,
                },
                Option::None => fallback,
            }
        },
    }
}

/// The size multiplier of a node: labeled nodes run from 1.4 to 2.0,
/// unlabeled from 0.7 to 1.2, growing with the square root of the node's
/// share of the densest connectivity.
pub open spec fn spec_node_size(has_label: bool, links: Seq<GraphLink>, id: Seq<char>) -> int {
    let q = spec_endpoint_count(links, id) * 1_000_000_000_000 / spec_max_edges(links);
    let ef = spec_isqrt(q);
    if has_label {
        1_400_000 + 600_000 * ef / 1_000_000
    } else {
        700_000 + 500_000 * ef / 1_000_000
    }
}

/// Core graph view state: per-node display metadata, resolved edges, the
/// pan/zoom transform, interaction tracking and highlight state.
///
/// The physics layout engine owns the node positions; it hands them in
/// as plain coordinate pairs indexed like [`ForceGraphState::nodes`].
pub struct ForceGraphState {
    /// Display metadata, indexed by node handle.
    pub nodes: Vec<NodeInfo>,
    pub transform: ViewTransform,
    pub drag: DragState,
    pub pan: PanState,
    pub highlight: HighlightState,
    /// Canvas width in micro-pixels.
    pub width: u64,
    /// Canvas height in micro-pixels.
    pub height: u64,
    pub animation_running: bool,
    /// Accumulated animation time in micro-seconds; saturates at the
    /// point where the flow animation would outlive its arithmetic.
    pub flow_time: u64,
    /// Resolved edges as node index pairs.
    pub edges: Vec<(usize, usize)>,
}

/// The ceiling of the animation clock, in micro-seconds (eleven days).
pub const FLOW_TIME_LIMIT: u64 = 1_000_000_000_000;

impl ForceGraphState {
    /// Highlight slots track the nodes, edges stay in range, the
    /// transform and canvas stay within their working bounds.
    pub open spec fn wf(self) -> bool {
        &&& self.highlight.wf()
        &&& self.highlight.slots() == self.nodes.len()
        &&& forall|j: int|
            0 <= j < self.edges.len() ==> (#[trigger] self.edges[j]).0 < self.nodes.len()
                && self.edges[j].1 < self.nodes.len()
        &&& 100_000 <= self.transform.k <= 10_000_000
        &&& -TRANSLATION_LIMIT <= self.transform.x <= TRANSLATION_LIMIT
        &&& -TRANSLATION_LIMIT <= self.transform.y <= TRANSLATION_LIMIT
        &&& 1_000_000 <= self.width <= crate::scale::MAX_SIZE
        &&& 1_000_000 <= self.height <= crate::scale::MAX_SIZE
        &&& self.flow_time <= FLOW_TIME_LIMIT
        &&& forall|i: int| 0 <= i < self.nodes.len() ==> (#[trigger] self.nodes[i]).size <= 10_000_000
        &&& -COORD_LIMIT <= self.drag.start_x <= COORD_LIMIT
        &&& -COORD_LIMIT <= self.drag.start_y <= COORD_LIMIT
        &&& -COORD_LIMIT <= self.drag.node_start_x <= COORD_LIMIT
        &&& -COORD_LIMIT <= self.drag.node_start_y <= COORD_LIMIT
        &&& -COORD_LIMIT <= self.pan.start_x <= COORD_LIMIT
        &&& -COORD_LIMIT <= self.pan.start_y <= COORD_LIMIT
        &&& -TRANSLATION_LIMIT <= self.pan.transform_start_x <= TRANSLATION_LIMIT
        &&& -TRANSLATION_LIMIT <= self.pan.transform_start_y <= TRANSLATION_LIMIT
    }

    /// Build the view state for a graph under the stock cluster colors.
    pub fn new(data: &GraphData, width: u64, height: u64, theme: &Theme) -> (r: ForceGraphState)
        requires
            theme.wf(),
            1_000_000 <= width <= crate::scale::MAX_SIZE,
            1_000_000 <= height <= crate::scale::MAX_SIZE,
            data.links.len() <= 1_000_000_000,
        ensures
            r.wf(),
            r.nodes.len() == data.nodes.len(),
            r.edges@ == spec_resolved_links(data.nodes@, data.links@),
    {
        let colors = default_cluster_colors();
        Self::new_with_colors(data, width, height, theme, &colors)
    }

    /// Build the view state for a graph: resolve every link to node
    /// indices (dropping those naming unknown identifiers), choose each
    /// node's color and connectivity-scaled size, and start with the
    /// view centered, unzoomed and idle.
    pub fn new_with_colors(
        data: &GraphData,
        width: u64,
        height: u64,
        theme: &Theme,
        cluster_colors: &Vec<(String, String)>,
    ) -> (r: ForceGraphState)
        requires
            theme.wf(),
            1_000_000 <= width <= crate::scale::MAX_SIZE,
            1_000_000 <= height <= crate::scale::MAX_SIZE,
            data.links.len() <= 1_000_000_000,
        ensures
            r.wf(),
            r.nodes.len() == data.nodes.len(),
            forall|i: int|
                0 <= i < data.nodes.len() ==> {
                    let n = #[trigger] r.nodes[i];
                    &&& n.label == data.nodes[i].label
                    &&& n.color@ == spec_node_color(
                        data.nodes[i],
                        i,
                        theme.palette.colors@,
                        cluster_colors@,
                    )
                    &&& n.size == spec_node_size(
                        data.nodes[i].label is Some,
                        data.links@,
                        data.nodes[i].id@,
                    )
                },
            r.edges@ == spec_resolved_links(data.nodes@, data.links@),
            r.transform == (ViewTransform { x: (width / 2) as i64, y: (height / 2) as i64, k: UNIT }),
            r.drag == (DragState {
                active: false,
                node_idx: Option::None,
                start_x: 0,
                start_y: 0,
                node_start_x: 0,
                node_start_y: 0,
            }),
            r.pan == (PanState {
                active: false,
                start_x: 0,
                start_y: 0,
                transform_start_x: 0,
                transform_start_y: 0,
            }),
            r.highlight.hovered_node is None,
            r.highlight.slots() == data.nodes.len(),
            r.highlight.cached_max == 0,
            forall|i: int| 0 <= i < data.nodes.len() ==> r.highlight.node_intensity[i] == 0,
            forall|i: int| 0 <= i < data.nodes.len() ==> r.highlight.hover_ring_intensity[i] == 0,
            forall|i: int| 0 <= i < data.nodes.len() ==> !r.highlight.target_set[i],
            r.width == width,
            r.height == height,
            r.animation_running,
            r.flow_time == 0,
    {
        // the densest connectivity any endpoint reaches, floored at one
        let nlinks = data.links.len();
        let mut max_count: u64 = 0;
        let mut j: usize = 0;
        while j < nlinks
            invariant
                j <= nlinks,
                nlinks == data.links.len(),
                nlinks <= 1_000_000_000,
                max_count == spec_max_count_upto(data.links@, j as int),
            decreases nlinks - j,
        {
            let c1 = count_endpoints(&data.links, &data.links[j].source);
            let c2 = count_endpoints(&data.links, &data.links[j].target);
            if c1 > max_count && c1 >= c2 {
                max_count = c1;
            } else if c2 > max_count {
                max_count = c2;
            }
            j += 1;
        }
        let max_edges = if max_count < 1 {
            1
        } else {
            max_count
        };
        proof {
            assert(max_edges == spec_max_edges(data.links@));
        }

        let nnodes = data.nodes.len();
        let mut nodes: Vec<NodeInfo> = Vec::new();
        let mut i: usize = 0;
        while i < nnodes
            invariant
                i <= nnodes,
                nnodes == data.nodes.len(),
                nlinks == data.links.len(),
                nlinks <= 1_000_000_000,
                theme.wf(),
                max_edges == spec_max_edges(data.links@),
                max_edges >= 1,
                nodes.len() == i,
                forall|t: int|
                    0 <= t < i ==> {
                        let n = #[trigger] nodes[t];
                        &&& n.label == data.nodes[t].label
                        &&& n.color@ == spec_node_color(
                            data.nodes[t],
                            t,
                            theme.palette.colors@,
                            cluster_colors@,
                        )
                        &&& n.size == spec_node_size(
                            data.nodes[t].label is Some,
                            data.links@,
                            data.nodes[t].id@,
                        )
                        &&& n.size <= 10_000_000
                    },
            decreases nnodes - i,
        {
            let node = &data.nodes[i];
            let color: String = match &node.color {
                Some(c) => c.clone(),
                None => {
                    let fallback_needed = match &node.group {
                        Some(g) => assoc_color(cluster_colors, g),
                        None => None,
                    };
                    match (&node.group, fallback_needed) {
                        (Some(_), Some(c)) => c.clone(),
                        _ => theme.palette.get(i).to_css_rgb(),
                    }
                },
            };
            let ne = count_endpoints(&data.links, &node.id);
            proof {
                lemma_count_le_max(data.links@, node.id@);
                if ne > 0 {
                    vstd::arithmetic::mul::lemma_mul_inequality(
                        ne as int,
                        max_edges as int,
                        1_000_000_000_000,
                    );
                    vstd::arithmetic::div_mod::lemma_div_is_ordered(
                        ne * 1_000_000_000_000,
                        max_edges * 1_000_000_000_000,
                        max_edges as int,
                    );
                    assert(max_edges * 1_000_000_000_000 == (max_edges as int) * (
                    1_000_000_000_000 as int)) by (nonlinear_arith);
                    vstd::arithmetic::div_mod::lemma_div_multiples_vanish(
                        1_000_000_000_000,
                        max_edges as int,
                    );
                } else {
                    vstd::arithmetic::div_mod::lemma_div_of0(max_edges as int);
                    assert(0 * 1_000_000_000_000 == 0) by (nonlinear_arith);
                }
                vstd::arithmetic::mul::lemma_mul_nonnegative(ne as int, 1_000_000_000_000);
                vstd::arithmetic::div_mod::lemma_div_pos_is_pos(
                    ne * 1_000_000_000_000,
                    max_edges as int,
                );
            }
            let q = mul_div(ne, 1_000_000_000_000, max_edges);
            let ef = crate::fixed::isqrt(q);
            proof {
                assert(ef <= 1_000_000) by (nonlinear_arith)
                    requires
                        ef * ef <= 1_000_000_000_000,
                        ef >= 0,
                ;
                lemma_factor_fraction_bound(600_000, ef as int);
                lemma_factor_fraction_bound(500_000, ef as int);
            }
            let size = if node.label.is_some() {
                1_400_000 + mul_div(600_000, ef, UNIT)
            } else {
                700_000 + mul_div(500_000, ef, UNIT)
            };
            let label = match &node.label {
                Some(l) => Some(l.clone()),
                None => None,
            };
            nodes.push(NodeInfo { label, color, size });
            i += 1;
        }

        let mut edges: Vec<(usize, usize)> = Vec::new();
        let mut l: usize = 0;
        while l < nlinks
            invariant
                l <= nlinks,
                nlinks == data.links.len(),
                nnodes == data.nodes.len(),
                edges@ == spec_resolved_links(data.nodes@, data.links@.take(l as int)),
                forall|e: int|
                    0 <= e < edges.len() ==> (#[trigger] edges[e]).0 < nnodes && edges[e].1 < nnodes,
            decreases nlinks - l,
        {
            proof {
                assert(data.links@.take(l + 1).drop_last() =~= data.links@.take(l as int));
                assert(data.links@.take(l + 1).last() == data.links@[l as int]);
            }
            let link = &data.links[l];
            let src = find_node_index(&data.nodes, &link.source);
            let tgt = find_node_index(&data.nodes, &link.target);
            match (src, tgt) {
                (Some(s), Some(t)) => {
                    edges.push((s, t));
                },
                _ => {},
            }
            l += 1;
        }
        proof {
            assert(data.links@.take(nlinks as int) =~= data.links@);
        }

        let highlight = HighlightState::new(nnodes);
        ForceGraphState {
            nodes,
            edges,
            transform: ViewTransform { x: (width / 2) as i64, y: (height / 2) as i64, k: UNIT },
            drag: DragState::default(),
            pan: PanState::default(),
            highlight,
            width,
            height,
            animation_running: true,
            flow_time: 0,
        }
    }
}

/// A fraction of a micro-unit factor stays within the fraction.
proof fn lemma_factor_fraction_bound(frac: int, ef: int)
    requires
        0 <= frac <= 1_000_000,
        0 <= ef <= 1_000_000,
    ensures
        0 <= frac * ef / 1_000_000 <= frac,
{
    vstd::arithmetic::mul::lemma_mul_inequality(ef, 1_000_000, frac);
    assert(ef * frac == frac * ef) by (nonlinear_arith);
    assert(1_000_000 * frac == frac * 1_000_000) by (nonlinear_arith);
    vstd::arithmetic::div_mod::lemma_div_is_ordered(frac * ef, frac * 1_000_000, 1_000_000);
    vstd::arithmetic::div_mod::lemma_div_multiples_vanish(frac, 1_000_000);
    vstd::arithmetic::mul::lemma_mul_nonnegative(frac, ef);
    vstd::arithmetic::div_mod::lemma_div_pos_is_pos(frac * ef, 1_000_000);
}

/// The graph-space point under a screen point: the translation removed,
/// the zoom divided out.
pub open spec fn spec_screen_to_graph(t: ViewTransform, sx: int, sy: int) -> (int, int) {
    (tdiv((sx - t.x) * 1_000_000, t.k as int), tdiv((sy - t.y) * 1_000_000, t.k as int))
}

/// The hit scan over the first `m` nodes: the last node whose scaled hit
/// circle covers the graph-space point.
pub open spec fn spec_node_at_upto(
    nodes: Seq<NodeInfo>,
    positions: Seq<(i64, i64)>,
    gx: int,
    gy: int,
    hit_radius: int,
    m: int,
) -> Option<int>
    decreases m,
{
    if m <= 0 {
        Option::None
    } else {
        let i = m - 1;
        let hit = hit_radius * nodes[i].size / 1_000_000;
        let dx = positions[i].0 - gx;
        let dy = positions[i].1 - gy;
        if dx * dx + dy * dy < hit * hit {
            Option::Some(i)
        } else {
            spec_node_at_upto(nodes, positions, gx, gy, hit_radius, m - 1)
        }
    }
}

/// Screen coordinates and node positions the interaction methods accept.
pub open spec fn coords_ok(positions: Seq<(i64, i64)>) -> bool {
    forall|i: int|
        0 <= i < positions.len() ==> -COORD_LIMIT <= (#[trigger] positions[i]).0 <= COORD_LIMIT
            && -COORD_LIMIT <= positions[i].1 <= COORD_LIMIT
}

impl ForceGraphState {
    /// The graph-space point under a screen point, at the current pan
    /// and zoom.
    pub fn screen_to_graph(&self, sx: i64, sy: i64) -> (r: (i64, i64))
        requires
            self.wf(),
            -COORD_LIMIT <= sx <= COORD_LIMIT,
            -COORD_LIMIT <= sy <= COORD_LIMIT,
        ensures
            r.0 == spec_screen_to_graph(self.transform, sx as int, sy as int).0,
            r.1 == spec_screen_to_graph(self.transform, sx as int, sy as int).1,
            -10_100_000_000_000_000 <= r.0 <= 10_100_000_000_000_000,
            -10_100_000_000_000_000 <= r.1 <= 10_100_000_000_000_000,
    {
        proof {
            lemma_view_quotient(sx as int, self.transform.x as int, self.transform.k as int);
            lemma_view_quotient(sy as int, self.transform.y as int, self.transform.k as int);
        }
        let gx = mul_div_signed(sx - self.transform.x, UNIT, self.transform.k);
        let gy = mul_div_signed(sy - self.transform.y, UNIT, self.transform.k);
        (gx, gy)
    }

    /// The node under a screen point, if any: the last node, in handle
    /// order, whose zoom-scaled hit circle covers it.
    pub fn node_at_position(
        &self,
        sx: i64,
        sy: i64,
        config: &crate::scale::ScaleConfig,
        positions: &Vec<(i64, i64)>,
    ) -> (r: Option<usize>)
        requires
            self.wf(),
            config.wf(),
            positions.len() == self.nodes.len(),
            coords_ok(positions@),
            -COORD_LIMIT <= sx <= COORD_LIMIT,
            -COORD_LIMIT <= sy <= COORD_LIMIT,
        ensures
            ({
                let g = spec_screen_to_graph(self.transform, sx as int, sy as int);
                let hr = crate::scale::spec_scale(
                    config.node.hit_behavior,
                    config.node.hit_radius as int,
                    self.transform.k as int,
                );
                match r {
                    Option::Some(u) => spec_node_at_upto(
                        self.nodes@,
                        positions@,
                        g.0,
                        g.1,
                        hr,
                        self.nodes.len() as int,
                    ) == Option::Some(u as int) && u < self.nodes.len(),
                    Option::None => spec_node_at_upto(
                        self.nodes@,
                        positions@,
                        g.0,
                        g.1,
                        hr,
                        self.nodes.len() as int,
                    ) is None,
                }
            }),
    {
        let (gx, gy) = self.screen_to_graph(sx, sy);
        let scale = crate::scale::ScaledValues::new(config, self.transform.k);
        let hr = scale.hit_radius;
        proof {
            lemma_scaled_size_bound(
                config.node.hit_behavior,
                config.node.hit_radius as int,
                self.transform.k as int,
            );
        }
        let n = self.nodes.len();
        let mut found: Option<usize> = None;
        let mut i: usize = 0;
        while i < n
            invariant
                i <= n,
                n == self.nodes.len(),
                positions.len() == n,
                self.wf(),
                coords_ok(positions@),
                0 <= hr <= 100_000_000_000_000,
                -10_100_000_000_000_000 <= gx <= 10_100_000_000_000_000,
                -10_100_000_000_000_000 <= gy <= 10_100_000_000_000_000,
                match found {
                    Option::Some(u) => spec_node_at_upto(
                        self.nodes@,
                        positions@,
                        gx as int,
                        gy as int,
                        hr as int,
                        i as int,
                    ) == Option::Some(u as int) && u < n,
                    Option::None => spec_node_at_upto(
                        self.nodes@,
                        positions@,
                        gx as int,
                        gy as int,
                        hr as int,
                        i as int,
                    ) is None,
                },
            decreases n - i,
        {
            proof {
                vstd::arithmetic::mul::lemma_mul_nonnegative(
                    hr as int,
                    self.nodes[i as int].size as int,
                );
                lemma_factor_scaled_bound(hr as int, self.nodes[i as int].size as int);
            }
            let hit = mul_div(hr, self.nodes[i].size, UNIT);
            let dx = (positions[i].0 as i128) - (gx as i128);
            let dy = (positions[i].1 as i128) - (gy as i128);
            proof {
                assert(dx * dx <= 200_000_000_000_000_000_000_000_000_000_000)
                    by (nonlinear_arith)
                    requires
                        -11_200_000_000_000_000 <= dx <= 11_200_000_000_000_000,
                ;
                assert(dy * dy <= 200_000_000_000_000_000_000_000_000_000_000)
                    by (nonlinear_arith)
                    requires
                        -11_200_000_000_000_000 <= dy <= 11_200_000_000_000_000,
                ;
                assert(dx * dx >= 0 && dy * dy >= 0) by (nonlinear_arith);
                assert((hit as i128) * (hit as i128) <= 0x7fff_ffff_ffff_ffff_ffff_ffff_ffff)
                    by (nonlinear_arith)
                    requires
                        0 <= hit <= 1_000_000_000_000_000,
                ;
            }
            let dd = dx * dx + dy * dy;
            let hh = (hit as i128) * (hit as i128);
            if dd < hh {
                found = Some(i);
            }
            i += 1;
        }
        found
    }
}

/// The magnitude bound of the view-space quotient in
/// [`ForceGraphState::screen_to_graph`].
proof fn lemma_view_quotient(s: int, t: int, k: int)
    requires
        -COORD_LIMIT <= s <= COORD_LIMIT,
        -TRANSLATION_LIMIT <= t <= TRANSLATION_LIMIT,
        100_000 <= k <= 10_000_000,
    ensures
        -10_100_000_000_000_000 <= tdiv((s - t) * 1_000_000, k) <= 10_100_000_000_000_000,
{
    assert(-(10_100_000_000_000_000 * k) <= (s - t) * 1_000_000 <= 10_100_000_000_000_000 * k)
        by (nonlinear_arith)
        requires
            -101_000_000_000_000 <= s - t <= 101_000_000_000_000,
            100_000 <= k,
    ;
    crate::fixed::lemma_tdiv_quotient_bound((s - t) * 1_000_000, k, 10_100_000_000_000_000);
}

/// A scale behavior applied at a working zoom stays under a hundred
/// million pixels.
pub proof fn lemma_scaled_size_bound(b: crate::scale::ScaleBehavior, base: int, k: int)
    requires
        b.wf(),
        0 <= base <= crate::scale::MAX_SIZE,
        100_000 <= k <= 10_000_000,
    ensures
        0 <= crate::scale::spec_scale(b, base, k) <= 100_000_000_000_000,
{
    match b {
        crate::scale::ScaleBehavior::World => {},
        crate::scale::ScaleBehavior::Screen => {
            lemma_screen_quotient_bound(base, k);
        },
        crate::scale::ScaleBehavior::Clamped { min_screen, max_screen } => {
            lemma_screen_quotient_bound(min_screen as int, k);
            match max_screen {
                Option::Some(mx) => {
                    lemma_screen_quotient_bound(mx as int, k);
                },
                Option::None => {},
            }
        },
    }
}

/// A screen size divided by a working zoom stays under a hundred
/// million pixels.
pub proof fn lemma_screen_quotient_bound(base: int, k: int)
    requires
        0 <= base <= crate::scale::MAX_SIZE,
        100_000 <= k <= 10_000_000,
    ensures
        0 <= base * 1_000_000 / k <= 100_000_000_000_000,
{
    vstd::arithmetic::mul::lemma_mul_nonnegative(base, 1_000_000);
    vstd::arithmetic::div_mod::lemma_div_pos_is_pos(base * 1_000_000, k);
    assert(base * 1_000_000 <= 100_000_000_000_000 * k) by (nonlinear_arith)
        requires
            0 <= base <= 1_000_000_000_000,
            100_000 <= k,
    ;
    crate::fixed::lemma_tdiv_quotient_bound(base * 1_000_000, k, 100_000_000_000_000);
}

/// A hit radius under a hundred million pixels, scaled by a node size
/// multiplier of at most ten, stays within `u64` after the division.
proof fn lemma_factor_scaled_bound(hr: int, size: int)
    requires
        0 <= hr <= 100_000_000_000_000,
        0 <= size <= 10_000_000,
    ensures
        0 <= hr * size / 1_000_000 <= 1_000_000_000_000_000,
{
    assert(hr * size <= 1_000_000_000_000_000 * 1_000_000) by (nonlinear_arith)
        requires
            0 <= hr <= 100_000_000_000_000,
            0 <= size <= 10_000_000,
    ;
    vstd::arithmetic::mul::lemma_mul_nonnegative(hr, size);
    vstd::arithmetic::div_mod::lemma_div_pos_is_pos(hr * size, 1_000_000);
    vstd::arithmetic::div_mod::lemma_div_is_ordered(
        hr * size,
        (1_000_000_000_000_000 * 1_000_000) as int,
        1_000_000,
    );
    assert((1_000_000_000_000_000 * 1_000_000) as int / 1_000_000 == 1_000_000_000_000_000)
        by (nonlinear_arith);
}

impl ForceGraphState {
    /// Update the hovered node: the highlight target set becomes the
    /// node and its neighbours along the resolved edges.
    pub fn set_hover(&mut self, node: Option<usize>)
        requires
            old(self).wf(),
            match node {
                Option::Some(h) => h < old(self).nodes.len(),
                Option::None => true,
            },
        ensures
            final(self).wf(),
            *final(self) == (ForceGraphState { highlight: final(self).highlight, ..*old(self) }),
            final(self).highlight.node_intensity == old(self).highlight.node_intensity,
            final(self).highlight.hover_ring_intensity == old(self).highlight.hover_ring_intensity,
            final(self).highlight.cached_max == old(self).highlight.cached_max,
            old(self).highlight.hovered_node == node ==> final(self).highlight == old(
                self,
            ).highlight,
            old(self).highlight.hovered_node != node ==> {
                &&& final(self).highlight.hovered_node == node
                &&& forall|i: int|
                    0 <= i < old(self).nodes.len() ==> final(self).highlight.target_set[i]
                        == spec_in_target(node, i, old(self).edges@)
                &&& forall|i: int|
                    0 <= i < old(self).nodes.len() ==> final(self).highlight.hold_timer[i]
                        == if spec_in_target(node, i, old(self).edges@) {
                        MIN_HOLD_TIME as int
                    } else {
                        old(self).highlight.hold_timer[i] as int
                    }
            },
    {
        let edges = &self.edges;
        self.highlight.set_hover(node, edges);
    }

    /// Advance the animation clock and the highlight transitions by `dt`
    /// micro-seconds. The caller supplies the step's eased fractions, in
    /// micro-units: the fade-in factor `1 - e^(-6 dt)` and the fade-out
    /// decay `e^(-4 dt)`. The clock saturates at its ceiling.
    pub fn tick(&mut self, dt: u64, fade_in_factor: u64, fade_out_decay: u64)
        requires
            old(self).wf(),
            fade_in_factor <= UNIT,
            fade_out_decay <= UNIT,
        ensures
            final(self).wf(),
            *final(self) == (ForceGraphState {
                flow_time: final(self).flow_time,
                highlight: final(self).highlight,
                ..*old(self)
            }),
            final(self).flow_time == if old(self).flow_time + dt <= FLOW_TIME_LIMIT {
                old(self).flow_time + dt
            } else {
                FLOW_TIME_LIMIT as int
            },
            final(self).highlight.hovered_node == old(self).highlight.hovered_node,
            final(self).highlight.target_set == old(self).highlight.target_set,
            forall|i: int|
                0 <= i < old(self).nodes.len() ==> final(self).highlight.hold_timer[i]
                    == spec_hold_after(old(self).highlight, dt as int, i),
            forall|i: int|
                0 <= i < old(self).nodes.len() ==> final(self).highlight.node_intensity[i]
                    == spec_intensity_after(
                    old(self).highlight,
                    dt as int,
                    fade_in_factor as int,
                    fade_out_decay as int,
                    i,
                ),
            forall|i: int|
                0 <= i < old(self).nodes.len() ==> final(self).highlight.hover_ring_intensity[i]
                    == spec_ring_after(
                    old(self).highlight,
                    dt as int,
                    fade_in_factor as int,
                    fade_out_decay as int,
                    i,
                ),
            final(self).highlight.cached_max == spec_max_raw(
                old(self).highlight,
                dt as int,
                fade_in_factor as int,
                fade_out_decay as int,
                old(self).nodes.len() as int,
            ),
    {
        self.flow_time = if dt <= FLOW_TIME_LIMIT && self.flow_time <= FLOW_TIME_LIMIT - dt {
            self.flow_time + dt
        } else {
            FLOW_TIME_LIMIT
        };
        self.highlight.tick(dt, fade_in_factor, fade_out_decay);
    }

    /// Adopt a new canvas size.
    pub fn resize(&mut self, width: u64, height: u64)
        requires
            old(self).wf(),
            1_000_000 <= width <= crate::scale::MAX_SIZE,
            1_000_000 <= height <= crate::scale::MAX_SIZE,
        ensures
            final(self).wf(),
            *final(self) == (ForceGraphState { width, height, ..*old(self) }),
    {
        self.width = width;
        self.height = height;
    }

    /// A press on a node begins dragging it; a press on empty space
    /// begins panning the view.
    pub fn on_pointer_down(
        &mut self,
        x: i64,
        y: i64,
        config: &crate::scale::ScaleConfig,
        positions: &Vec<(i64, i64)>,
    )
        requires
            old(self).wf(),
            config.wf(),
            positions.len() == old(self).nodes.len(),
            coords_ok(positions@),
            -COORD_LIMIT <= x <= COORD_LIMIT,
            -COORD_LIMIT <= y <= COORD_LIMIT,
        ensures
            final(self).wf(),
            *final(self) == (ForceGraphState {
                drag: final(self).drag,
                pan: final(self).pan,
                ..*old(self)
            }),
            ({
                let g = spec_screen_to_graph(old(self).transform, x as int, y as int);
                let hr = crate::scale::spec_scale(
                    config.node.hit_behavior,
                    config.node.hit_radius as int,
                    old(self).transform.k as int,
                );
                match spec_node_at_upto(
                    old(self).nodes@,
                    positions@,
                    g.0,
                    g.1,
                    hr,
                    old(self).nodes.len() as int,
                ) {
                    Option::Some(idx) => final(self).pan == old(self).pan && final(self).drag == (
                    DragState {
                        active: true,
                        node_idx: Option::Some(idx as usize),
                        start_x: x as i64,
                        start_y: y as i64,
                        node_start_x: positions[idx].0,
                        node_start_y: positions[idx].1,
                    }),
                    Option::None => final(self).drag == old(self).drag && final(self).pan == (
                    PanState {
                        active: true,
                        start_x: x as i64,
                        start_y: y as i64,
                        transform_start_x: old(self).transform.x,
                        transform_start_y: old(self).transform.y,
                    }),
                }
            }),
    {
        let hit = self.node_at_position(x, y, config, positions);
        match hit {
            Some(idx) => {
                self.drag = DragState {
                    active: true,
                    node_idx: Some(idx),
                    start_x: x,
                    start_y: y,
                    node_start_x: positions[idx].0,
                    node_start_y: positions[idx].1,
                };
            },
            None => {
                self.pan = PanState {
                    active: true,
                    start_x: x,
                    start_y: y,
                    transform_start_x: self.transform.x,
                    transform_start_y: self.transform.y,
                };
            },
        }
    }

    /// A pointer move: outside a drag it refreshes the hover highlight;
    /// during a drag it asks the caller to pin the dragged node at the
    /// returned graph-space position; during a pan it moves the view,
    /// saturating at the translation bound.
    pub fn on_pointer_move(
        &mut self,
        x: i64,
        y: i64,
        config: &crate::scale::ScaleConfig,
        positions: &Vec<(i64, i64)>,
    ) -> (r: Option<(usize, i64, i64)>)
        requires
            old(self).wf(),
            config.wf(),
            positions.len() == old(self).nodes.len(),
            coords_ok(positions@),
            -COORD_LIMIT <= x <= COORD_LIMIT,
            -COORD_LIMIT <= y <= COORD_LIMIT,
        ensures
            final(self).wf(),
            *final(self) == (ForceGraphState {
                highlight: final(self).highlight,
                transform: final(self).transform,
                ..*old(self)
            }),
            old(self).drag.active ==> final(self).highlight == old(self).highlight,
            ({
                let drag = old(self).drag;
                let pan = old(self).pan;
                let k = old(self).transform.k as int;
                if drag.active {
                    match drag.node_idx {
                        Option::Some(idx) => r == Option::Some(
                            (
                                idx,
                                (drag.node_start_x + tdiv((x - drag.start_x) * 1_000_000, k)) as i64,
                                (drag.node_start_y + tdiv((y - drag.start_y) * 1_000_000, k)) as i64,
                            ),
                        ) && final(self).transform == old(self).transform,
                        Option::None => r is None && final(self).transform == old(self).transform,
                    }
                } else if pan.active {
                    r is None && final(self).transform == (ViewTransform {
                        x: spec_clamp(
                            pan.transform_start_x + (x - pan.start_x),
                            -TRANSLATION_LIMIT as int,
                            TRANSLATION_LIMIT as int,
                        ) as i64,
                        y: spec_clamp(
                            pan.transform_start_y + (y - pan.start_y),
                            -TRANSLATION_LIMIT as int,
                            TRANSLATION_LIMIT as int,
                        ) as i64,
                        k: old(self).transform.k,
                    })
                } else {
                    r is None && final(self).transform == old(self).transform
                }
            }),
    {
        if !self.drag.active {
            let hovered = self.node_at_position(x, y, config, positions);
            self.set_hover(hovered);
        }
        if self.drag.active {
            if let Some(idx) = self.drag.node_idx {
                proof {
                    lemma_drag_delta(x as int, self.drag.start_x as int, self.transform.k as int);
                    lemma_drag_delta(y as int, self.drag.start_y as int, self.transform.k as int);
                }
                let dx = mul_div_signed(x - self.drag.start_x, UNIT, self.transform.k);
                let dy = mul_div_signed(y - self.drag.start_y, UNIT, self.transform.k);
                let nx = self.drag.node_start_x + dx;
                let ny = self.drag.node_start_y + dy;
                return Some((idx, nx, ny));
            }
            return None;
        }
        if self.pan.active {
            let tx = clamp_i(
                self.pan.transform_start_x + (x - self.pan.start_x),
                -TRANSLATION_LIMIT,
                TRANSLATION_LIMIT,
            );
            let ty = clamp_i(
                self.pan.transform_start_y + (y - self.pan.start_y),
                -TRANSLATION_LIMIT,
                TRANSLATION_LIMIT,
            );
            self.transform = ViewTransform { x: tx, y: ty, k: self.transform.k };
        }
        None
    }

    /// Release the pointer: an active node drag ends and the caller is
    /// told which node to leave anchored; any pan ends too.
    pub fn on_pointer_up(&mut self) -> (r: Option<usize>)
        requires
            old(self).wf(),
        ensures
            final(self).wf(),
            *final(self) == (ForceGraphState {
                drag: final(self).drag,
                pan: final(self).pan,
                ..*old(self)
            }),
            r == if old(self).drag.active {
                old(self).drag.node_idx
            } else {
                Option::<usize>::None
            },
            final(self).drag == (DragState {
                active: false,
                node_idx: Option::None,
                ..old(self).drag
            }),
            final(self).pan == (PanState { active: false, ..old(self).pan }),
    {
        let r = if self.drag.active {
            self.drag.node_idx
        } else {
            None
        };
        self.drag.active = false;
        self.drag.node_idx = None;
        self.pan.active = false;
        r
    }

    /// The pointer left the canvas: every gesture ends and the hover
    /// highlight clears.
    pub fn on_pointer_leave(&mut self)
        requires
            old(self).wf(),
        ensures
            final(self).wf(),
            *final(self) == (ForceGraphState {
                drag: final(self).drag,
                pan: final(self).pan,
                highlight: final(self).highlight,
                ..*old(self)
            }),
            final(self).drag == (DragState {
                active: false,
                node_idx: Option::None,
                ..old(self).drag
            }),
            final(self).pan == (PanState { active: false, ..old(self).pan }),
            final(self).highlight.hovered_node is None,
            final(self).highlight.node_intensity == old(self).highlight.node_intensity,
            final(self).highlight.hover_ring_intensity == old(self).highlight.hover_ring_intensity,
            old(self).highlight.hovered_node is Some ==> forall|i: int|
                0 <= i < final(self).nodes.len() ==> !final(self).highlight.target_set[i],
    {
        self.drag.active = false;
        self.drag.node_idx = None;
        self.pan.active = false;
        self.set_hover(None);
    }

    /// Zoom about the cursor: the zoom factor moves a tenth up or down,
    /// clamped into `[0.1, 10]`, and the translation follows so that the
    /// point under the cursor stays put (saturating at the translation
    /// bound).
    pub fn on_wheel(&mut self, x: i64, y: i64, zoom_in: bool)
        requires
            old(self).wf(),
            -COORD_LIMIT <= x <= COORD_LIMIT,
            -COORD_LIMIT <= y <= COORD_LIMIT,
        ensures
            final(self).wf(),
            *final(self) == (ForceGraphState { transform: final(self).transform, ..*old(self) }),
            ({
                let k = old(self).transform.k as int;
                let factor: int = if zoom_in {
                    1_100_000
                } else {
                    900_000
                };
                let new_k = spec_clamp(k * factor / 1_000_000, 100_000, 10_000_000);
                let ratio = new_k * 1_000_000 / k;
                &&& final(self).transform.k == new_k
                &&& final(self).transform.x == spec_clamp(
                    x - tdiv((x - old(self).transform.x) * ratio, 1_000_000),
                    -TRANSLATION_LIMIT as int,
                    TRANSLATION_LIMIT as int,
                )
                &&& final(self).transform.y == spec_clamp(
                    y - tdiv((y - old(self).transform.y) * ratio, 1_000_000),
                    -TRANSLATION_LIMIT as int,
                    TRANSLATION_LIMIT as int,
                )
            }),
    {
        let factor: u64 = if zoom_in {
            1_100_000
        } else {
            900_000
        };
        let k = self.transform.k;
        proof {
            vstd::arithmetic::mul::lemma_mul_nonnegative(k as int, factor as int);
            vstd::arithmetic::div_mod::lemma_div_pos_is_pos(k * factor, 1_000_000);
            assert(k * factor <= 11_000_000 * 1_000_000) by (nonlinear_arith)
                requires
                    k <= 10_000_000,
                    factor <= 1_100_000,
            ;
            vstd::arithmetic::div_mod::lemma_div_is_ordered(
                k * factor,
                (11_000_000 * 1_000_000) as int,
                1_000_000,
            );
            assert((11_000_000 * 1_000_000) as int / 1_000_000 == 11_000_000) by (nonlinear_arith);
        }
        let scaled = mul_div(k, factor, UNIT);
        let new_k = crate::fixed::clamp(scaled, 100_000, 10_000_000);
        proof {
            vstd::arithmetic::mul::lemma_mul_nonnegative(new_k as int, 1_000_000);
            vstd::arithmetic::div_mod::lemma_div_pos_is_pos(new_k * 1_000_000, k as int);
            assert(new_k * 1_000_000 <= 100_000_000 * k) by (nonlinear_arith)
                requires
                    new_k <= 10_000_000,
                    k >= 100_000,
            ;
            crate::fixed::lemma_tdiv_quotient_bound(new_k * 1_000_000, k as int, 100_000_000);
        }
        let ratio = mul_div(new_k, UNIT, k);
        proof {
            lemma_zoom_translation(x as int, self.transform.x as int, ratio as int);
            lemma_zoom_translation(y as int, self.transform.y as int, ratio as int);
        }
        let dx = mul_div_signed(x - self.transform.x, ratio, UNIT);
        let dy = mul_div_signed(y - self.transform.y, ratio, UNIT);
        let tx = clamp_i(x - dx, -TRANSLATION_LIMIT, TRANSLATION_LIMIT);
        let ty = clamp_i(y - dy, -TRANSLATION_LIMIT, TRANSLATION_LIMIT);
        self.transform = ViewTransform { x: tx, y: ty, k: new_k };
    }
}

/// The magnitude bound of the drag delta quotient.
proof fn lemma_drag_delta(x: int, sx: int, k: int)
    requires
        -COORD_LIMIT <= x <= COORD_LIMIT,
        -COORD_LIMIT <= sx <= COORD_LIMIT,
        100_000 <= k <= 10_000_000,
    ensures
        -20_000_000_000_000_000 <= tdiv((x - sx) * 1_000_000, k) <= 20_000_000_000_000_000,
{
    assert(-(20_000_000_000_000_000 * k) <= (x - sx) * 1_000_000 <= 20_000_000_000_000_000 * k)
        by (nonlinear_arith)
        requires
            -2_000_000_000_000 <= x - sx <= 2_000_000_000_000,
            100_000 <= k,
    ;
    crate::fixed::lemma_tdiv_quotient_bound((x - sx) * 1_000_000, k, 20_000_000_000_000_000);
}

/// The magnitude bound of the zoom-about-cursor translation term.
proof fn lemma_zoom_translation(x: int, t: int, ratio: int)
    requires
        -COORD_LIMIT <= x <= COORD_LIMIT,
        -TRANSLATION_LIMIT <= t <= TRANSLATION_LIMIT,
        0 <= ratio <= 100_000_000,
    ensures
        -10_100_000_000_000_000 <= tdiv((x - t) * ratio, 1_000_000)
            <= 10_100_000_000_000_000,
{
    assert(-(10_100_000_000_000_000 * 1_000_000) <= (x - t) * ratio <= 10_100_000_000_000_000
        * 1_000_000) by (nonlinear_arith)
        requires
            -101_000_000_000_000 <= x - t <= 101_000_000_000_000,
            0 <= ratio <= 100_000_000,
    ;
    crate::fixed::lemma_tdiv_quotient_bound((x - t) * ratio, 1_000_000, 10_100_000_000_000_000);
}

} // verus!
