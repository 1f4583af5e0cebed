//! The simulation state the rendering engine reads each frame.

use vstd::prelude::*;
use crate::fixed::{FULL_TURN, SCALE};

verus! {

/// Largest magnitude, in sub-pixel units, allowed for a coordinate of the
/// atom geometry (32000 pixels).
pub const MAX_COORD: i64 = 32_000_000;

/// Largest window dimension, in pixels, the compositor accepts.
pub const MAX_DIM: i32 = 16384;

/// Largest magnitude accepted for a window position coordinate, in pixels.
pub const MAX_POS: i32 = 1_000_000;

/// Bound on the magnitude of a computed electron position coordinate,
/// in sub-pixel units.
pub const EPOS_BOUND: i64 = 96_000_000;

/// Simulation state, owned by the caller and read by the engine on every
/// render call.
///
/// Lengths (`atom_center`, `radius`, `orbit_foci`) are in sub-pixel units
/// of 1/`SCALE` pixel; angles (`electron_phases`, `angle_per_frame`) are
/// in units of 1/`FULL_TURN` turn; `window_size` and `window_pos` are in
/// whole pixels.
pub struct Memory {
    /// Centre of the atom, in window-local sub-pixel coordinates.
    pub atom_center: (i64, i64),
    /// Semi-major axis of every orbit ellipse, in sub-pixel units.
    pub radius: i64,
    /// One stored focus per orbit; the second focus is the reflection of
    /// the first through `atom_center`.
    pub orbit_foci: Vec<(i64, i64)>,
    /// One phase per orbit, in angle units.
    pub electron_phases: Vec<i64>,
    /// Angular speed shared by all orbits, in angle units per frame.
    pub angle_per_frame: i64,
    /// Animation clock, advanced by the caller.
    pub frame_count: u32,
    /// Size of the destination window, in pixels.
    pub window_size: (i32, i32),
    /// Screen position of the destination window, in pixels.
    pub window_pos: (i32, i32),
}

impl Memory {
    /// Squared distance from the atom centre to the stored focus of
    /// orbit `i`, in squared sub-pixel units.
    pub open spec fn focus_dist_sq(&self, i: int) -> int {
        let fx = self.orbit_foci@[i].0;
        let fy = self.orbit_foci@[i].1;
        let cx = self.atom_center.0;
        let cy = self.atom_center.1;
        (fx - cx) * (fx - cx) + (fy - cy) * (fy - cy)
    }

    /// Well-formedness: every focus lies strictly between the centre and
    /// the circle of radius `radius` around it, each orbit has a phase,
    /// and everything is small enough for the fixed-point arithmetic.
    pub open spec fn wf(&self) -> bool {
        &&& 0 < self.radius <= MAX_COORD
        &&& -MAX_COORD <= self.atom_center.0 <= MAX_COORD
        &&& -MAX_COORD <= self.atom_center.1 <= MAX_COORD
        &&& self.orbit_foci@.len() == self.electron_phases@.len()
        &&& forall|i: int|
            0 <= i < self.orbit_foci@.len() ==> {
                &&& -MAX_COORD <= #[trigger] self.orbit_foci@[i].0 <= MAX_COORD
                &&& -MAX_COORD <= self.orbit_foci@[i].1 <= MAX_COORD
                &&& 0 < self.focus_dist_sq(i) <= self.radius * self.radius
            }
        &&& forall|i: int|
            0 <= i < self.electron_phases@.len() ==> 0 <= #[trigger] self.electron_phases@[i]
                < FULL_TURN
        &&& 0 <= self.angle_per_frame <= FULL_TURN
        &&& 0 <= self.window_size.0 <= MAX_DIM
        &&& 0 <= self.window_size.1 <= MAX_DIM
        &&& -MAX_POS <= self.window_pos.0 <= MAX_POS
        &&& -MAX_POS <= self.window_pos.1 <= MAX_POS
    }
}

impl Default for Memory {
    /// The demo configuration: a 320x320 window with three orbits.
    fn default() -> (m: Memory)
        ensures
            m.wf(),
            m.atom_center == (160_000i64, 160_000i64),
            m.radius == 100 * SCALE,
            m.orbit_foci@ == seq![
                (160_000i64, 250_000i64),
                (238_000i64, 205_000i64),
                (238_000i64, 115_000i64),
            ],
            m.electron_phases@ == seq![0i64, 196i64, 391i64],
            m.angle_per_frame == 65i64,
            m.frame_count == 0u32,
            m.window_size == (320i32, 320i32),
            m.window_pos == (100i32, 100i32),
    {
        let m = Memory {
            atom_center: (160_000, 160_000),
            radius: 100_000,
            orbit_foci: vec![(160_000, 250_000), (238_000, 205_000), (238_000, 115_000)],
            electron_phases: vec![0, 196, 391],
            angle_per_frame: 65,
            frame_count: 0,
            window_size: (320, 320),
            window_pos: (100, 100),
        };
        proof {
            assert(m.orbit_foci@.len() == 3);
            assert(m.orbit_foci@[0] == (160_000i64, 250_000i64));
            assert(m.orbit_foci@[1] == (238_000i64, 205_000i64));
            assert(m.orbit_foci@[2] == (238_000i64, 115_000i64));
            assert forall|i: int| 0 <= i < m.orbit_foci@.len() implies {
                &&& -MAX_COORD <= #[trigger] m.orbit_foci@[i].0 <= MAX_COORD
                &&& -MAX_COORD <= m.orbit_foci@[i].1 <= MAX_COORD
                &&& 0 < m.focus_dist_sq(i) <= m.radius * m.radius
            } by {
                if i == 0 {
                    assert(0 < m.focus_dist_sq(0) <= m.radius * m.radius) by (nonlinear_arith)
                        requires
                            m.focus_dist_sq(0) == (160_000 - 160_000) * (160_000 - 160_000) + (
                            250_000 - 160_000) * (250_000 - 160_000),
                            m.radius == 100_000i64,
                    ;
                } else if i == 1 {
                    assert(0 < m.focus_dist_sq(1) <= m.radius * m.radius) by (nonlinear_arith)
                        requires
                            m.focus_dist_sq(1) == (238_000 - 160_000) * (238_000 - 160_000) + (
                            205_000 - 160_000) * (205_000 - 160_000),
                            m.radius == 100_000i64,
                    ;
                } else {
                    assert(0 < m.focus_dist_sq(2) <= m.radius * m.radius) by (nonlinear_arith)
                        requires
                            m.focus_dist_sq(2) == (238_000 - 160_000) * (238_000 - 160_000) + (
                            115_000 - 160_000) * (115_000 - 160_000),
                            m.radius == 100_000i64,
                    ;
                }
            }
        }
        m
    }
}

} // verus!
