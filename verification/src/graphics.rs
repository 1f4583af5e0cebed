//! The geometry model and the frame compositor.

use vstd::prelude::*;
use crate::data_struct::{Memory, EPOS_BOUND, MAX_COORD};
use crate::fixed::{
    cosine, cosine_fixed, div_trunc, isqrt, lemma_sine_bounds, lemma_sine_period,
    lemma_sqrt_floor_bounds, lemma_sqrt_floor_of_square, lemma_tdiv_bound, sine, sine_fixed,
    sqrt_floor, tdiv, FULL_TURN, QUARTER_TURN, SCALE,
};
use vstd::arithmetic::div_mod::{
    lemma_fundamental_div_mod, lemma_fundamental_div_mod_converse, lemma_mod_multiples_basic,
};
use vstd::arithmetic::mul::lemma_mul_inequality;

verus! {

/// Euclidean distance from the nucleus centre, in sub-pixel units,
/// below which a pixel is part of the nucleus (20 pixels).
pub const NUCLEUS_RADIUS: i64 = 20 * SCALE;

/// Euclidean distance from an electron position, in sub-pixel units,
/// below which a pixel is part of that electron (3.5 pixels).
pub const ELECTRON_RADIUS: i64 = 3500;

/// What the geometry model decides a pixel is, in strict priority
/// order: nucleus beats electron beats orbit; `Transparent` means the
/// pixel shows the captured background.
#[derive(Clone, Copy, PartialEq, Eq, Structural, Debug)]
pub enum Classification {
    Nucleus,
    Electron,
    Orbit,
    Transparent,
}

/// Squared Euclidean distance between two points.
pub open spec fn dist_sq(ax: int, ay: int, bx: int, by: int) -> int {
    (ax - bx) * (ax - bx) + (ay - by) * (ay - by)
}

/// Is the point within `NUCLEUS_RADIUS` of the atom centre?
pub open spec fn in_nucleus(m: &Memory, x: int, y: int) -> bool {
    dist_sq(x, y, m.atom_center.0 as int, m.atom_center.1 as int) < NUCLEUS_RADIUS
        * NUCLEUS_RADIUS
}

/// Is the point within `ELECTRON_RADIUS` of one of the given electron
/// positions?
pub open spec fn in_electron(positions: Seq<(i64, i64)>, x: int, y: int) -> bool {
    exists|j: int|
        0 <= j < positions.len() && dist_sq(
            x,
            y,
            positions[j].0 as int,
            positions[j].1 as int,
        ) < ELECTRON_RADIUS * ELECTRON_RADIUS
}

/// Sum of the distances (rounded down) from the point to the two foci
/// of orbit `i`; the second focus is the reflection of the stored one
/// through the atom centre.
pub open spec fn orbit_dist_sum(m: &Memory, i: int, x: int, y: int) -> int {
    let fx = m.orbit_foci@[i].0 as int;
    let fy = m.orbit_foci@[i].1 as int;
    let gx = 2 * (m.atom_center.0 as int) - fx;
    let gy = 2 * (m.atom_center.1 as int) - fy;
    sqrt_floor(dist_sq(x, y, fx, fy)) + sqrt_floor(dist_sq(x, y, gx, gy))
}

/// Is the point inside the two-pixel-wide band around some orbit
/// ellipse?  The true ellipse locus has distance sum exactly
/// `2 * radius`; the band admits sums strictly within one pixel of it.
pub open spec fn in_orbit(m: &Memory, x: int, y: int) -> bool {
    exists|i: int|
        0 <= i < m.orbit_foci@.len() && 2 * m.radius - SCALE < #[trigger] orbit_dist_sum(
            m,
            i,
            x,
            y,
        ) < 2 * m.radius + SCALE
}

/// The classification of a point, tested in strict priority order.
pub open spec fn classify(m: &Memory, positions: Seq<(i64, i64)>, x: int, y: int) -> Classification {
    if in_nucleus(m, x, y) {
        Classification::Nucleus
    } else if in_electron(positions, x, y) {
        Classification::Electron
    } else if in_orbit(m, x, y) {
        Classification::Orbit
    } else {
        Classification::Transparent
    }
}

/// The fixed colour of each classification: opaque red, opaque blue,
/// opaque mid-gray, or transparent black.
pub open spec fn color_of(c: Classification) -> (u8, u8, u8, u8) {
    match c {
        Classification::Nucleus => (255u8, 0u8, 0u8, 255u8),
        Classification::Electron => (0u8, 127u8, 255u8, 255u8),
        Classification::Orbit => (127u8, 127u8, 127u8, 255u8),
        Classification::Transparent => (0u8, 0u8, 0u8, 0u8),
    }
}

/// Is the point, in sub-pixel coordinates, part of the nucleus?
pub fn on_nucleus(x: i64, y: i64, memory: &Memory) -> (r: bool)
    requires
        memory.wf(),
        -MAX_COORD <= x <= MAX_COORD,
        -MAX_COORD <= y <= MAX_COORD,
    ensures
        r == in_nucleus(memory, x as int, y as int),
{
    let dx = memory.atom_center.0 - x;
    let dy = memory.atom_center.1 - y;
    proof {
        assert(dx * dx + dy * dy == dist_sq(
            x as int,
            y as int,
            memory.atom_center.0 as int,
            memory.atom_center.1 as int,
        ) && 0 <= dx * dx <= 64_000_000 * 64_000_000 && 0 <= dy * dy <= 64_000_000 * 64_000_000)
            by (nonlinear_arith)
            requires
                -64_000_000 <= dx <= 64_000_000,
                -64_000_000 <= dy <= 64_000_000,
                dx == memory.atom_center.0 - x,
                dy == memory.atom_center.1 - y,
                dist_sq(x as int, y as int, memory.atom_center.0 as int, memory.atom_center.1 as int)
                    == (x - memory.atom_center.0) * (x - memory.atom_center.0) + (y
                    - memory.atom_center.1) * (y - memory.atom_center.1),
        ;
    }
    dx * dx + dy * dy < NUCLEUS_RADIUS * NUCLEUS_RADIUS
}

/// Is the point, in sub-pixel coordinates, part of one of the given
/// electrons?
pub fn on_electron(x: i64, y: i64, elec_pos: &Vec<(i64, i64)>) -> (r: bool)
    requires
        -MAX_COORD <= x <= MAX_COORD,
        -MAX_COORD <= y <= MAX_COORD,
        forall|j: int|
            0 <= j < elec_pos@.len() ==> -EPOS_BOUND <= #[trigger] elec_pos@[j].0 <= EPOS_BOUND
                && -EPOS_BOUND <= elec_pos@[j].1 <= EPOS_BOUND,
    ensures
        r == in_electron(elec_pos@, x as int, y as int),
{
    let n = elec_pos.len();
    let mut j: usize = 0;
    while j < n
        invariant
            0 <= j <= n,
            n == elec_pos@.len(),
            -MAX_COORD <= x <= MAX_COORD,
            -MAX_COORD <= y <= MAX_COORD,
            forall|k: int|
                0 <= k < elec_pos@.len() ==> -EPOS_BOUND <= #[trigger] elec_pos@[k].0 <= EPOS_BOUND
                    && -EPOS_BOUND <= elec_pos@[k].1 <= EPOS_BOUND,
            forall|k: int|
                0 <= k < j ==> !(dist_sq(
                    x as int,
                    y as int,
                    #[trigger] elec_pos@[k].0 as int,
                    elec_pos@[k].1 as int,
                ) < ELECTRON_RADIUS * ELECTRON_RADIUS),
        decreases n - j,
    {
        let ex = elec_pos[j].0;
        let ey = elec_pos[j].1;
        let dx = ex - x;
        let dy = ey - y;
        proof {
            assert(dx * dx + dy * dy == dist_sq(x as int, y as int, ex as int, ey as int) && 0
                <= dx * dx <= 128_000_000 * 128_000_000 && 0 <= dy * dy <= 128_000_000
                * 128_000_000) by (nonlinear_arith)
                requires
                    -128_000_000 <= dx <= 128_000_000,
                    -128_000_000 <= dy <= 128_000_000,
                    dx == ex - x,
                    dy == ey - y,
                    dist_sq(x as int, y as int, ex as int, ey as int) == (x - ex) * (x - ex) + (y
                        - ey) * (y - ey),
            ;
        }
        if dx * dx + dy * dy < ELECTRON_RADIUS * ELECTRON_RADIUS {
            return true;
        }
        j += 1;
    }
    false
}

/// Is the point, in sub-pixel coordinates, inside the band around one
/// of the orbit ellipses?
pub fn on_ellipse(x: i64, y: i64, memory: &Memory) -> (r: bool)
    requires
        memory.wf(),
        -MAX_COORD <= x <= MAX_COORD,
        -MAX_COORD <= y <= MAX_COORD,
    ensures
        r == in_orbit(memory, x as int, y as int),
{
    let rad_min = 2 * memory.radius - SCALE;
    let rad_max = 2 * memory.radius + SCALE;
    let n = memory.orbit_foci.len();
    let mut i: usize = 0;
    while i < n
        invariant
            0 <= i <= n,
            n == memory.orbit_foci@.len(),
            memory.wf(),
            -MAX_COORD <= x <= MAX_COORD,
            -MAX_COORD <= y <= MAX_COORD,
            rad_min == 2 * memory.radius - SCALE,
            rad_max == 2 * memory.radius + SCALE,
            forall|k: int|
                0 <= k < i ==> !(2 * memory.radius - SCALE < #[trigger] orbit_dist_sum(
                    memory,
                    k,
                    x as int,
                    y as int,
                ) < 2 * memory.radius + SCALE),
        decreases n - i,
    {
        let fx = memory.orbit_foci[i].0;
        let fy = memory.orbit_foci[i].1;
        let gx = 2 * memory.atom_center.0 - fx;
        let gy = 2 * memory.atom_center.1 - fy;
        let dx1 = fx - x;
        let dy1 = fy - y;
        let dx2 = gx - x;
        let dy2 = gy - y;
        proof {
            assert(dx1 * dx1 + dy1 * dy1 == dist_sq(x as int, y as int, fx as int, fy as int) && 0
                <= dx1 * dx1 <= 128_000_000 * 128_000_000 && 0 <= dy1 * dy1 <= 128_000_000
                * 128_000_000) by (nonlinear_arith)
                requires
                    -128_000_000 <= dx1 <= 128_000_000,
                    -128_000_000 <= dy1 <= 128_000_000,
                    dx1 == fx - x,
                    dy1 == fy - y,
                    dist_sq(x as int, y as int, fx as int, fy as int) == (x - fx) * (x - fx) + (y
                        - fy) * (y - fy),
            ;
            assert(dx2 * dx2 + dy2 * dy2 == dist_sq(x as int, y as int, gx as int, gy as int) && 0
                <= dx2 * dx2 <= 128_000_000 * 128_000_000 && 0 <= dy2 * dy2 <= 128_000_000
                * 128_000_000) by (nonlinear_arith)
                requires
                    -128_000_000 <= dx2 <= 128_000_000,
                    -128_000_000 <= dy2 <= 128_000_000,
                    dx2 == gx - x,
                    dy2 == gy - y,
                    dist_sq(x as int, y as int, gx as int, gy as int) == (x - gx) * (x - gx) + (y
                        - gy) * (y - gy),
            ;
        }
        let d1 = isqrt((dx1 * dx1 + dy1 * dy1) as u64);
        let d2 = isqrt((dx2 * dx2 + dy2 * dy2) as u64);
        let sum_dists = (d1 as i64) + (d2 as i64);
        if rad_min < sum_dists && sum_dists < rad_max {
            proof {
                assert(orbit_dist_sum(memory, i as int, x as int, y as int) == sum_dists);
            }
            return true;
        }
        i += 1;
    }
    false
}

/// The animation angle of orbit `i` for the current frame, in angle
/// units.
pub open spec fn orbit_angle(m: &Memory, i: int) -> int {
    (m.angle_per_frame as int) * (m.frame_count as int) + m.electron_phases@[i]
}

/// The displacement, in sub-pixel units, from the atom centre to the
/// first electron of orbit `i`.
///
/// The stored focus fixes the ellipse's axes: the semi-major axis of
/// length `radius` points from the centre to the focus, and the
/// semi-minor axis, of length `sqrt(radius^2 - |focus - centre|^2)`,
/// is that direction rotated a quarter turn counter-clockwise.  The
/// electron sits at `minor * cos(angle) + major * sin(angle)` from the
/// centre.
pub open spec fn orbit_displacement(m: &Memory, i: int) -> (int, int) {
    let cx = m.atom_center.0 as int;
    let cy = m.atom_center.1 as int;
    let fx = m.orbit_foci@[i].0 as int;
    let fy = m.orbit_foci@[i].1 as int;
    let dx = fx - cx;
    let dy = fy - cy;
    let dsq = dx * dx + dy * dy;
    let dist = sqrt_floor(dsq);
    let hw = sqrt_floor((m.radius as int) * (m.radius as int) - dsq);
    let lx = tdiv(dx * (m.radius as int), dist);
    let ly = tdiv(dy * (m.radius as int), dist);
    let wx = tdiv(-dy * hw, dist);
    let wy = tdiv(dx * hw, dist);
    let cv = cosine_fixed(orbit_angle(m, i));
    let sv = sine_fixed(orbit_angle(m, i));
    (tdiv(wx * cv + lx * sv, SCALE as int), tdiv(wy * cv + ly * sv, SCALE as int))
}

/// Electron `j` of the frame: electrons `2i` and `2i + 1` occupy
/// antipodal points of orbit `i`.
pub open spec fn electron_pos(m: &Memory, j: int) -> (int, int) {
    let cx = m.atom_center.0 as int;
    let cy = m.atom_center.1 as int;
    let d = orbit_displacement(m, j / 2);
    if j % 2 == 0 {
        (cx + d.0, cy + d.1)
    } else {
        (cx - d.0, cy - d.1)
    }
}

/// An orbit displacement never exceeds twice the radius in magnitude.
pub proof fn lemma_orbit_displacement_bound(m: &Memory, i: int)
    requires
        m.wf(),
        0 <= i < m.orbit_foci@.len(),
    ensures
        -2 * m.radius <= orbit_displacement(m, i).0 <= 2 * m.radius,
        -2 * m.radius <= orbit_displacement(m, i).1 <= 2 * m.radius,
{
    let cx = m.atom_center.0 as int;
    let cy = m.atom_center.1 as int;
    let fx = m.orbit_foci@[i].0 as int;
    let fy = m.orbit_foci@[i].1 as int;
    let dx = fx - cx;
    let dy = fy - cy;
    let dsq = dx * dx + dy * dy;
    let r = m.radius as int;
    assert(dsq == m.focus_dist_sq(i));
    lemma_sqrt_floor_bounds(dsq);
    let dist = sqrt_floor(dsq);
    assert(dist >= 1) by (nonlinear_arith)
        requires
            dist >= 0,
            dsq >= 1,
            dsq < (dist + 1) * (dist + 1),
    ;
    assert(dx * dx >= 0 && dy * dy >= 0) by (nonlinear_arith);
    assert(-dist <= dx <= dist && -dist <= dy <= dist) by (nonlinear_arith)
        requires
            dx * dx <= dsq,
            dy * dy <= dsq,
            dsq < (dist + 1) * (dist + 1),
            dist >= 0,
            dx * dx + dy * dy == dsq,
    ;
    lemma_sqrt_floor_bounds(r * r - dsq);
    let hw = sqrt_floor(r * r - dsq);
    assert(hw <= r) by (nonlinear_arith)
        requires
            hw >= 0,
            r > 0,
            hw * hw <= r * r - dsq,
            dsq >= 0,
    ;
    assert(-(dist * r) <= dx * r <= dist * r && -(dist * r) <= dy * r <= dist * r && -(dist * hw)
        <= -dy * hw <= dist * hw && -(dist * hw) <= dx * hw <= dist * hw) by (nonlinear_arith)
        requires
            -dist <= dx <= dist,
            -dist <= dy <= dist,
            r >= 0,
            hw >= 0,
            dist >= 1,
    ;
    lemma_tdiv_bound(dx * r, dist, r);
    lemma_tdiv_bound(dy * r, dist, r);
    lemma_tdiv_bound(-dy * hw, dist, hw);
    lemma_tdiv_bound(dx * hw, dist, hw);
    let lx = tdiv(dx * r, dist);
    let ly = tdiv(dy * r, dist);
    let wx = tdiv(-dy * hw, dist);
    let wy = tdiv(dx * hw, dist);
    let cv = cosine_fixed(orbit_angle(m, i));
    let sv = sine_fixed(orbit_angle(m, i));
    lemma_sine_bounds(orbit_angle(m, i) + QUARTER_TURN);
    lemma_sine_bounds(orbit_angle(m, i));
    assert(-(r * 1000) <= wx * cv <= r * 1000 && -(r * 1000) <= lx * sv <= r * 1000 && -(r * 1000)
        <= wy * cv <= r * 1000 && -(r * 1000) <= ly * sv <= r * 1000) by (nonlinear_arith)
        requires
            -r <= wx <= r,
            -r <= lx <= r,
            -r <= wy <= r,
            -r <= ly <= r,
            -1000 <= cv <= 1000,
            -1000 <= sv <= 1000,
            r > 0,
    ;
    assert(1000 * (2 * r) == 2 * r * 1000) by (nonlinear_arith);
    lemma_tdiv_bound(wx * cv + lx * sv, 1000, 2 * r);
    lemma_tdiv_bound(wy * cv + ly * sv, 1000, 2 * r);
}

/// An electron position coordinate never exceeds `EPOS_BOUND` in
/// magnitude.
pub proof fn lemma_electron_pos_bound(m: &Memory, j: int)
    requires
        m.wf(),
        0 <= j < 2 * m.orbit_foci@.len(),
    ensures
        -EPOS_BOUND <= electron_pos(m, j).0 <= EPOS_BOUND,
        -EPOS_BOUND <= electron_pos(m, j).1 <= EPOS_BOUND,
{
    assert(0 <= j / 2 < m.orbit_foci@.len());
    lemma_orbit_displacement_bound(m, j / 2);
}

/// Compute the two electron positions of every orbit for the current
/// frame, in sub-pixel coordinates: electrons `2i` and `2i + 1` sit at
/// antipodal points of orbit `i`.
pub fn compute_electrons_positions(memory: &Memory) -> (res: Vec<(i64, i64)>)
    requires
        memory.wf(),
    ensures
        res@.len() == 2 * memory.orbit_foci@.len(),
        forall|j: int|
            0 <= j < res@.len() ==> (#[trigger] res@[j].0 as int, res@[j].1 as int)
                == electron_pos(memory, j),
        forall|j: int|
            0 <= j < res@.len() ==> -EPOS_BOUND <= #[trigger] res@[j].0 <= EPOS_BOUND && -EPOS_BOUND
                <= res@[j].1 <= EPOS_BOUND,
{
    let n = memory.orbit_foci.len();
    let mut res: Vec<(i64, i64)> = Vec::new();
    let mut i: usize = 0;
    while i < n
        invariant
            memory.wf(),
            n == memory.orbit_foci@.len(),
            0 <= i <= n,
            res@.len() == 2 * i,
            forall|j: int|
                0 <= j < res@.len() ==> (#[trigger] res@[j].0 as int, res@[j].1 as int)
                    == electron_pos(memory, j),
            forall|j: int|
                0 <= j < res@.len() ==> -EPOS_BOUND <= #[trigger] res@[j].0 <= EPOS_BOUND
                    && -EPOS_BOUND <= res@[j].1 <= EPOS_BOUND,
        decreases n - i,
    {
        let ghost ii = i as int;
        let cx = memory.atom_center.0;
        let cy = memory.atom_center.1;
        let fx = memory.orbit_foci[i].0;
        let fy = memory.orbit_foci[i].1;
        let dx = fx - cx;
        let dy = fy - cy;
        proof {
            assert(0 <= dx * dx <= 64_000_000 * 64_000_000 && 0 <= dy * dy <= 64_000_000
                * 64_000_000) by (nonlinear_arith)
                requires
                    -64_000_000 <= dx <= 64_000_000,
                    -64_000_000 <= dy <= 64_000_000,
            ;
            assert(dx * dx + dy * dy == memory.focus_dist_sq(ii));
        }
        let dsq = dx * dx + dy * dy;
        let dist = isqrt(dsq as u64) as i64;
        proof {
            lemma_sqrt_floor_bounds(dsq as int);
            assert(dist >= 1) by (nonlinear_arith)
                requires
                    dist >= 0,
                    dsq >= 1,
                    dsq < (dist + 1) * (dist + 1),
            ;
            assert(-dist <= dx <= dist && -dist <= dy <= dist) by (nonlinear_arith)
                requires
                    dx * dx <= dsq,
                    dy * dy <= dsq,
                    dsq < (dist + 1) * (dist + 1),
                    dist >= 0,
            ;
            assert(1 <= memory.radius * memory.radius <= 32_000_000 * 32_000_000)
                by (nonlinear_arith)
                requires
                    0 < memory.radius <= 32_000_000,
            ;
        }
        let rsq = memory.radius * memory.radius;
        let hsq = rsq - dsq;
        let hw = isqrt(hsq as u64) as i64;
        proof {
            lemma_sqrt_floor_bounds(hsq as int);
            assert(hw <= memory.radius) by (nonlinear_arith)
                requires
                    hw >= 0,
                    memory.radius > 0,
                    hw * hw <= memory.radius * memory.radius - dsq,
                    dsq >= 0,
            ;
            assert(-(dist * memory.radius) <= dx * memory.radius <= dist * memory.radius && -(dist
                * memory.radius) <= dy * memory.radius <= dist * memory.radius && -(dist * hw) <= (
            -dy) * hw <= dist * hw && -(dist * hw) <= dx * hw <= dist * hw && -3_000_000_000_000_000
                <= dx * memory.radius <= 3_000_000_000_000_000 && -3_000_000_000_000_000 <= dy
                * memory.radius <= 3_000_000_000_000_000 && -3_000_000_000_000_000 <= (-dy) * hw
                <= 3_000_000_000_000_000 && -3_000_000_000_000_000 <= dx * hw
                <= 3_000_000_000_000_000) by (nonlinear_arith)
                requires
                    -dist <= dx <= dist,
                    -dist <= dy <= dist,
                    -64_000_000 <= dx <= 64_000_000,
                    -64_000_000 <= dy <= 64_000_000,
                    0 < memory.radius <= 32_000_000,
                    0 <= hw <= memory.radius,
                    dist >= 1,
            ;
        }
        let lx = div_trunc(dx * memory.radius, dist);
        let ly = div_trunc(dy * memory.radius, dist);
        let wx = div_trunc((-dy) * hw, dist);
        let wy = div_trunc(dx * hw, dist);
        proof {
            lemma_tdiv_bound(dx * memory.radius, dist as int, memory.radius as int);
            lemma_tdiv_bound(dy * memory.radius, dist as int, memory.radius as int);
            lemma_tdiv_bound((-dy) * hw, dist as int, hw as int);
            lemma_tdiv_bound(dx * hw, dist as int, hw as int);
            assert(0 <= memory.angle_per_frame * (memory.frame_count as i64) <= 4096
                * 4_294_967_296) by (nonlinear_arith)
                requires
                    0 <= memory.angle_per_frame <= 4096,
                    0 <= (memory.frame_count as i64) < 4_294_967_296,
            ;
        }
        let phase = memory.electron_phases[i];
        let ang = memory.angle_per_frame * (memory.frame_count as i64) + phase;
        let cv = cosine(ang);
        let sv = sine(ang);
        proof {
            assert(ang == orbit_angle(memory, ii));
            assert(-(memory.radius * 1000) <= wx * cv <= memory.radius * 1000 && -(memory.radius
                * 1000) <= lx * sv <= memory.radius * 1000 && -(memory.radius * 1000) <= wy * cv
                <= memory.radius * 1000 && -(memory.radius * 1000) <= ly * sv <= memory.radius
                * 1000) by (nonlinear_arith)
                requires
                    -memory.radius <= wx <= memory.radius,
                    -memory.radius <= lx <= memory.radius,
                    -memory.radius <= wy <= memory.radius,
                    -memory.radius <= ly <= memory.radius,
                    -1000 <= cv <= 1000,
                    -1000 <= sv <= 1000,
                    memory.radius > 0,
            ;
        }
        let numx = wx * cv + lx * sv;
        let numy = wy * cv + ly * sv;
        let dpx = div_trunc(numx, SCALE);
        let dpy = div_trunc(numy, SCALE);
        proof {
            assert(1000 * (2 * memory.radius) == 2 * (memory.radius * 1000)) by (nonlinear_arith);
            lemma_tdiv_bound(numx as int, 1000, 2 * memory.radius);
            lemma_tdiv_bound(numy as int, 1000, 2 * memory.radius);
        }
        let ex1 = cx + dpx;
        let ey1 = cy + dpy;
        let ex2 = cx - dpx;
        let ey2 = cy - dpy;
        res.push((ex1, ey1));
        res.push((ex2, ey2));
        proof {
            assert(orbit_displacement(memory, ii) == (dpx as int, dpy as int));
            assert((2 * ii) % 2 == 0 && (2 * ii) / 2 == ii && (2 * ii + 1) % 2 == 1 && (2 * ii + 1)
                / 2 == ii);
            assert(electron_pos(memory, 2 * ii) == (ex1 as int, ey1 as int));
            assert(electron_pos(memory, 2 * ii + 1) == (ex2 as int, ey2 as int));
        }
        i += 1;
    }
    res
}

/// Classify the point `(x, y)`, in sub-pixel coordinates, in strict
/// priority order: nucleus first, then electron, then orbit band.
pub fn classify_at(x: i64, y: i64, memory: &Memory, elec_pos: &Vec<(i64, i64)>) -> (c:
    Classification)
    requires
        memory.wf(),
        -MAX_COORD <= x <= MAX_COORD,
        -MAX_COORD <= y <= MAX_COORD,
        forall|j: int|
            0 <= j < elec_pos@.len() ==> -EPOS_BOUND <= #[trigger] elec_pos@[j].0 <= EPOS_BOUND
                && -EPOS_BOUND <= elec_pos@[j].1 <= EPOS_BOUND,
    ensures
        c == classify(memory, elec_pos@, x as int, y as int),
{
    if on_nucleus(x, y, memory) {
        Classification::Nucleus
    } else if on_electron(x, y, elec_pos) {
        Classification::Electron
    } else if on_ellipse(x, y, memory) {
        Classification::Orbit
    } else {
        Classification::Transparent
    }
}

/// The colour of the pixel `(x, y)` (in whole window-local pixels):
/// the fixed colour of its classification.
pub fn color_at(x: i32, y: i32, memory: &Memory, elec_pos: &Vec<(i64, i64)>) -> (c: (u8, u8, u8, u8))
    requires
        memory.wf(),
        -32_000 <= x <= 32_000,
        -32_000 <= y <= 32_000,
        forall|j: int|
            0 <= j < elec_pos@.len() ==> -EPOS_BOUND <= #[trigger] elec_pos@[j].0 <= EPOS_BOUND
                && -EPOS_BOUND <= elec_pos@[j].1 <= EPOS_BOUND,
    ensures
        c == color_of(classify(memory, elec_pos@, SCALE * x, SCALE * y)),
{
    let xs = (x as i64) * SCALE;
    let ys = (y as i64) * SCALE;
    match classify_at(xs, ys, memory, elec_pos) {
        Classification::Nucleus => (255, 0, 0, 255),
        Classification::Electron => (0, 127, 255, 255),
        Classification::Orbit => (127, 127, 127, 255),
        Classification::Transparent => (0, 0, 0, 0),
    }
}

/// One pixel of the captured background, without padding.
#[derive(Clone, Copy, PartialEq, Eq, Structural, Debug)]
pub struct Rgb {
    pub r: u8,
    pub g: u8,
    pub b: u8,
}

/// The most recent captured background frame, addressed in absolute
/// screen coordinates.
///
/// `data` is row-major with a row stride of `width + 10` pixels: the
/// capture backend pads every row by a fixed ten pixels, and indexing
/// must honour that stride.
pub struct CaptureFrame {
    /// Logical width of the capture, in pixels.
    pub width: i32,
    /// Logical height of the capture, in pixels.
    pub height: i32,
    /// Captured pixels, rows padded to `width + 10` entries.
    pub data: Vec<Rgb>,
}

/// Largest capture dimension, in pixels, the engine accepts.
pub const MAX_CAPTURE_DIM: i32 = 30_000;

impl CaptureFrame {
    /// The capture's dimensions are small enough that a row-stride index
    /// always fits the machine's word.
    pub open spec fn wf(&self) -> bool {
        &&& 0 <= self.width <= MAX_CAPTURE_DIM
        &&& 0 <= self.height <= MAX_CAPTURE_DIM
    }
}

/// The background colour the compositor uses for the screen position
/// `(x, y)`: transparent black outside the capture's bounds, opaque
/// black past the end of its data, and otherwise the captured pixel
/// with full opacity forced.
pub open spec fn screen_pixel(cap: &CaptureFrame, x: int, y: int) -> (u8, u8, u8, u8) {
    if x < 0 || x >= cap.width || y < 0 || y >= cap.height {
        (0u8, 0u8, 0u8, 0u8)
    } else {
        let idx = y * (cap.width + 10) + x;
        if idx < cap.data@.len() {
            (cap.data@[idx].r, cap.data@[idx].g, cap.data@[idx].b, 255u8)
        } else {
            (0u8, 0u8, 0u8, 255u8)
        }
    }
}

/// Fetch the background pixel for absolute screen coordinates `(x, y)`,
/// honouring the capture's padded row stride.
pub fn get_screen_pixel(x: i32, y: i32, capture: &CaptureFrame) -> (p: (u8, u8, u8, u8))
    requires
        capture.wf(),
    ensures
        p == screen_pixel(capture, x as int, y as int),
{
    let width = capture.width;
    let height = capture.height;
    if 0 > x || x >= width || 0 > y || y >= height {
        return (0, 0, 0, 0);
    }
    proof {
        assert(0 <= (y as i64) * ((width as i64) + 10) < 0x4000_0000) by (nonlinear_arith)
            requires
                0 <= y as i64 <= 30_000,
                0 < (width as i64) + 10 <= 30_010,
        ;
    }
    let idx = (y as i64) * ((width as i64) + 10) + (x as i64);
    if (idx as usize) < capture.data.len() {
        let px = capture.data[idx as usize];
        (px.r, px.g, px.b, 255)
    } else {
        (0, 0, 0, 255)
    }
}

/// The canonical electron position sequence of a frame, truncated to
/// machine integers.
pub open spec fn spec_positions(m: &Memory) -> Seq<(i64, i64)> {
    Seq::new(
        (2 * m.orbit_foci@.len()) as nat,
        |j: int| (electron_pos(m, j).0 as i64, electron_pos(m, j).1 as i64),
    )
}

/// The destination width: the window width rounded down to a multiple
/// of the block size.  A remainder strip of the window is deliberately
/// left out.
pub open spec fn rounded_width(m: &Memory) -> int {
    (m.window_size.0 as int) - (m.window_size.0 as int) % 8
}

/// The destination height, rounded down like the width.
pub open spec fn rounded_height(m: &Memory) -> int {
    (m.window_size.1 as int) - (m.window_size.1 as int) % 8
}

/// Required byte length of the destination buffer.
pub open spec fn frame_len(m: &Memory) -> int {
    4 * rounded_width(m) * rounded_height(m)
}

/// Does every pixel of the 8x8 block at block coordinates
/// `(bx, by)` classify as `Transparent`?
pub open spec fn block_transparent(
    m: &Memory,
    positions: Seq<(i64, i64)>,
    bx: int,
    by: int,
) -> bool {
    forall|i: int, j: int|
        0 <= i < 8 && 0 <= j < 8 ==> #[trigger] classify(
            m,
            positions,
            SCALE * (8 * bx + i),
            SCALE * (8 * by + j),
        ) == Classification::Transparent
}

/// The final colour of destination pixel `(x, y)`: zero bytes if its
/// whole block is transparent; otherwise its classification colour,
/// with transparent pixels replaced by the captured background at the
/// window's screen position.
pub open spec fn frame_pixel(
    m: &Memory,
    positions: Seq<(i64, i64)>,
    cap: &CaptureFrame,
    x: int,
    y: int,
) -> (u8, u8, u8, u8) {
    if block_transparent(m, positions, x / 8, y / 8) {
        (0u8, 0u8, 0u8, 0u8)
    } else {
        let c = classify(m, positions, SCALE * x, SCALE * y);
        if c == Classification::Transparent {
            screen_pixel(cap, (m.window_pos.0 as int) + x, (m.window_pos.1 as int) + y)
        } else {
            color_of(c)
        }
    }
}

/// The four bytes of destination pixel `(x, y)` hold its final colour.
pub open spec fn pixel_ok(
    fr: Seq<u8>,
    m: &Memory,
    positions: Seq<(i64, i64)>,
    cap: &CaptureFrame,
    x: int,
    y: int,
) -> bool {
    let p = frame_pixel(m, positions, cap, x, y);
    let base = 4 * (y * rounded_width(m) + x);
    &&& fr[base] == p.0
    &&& fr[base + 1] == p.1
    &&& fr[base + 2] == p.2
    &&& fr[base + 3] == p.3
}

/// The four bytes of pixel `(x, y)` are the same in both buffers.
pub open spec fn pixel_bytes_unchanged(fr1: Seq<u8>, fr2: Seq<u8>, rw: int, x: int, y: int) -> bool {
    let base = 4 * (y * rw + x);
    &&& fr2[base] == fr1[base]
    &&& fr2[base + 1] == fr1[base + 1]
    &&& fr2[base + 2] == fr1[base + 2]
    &&& fr2[base + 3] == fr1[base + 3]
}

/// Distinct pixels of a row-major buffer have distinct linear indices.
proof fn lemma_pixel_index_distinct(rw: int, x1: int, y1: int, x2: int, y2: int)
    requires
        0 <= x1 < rw,
        0 <= x2 < rw,
        0 <= y1,
        0 <= y2,
        x1 != x2 || y1 != y2,
    ensures
        y1 * rw + x1 != y2 * rw + x2,
{
    if y1 == y2 {
    } else if y1 < y2 {
        lemma_mul_inequality(y1 + 1, y2, rw);
        assert((y1 + 1) * rw == y1 * rw + rw) by (nonlinear_arith);
    } else {
        lemma_mul_inequality(y2 + 1, y1, rw);
        assert((y2 + 1) * rw == y2 * rw + rw) by (nonlinear_arith);
    }
}

/// Write one RGBA pixel into the destination buffer at byte `idx`.
fn write_pixel(frame: &mut Vec<u8>, idx: usize, c: (u8, u8, u8, u8))
    requires
        idx + 4 <= old(frame).len(),
    ensures
        final(frame)@ == old(frame)@.update(idx as int, c.0).update(idx as int + 1, c.1).update(
            idx as int + 2,
            c.2,
        ).update(idx as int + 3, c.3),
        final(frame)@.len() == old(frame)@.len(),
{
    frame[idx] = c.0;
    frame[idx + 1] = c.1;
    frame[idx + 2] = c.2;
    frame[idx + 3] = c.3;
}

/// Render the 8x8 block at block coordinates `(xb, yb)`: classify its
/// 64 pixels, bulk-write zeros if all are transparent, and otherwise
/// composite each pixel over the captured background.
fn render_block(
    frame: &mut Vec<u8>,
    capturer: &CaptureFrame,
    memory: &Memory,
    elec: &Vec<(i64, i64)>,
    xb: usize,
    yb: usize,
    rw: usize,
    rh: usize,
)
    requires
        memory.wf(),
        capturer.wf(),
        elec@ == spec_positions(memory),
        forall|j: int|
            0 <= j < elec@.len() ==> -EPOS_BOUND <= #[trigger] elec@[j].0 <= EPOS_BOUND
                && -EPOS_BOUND <= elec@[j].1 <= EPOS_BOUND,
        rw == rounded_width(memory),
        rh == rounded_height(memory),
        rw % 8 == 0,
        rh % 8 == 0,
        rw <= 16384,
        rh <= 16384,
        xb < rw / 8,
        yb < rh / 8,
        old(frame).len() == frame_len(memory),
    ensures
        final(frame).len() == old(frame).len(),
        forall|x: int, y: int|
            8 * xb <= x < 8 * xb + 8 && 8 * yb <= y < 8 * yb + 8 ==> pixel_ok(
                final(frame)@,
                memory,
                spec_positions(memory),
                capturer,
                x,
                y,
            ),
        forall|x: int, y: int|
            0 <= x < rw && 0 <= y < rh && !(8 * xb <= x < 8 * xb + 8 && 8 * yb <= y < 8 * yb + 8)
                ==> pixel_bytes_unchanged(old(frame)@, final(frame)@, rw as int, x, y),
{
    let ghost pos = spec_positions(memory);
    let x0 = 8 * xb;
    let y0 = 8 * yb;
    proof {
        assert(8 * (rw / 8) == rw) by {
            lemma_fundamental_div_mod(rw as int, 8);
        }
        assert(8 * (rh / 8) == rh) by {
            lemma_fundamental_div_mod(rh as int, 8);
        }
    }
    // Classify the block's 64 pixels.
    let mut colors: Vec<(u8, u8, u8, u8)> = Vec::new();
    let mut k: usize = 0;
    while k < 64
        invariant
            memory.wf(),
            elec@ == pos,
            pos == spec_positions(memory),
            forall|j: int|
                0 <= j < elec@.len() ==> -EPOS_BOUND <= #[trigger] elec@[j].0 <= EPOS_BOUND
                    && -EPOS_BOUND <= elec@[j].1 <= EPOS_BOUND,
            x0 == 8 * xb,
            y0 == 8 * yb,
            x0 + 8 <= rw <= 16384,
            y0 + 8 <= rh <= 16384,
            0 <= k <= 64,
            colors@.len() == k,
            forall|t: int|
                0 <= t < k ==> #[trigger] colors@[t] == color_of(
                    classify(memory, pos, SCALE * (8 * xb + t % 8), SCALE * (8 * yb + t / 8)),
                ),
        decreases 64 - k,
    {
        let i2 = k % 8;
        let j2 = k / 8;
        let c = color_at((x0 + i2) as i32, (y0 + j2) as i32, memory, elec);
        colors.push(c);
        k += 1;
    }
    // Fast-path test: is the whole block transparent?
    let mut all_trans = true;
    let mut k2: usize = 0;
    while k2 < 64
        invariant
            0 <= k2 <= 64,
            colors@.len() == 64,
            all_trans == (forall|t: int| 0 <= t < k2 ==> #[trigger] colors@[t].3 == 0),
        decreases 64 - k2,
    {
        if colors[k2].3 != 0 {
            all_trans = false;
        }
        k2 += 1;
    }
    proof {
        if all_trans {
            assert forall|i: int, j: int| 0 <= i < 8 && 0 <= j < 8 implies #[trigger] classify(
                memory,
                pos,
                SCALE * (8 * (xb as int) + i),
                SCALE * (8 * (yb as int) + j),
            ) == Classification::Transparent by {
                let t = 8 * j + i;
                lemma_fundamental_div_mod_converse(t, 8, j, i);
                assert(colors@[t] == color_of(
                    classify(memory, pos, SCALE * (8 * xb + t % 8), SCALE * (8 * yb + t / 8)),
                ));
                assert(colors@[t].3 == 0);
            }
            assert(block_transparent(memory, pos, xb as int, yb as int));
        } else {
            let t = choose|t: int| 0 <= t < 64 && #[trigger] colors@[t].3 != 0;
            lemma_fundamental_div_mod(t, 8);
            assert(classify(memory, pos, SCALE * (8 * xb + t % 8), SCALE * (8 * yb + t / 8))
                != Classification::Transparent);
            assert(!block_transparent(memory, pos, xb as int, yb as int));
        }
    }
    // Write the block, row-major.
    let wx = memory.window_pos.0;
    let wy = memory.window_pos.1;
    let mut k3: usize = 0;
    while k3 < 64
        invariant
            memory.wf(),
            capturer.wf(),
            elec@ == pos,
            pos == spec_positions(memory),
            x0 == 8 * xb,
            y0 == 8 * yb,
            x0 + 8 <= rw <= 16384,
            y0 + 8 <= rh <= 16384,
            rw == rounded_width(memory),
            rh == rounded_height(memory),
            wx == memory.window_pos.0,
            wy == memory.window_pos.1,
            0 <= k3 <= 64,
            colors@.len() == 64,
            forall|t: int|
                0 <= t < 64 ==> #[trigger] colors@[t] == color_of(
                    classify(memory, pos, SCALE * (8 * xb + t % 8), SCALE * (8 * yb + t / 8)),
                ),
            all_trans == block_transparent(memory, pos, xb as int, yb as int),
            frame@.len() == old(frame).len(),
            old(frame).len() == frame_len(memory),
            frame_len(memory) == 4 * rw * rh,
            forall|t: int|
                0 <= t < k3 ==> #[trigger] pixel_ok(
                    frame@,
                    memory,
                    pos,
                    capturer,
                    8 * (xb as int) + t % 8,
                    8 * (yb as int) + t / 8,
                ),
            forall|x: int, y: int|
                0 <= x < rw && 0 <= y < rh && !(8 * xb <= x < 8 * xb + 8 && 8 * yb <= y < 8 * yb
                    + 8) ==> pixel_bytes_unchanged(old(frame)@, frame@, rw as int, x, y),
        decreases 64 - k3,
    {
        let i2 = k3 % 8;
        let j2 = k3 / 8;
        let x = x0 + i2;
        let y = y0 + j2;
        let c = if all_trans {
            (0u8, 0u8, 0u8, 0u8)
        } else {
            let cc = colors[k3];
            if cc.3 == 0 {
                get_screen_pixel(wx + x as i32, wy + y as i32, capturer)
            } else {
                cc
            }
        };
        proof {
            assert(0 <= (y as int) * (rw as int) <= 16384 * 16384) by (nonlinear_arith)
                requires
                    0 <= y as int <= 16384,
                    0 <= rw as int <= 16384,
            ;
            assert((y as int) * (rw as int) + x < (rw as int) * (rh as int)) by (nonlinear_arith)
                requires
                    0 <= x < rw as int,
                    0 <= y as int <= (rh as int) - 1,
                    0 < rw as int,
            ;
            assert(4 * ((rw as int) * (rh as int)) == 4 * (rw as int) * (rh as int))
                by (nonlinear_arith);
        }
        let idx = 4 * (y * rw + x);
        let ghost prev = frame@;
        write_pixel(frame, idx, c);
        proof {
            let xi = x as int;
            let yi = y as int;
            let rwi = rw as int;
            // The freshly written pixel now holds its final colour.
            lemma_fundamental_div_mod_converse(xi, 8, xb as int, i2 as int);
            lemma_fundamental_div_mod_converse(yi, 8, yb as int, j2 as int);
            assert(xi / 8 == xb as int && yi / 8 == yb as int);
            assert(colors@[k3 as int] == color_of(
                classify(
                    memory,
                    pos,
                    SCALE * (8 * xb + (k3 as int) % 8),
                    SCALE * (8 * yb + (k3 as int) / 8),
                ),
            ));
            assert(8 * (xb as int) + (k3 as int) % 8 == xi && 8 * (yb as int) + (k3 as int) / 8
                == yi);
            assert(pixel_ok(frame@, memory, pos, capturer, xi, yi)) by {
                let p = frame_pixel(memory, pos, capturer, xi, yi);
                if all_trans {
                    assert(p == (0u8, 0u8, 0u8, 0u8));
                } else {
                    let cl = classify(memory, pos, SCALE * xi, SCALE * yi);
                    if colors@[k3 as int].3 == 0 {
                        assert(color_of(cl).3 == 0);
                        assert(cl == Classification::Transparent);
                        assert(p == screen_pixel(
                            capturer,
                            (memory.window_pos.0 as int) + xi,
                            (memory.window_pos.1 as int) + yi,
                        ));
                    } else {
                        assert(cl != Classification::Transparent);
                        assert(p == color_of(cl));
                    }
                }
            }
            let rhi = rh as int;
            // Every other pixel's bytes are untouched by the four updates.
            assert forall|x2: int, y2: int|
                0 <= x2 < rwi && 0 <= y2 < rhi && (x2 != xi || y2
                    != yi) implies pixel_bytes_unchanged(prev, frame@, rwi, x2, y2) by {
                lemma_pixel_index_distinct(rwi, x2, y2, xi, yi);
                assert(0 <= y2 * rwi + x2 && 4 * (y2 * rwi + x2) + 4 <= 4 * rwi * rhi)
                    by (nonlinear_arith)
                    requires
                        0 <= x2 < rwi,
                        0 <= y2 < rhi,
                ;
            }
            // Pixels outside the block are still as the caller left them.
            assert forall|x2: int, y2: int|
                0 <= x2 < rwi && 0 <= y2 < rhi && !(8 * xb <= x2 < 8 * xb + 8 && 8 * yb <= y2 < 8
                    * yb + 8) implies pixel_bytes_unchanged(old(frame)@, frame@, rwi, x2, y2) by {
                assert(pixel_bytes_unchanged(old(frame)@, prev, rwi, x2, y2));
                assert(pixel_bytes_unchanged(prev, frame@, rwi, x2, y2));
            }
            // Previously written pixels of the block keep their colour.
            assert forall|t: int| 0 <= t < k3 + 1 implies #[trigger] pixel_ok(
                frame@,
                memory,
                pos,
                capturer,
                8 * (xb as int) + t % 8,
                8 * (yb as int) + t / 8,
            ) by {
                if t < k3 {
                    lemma_fundamental_div_mod(t, 8);
                    let xt = 8 * (xb as int) + t % 8;
                    let yt = 8 * (yb as int) + t / 8;
                    assert(0 <= t % 8 < 8 && 0 <= t / 8 < 8);
                    assert(pixel_ok(prev, memory, pos, capturer, xt, yt));
                    if xt != xi || yt != yi {
                        assert(0 <= xt < rwi && 0 <= yt < rhi);
                        assert(pixel_bytes_unchanged(prev, frame@, rwi, xt, yt));
                    } else {
                        assert(t % 8 == i2 as int && t / 8 == j2 as int);
                        lemma_fundamental_div_mod_converse(t, 8, j2 as int, i2 as int);
                        assert(t == k3 as int);
                        assert(false);
                    }
                } else {
                    lemma_fundamental_div_mod_converse(t, 8, j2 as int, i2 as int);
                }
            }
        }
        k3 += 1;
    }
    proof {
        assert forall|x: int, y: int|
            8 * xb <= x < 8 * xb + 8 && 8 * yb <= y < 8 * yb + 8 implies pixel_ok(
            frame@,
            memory,
            pos,
            capturer,
            x,
            y,
        ) by {
            let i = x - 8 * (xb as int);
            let j = y - 8 * (yb as int);
            let t = 8 * j + i;
            lemma_fundamental_div_mod_converse(t, 8, j, i);
            assert(8 * (xb as int) + t % 8 == x && 8 * (yb as int) + t / 8 == y);
        }
    }
}

/// A point at distance `NUCLEUS_RADIUS` or more from the atom centre
/// is never classified as nucleus, whatever the electron positions.
pub proof fn lemma_far_point_not_nucleus(
    m: &Memory,
    positions: Seq<(i64, i64)>,
    x: int,
    y: int,
)
    requires
        dist_sq(x, y, m.atom_center.0 as int, m.atom_center.1 as int) >= NUCLEUS_RADIUS
            * NUCLEUS_RADIUS,
    ensures
        classify(m, positions, x, y) != Classification::Nucleus,
{
}

/// A point whose distance sum to the foci of some orbit is exactly
/// `2 * radius` — the ellipse's exact locus — is never classified
/// transparent: the band strictly contains the locus.
pub proof fn lemma_ellipse_locus_not_transparent(
    m: &Memory,
    positions: Seq<(i64, i64)>,
    i: int,
    x: int,
    y: int,
)
    requires
        0 <= i < m.orbit_foci@.len(),
        orbit_dist_sum(m, i, x, y) == 2 * m.radius,
    ensures
        classify(m, positions, x, y) != Classification::Transparent,
{
    assert(2 * m.radius - SCALE < orbit_dist_sum(m, i, x, y) < 2 * m.radius + SCALE);
    assert(in_orbit(m, x, y));
}

/// A point at exact integer distances `d1` and `d2` from the two foci
/// of orbit `i`, with `d1 + d2 == 2 * radius`, lies on the ellipse and
/// is never classified transparent.
pub proof fn lemma_exact_ellipse_point_not_transparent(
    m: &Memory,
    positions: Seq<(i64, i64)>,
    i: int,
    x: int,
    y: int,
    d1: int,
    d2: int,
)
    requires
        0 <= i < m.orbit_foci@.len(),
        d1 >= 0,
        d2 >= 0,
        dist_sq(x, y, m.orbit_foci@[i].0 as int, m.orbit_foci@[i].1 as int) == d1 * d1,
        dist_sq(
            x,
            y,
            2 * (m.atom_center.0 as int) - (m.orbit_foci@[i].0 as int),
            2 * (m.atom_center.1 as int) - (m.orbit_foci@[i].1 as int),
        ) == d2 * d2,
        d1 + d2 == 2 * m.radius,
    ensures
        classify(m, positions, x, y) != Classification::Transparent,
{
    lemma_sqrt_floor_of_square(d1);
    lemma_sqrt_floor_of_square(d2);
    assert(orbit_dist_sum(m, i, x, y) == d1 + d2);
    lemma_ellipse_locus_not_transparent(m, positions, i, x, y);
}

/// The two electrons of an orbit are antipodal about the atom centre:
/// their coordinates sum to twice the centre's.
pub proof fn lemma_electrons_antipodal(m: &Memory, i: int)
    requires
        0 <= i,
    ensures
        electron_pos(m, 2 * i).0 + electron_pos(m, 2 * i + 1).0 == 2 * (m.atom_center.0 as int),
        electron_pos(m, 2 * i).1 + electron_pos(m, 2 * i + 1).1 == 2 * (m.atom_center.1 as int),
{
    lemma_fundamental_div_mod_converse(2 * i, 2, i, 0);
    lemma_fundamental_div_mod_converse(2 * i + 1, 2, i, 1);
}

/// Advancing the frame counter by a whole number of turns — any `k`
/// frames whose accumulated angle is a multiple of `FULL_TURN` —
/// returns every electron to its position.
pub proof fn lemma_full_rotation(m1: &Memory, m2: &Memory, k: int)
    requires
        m2.atom_center == m1.atom_center,
        m2.radius == m1.radius,
        m2.orbit_foci@ == m1.orbit_foci@,
        m2.electron_phases@ == m1.electron_phases@,
        m2.angle_per_frame == m1.angle_per_frame,
        m2.frame_count as int == m1.frame_count as int + k,
        ((m1.angle_per_frame as int) * k) % (FULL_TURN as int) == 0,
    ensures
        forall|j: int| #[trigger] electron_pos(m2, j) == electron_pos(m1, j),
{
    let apf = m1.angle_per_frame as int;
    let ft = FULL_TURN as int;
    lemma_fundamental_div_mod(apf * k, ft);
    let q = (apf * k) / ft;
    assert(apf * k == ft * q);
    assert forall|j: int| #[trigger] electron_pos(m2, j) == electron_pos(m1, j) by {
        let i = j / 2;
        let a1 = orbit_angle(m1, i);
        let a2 = orbit_angle(m2, i);
        assert(a2 == apf * (m1.frame_count + k) + m1.electron_phases@[i]);
        assert(apf * (m1.frame_count + k) == apf * (m1.frame_count as int) + apf * k)
            by (nonlinear_arith);
        assert(a2 == a1 + q * ft) by (nonlinear_arith)
            requires
                a2 == a1 + apf * k,
                apf * k == ft * q,
        ;
        lemma_sine_period(a1, q);
        lemma_sine_period(a1 + QUARTER_TURN, q);
        assert(sine_fixed(a2) == sine_fixed(a1));
        assert(a2 + QUARTER_TURN == (a1 + QUARTER_TURN) + q * ft);
        assert(cosine_fixed(a2) == cosine_fixed(a1));
        assert(orbit_displacement(m2, i) == orbit_displacement(m1, i));
    }
}

/// When the angular speed divides a full turn, advancing the frame
/// counter by exactly one turn's worth of frames returns every
/// electron to its position.
pub proof fn lemma_one_turn_of_frames(m1: &Memory, m2: &Memory)
    requires
        m2.atom_center == m1.atom_center,
        m2.radius == m1.radius,
        m2.orbit_foci@ == m1.orbit_foci@,
        m2.electron_phases@ == m1.electron_phases@,
        m2.angle_per_frame == m1.angle_per_frame,
        m1.angle_per_frame > 0,
        (FULL_TURN as int) % (m1.angle_per_frame as int) == 0,
        m2.frame_count as int == m1.frame_count as int + (FULL_TURN as int) / (
        m1.angle_per_frame as int),
    ensures
        forall|j: int| #[trigger] electron_pos(m2, j) == electron_pos(m1, j),
{
    let apf = m1.angle_per_frame as int;
    let ft = FULL_TURN as int;
    let k = ft / apf;
    lemma_fundamental_div_mod(ft, apf);
    assert(apf * k == ft);
    lemma_mod_multiples_basic(1, ft);
    assert((apf * k) % ft == 0);
    lemma_full_rotation(m1, m2, k);
}

/// The nucleus test short-circuits: a point within the nucleus is
/// classified nucleus whatever the electron positions and orbits say.
pub proof fn lemma_nucleus_priority(m: &Memory, positions: Seq<(i64, i64)>, x: int, y: int)
    requires
        in_nucleus(m, x, y),
    ensures
        classify(m, positions, x, y) == Classification::Nucleus,
{
}

/// For a pixel of a fully transparent block, the bulk zero write
/// equals writing the pixel's own classification colour.
pub proof fn lemma_fast_path_agrees(
    m: &Memory,
    positions: Seq<(i64, i64)>,
    cap: &CaptureFrame,
    x: int,
    y: int,
)
    requires
        0 <= x,
        0 <= y,
        block_transparent(m, positions, x / 8, y / 8),
    ensures
        frame_pixel(m, positions, cap, x, y) == color_of(classify(m, positions, SCALE * x, SCALE
            * y)),
{
    lemma_fundamental_div_mod(x, 8);
    lemma_fundamental_div_mod(y, 8);
    assert(classify(m, positions, SCALE * (8 * (x / 8) + x % 8), SCALE * (8 * (y / 8) + y % 8))
        == Classification::Transparent);
    assert(8 * (x / 8) + x % 8 == x && 8 * (y / 8) + y % 8 == y);
}

/// Render one full frame into `frame`: classify every pixel of the
/// destination (whose extent is the window size rounded down to
/// multiples of 8), write transparent blocks as zero bytes wholesale,
/// and elsewhere composite the atom over the captured background.
pub fn draw_frame(frame: &mut Vec<u8>, capturer: &CaptureFrame, memory: &Memory)
    requires
        memory.wf(),
        capturer.wf(),
        old(frame).len() == frame_len(memory),
    ensures
        final(frame).len() == old(frame).len(),
        forall|x: int, y: int|
            0 <= x < rounded_width(memory) && 0 <= y < rounded_height(memory) ==> pixel_ok(
                final(frame)@,
                memory,
                spec_positions(memory),
                capturer,
                x,
                y,
            ),
{
    let ghost pos = spec_positions(memory);
    let w = memory.window_size.0;
    let h = memory.window_size.1;
    let rw = (w - w % 8) as usize;
    let rh = (h - h % 8) as usize;
    proof {
        lemma_fundamental_div_mod(w as int, 8);
        lemma_fundamental_div_mod(h as int, 8);
        lemma_mod_multiples_basic((w as int) / 8, 8);
        lemma_mod_multiples_basic((h as int) / 8, 8);
        assert(rw as int == 8 * ((w as int) / 8) && (rw as int) % 8 == 0);
        assert(rh as int == 8 * ((h as int) / 8) && (rh as int) % 8 == 0);
    }
    let elec = compute_electrons_positions(memory);
    proof {
        assert forall|j: int| 0 <= j < elec@.len() implies elec@[j] == pos[j] by {
            lemma_electron_pos_bound(memory, j);
        }
        assert(elec@ =~= pos);
    }
    let nbx = rw / 8;
    let nby = rh / 8;
    proof {
        lemma_fundamental_div_mod(rw as int, 8);
        lemma_fundamental_div_mod(rh as int, 8);
        assert(8 * (nbx as int) == rw as int && 8 * (nby as int) == rh as int);
    }
    let mut yb: usize = 0;
    while yb < nby
        invariant
            memory.wf(),
            capturer.wf(),
            elec@ == pos,
            pos == spec_positions(memory),
            forall|j: int|
                0 <= j < elec@.len() ==> -EPOS_BOUND <= #[trigger] elec@[j].0 <= EPOS_BOUND
                    && -EPOS_BOUND <= elec@[j].1 <= EPOS_BOUND,
            rw == rounded_width(memory),
            rh == rounded_height(memory),
            rw % 8 == 0,
            rh % 8 == 0,
            rw <= 16384,
            rh <= 16384,
            nbx == rw / 8,
            nby == rh / 8,
            8 * nbx == rw,
            8 * nby == rh,
            0 <= yb <= nby,
            frame@.len() == old(frame).len(),
            old(frame).len() == frame_len(memory),
            forall|x: int, y: int|
                0 <= x < rw && 0 <= y < 8 * yb ==> pixel_ok(frame@, memory, pos, capturer, x, y),
        decreases nby - yb,
    {
        let mut xb: usize = 0;
        while xb < nbx
            invariant
                memory.wf(),
                capturer.wf(),
                elec@ == pos,
                pos == spec_positions(memory),
                forall|j: int|
                    0 <= j < elec@.len() ==> -EPOS_BOUND <= #[trigger] elec@[j].0 <= EPOS_BOUND
                        && -EPOS_BOUND <= elec@[j].1 <= EPOS_BOUND,
                rw == rounded_width(memory),
                rh == rounded_height(memory),
                rw % 8 == 0,
                rh % 8 == 0,
                rw <= 16384,
                rh <= 16384,
                nbx == rw / 8,
                nby == rh / 8,
                8 * nbx == rw,
                8 * nby == rh,
                0 <= xb <= nbx,
                yb < nby,
                frame@.len() == old(frame).len(),
                old(frame).len() == frame_len(memory),
                forall|x: int, y: int|
                    0 <= x < rw && 0 <= y < 8 * yb ==> pixel_ok(frame@, memory, pos, capturer, x, y),
                forall|x: int, y: int|
                    0 <= x < 8 * xb && 8 * yb <= y < 8 * yb + 8 ==> pixel_ok(
                        frame@,
                        memory,
                        pos,
                        capturer,
                        x,
                        y,
                    ),
            decreases nbx - xb,
        {
            let ghost before = frame@;
            render_block(frame, capturer, memory, &elec, xb, yb, rw, rh);
            proof {
                let rwi = rw as int;
                let xbi = xb as int;
                let ybi = yb as int;
                assert forall|x: int, y: int|
                    0 <= x < rwi && 0 <= y < 8 * ybi implies pixel_ok(
                    frame@,
                    memory,
                    pos,
                    capturer,
                    x,
                    y,
                ) by {
                    assert(pixel_ok(before, memory, pos, capturer, x, y));
                    assert(pixel_bytes_unchanged(before, frame@, rwi, x, y));
                }
                assert forall|x: int, y: int|
                    0 <= x < 8 * xbi && 8 * ybi <= y < 8 * ybi + 8 implies pixel_ok(
                    frame@,
                    memory,
                    pos,
                    capturer,
                    x,
                    y,
                ) by {
                    assert(pixel_ok(before, memory, pos, capturer, x, y));
                    assert(pixel_bytes_unchanged(before, frame@, rwi, x, y));
                }
            }
            xb += 1;
        }
        yb += 1;
    }
}

} // verus!

