use atom_overlay::data_struct::Memory;
use atom_overlay::fixed::{cosine, div_trunc, isqrt, sine};
use atom_overlay::graphics::{
    classify_at, color_at, compute_electrons_positions, draw_frame, get_screen_pixel,
    CaptureFrame, Classification, Rgb,
};

fn demo_memory() -> Memory {
    Memory {
        atom_center: (160_000, 160_000),
        radius: 100_000,
        orbit_foci: vec![(160_000, 250_000)],
        electron_phases: vec![0],
        angle_per_frame: 65,
        frame_count: 0,
        window_size: (320, 320),
        window_pos: (0, 0),
    }
}

fn empty_capture() -> CaptureFrame {
    CaptureFrame { width: 0, height: 0, data: Vec::new() }
}

#[test]
fn default_memory_values() {
    let m = Memory::default();
    assert_eq!(m.atom_center, (160_000, 160_000));
    assert_eq!(m.radius, 100_000);
    assert_eq!(
        m.orbit_foci,
        vec![(160_000, 250_000), (238_000, 205_000), (238_000, 115_000)]
    );
    assert_eq!(m.electron_phases, vec![0, 196, 391]);
    assert_eq!(m.angle_per_frame, 65);
    assert_eq!(m.frame_count, 0);
    assert_eq!(m.window_size, (320, 320));
    assert_eq!(m.window_pos, (100, 100));
}

#[test]
fn isqrt_exact_values() {
    assert_eq!(isqrt(0), 0);
    assert_eq!(isqrt(1), 1);
    assert_eq!(isqrt(2), 1);
    assert_eq!(isqrt(3), 1);
    assert_eq!(isqrt(4), 2);
    assert_eq!(isqrt(99), 9);
    assert_eq!(isqrt(100), 10);
    assert_eq!(isqrt(1_900_000_000), 43_588);
    assert_eq!(isqrt(0x7fff_ffff_ffff_ffff), 3_037_000_499);
}

#[test]
fn trig_quarter_points() {
    assert_eq!(sine(0), 0);
    assert_eq!(sine(1024), 1000);
    assert_eq!(sine(2048), 0);
    assert_eq!(sine(3072), -1000);
    assert_eq!(sine(4096), 0);
    assert_eq!(cosine(0), 1000);
    assert_eq!(cosine(1024), 0);
    assert_eq!(cosine(2048), -1000);
}

#[test]
fn div_trunc_rounds_toward_zero() {
    assert_eq!(div_trunc(7, 2), 3);
    assert_eq!(div_trunc(-7, 2), -3);
    assert_eq!(div_trunc(6, 3), 2);
    assert_eq!(div_trunc(-6, 3), -2);
    assert_eq!(div_trunc(0, 5), 0);
}

#[test]
fn electron_positions_of_demo_orbit() {
    let m = demo_memory();
    let elec = compute_electrons_positions(&m);
    assert_eq!(elec.len(), 2);
    // Semi-minor axis: sqrt(100000^2 - 90000^2) = 43588 sub-pixels.
    assert_eq!(elec[0], (116_412, 160_000));
    assert_eq!(elec[1], (203_588, 160_000));
}

#[test]
fn electron_positions_antipodal() {
    let mut m = Memory::default();
    m.frame_count = 17;
    let elec = compute_electrons_positions(&m);
    assert_eq!(elec.len(), 6);
    for i in 0..3 {
        let (x1, y1) = elec[2 * i];
        let (x2, y2) = elec[2 * i + 1];
        assert_eq!(x1 + x2, 2 * m.atom_center.0);
        assert_eq!(y1 + y2, 2 * m.atom_center.1);
    }
}

#[test]
fn mid_quadrant_electron_positions() {
    // Frame 8 puts the angle mid-quadrant (520 units), where the sine
    // approximation is least exact.
    let mut m = demo_memory();
    m.frame_count = 8;
    let elec = compute_electrons_positions(&m);
    assert_eq!(elec[0], (129_620, 231_400));
    assert_eq!(elec[1], (190_380, 88_600));
}

#[test]
fn electrons_stay_on_orbit_band() {
    // Across a full sweep of angles, every electron's distance sum to
    // its orbit's foci stays within the one-pixel band around
    // 2 * radius, so the drawn electrons never leave their ellipses.
    let mut m = Memory::default();
    for fc in 0..256 {
        m.frame_count = fc;
        let elec = compute_electrons_positions(&m);
        for i in 0..m.orbit_foci.len() {
            let (fx, fy) = m.orbit_foci[i];
            let (gx, gy) = (2 * m.atom_center.0 - fx, 2 * m.atom_center.1 - fy);
            for &(px, py) in &elec[2 * i..2 * i + 2] {
                let d1 = isqrt(((px - fx) * (px - fx) + (py - fy) * (py - fy)) as u64) as i64;
                let d2 = isqrt(((px - gx) * (px - gx) + (py - gy) * (py - gy)) as u64) as i64;
                let sum = d1 + d2;
                assert!(2 * m.radius - 1000 < sum && sum < 2 * m.radius + 1000);
            }
        }
    }
}

#[test]
fn full_rotation_repeats_positions() {
    // 64 angle units per frame: 64 frames make exactly one turn.
    let mut m1 = demo_memory();
    m1.angle_per_frame = 64;
    m1.frame_count = 3;
    let mut m2 = demo_memory();
    m2.angle_per_frame = 64;
    m2.frame_count = 3 + 64;
    assert_eq!(
        compute_electrons_positions(&m1),
        compute_electrons_positions(&m2)
    );
}

#[test]
fn classification_priority_order() {
    let m = demo_memory();
    let elec = compute_electrons_positions(&m);
    // Sub-pixel coordinates: centre, electron, orbit vertex, far point.
    assert_eq!(classify_at(160_000, 160_000, &m, &elec), Classification::Nucleus);
    assert_eq!(classify_at(116_000, 160_000, &m, &elec), Classification::Electron);
    assert_eq!(classify_at(160_000, 260_000, &m, &elec), Classification::Orbit);
    assert_eq!(classify_at(10_000, 10_000, &m, &elec), Classification::Transparent);
}

#[test]
fn nucleus_pixel_is_red() {
    let m = demo_memory();
    let elec = compute_electrons_positions(&m);
    assert_eq!(color_at(160, 160, &m, &elec), (255, 0, 0, 255));
}

#[test]
fn far_pixel_is_never_nucleus() {
    // (200, 160) is 40 pixels from the centre: not nucleus, and in this
    // configuration neither electron nor orbit.
    let m = demo_memory();
    let elec = compute_electrons_positions(&m);
    assert_eq!(color_at(200, 160, &m, &elec), (0, 0, 0, 0));
}

#[test]
fn ellipse_vertex_is_on_orbit() {
    // (160, 260) and (160, 60) are the ellipse's vertices: the distance
    // sums are exactly 2 * radius there.
    let m = demo_memory();
    let elec = compute_electrons_positions(&m);
    assert_eq!(color_at(160, 260, &m, &elec), (127, 127, 127, 255));
    assert_eq!(color_at(160, 60, &m, &elec), (127, 127, 127, 255));
}

#[test]
fn electron_pixel_is_blue() {
    let m = demo_memory();
    let elec = compute_electrons_positions(&m);
    // First electron sits at (116.412, 160) pixels.
    assert_eq!(color_at(116, 160, &m, &elec), (0, 127, 255, 255));
}

#[test]
fn nucleus_beats_fabricated_electron() {
    // A point both within 20 pixels of the centre and within 3.5 pixels
    // of an electron must classify as nucleus.
    let m = demo_memory();
    let elec = vec![(160_000, 160_000)];
    assert_eq!(color_at(160, 160, &m, &elec), (255, 0, 0, 255));
}

#[test]
fn screen_pixel_out_of_bounds_is_transparent_black() {
    let mut data = Vec::new();
    for i in 0..24 {
        data.push(Rgb { r: i as u8, g: (i + 100) as u8, b: (i + 200) as u8 });
    }
    let cap = CaptureFrame { width: 2, height: 2, data };
    assert_eq!(get_screen_pixel(-1, 0, &cap), (0, 0, 0, 0));
    assert_eq!(get_screen_pixel(2, 0, &cap), (0, 0, 0, 0));
    assert_eq!(get_screen_pixel(0, -1, &cap), (0, 0, 0, 0));
    assert_eq!(get_screen_pixel(0, 2, &cap), (0, 0, 0, 0));
}

#[test]
fn screen_pixel_honours_row_stride() {
    // A 2x2 capture is stored with rows of 2 + 10 = 12 pixels.
    let mut data = Vec::new();
    for i in 0..24 {
        data.push(Rgb { r: i as u8, g: 0, b: 0 });
    }
    let cap = CaptureFrame { width: 2, height: 2, data };
    assert_eq!(get_screen_pixel(0, 0, &cap), (0, 0, 0, 255));
    assert_eq!(get_screen_pixel(1, 0, &cap), (1, 0, 0, 255));
    assert_eq!(get_screen_pixel(0, 1, &cap), (12, 0, 0, 255));
    assert_eq!(get_screen_pixel(1, 1, &cap), (13, 0, 0, 255));
}

#[test]
fn screen_pixel_past_data_end_is_opaque_black() {
    let cap = CaptureFrame {
        width: 2,
        height: 2,
        data: vec![Rgb { r: 1, g: 2, b: 3 }; 5],
    };
    // Pixel (1, 1) has index 13, past the 5 stored pixels.
    assert_eq!(get_screen_pixel(1, 1, &cap), (0, 0, 0, 255));
}

#[test]
fn transparent_block_is_bulk_zeroed() {
    // The atom sits far outside the 16x16 window, so every block is
    // fully transparent and must be zeroed without any background
    // lookup, even though the capture holds bright pixels.
    let m = Memory {
        atom_center: (1_000_000, 1_000_000),
        radius: 100_000,
        orbit_foci: vec![(1_050_000, 1_000_000)],
        electron_phases: vec![0],
        angle_per_frame: 65,
        frame_count: 0,
        window_size: (16, 16),
        window_pos: (0, 0),
    };
    let cap = CaptureFrame {
        width: 30,
        height: 30,
        data: vec![Rgb { r: 255, g: 255, b: 255 }; 1200],
    };
    let mut frame = vec![7u8; 16 * 16 * 4];
    draw_frame(&mut frame, &cap, &m);
    assert_eq!(frame, vec![0u8; 16 * 16 * 4]);
}

#[test]
fn mixed_block_composites_background() {
    // The nucleus covers only the left edge of a single 8x8 block; the
    // right edge falls back to the captured background, opacity forced.
    let m = Memory {
        atom_center: (-18_000, 4_000),
        radius: 100_000,
        orbit_foci: vec![(32_000, 4_000)],
        electron_phases: vec![0],
        angle_per_frame: 0,
        frame_count: 0,
        window_size: (8, 8),
        window_pos: (0, 0),
    };
    let mut data = vec![Rgb { r: 0, g: 0, b: 0 }; 1200];
    // Row stride is 30 + 10 = 40: pixel (7, 4) lives at index 167.
    data[4 * 40 + 7] = Rgb { r: 9, g: 8, b: 7 };
    let cap = CaptureFrame { width: 30, height: 30, data };
    let mut frame = vec![0u8; 8 * 8 * 4];
    draw_frame(&mut frame, &cap, &m);
    // Pixel (0, 4) is 18 pixels from the centre: nucleus, opaque red.
    let base = 4 * (4 * 8 + 0);
    assert_eq!(&frame[base..base + 4], &[255, 0, 0, 255]);
    // Pixel (7, 4) is 25 pixels out: transparent, so the background
    // pixel is fetched and made fully opaque.
    let base = 4 * (4 * 8 + 7);
    assert_eq!(&frame[base..base + 4], &[9, 8, 7, 255]);
}

#[test]
fn end_to_end_demo_frame() {
    let m = demo_memory();
    let mut frame = vec![0u8; 320 * 320 * 4];
    draw_frame(&mut frame, &empty_capture(), &m);
    // Nucleus pixel at the centre: opaque red.
    let base = 4 * (160 * 320 + 160);
    assert_eq!(&frame[base..base + 4], &[255, 0, 0, 255]);
    // Orbit band near (160, 260) and its antipode (160, 60).
    let base = 4 * (260 * 320 + 160);
    assert_eq!(&frame[base..base + 4], &[127, 127, 127, 255]);
    let base = 4 * (60 * 320 + 160);
    assert_eq!(&frame[base..base + 4], &[127, 127, 127, 255]);
    // Two electrons, symmetric about the centre.
    let elec = compute_electrons_positions(&m);
    assert_eq!(elec.len(), 2);
    assert_eq!(elec[0].0 + elec[1].0, 2 * 160_000);
    assert_eq!(elec[0].1 + elec[1].1, 2 * 160_000);
    let base = 4 * (160 * 320 + 116);
    assert_eq!(&frame[base..base + 4], &[0, 127, 255, 255]);
}
