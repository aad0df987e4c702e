use led_pulse::anim::{brightness, AnimState};

#[test]
fn brightness_boundary_values() {
    assert_eq!(brightness(0), 9);
    assert_eq!(brightness(8), 1);
    assert_eq!(brightness(9), 1);
    assert_eq!(brightness(17), 9);
}

#[test]
fn brightness_full_wave() {
    let expected: [u8; 18] = [9, 8, 7, 6, 5, 4, 3, 2, 1, 1, 2, 3, 4, 5, 6, 7, 8, 9];
    for s in 0..18u8 {
        assert_eq!(brightness(s), expected[s as usize]);
    }
}

#[test]
fn brightness_never_dark_inside_period() {
    for s in 0..18u8 {
        let b = brightness(s);
        assert!(1 <= b && b <= 9);
    }
}

#[test]
fn brightness_defensive_default_outside_period() {
    assert_eq!(brightness(18), 0);
    assert_eq!(brightness(200), 0);
    assert_eq!(brightness(255), 0);
}

#[test]
fn step_counter_wraps_after_eighteen_ticks() {
    let mut a = AnimState::new();
    for expected_step in 0..18u8 {
        assert_eq!(a.step, expected_step);
        a.on_animation_tick();
    }
    assert_eq!(a.step, 0);
}

#[test]
fn brightness_sequence_repeats_each_period() {
    let mut a = AnimState::new();
    let mut first: Vec<u8> = Vec::new();
    let mut second: Vec<u8> = Vec::new();
    for _ in 0..18 {
        first.push(a.on_animation_tick().get(2, 2));
    }
    for _ in 0..18 {
        second.push(a.on_animation_tick().get(2, 2));
    }
    assert_eq!(first, second);
}

#[test]
fn tick_builds_frame_of_current_step() {
    let mut a = AnimState::new();
    // step 0: brightness 9, so border and inner cells coincide
    let img = a.on_animation_tick();
    for r in 0..5 {
        for c in 0..5 {
            assert_eq!(img.get(r, c), 9);
        }
    }
    assert_eq!(a.step, 1);
    // step 1: the border stays at 9, the inner cells dim to 8
    let img2 = a.on_animation_tick();
    for r in 0..5usize {
        for c in 0..5usize {
            let expected = if r == 0 || r == 4 || c == 0 || c == 4 { 9 } else { 8 };
            assert_eq!(img2.get(r, c), expected);
        }
    }
}

#[test]
fn border_fixed_while_inner_cells_pulse() {
    let expected: [u8; 18] = [9, 8, 7, 6, 5, 4, 3, 2, 1, 1, 2, 3, 4, 5, 6, 7, 8, 9];
    let mut a = AnimState::new();
    for s in 0..18usize {
        let img = a.on_animation_tick();
        // outer ring: one fixed level, never pulsing
        assert_eq!(img.get(0, 0), 9);
        assert_eq!(img.get(0, 3), 9);
        assert_eq!(img.get(2, 4), 9);
        assert_eq!(img.get(4, 1), 9);
        // edge-midpoints of the inner ring and the centre follow the wave
        assert_eq!(img.get(1, 2), expected[s]);
        assert_eq!(img.get(2, 1), expected[s]);
        assert_eq!(img.get(2, 3), expected[s]);
        assert_eq!(img.get(3, 2), expected[s]);
        assert_eq!(img.get(2, 2), expected[s]);
    }
}
