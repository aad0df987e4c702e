use led_pulse::display::DisplayState;
use led_pulse::image::{create_image, square_image, Image};

#[test]
fn duty_cycle_lights_each_level_proportionally() {
    for b in 0..=9u8 {
        let mut d = DisplayState::new(square_image(b));
        let mut lit = 0u32;
        for _ in 0..9 {
            let drive = d.on_refresh_tick();
            assert_eq!(drive.row, 0);
            if drive.cols[2] {
                lit += 1;
            }
        }
        assert_eq!(lit, b as u32);
    }
}

#[test]
fn brightness_zero_never_lit_nine_always_lit() {
    let mut dark = DisplayState::new(square_image(0));
    let mut bright = DisplayState::new(square_image(9));
    for _ in 0..45 {
        let drive = dark.on_refresh_tick();
        assert_eq!(drive.cols, [false; 5]);
        let drive = bright.on_refresh_tick();
        assert_eq!(drive.cols, [true; 5]);
    }
}

#[test]
fn rows_scanned_fairly_over_one_cycle() {
    let mut d = DisplayState::new(square_image(5));
    let mut windows = [0u32; 5];
    for i in 0..45u32 {
        let drive = d.on_refresh_tick();
        assert_eq!(drive.row as u32, i / 9);
        windows[drive.row as usize] += 1;
    }
    assert_eq!(windows, [9; 5]);
    // the next cycle starts over at row 0, phase 0
    assert_eq!(d.row, 0);
    assert_eq!(d.phase, 0);
}

#[test]
fn mixed_image_lights_by_cell() {
    // border 9, inner ring 4, centre 0: at phase 5 of row 2's window the
    // border columns are lit, the ring and the centre are not.
    let mut d = DisplayState::new(create_image(9, 4, 0));
    for _ in 0..18 {
        d.on_refresh_tick();
    }
    for phase in 0..9u8 {
        let drive = d.on_refresh_tick();
        assert_eq!(drive.row, 2);
        assert_eq!(drive.cols[0], 9 > phase);
        assert_eq!(drive.cols[1], 4 > phase);
        assert_eq!(drive.cols[2], 0 > phase);
        assert_eq!(drive.cols[3], 4 > phase);
        assert_eq!(drive.cols[4], 9 > phase);
    }
}

#[test]
fn install_swaps_frame_whole() {
    // start mid-window on a fully lit frame, then install a dark one: the
    // very next drive reflects only the new frame — were any cell torn
    // from the old frame it would still be lit.
    let mut d = DisplayState::new(square_image(9));
    for _ in 0..3 {
        let drive = d.on_refresh_tick();
        assert_eq!(drive.cols, [true; 5]);
    }
    d.install(Image::blank());
    assert_eq!(d.phase, 3);
    assert_eq!(d.row, 0);
    let drive = d.on_refresh_tick();
    assert_eq!(drive.cols, [false; 5]);
}

#[test]
fn install_keeps_scan_position() {
    let mut d = DisplayState::new(square_image(2));
    for _ in 0..13 {
        d.on_refresh_tick();
    }
    let (phase, row) = (d.phase, d.row);
    d.install(square_image(7));
    assert_eq!(d.phase, phase);
    assert_eq!(d.row, row);
    assert_eq!(d.image, square_image(7));
}
