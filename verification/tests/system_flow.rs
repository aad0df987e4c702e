use led_pulse::image::{create_image, Image};
use led_pulse::system::{on_animation_interrupt, on_refresh_interrupt, startup, AnimTimer};

#[test]
fn startup_populates_both_handles() {
    let sys = startup(true, 2047);
    assert!(sys.interrupts_enabled);
    let d = sys.registry.display.expect("display handle stored");
    assert_eq!(d.image, Image::blank());
    assert_eq!(d.phase, 0);
    assert_eq!(d.row, 0);
    let t = sys.registry.anim_timer.expect("timer handle stored");
    assert!(!t.tick_pending);
    assert_eq!(sys.anim.step, 0);
}

#[test]
fn claimed_board_leaves_system_inert() {
    let mut sys = startup(false, 2047);
    assert!(!sys.interrupts_enabled);
    assert!(sys.registry.display.is_none());
    assert!(sys.registry.anim_timer.is_none());
    // even if a spurious tick reached the handlers, nothing would be
    // driven and nothing stored: the matrix stays dark
    let drive = on_refresh_interrupt(&mut sys);
    assert!(drive.is_none());
    assert!(sys.registry.display.is_none());
    on_animation_interrupt(&mut sys);
    assert!(sys.registry.display.is_none());
    assert!(sys.registry.anim_timer.is_none());
}

#[test]
fn animation_interrupt_acknowledges_event() {
    let mut sys = startup(true, 2047);
    sys.registry.anim_timer = Some(AnimTimer { tick_pending: true });
    on_animation_interrupt(&mut sys);
    assert!(!sys.registry.anim_timer.unwrap().tick_pending);
}

#[test]
fn first_tick_installs_full_brightness() {
    // step 0: the pulsing cells are at brightness 9, level with the border
    let mut sys = startup(true, 2047);
    on_animation_interrupt(&mut sys);
    assert_eq!(sys.registry.display.unwrap().image, create_image(9, 9, 9));
    assert_eq!(sys.anim.step, 1);
}

#[test]
fn ninth_and_tenth_ticks_reach_the_dim_turn() {
    let mut sys = startup(true, 2047);
    for _ in 0..8 {
        on_animation_interrupt(&mut sys);
    }
    // step is now 8: this tick installs inner brightness 1 inside the
    // fixed border
    assert_eq!(sys.anim.step, 8);
    on_animation_interrupt(&mut sys);
    assert_eq!(sys.registry.display.unwrap().image, create_image(9, 1, 1));
    // step is now 9: the wave turns, still brightness 1
    assert_eq!(sys.anim.step, 9);
    on_animation_interrupt(&mut sys);
    assert_eq!(sys.registry.display.unwrap().image, create_image(9, 1, 1));
}

#[test]
fn eighteen_ticks_reproduce_the_first_frame() {
    let mut sys = startup(true, 2047);
    on_animation_interrupt(&mut sys);
    let first_frame = sys.registry.display.unwrap().image;
    for _ in 0..17 {
        on_animation_interrupt(&mut sys);
    }
    assert_eq!(sys.anim.step, 0);
    on_animation_interrupt(&mut sys);
    assert_eq!(sys.registry.display.unwrap().image, first_frame);
}

#[test]
fn refresh_interrupt_drives_the_stored_display() {
    let mut sys = startup(true, 2047);
    on_animation_interrupt(&mut sys);
    let drive = on_refresh_interrupt(&mut sys).expect("display handle stored");
    assert_eq!(drive.row, 0);
    assert_eq!(drive.cols, [true; 5]);
    assert_eq!(sys.registry.display.unwrap().phase, 1);
}

#[test]
fn fresh_display_starts_dark() {
    let mut sys = startup(true, 2047);
    let drive = on_refresh_interrupt(&mut sys).expect("display handle stored");
    assert_eq!(drive.cols, [false; 5]);
}
