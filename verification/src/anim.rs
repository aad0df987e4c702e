//! The animation scheduler's state machine: a step counter in `0..18`
//! advanced once per low-frequency timer tick, a triangular brightness
//! wave derived from it, and the concentric frame — outer ring constant,
//! inner cells pulsing with the wave — built from that brightness for
//! the display driver to install.

use vstd::prelude::*;
use vstd::arithmetic::div_mod::{
    lemma_add_mod_noop, lemma_mod_add_multiples_vanish, lemma_mod_self_0, lemma_small_mod,
};
use crate::image::{concentric_image, create_image, pattern_cell, Image};

verus! {

/// Number of steps in one full animation period.
pub const STEPS: u8 = 18;

/// The fixed level of the outer ring in every animation frame: the
/// border never pulses, only the inner cells follow the wave.
pub const BORDER_BRIGHTNESS: u8 = 9;

/// The triangular brightness wave: steps `0..=8` descend `9..=1`, steps
/// `9..=17` ascend `1..=9`, and any step outside the period maps to 0
/// as a defensive default.
pub open spec fn spec_brightness(step: u8) -> u8 {
    if step <= 8 {
        (9 - step) as u8
    } else if step <= 17 {
        (step - 8) as u8
    } else {
        0
    }
}

/// The step one animation tick later: wrap to 0 strictly after the
/// increment, so 17 is the last step of a period.
pub open spec fn spec_step_next(step: u8) -> u8 {
    if step + 1 < 18 {
        (step + 1) as u8
    } else {
        0
    }
}

/// The step `n` animation ticks later.
pub open spec fn spec_step_after(step: u8, n: nat) -> u8
    decreases n,
{
    if n == 0 {
        step
    } else {
        spec_step_next(spec_step_after(step, (n - 1) as nat))
    }
}

/// Computes the triangular brightness for `step`.
pub fn brightness(step: u8) -> (b: u8)
    ensures
        b == spec_brightness(step),
        b <= 9,
{
    if step <= 8 {
        9 - step
    } else if step <= 17 {
        step - 8
    } else {
        0
    }
}

/// State owned by the animation scheduler: the step counter, persisting
/// across ticks and shared with nothing else.
#[derive(Clone, Copy, PartialEq, Eq, Debug)]
pub struct AnimState {
    pub step: u8,
}

impl AnimState {
    /// The step counter stays inside the period.
    pub open spec fn wf(self) -> bool {
        self.step < STEPS
    }

    /// A scheduler at the start of its period.
    pub fn new() -> (a: AnimState)
        ensures
            a.wf(),
            a.step == 0,
    {
        AnimState { step: 0 }
    }

    /// One animation tick: builds the concentric frame — border at the
    /// fixed level, inner ring and centre at the brightness derived from
    /// the current step — then advances the step counter, wrapping to 0
    /// after step 17.
    pub fn on_animation_tick(&mut self) -> (img: Image)
        requires
            old(self).wf(),
        ensures
            final(self).wf(),
            final(self).step == spec_step_next(old(self).step),
            img.wf(),
            img == concentric_image(
                BORDER_BRIGHTNESS,
                spec_brightness(old(self).step),
                spec_brightness(old(self).step),
            ),
            forall|r: int, c: int|
                0 <= r < 5 && 0 <= c < 5 ==> #[trigger] img.at(r, c) == pattern_cell(
                    BORDER_BRIGHTNESS,
                    spec_brightness(old(self).step),
                    spec_brightness(old(self).step),
                    r,
                    c,
                ),
    {
        let b = brightness(self.step);
        let img = create_image(BORDER_BRIGHTNESS, b, b);
        self.step = self.step + 1;
        if self.step == 18 {
            self.step = 0;
        }
        img
    }
}

/// Inside the period the wave never goes dark: every step in `0..18`
/// yields a brightness between 1 and 9.
pub proof fn lemma_brightness_range(step: u8)
    requires
        step < 18,
    ensures
        1 <= spec_brightness(step) <= 9,
{
}

/// Stepping is addition modulo the period length.
pub proof fn lemma_step_after_formula(step: u8, n: nat)
    requires
        step < 18,
    ensures
        spec_step_after(step, n) == (step + n) % 18,
        spec_step_after(step, n) < 18,
    decreases n,
{
    if n == 0 {
        lemma_small_mod(step as nat, 18);
    } else {
        lemma_step_after_formula(step, (n - 1) as nat);
        let t = (step + n - 1) % 18;
        assert(spec_step_after(step, n) == spec_step_next(t as u8));
        lemma_add_mod_noop(step + n - 1, 1, 18);
        lemma_small_mod(1, 18);
        if t + 1 == 18 {
            lemma_mod_self_0(18);
            assert((t + 1) % 18 == 0);
        } else {
            lemma_small_mod((t + 1) as nat, 18);
        }
    }
}

/// The animation is periodic: 18 ticks from any step inside the period
/// return the counter to where it started, so the sequence of
/// brightness values repeats exactly, tick for tick.
pub proof fn lemma_step_period(step: u8, n: nat)
    requires
        step < 18,
    ensures
        spec_step_after(step, 18) == step,
        spec_brightness(spec_step_after(step, n + 18)) == spec_brightness(
            spec_step_after(step, n),
        ),
{
    lemma_step_after_formula(step, 18);
    lemma_mod_add_multiples_vanish(step as int, 18);
    lemma_small_mod(step as nat, 18);
    lemma_step_after_formula(step, n + 18);
    lemma_step_after_formula(step, n);
    lemma_mod_add_multiples_vanish(step + n, 18);
}

} // verus!
