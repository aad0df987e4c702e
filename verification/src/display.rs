//! The display driver's state machine: time-division multiplexing (one
//! row active at a time) combined with duty-cycle modulation, so that a
//! cell of brightness `b` is driven high in exactly `b` of the 9 phases
//! of its row's window.  Each high-frequency timer tick advances one
//! phase; the hardware layer receives, as a plain value, which row to
//! activate and which columns to drive.

use vstd::prelude::*;
use vstd::arithmetic::div_mod::{
    lemma_add_mod_noop, lemma_fundamental_div_mod, lemma_fundamental_div_mod_converse_div,
    lemma_fundamental_div_mod_converse_mod, lemma_mod_add_multiples_vanish,
    lemma_mod_division_less_than_divisor, lemma_mod_self_0, lemma_mod_sub_multiples_vanish,
    lemma_small_mod,
};
use vstd::set_lib::{lemma_int_range, set_int_range};
use crate::image::Image;

verus! {

/// Number of duty-cycle phases in one row window.
pub const PHASES: u8 = 9;

/// What one refresh tick tells the hardware layer to do: activate row
/// `row` and drive high exactly the columns marked in `cols`.
#[derive(Clone, Copy, PartialEq, Eq, Debug)]
pub struct RowDrive {
    pub row: u8,
    pub cols: [bool; 5],
}

/// Whether a cell of brightness `b` is lit during phase `p`: it is lit
/// in phases `0..b`, hence in exactly `b` of the 9 phases of a window.
pub open spec fn spec_lit(b: u8, p: u8) -> bool {
    b > p
}

/// State owned by the display driver: the installed image, the phase
/// inside the current duty-cycle window, and the row being scanned.
#[derive(Clone, Copy, PartialEq, Eq, Debug)]
pub struct DisplayState {
    pub image: Image,
    pub phase: u8,
    pub row: u8,
}

impl DisplayState {
    /// The counters sit inside their cycles and the image is legal.
    pub open spec fn wf(self) -> bool {
        &&& self.image.wf()
        &&& self.phase < PHASES
        &&& self.row < 5
    }

    /// The state one refresh tick later: the next phase of the same
    /// window, or the start of the next row's window once all 9 phases
    /// of this one have run.
    pub open spec fn spec_next(self) -> DisplayState {
        if self.phase < 8 {
            DisplayState { image: self.image, phase: (self.phase + 1) as u8, row: self.row }
        } else {
            DisplayState {
                image: self.image,
                phase: 0,
                row: if self.row < 4 {
                    (self.row + 1) as u8
                } else {
                    0
                },
            }
        }
    }

    /// Position inside the full multiplexing cycle: 9 duty-cycle phases
    /// for each of the 5 rows, 45 ticks in all.
    pub open spec fn spec_cycle_pos(self) -> int {
        self.row * 9 + self.phase
    }

    /// The state `n` refresh ticks later.
    pub open spec fn spec_after_ticks(self, n: nat) -> DisplayState
        decreases n,
    {
        if n == 0 {
            self
        } else {
            self.spec_after_ticks((n - 1) as nat).spec_next()
        }
    }

    /// The state after an install: the new image in its entirety, with
    /// the scan position untouched.
    pub open spec fn spec_install(self, img: Image) -> DisplayState {
        DisplayState { image: img, phase: self.phase, row: self.row }
    }

    /// Column levels that a refresh tick drives from state `self`.
    pub open spec fn spec_cols(self) -> Seq<bool> {
        Seq::new(5, |c: int| spec_lit(self.image.at(self.row as int, c), self.phase))
    }

    /// A fresh driver showing `img` from the start of row 0's window.
    pub fn new(img: Image) -> (d: DisplayState)
        requires
            img.wf(),
        ensures
            d.wf(),
            d.image == img,
            d.phase == 0,
            d.row == 0,
    {
        DisplayState { image: img, phase: 0, row: 0 }
    }

    /// Replaces the displayed image in one assignment.  The refresh path
    /// can never see a frame made partly of the old image and partly of
    /// the new one: afterwards every cell is the new image's.
    pub fn install(&mut self, img: Image)
        requires
            old(self).wf(),
            img.wf(),
        ensures
            final(self).wf(),
            *final(self) == old(self).spec_install(img),
            final(self).image == img,
            final(self).phase == old(self).phase,
            final(self).row == old(self).row,
    {
        self.image = img;
    }

    /// One phase of the multiplexed refresh: reports which columns of
    /// the active row are lit at the current phase, then advances the
    /// phase, moving to the next row (wrapping at the last) when the
    /// window completes.
    pub fn on_refresh_tick(&mut self) -> (drive: RowDrive)
        requires
            old(self).wf(),
        ensures
            final(self).wf(),
            *final(self) == old(self).spec_next(),
            final(self).image == old(self).image,
            drive.row == old(self).row,
            drive.cols@ == old(self).spec_cols(),
            forall|c: int|
                0 <= c < 5 ==> #[trigger] drive.cols[c] == spec_lit(
                    old(self).image.at(old(self).row as int, c),
                    old(self).phase,
                ),
    {
        let row = self.row;
        let p = self.phase;
        let cols: [bool; 5] = [
            self.image.get(row as usize, 0) > p,
            self.image.get(row as usize, 1) > p,
            self.image.get(row as usize, 2) > p,
            self.image.get(row as usize, 3) > p,
            self.image.get(row as usize, 4) > p,
        ];
        if self.phase < 8 {
            self.phase = self.phase + 1;
        } else {
            self.phase = 0;
            self.row = if self.row < 4 {
                self.row + 1
            } else {
                0
            };
        }
        proof {
            assert(cols@ =~= old(self).spec_cols());
        }
        RowDrive { row, cols }
    }
}

/// Installing a frame is atomic with respect to the refresh path: the
/// columns driven after an install are exactly those of the new image
/// at the unchanged scan position, and they do not depend in any way on
/// the image that was displayed before — no torn, hybrid frame exists.
pub proof fn lemma_install_untorn(d: DisplayState, other: DisplayState, img: Image)
    requires
        d.wf(),
        other.wf(),
        img.wf(),
        other.phase == d.phase,
        other.row == d.row,
    ensures
        forall|c: int|
            0 <= c < 5 ==> d.spec_install(img).spec_cols()[c] == spec_lit(
                img.at(d.row as int, c),
                d.phase,
            ),
        d.spec_install(img).spec_cols() == other.spec_install(img).spec_cols(),
{
    assert(d.spec_install(img).spec_cols() =~= other.spec_install(img).spec_cols());
}

/// Duty-cycle correctness: within one 9-phase window, a cell of
/// brightness `b` is lit in exactly `b` of the phases — brightness 0 in
/// none of them, brightness 9 in all of them.
pub proof fn lemma_duty_cycle(b: u8)
    requires
        b <= 9,
    ensures
        Set::new(|p: int| 0 <= p < 9 && spec_lit(b, p as u8)).len() == b as int,
{
    assert(Set::new(|p: int| 0 <= p < 9 && spec_lit(b, p as u8)) =~= set_int_range(0, b as int));
    lemma_int_range(0, b as int);
}

/// Duty-cycle correctness on the running scan: starting at the
/// beginning of a window, a cell of brightness `b` has its column
/// driven high in exactly `b` of the 9 refresh ticks of its row's
/// duty-cycle window.
pub proof fn lemma_cell_duty_cycle(d: DisplayState, r: u8, c: int)
    requires
        d.wf(),
        d.phase == 0,
        r < 5,
        0 <= c < 5,
    ensures
        ({
            let w: int = if r >= d.row {
                r - d.row
            } else {
                r - d.row + 5
            };
            Set::new(
                |i: int| 9 * w <= i < 9 * w + 9 && d.spec_after_ticks(i as nat).spec_cols()[c],
            ).len() == d.image.at(r as int, c) as int
        }),
{
    lemma_row_fairness(d, r);
    let w: int = if r >= d.row {
        r - d.row
    } else {
        r - d.row + 5
    };
    let b = d.image.at(r as int, c);
    assert forall|i: int| 9 * w <= i < 9 * w + 9 implies ((#[trigger] d.spec_after_ticks(
        i as nat,
    )).spec_cols()[c] <==> (b as int) > i - 9 * w) by {
        lemma_after_ticks_pos(d, i as nat);
        let s = d.spec_after_ticks(i as nat);
        assert(s.row == r && s.phase == i - 9 * w);
        assert(s.spec_cols()[c] == spec_lit(s.image.at(s.row as int, c), s.phase));
    }
    let lit = Set::new(
        |i: int| 9 * w <= i < 9 * w + 9 && d.spec_after_ticks(i as nat).spec_cols()[c],
    );
    assert(lit =~= set_int_range(9 * w, 9 * w + b));
    lemma_int_range(9 * w, 9 * w + b);
}

/// For non-negative `x`, dividing by 9 yields `q` exactly when `x` lies
/// in the 9-wide window that starts at `9 * q`.
proof fn lemma_div9_window(x: int, q: int)
    requires
        0 <= x,
    ensures
        x / 9 == q <==> (9 * q <= x < 9 * q + 9),
{
    if 9 * q <= x < 9 * q + 9 {
        lemma_fundamental_div_mod_converse_div(x, 9, q, x - 9 * q);
    }
    if x / 9 == q {
        lemma_fundamental_div_mod(x, 9);
        lemma_mod_division_less_than_divisor(x, 9);
    }
}

/// A well-formed state sits at one of the 45 cycle positions, and the
/// position determines the active row and the phase.
pub proof fn lemma_cycle_pos_bounds(d: DisplayState)
    requires
        d.wf(),
    ensures
        0 <= d.spec_cycle_pos() < 45,
        d.row == d.spec_cycle_pos() / 9,
        d.phase == d.spec_cycle_pos() % 9,
{
    lemma_fundamental_div_mod_converse_div(d.spec_cycle_pos(), 9, d.row as int, d.phase as int);
    lemma_fundamental_div_mod_converse_mod(d.spec_cycle_pos(), 9, d.row as int, d.phase as int);
}

/// Refresh ticks advance the cycle position by one each, modulo the
/// cycle length, and never touch the installed image.
pub proof fn lemma_after_ticks_pos(d: DisplayState, n: nat)
    requires
        d.wf(),
    ensures
        d.spec_after_ticks(n).wf(),
        d.spec_after_ticks(n).image == d.image,
        d.spec_after_ticks(n).spec_cycle_pos() == (d.spec_cycle_pos() + n) % 45,
    decreases n,
{
    lemma_cycle_pos_bounds(d);
    if n == 0 {
        lemma_small_mod(d.spec_cycle_pos() as nat, 45);
    } else {
        lemma_after_ticks_pos(d, (n - 1) as nat);
        let s = d.spec_after_ticks((n - 1) as nat);
        lemma_cycle_pos_bounds(s);
        let p = s.spec_cycle_pos();
        assert(s.spec_next().spec_cycle_pos() == if p == 44 {
            0int
        } else {
            p + 1
        });
        lemma_add_mod_noop(d.spec_cycle_pos() + n - 1, 1, 45);
        lemma_small_mod(1, 45);
        if p == 44 {
            lemma_mod_self_0(45);
        } else {
            lemma_small_mod((p + 1) as nat, 45);
        }
    }
}

/// One full multiplexing cycle of 45 refresh ticks returns the scan to
/// exactly the state it started from.
pub proof fn lemma_cycle_period(d: DisplayState)
    requires
        d.wf(),
    ensures
        d.spec_after_ticks(45) == d,
{
    lemma_after_ticks_pos(d, 45);
    let s = d.spec_after_ticks(45);
    lemma_cycle_pos_bounds(d);
    lemma_cycle_pos_bounds(s);
    lemma_mod_add_multiples_vanish(d.spec_cycle_pos(), 45);
    lemma_small_mod(d.spec_cycle_pos() as nat, 45);
}

/// Row scanning is fair: starting at the beginning of a duty-cycle
/// window, over one full multiplexing cycle of 45 ticks each row `r` is
/// the active row during exactly one 9-tick window, inside which the
/// phases run `0..9` in order — so every row receives one full
/// duty-cycle window per cycle.
pub proof fn lemma_row_fairness(d: DisplayState, r: u8)
    requires
        d.wf(),
        d.phase == 0,
        r < 5,
    ensures
        ({
            let w: int = if r >= d.row {
                r - d.row
            } else {
                r - d.row + 5
            };
            &&& forall|i: int|
                0 <= i < 45 ==> ((#[trigger] d.spec_after_ticks(i as nat)).row == r <==> 9 * w <= i
                    < 9 * w + 9)
            &&& forall|i: int|
                9 * w <= i < 9 * w + 9 ==> (#[trigger] d.spec_after_ticks(i as nat)).phase == i - 9
                    * w
            &&& Set::new(|i: int| 0 <= i < 45 && d.spec_after_ticks(i as nat).row == r).len() == 9
        }),
{
    let w: int = if r >= d.row {
        r - d.row
    } else {
        r - d.row + 5
    };
    let base = d.spec_cycle_pos();
    assert(base == 9 * d.row);
    assert(9 * r == base + 9 * w || 9 * r + 45 == base + 9 * w);
    assert forall|i: int| 0 <= i < 45 implies ((#[trigger] d.spec_after_ticks(i as nat)).row == r
        <==> 9 * w <= i < 9 * w + 9) && (9 * w <= i < 9 * w + 9 ==> d.spec_after_ticks(
        i as nat,
    ).phase == i - 9 * w) by {
        lemma_after_ticks_pos(d, i as nat);
        let s = d.spec_after_ticks(i as nat);
        lemma_cycle_pos_bounds(s);
        let p = s.spec_cycle_pos();
        if base + i < 45 {
            lemma_small_mod((base + i) as nat, 45);
            assert(p == base + i);
        } else {
            lemma_mod_sub_multiples_vanish(base + i, 45);
            lemma_small_mod((base + i - 45) as nat, 45);
            assert(p == base + i - 45);
        }
        lemma_div9_window(p, r as int);
        if 9 * w <= i < 9 * w + 9 {
            assert(p == 9 * r + (i - 9 * w));
            lemma_fundamental_div_mod_converse_mod(p, 9, r as int, i - 9 * w);
        }
    }
    let fair = Set::new(|i: int| 0 <= i < 45 && d.spec_after_ticks(i as nat).row == r);
    assert(fair =~= set_int_range(9 * w, 9 * w + 9));
    lemma_int_range(9 * w, 9 * w + 9);
}

} // verus!
