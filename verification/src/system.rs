//! The system as the two interrupt contexts see it: the shared handle
//! registry written once at start-up, the animation scheduler's own
//! state, and the decision logic of both interrupt handlers.  The
//! hardware layer dispatches each timer interrupt to the matching
//! handler here and performs the returned row drive on the GPIO lines;
//! when start-up could not claim the board, no interrupt is ever
//! unmasked and the system stays inert.

use vstd::prelude::*;
use crate::anim::{spec_brightness, spec_step_next, AnimState, BORDER_BRIGHTNESS};
use crate::display::{DisplayState, RowDrive};
use crate::image::{concentric_image, uniform_image, Image};

verus! {

/// Largest frequency divisor the low-frequency counter accepts (it is a
/// 12-bit hardware field); start-up with a larger one has no defined
/// time base and is a fatal configuration error, so it is excluded.
pub const MAX_PRESCALER: u32 = 4095;

/// The low-frequency timer handle as the animation path sees it: the
/// only state the logic touches is whether the tick event that raised
/// the interrupt is still pending.  Each handler run must clear it, or
/// the hardware would never raise the interrupt again.
#[derive(Clone, Copy, PartialEq, Eq, Debug)]
pub struct AnimTimer {
    pub tick_pending: bool,
}

/// The shared handle registry: storage reachable from both interrupt
/// contexts, holding at most one live display driver and at most one
/// live low-frequency timer.  Each cell is written exactly once at
/// start-up and never emptied afterwards; the hardware layer guards
/// every access with a critical section.
#[derive(Clone, Copy, PartialEq, Eq, Debug)]
pub struct Registry {
    pub display: Option<DisplayState>,
    pub anim_timer: Option<AnimTimer>,
}

impl Registry {
    /// Both handles were stored together at start-up or neither was,
    /// and a stored display driver is in a legal state.
    pub open spec fn wf(self) -> bool {
        &&& (self.display matches Some(d) ==> d.wf())
        &&& (self.display is Some <==> self.anim_timer is Some)
    }

    /// Start-up claimed the board and stored both handles.
    pub open spec fn populated(self) -> bool {
        self.display is Some && self.anim_timer is Some
    }
}

/// Everything the two interrupt handlers can reach: the registry, the
/// animation scheduler's step counter (owned by the low-frequency
/// handler alone), and whether the interrupt lines were unmasked.
#[derive(Clone, Copy, PartialEq, Eq, Debug)]
pub struct System {
    pub registry: Registry,
    pub anim: AnimState,
    pub interrupts_enabled: bool,
}

/// One hardware interrupt, identified by its line: the high-priority
/// display refresh timer or the low-priority animation counter.
#[derive(Clone, Copy, PartialEq, Eq, Debug)]
pub enum IrqEvent {
    Refresh,
    Animation,
}

impl System {
    pub open spec fn wf(self) -> bool {
        &&& self.registry.wf()
        &&& self.anim.wf()
        &&& (self.interrupts_enabled ==> self.registry.populated())
    }

    /// Start-up claimed nothing: no handles, no unmasked interrupts.
    pub open spec fn inert(self) -> bool {
        &&& !self.interrupts_enabled
        &&& self.registry.display is None
        &&& self.registry.anim_timer is None
    }

    /// The system after one refresh interrupt: the stored display
    /// driver advances one phase; with no driver stored the tick is a
    /// no-op.
    pub open spec fn spec_fire_refresh(self) -> System {
        match self.registry.display {
            Some(d) => System {
                registry: Registry {
                    display: Some(d.spec_next()),
                    anim_timer: self.registry.anim_timer,
                },
                anim: self.anim,
                interrupts_enabled: self.interrupts_enabled,
            },
            None => self,
        }
    }

    /// The system after one animation interrupt: the timer event is
    /// acknowledged, the concentric frame derived from the current step
    /// — fixed border, pulsing inner cells — is installed into the
    /// stored display driver, and the step counter advances, wrapping
    /// after step 17.
    pub open spec fn spec_fire_animation(self) -> System {
        let img = concentric_image(
            BORDER_BRIGHTNESS,
            spec_brightness(self.anim.step),
            spec_brightness(self.anim.step),
        );
        System {
            registry: Registry {
                display: match self.registry.display {
                    Some(d) => Some(d.spec_install(img)),
                    None => None,
                },
                anim_timer: match self.registry.anim_timer {
                    Some(_t) => Some(AnimTimer { tick_pending: false }),
                    None => None,
                },
            },
            anim: AnimState { step: spec_step_next(self.anim.step) },
            interrupts_enabled: self.interrupts_enabled,
        }
    }

    /// What one interrupt event does: with the lines masked it never
    /// reaches a handler, otherwise the matching handler runs.
    pub open spec fn spec_dispatch(self, e: IrqEvent) -> System {
        if !self.interrupts_enabled {
            self
        } else {
            match e {
                IrqEvent::Refresh => self.spec_fire_refresh(),
                IrqEvent::Animation => self.spec_fire_animation(),
            }
        }
    }

    /// The system after a whole sequence of interrupt events.
    pub open spec fn spec_run(self, events: Seq<IrqEvent>) -> System
        decreases events.len(),
    {
        if events.len() == 0 {
            self
        } else {
            self.spec_dispatch(events[0]).spec_run(events.drop_first())
        }
    }
}

/// Start-up: claim the board's peripherals at most once.  When the
/// claim succeeds, both handles are stored (the display driver dark, at
/// the start of its scan; the step counter at 0) and the interrupt
/// lines are unmasked.  When the board was already claimed the system
/// comes up inert: nothing stored, nothing unmasked.
pub fn startup(board_available: bool, prescaler: u32) -> (sys: System)
    requires
        prescaler <= MAX_PRESCALER,
    ensures
        sys.wf(),
        sys.anim.step == 0,
        board_available ==> sys.interrupts_enabled,
        board_available ==> (sys.registry.display matches Some(d) && d.image == uniform_image(0)
            && d.phase == 0 && d.row == 0),
        board_available ==> (sys.registry.anim_timer matches Some(t) && !t.tick_pending),
        !board_available ==> sys.inert(),
{
    if board_available {
        let img = Image::blank();
        let d = DisplayState::new(img);
        System {
            registry: Registry {
                display: Some(d),
                anim_timer: Some(AnimTimer { tick_pending: false }),
            },
            anim: AnimState::new(),
            interrupts_enabled: true,
        }
    } else {
        System {
            registry: Registry { display: None, anim_timer: None },
            anim: AnimState::new(),
            interrupts_enabled: false,
        }
    }
}

/// The high-frequency handler's decision: advance the stored display
/// driver one refresh phase and report the row drive for the hardware
/// layer to perform; with no driver stored, do nothing.
pub fn on_refresh_interrupt(sys: &mut System) -> (drive: Option<RowDrive>)
    requires
        old(sys).wf(),
    ensures
        final(sys).wf(),
        *final(sys) == old(sys).spec_fire_refresh(),
        old(sys).registry.display is None ==> *final(sys) == *old(sys) && drive is None,
        old(sys).registry.display matches Some(d) ==> (drive matches Some(dr) && dr.row == d.row
            && dr.cols@ == d.spec_cols()),
{
    match &mut sys.registry.display {
        Some(d) => Some(d.on_refresh_tick()),
        None => None,
    }
}

/// The low-frequency handler's decision: acknowledge the timer event,
/// install the frame derived from the current step into the stored
/// display driver, and advance the step counter.
pub fn on_animation_interrupt(sys: &mut System)
    requires
        old(sys).wf(),
    ensures
        final(sys).wf(),
        *final(sys) == old(sys).spec_fire_animation(),
        final(sys).anim.step == spec_step_next(old(sys).anim.step),
        old(sys).registry.display matches Some(d) ==> final(sys).registry.display == Some(
            d.spec_install(
                concentric_image(
                    BORDER_BRIGHTNESS,
                    spec_brightness(old(sys).anim.step),
                    spec_brightness(old(sys).anim.step),
                ),
            ),
        ),
        old(sys).registry.display is None ==> final(sys).registry.display is None,
{
    match &mut sys.registry.anim_timer {
        Some(t) => {
            t.tick_pending = false;
        },
        None => {},
    }
    let img = sys.anim.on_animation_tick();
    match &mut sys.registry.display {
        Some(d) => {
            d.install(img);
        },
        None => {},
    }
}

/// A system whose interrupt lines were never unmasked is frozen for the
/// program's whole life: no sequence of hardware interrupt events ever
/// reaches a handler, so nothing is stored, no frame is installed, and
/// a dark matrix stays dark indefinitely.
pub proof fn lemma_masked_system_frozen(s: System, events: Seq<IrqEvent>)
    requires
        !s.interrupts_enabled,
    ensures
        s.spec_run(events) == s,
    decreases events.len(),
{
    if events.len() > 0 {
        assert(s.spec_dispatch(events[0]) == s);
        lemma_masked_system_frozen(s, events.drop_first());
    }
}

/// The registry is write-once: whatever interrupts arrive after
/// start-up, a populated registry stays populated, a well-formed system
/// stays well-formed, and no handle is ever removed or replaced by a
/// handle of another kind.
pub proof fn lemma_registry_stable(s: System, events: Seq<IrqEvent>)
    requires
        s.wf(),
    ensures
        s.spec_run(events).wf(),
        s.spec_run(events).registry.populated() == s.registry.populated(),
        s.spec_run(events).interrupts_enabled == s.interrupts_enabled,
    decreases events.len(),
{
    if events.len() > 0 {
        let s1 = s.spec_dispatch(events[0]);
        assert(s1.wf() && s1.registry.populated() == s.registry.populated()
            && s1.interrupts_enabled == s.interrupts_enabled) by {
            crate::image::lemma_concentric_image_wf(
                BORDER_BRIGHTNESS,
                spec_brightness(s.anim.step),
                spec_brightness(s.anim.step),
            );
        }
        lemma_registry_stable(s1, events.drop_first());
    }
}

} // verus!
