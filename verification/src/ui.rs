//! What the user does: buttons, touches, and the front light.
//!
//! Times are in microseconds since the start and never run backwards.

use vstd::prelude::*;

use crate::draw::SCALE_M_PER_PX;
use crate::receiver::STALE_REDRAW_SECS;

verus! {

/// Movement from which on a touch is a swipe, in points.
pub const SWIPE_MIN_PX: i32 = 40;

/// Duration from which on a touch is a long press, in milliseconds.
pub const LONG_PRESS_MS: u64 = 800;

/// Duration from which on a long press switches the device off, in milliseconds.
pub const POWER_OFF_PRESS_MS: u64 = 1000;

/// Number of looks without a finger after which a touch is over.
pub const TOUCH_RELEASE_TICKS: u8 = 3;

/// Seconds without the user after which the front light goes off.
pub const AUTO_OFF_SECS: u64 = 30;

/// Time for which the tabs do not answer after a change of screens, in milliseconds.
pub const TAB_GUARD_MS: u64 = 1500;

/// Time without a change of brightness after which the settings are shown anew, in
/// milliseconds.
pub const BRIGHTNESS_REDRAW_DELAY_MS: u64 = 600;

/// Width of a tab in points.
pub const TAB_W: i32 = 160;

/// Highest brightness step.
pub const BRIGHTNESS_TOP: u8 = 4;

/// The screens.
#[derive(Debug, Clone, Copy, PartialEq, Eq, Structural)]
pub enum Screen {
    /// The trail map, in black and white.
    Trail,
    /// The way home, in four grays.
    Homing,
    /// The settings, in black and white.
    Settings,
}

impl Screen {
    /// Whether the screen is shown in four grays.
    pub fn in_grays(self) -> (yes: bool)
        ensures
            yes == (self == Screen::Homing),
    {
        match self {
            Screen::Homing => true,
            _ => false,
        }
    }
}

/// Brightness of the front light at a step, for the greatest brightness there is.
pub open spec fn duty_of(step: u8, max: u16) -> u16 {
    if step == 0 {
        0
    } else if step == 1 {
        max / 8
    } else if step == 2 {
        max / 4
    } else if step == 3 {
        max / 2
    } else {
        max
    }
}

/// Brightness of the front light at a step.
pub fn brightness_duty(step: u8, max: u16) -> (duty: u16)
    ensures
        duty == duty_of(step, max),
{
    if step == 0 {
        0
    } else if step == 1 {
        max / 8
    } else if step == 2 {
        max / 4
    } else if step == 3 {
        max / 2
    } else {
        max
    }
}

/// A higher step is never darker, the lowest is off and the highest the brightest.
pub proof fn law_brightness_rises(low: u8, high: u8, max: u16)
    requires
        low <= high,
    ensures
        duty_of(low, max) <= duty_of(high, max) <= max,
        duty_of(0, max) == 0,
        duty_of(BRIGHTNESS_TOP, max) == max,
{
}

/// What is shown of a brightness step.
pub open spec fn step_shown(step: u8) -> Seq<char> {
    if step == 0 {
        "OFF"@
    } else if step == 1 {
        "1"@
    } else if step == 2 {
        "2"@
    } else if step == 3 {
        "3"@
    } else {
        "MAX"@
    }
}

/// What is shown of a brightness step.
pub fn brightness_name(step: u8) -> (s: &'static str)
    ensures
        s@ == step_shown(step),
{
    match step {
        0 => "OFF",
        1 => "1",
        2 => "2",
        3 => "3",
        _ => "MAX",
    }
}

/// The highest step whose brightness is at most `duty`.
pub open spec fn step_for(duty: u16, max: u16) -> u8 {
    if duty >= max {
        4
    } else if duty >= max / 2 {
        3
    } else if duty >= max / 4 {
        2
    } else if duty >= max / 8 {
        1
    } else {
        0
    }
}

/// The step of a duty; a light that is off is at step 0, whatever the full duty is.
pub open spec fn step_of(duty: u16, max: u16) -> u8 {
    if duty == 0 {
        0
    } else {
        step_for(duty, max)
    }
}

/// The step that a brightness stands for; a light that is off is at step 0.
pub fn brightness_step(duty: u16, max: u16) -> (step: u8)
    ensures
        step == (if duty == 0 {
            0
        } else {
            step_for(duty, max)
        }),
        step == step_of(duty, max),
        step <= BRIGHTNESS_TOP,
{
    if duty == 0 {
        0
    } else if duty >= max {
        4
    } else if duty >= max / 2 {
        3
    } else if duty >= max / 4 {
        2
    } else if duty >= max / 8 {
        1
    } else {
        0
    }
}

/// Every step is found again from its brightness, where the steps differ at all.
pub proof fn law_step_is_found_again(step: u8, max: u16)
    requires
        step <= BRIGHTNESS_TOP,
        max >= 8,
    ensures
        step > 0 ==> duty_of(step, max) > 0 && step_for(duty_of(step, max), max) == step,
{
}

/// State of the memory card, as it is shown.
#[derive(Debug, Clone, Copy, PartialEq, Eq, Structural)]
pub enum SdState {
    /// Lines are logged.
    Logging,
    /// The card may be taken out.
    Ejected,
    /// There is no card.
    NoCard,
}

impl SdState {
    /// What is shown of the card.
    pub open spec fn shown(self) -> Seq<char> {
        match self {
            SdState::Logging => "LOGGING"@,
            SdState::Ejected => "REMOVE OK"@,
            SdState::NoCard => "NO CARD"@,
        }
    }

    /// What is shown of the card.
    pub fn name(self) -> (s: &'static str)
        ensures
            s@ == self.shown(),
    {
        match self {
            SdState::Logging => "LOGGING",
            SdState::Ejected => "REMOVE OK",
            SdState::NoCard => "NO CARD",
        }
    }
}

/// State of the memory card.
pub open spec fn card_state(logging: bool, ejected: bool) -> SdState {
    if logging {
        SdState::Logging
    } else if ejected {
        SdState::Ejected
    } else {
        SdState::NoCard
    }
}

/// State of the memory card, for whether lines are logged and whether that was stopped.
pub fn sd_state(logging: bool, ejected: bool) -> (s: SdState)
    ensures
        s == (if logging {
            SdState::Logging
        } else if ejected {
            SdState::Ejected
        } else {
            SdState::NoCard
        }),
        s == card_state(logging, ejected),
{
    match (logging, ejected) {
        (true, _) => SdState::Logging,
        (false, true) => SdState::Ejected,
        (false, false) => SdState::NoCard,
    }
}

/// Whole milliseconds or more since a time.
pub open spec fn passed_ms(from_us: u64, now_us: u64, ms: u64) -> bool {
    now_us - from_us >= ms * 1_000
}

/// Whether so many milliseconds have passed.
fn passed(from_us: u64, now_us: u64, ms: u64) -> (yes: bool)
    requires
        from_us <= now_us,
        ms <= 1_000_000_000,
    ensures
        yes == passed_ms(from_us, now_us, ms),
{
    now_us - from_us >= ms * 1_000
}

/// What the buttons change.
#[derive(Debug, Clone, Copy, PartialEq, Eq, Structural)]
pub struct Knobs {
    /// Step of the zoom.
    pub scale: usize,
    /// Step of the brightness.
    pub brightness: u8,
}

impl Knobs {
    /// Steps that exist.
    pub open spec fn valid(self) -> bool {
        self.scale < SCALE_M_PER_PX@.len() && self.brightness <= BRIGHTNESS_TOP
    }

    /// After button A: on the settings one step brighter, else one step closer, as far as
    /// there are steps.
    pub open spec fn after_a(self, settings: bool) -> Self {
        if settings {
            Knobs {
                brightness: if self.brightness < BRIGHTNESS_TOP {
                    (self.brightness + 1) as u8
                } else {
                    self.brightness
                },
                ..self
            }
        } else {
            Knobs {
                scale: if self.scale > 0 {
                    (self.scale - 1) as usize
                } else {
                    self.scale
                },
                ..self
            }
        }
    }

    /// After button B: on the settings one step darker, else one step farther, as far as
    /// there are steps.
    pub open spec fn after_b(self, settings: bool) -> Self {
        if settings {
            Knobs {
                brightness: if self.brightness > 0 {
                    (self.brightness - 1) as u8
                } else {
                    self.brightness
                },
                ..self
            }
        } else {
            Knobs {
                scale: if self.scale + 1 < SCALE_M_PER_PX@.len() {
                    (self.scale + 1) as usize
                } else {
                    self.scale
                },
                ..self
            }
        }
    }
}

/// The two buttons and what they change.
#[derive(Debug, Clone, Copy, PartialEq, Eq, Structural)]
pub struct Buttons {
    pub knobs: Knobs,
    /// Whether button A was down at the last look.
    pub a: bool,
    /// Whether button B was down at the last look.
    pub b: bool,
}

/// What a look at the buttons has done.
#[derive(Debug, Clone, Copy, PartialEq, Eq, Structural)]
pub struct Pressed {
    /// A button was pressed.
    pub input: bool,
    /// The zoom has changed.
    pub zoomed: bool,
    /// The brightness has changed.
    pub lit: bool,
}

impl Buttons {
    /// The knobs after a look that finds the buttons down or not. A button counts when it
    /// goes down.
    pub open spec fn turned(self, a: bool, b: bool, settings: bool) -> Knobs {
        let k = if a && !self.a {
            self.knobs.after_a(settings)
        } else {
            self.knobs
        };
        if b && !self.b {
            k.after_b(settings)
        } else {
            k
        }
    }

    /// What a look that finds the buttons down or not does.
    pub open spec fn pressed(self, a: bool, b: bool, settings: bool) -> Pressed {
        let first = a && !self.a;
        let second = b && !self.b;
        let k = if first {
            self.knobs.after_a(settings)
        } else {
            self.knobs
        };
        Pressed {
            input: first || second,
            zoomed: !settings && (first && self.knobs.scale > 0 || second && k.scale + 1
                < SCALE_M_PER_PX@.len()),
            lit: settings && (first && self.knobs.brightness < BRIGHTNESS_TOP || second
                && k.brightness > 0),
        }
    }

    /// Buttons that are up.
    pub fn new(scale: usize, brightness: u8) -> (b: Self)
        ensures
            b == (Buttons { knobs: Knobs { scale, brightness }, a: false, b: false }),
    {
        Buttons { knobs: Knobs { scale, brightness }, a: false, b: false }
    }

    /// Looks at the buttons.
    pub fn look(&mut self, a: bool, b: bool, settings: bool) -> (p: Pressed)
        requires
            old(self).knobs.valid(),
        ensures
            *final(self) == (Buttons { knobs: old(self).turned(a, b, settings), a, b }),
            final(self).knobs.valid(),
            p == old(self).pressed(a, b, settings),
    {
        let mut p = Pressed { input: false, zoomed: false, lit: false };
        if a && !self.a {
            p.input = true;
            if settings {
                if self.knobs.brightness < BRIGHTNESS_TOP {
                    self.knobs.brightness = self.knobs.brightness + 1;
                    p.lit = true;
                }
            } else if self.knobs.scale > 0 {
                self.knobs.scale = self.knobs.scale - 1;
                p.zoomed = true;
            }
        }
        if b && !self.b {
            p.input = true;
            if settings {
                if self.knobs.brightness > 0 {
                    self.knobs.brightness = self.knobs.brightness - 1;
                    p.lit = true;
                }
            } else if self.knobs.scale + 1 < SCALE_M_PER_PX.len() {
                self.knobs.scale = self.knobs.scale + 1;
                p.zoomed = true;
            }
        }
        self.a = a;
        self.b = b;
        p
    }

    /// Metres per point at the zoom's step.
    pub fn m_per_px(&self) -> (m: u32)
        requires
            self.knobs.valid(),
        ensures
            m == SCALE_M_PER_PX@[self.knobs.scale as int],
    {
        SCALE_M_PER_PX[self.knobs.scale]
    }
}

/// A button that is held down counts once.
pub proof fn law_held_buttons_count_once(s: Buttons, a: bool, b: bool, settings: bool)
    ensures
        ({
            let t = Buttons { knobs: s.turned(a, b, settings), a, b };
            t.turned(a, b, settings) == t.knobs
        }),
{
}

/// Zooming in and out again, or turning the light up and down again, gives back what was
/// there, except at the last step.
pub proof fn law_buttons_undo_each_other(k: Knobs, settings: bool)
    requires
        k.valid(),
    ensures
        settings && k.brightness < BRIGHTNESS_TOP ==> k.after_a(true).after_b(true) == k,
        !settings && k.scale > 0 ==> k.after_a(false).after_b(false) == k,
        k.after_a(settings).valid(),
        k.after_b(settings).valid(),
{
}

/// A finger on the screen, or its absence.
#[derive(Debug, Clone, Copy, PartialEq, Eq, Structural)]
pub struct Touch {
    pub active: bool,
    pub x0: i32,
    pub y0: i32,
    pub x: i32,
    pub y: i32,
    pub since_us: u64,
    pub idle: u8,
}

/// What a touch was, once it is over.
#[derive(Debug, Clone, Copy, PartialEq, Eq, Structural)]
pub enum Gesture {
    /// A swipe, with how far it went right and down.
    Swipe(i32, i32),
    /// A long press, with how long it was in microseconds.
    Long(u64),
    /// A tap, with where it was.
    Tap(i32, i32),
}

impl Touch {
    /// Coordinates of the screen, times in order.
    pub open spec fn valid(self, now_us: u64) -> bool {
        &&& 0 <= self.x0 <= i16::MAX && 0 <= self.y0 <= i16::MAX
        &&& 0 <= self.x <= i16::MAX && 0 <= self.y <= i16::MAX
        &&& self.since_us <= now_us
        &&& self.idle < TOUCH_RELEASE_TICKS
    }

    /// What the touch is when it ends now: a swipe where it went far, else a long press
    /// where it took long, else a tap.
    pub open spec fn gesture(self, now_us: u64) -> Gesture {
        let dx = self.x - self.x0;
        let dy = self.y - self.y0;
        if dx * dx + dy * dy >= SWIPE_MIN_PX * SWIPE_MIN_PX {
            Gesture::Swipe(dx as i32, dy as i32)
        } else if passed_ms(self.since_us, now_us, LONG_PRESS_MS) {
            Gesture::Long((now_us - self.since_us) as u64)
        } else {
            Gesture::Tap(self.x, self.y)
        }
    }

    /// The touch after a look that finds a finger at `p` or none. It is over when no
    /// finger was there for [`TOUCH_RELEASE_TICKS`] looks.
    pub open spec fn seen(self, p: Option<(i32, i32)>, now_us: u64) -> Self {
        match p {
            Some((x, y)) => if self.active {
                Touch { x, y, idle: 0, ..self }
            } else {
                Touch { active: true, x0: x, y0: y, x, y, since_us: now_us, idle: 0 }
            },
            None => if !self.active {
                self
            } else if self.idle + 1 >= TOUCH_RELEASE_TICKS {
                Touch { active: false, idle: 0, ..self }
            } else {
                Touch { idle: (self.idle + 1) as u8, ..self }
            },
        }
    }

    /// Whether a look ends the touch.
    pub open spec fn released(self, p: Option<(i32, i32)>) -> bool {
        p is None && self.active && self.idle + 1 >= TOUCH_RELEASE_TICKS
    }

    /// No finger.
    pub fn new(now_us: u64) -> (t: Self)
        ensures
            t == (Touch { active: false, x0: 0, y0: 0, x: 0, y: 0, since_us: now_us, idle: 0 }),
            t.valid(now_us),
    {
        Touch { active: false, x0: 0, y0: 0, x: 0, y: 0, since_us: now_us, idle: 0 }
    }

    /// Looks for a finger. Gives what the touch was, once it is over.
    pub fn look(&mut self, p: Option<(i32, i32)>, now_us: u64) -> (g: Option<Gesture>)
        requires
            old(self).valid(now_us),
            p matches Some((x, y)) ==> 0 <= x <= i16::MAX && 0 <= y <= i16::MAX,
        ensures
            *final(self) == old(self).seen(p, now_us),
            final(self).valid(now_us),
            g == (if old(self).released(p) {
                Some(old(self).gesture(now_us))
            } else {
                None
            }),
    {
        match p {
            Some((x, y)) => {
                if !self.active {
                    self.active = true;
                    self.x0 = x;
                    self.y0 = y;
                    self.since_us = now_us;
                }
                self.x = x;
                self.y = y;
                self.idle = 0;
                None
            },
            None => {
                if !self.active {
                    return None;
                }
                if self.idle + 1 < TOUCH_RELEASE_TICKS {
                    self.idle = self.idle + 1;
                    return None;
                }
                self.active = false;
                self.idle = 0;
                let dx: i32 = self.x - self.x0;
                let dy: i32 = self.y - self.y0;
                proof {
                    assert(0 <= dx * dx <= 0x3FFF_0001 && 0 <= dy * dy <= 0x3FFF_0001)
                        by (nonlinear_arith)
                        requires
                            -0x7FFF <= dx <= 0x7FFF,
                            -0x7FFF <= dy <= 0x7FFF,
                    ;
                }
                if dx * dx + dy * dy >= SWIPE_MIN_PX * SWIPE_MIN_PX {
                    Some(Gesture::Swipe(dx, dy))
                } else if passed(self.since_us, now_us, LONG_PRESS_MS) {
                    Some(Gesture::Long(now_us - self.since_us))
                } else {
                    Some(Gesture::Tap(self.x, self.y))
                }
            },
        }
    }
}

/// Where the screens have something to tap: upper edge of the tabs, and upper and lower
/// edges of the rows of the settings.
#[derive(Debug, Clone, Copy)]
pub struct Layout {
    pub tabs: i32,
    pub auto_off: (i32, i32),
    pub reset: (i32, i32),
    pub card: (i32, i32),
}

/// Whether a row holds a height.
pub open spec fn in_row(row: (i32, i32), y: i32) -> bool {
    row.0 <= y < row.1
}

/// What is to be done about a gesture.
#[derive(Debug, Clone, Copy, PartialEq, Eq, Structural)]
pub enum Deed {
    Nothing,
    /// Move the map by so many points right and down.
    Pan(i32, i32),
    /// Let the map follow the newest position again.
    Recenter,
    /// Switch the device off.
    PowerOff,
    /// Show another screen.
    Show(Screen),
    /// Let the light go off by itself, or no longer.
    ToggleAutoOff,
    /// Start the device anew with its supplies on.
    WarmReset,
    /// Stop logging, so that the card can be taken out.
    EjectCard,
}

/// What a gesture depends on besides itself.
#[derive(Debug, Clone, Copy, PartialEq, Eq, Structural)]
pub struct Scene {
    pub screen: Screen,
    /// The tabs answer again after the last change of screens.
    pub tabs_ready: bool,
    /// Lines are logged.
    pub logging: bool,
    /// The user has moved the map.
    pub panned: bool,
    /// There is something to centre the map on.
    pub centered: bool,
}

/// The screen of the tab at a place.
pub open spec fn tab_at(x: i32) -> Screen {
    if x < TAB_W {
        Screen::Trail
    } else if x < 2 * TAB_W {
        Screen::Homing
    } else {
        Screen::Settings
    }
}

/// What a gesture does. A swipe moves the trail map. A long press of a second switches the
/// device off on the settings; elsewhere any long press lets a moved map follow again. A tap
/// on a tab shows its screen, and a tap on a row of the settings does what the row says.
pub open spec fn deed_of(g: Gesture, s: Scene, l: Layout) -> Deed {
    match g {
        Gesture::Swipe(dx, dy) => if s.screen == Screen::Trail && s.centered {
            Deed::Pan(dx, dy)
        } else {
            Deed::Nothing
        },
        Gesture::Long(held_us) => if s.screen == Screen::Settings {
            if held_us >= POWER_OFF_PRESS_MS * 1000 {
                Deed::PowerOff
            } else {
                Deed::Nothing
            }
        } else if s.panned {
            Deed::Recenter
        } else {
            Deed::Nothing
        },
        Gesture::Tap(x, y) => if y >= l.tabs {
            if tab_at(x) != s.screen && s.tabs_ready {
                Deed::Show(tab_at(x))
            } else {
                Deed::Nothing
            }
        } else if s.screen != Screen::Settings {
            Deed::Nothing
        } else if in_row(l.auto_off, y) {
            Deed::ToggleAutoOff
        } else if in_row(l.reset, y) {
            Deed::WarmReset
        } else if in_row(l.card, y) && s.logging {
            Deed::EjectCard
        } else {
            Deed::Nothing
        },
    }
}

/// What a gesture does.
pub fn deed(g: Gesture, s: &Scene, l: &Layout) -> (d: Deed)
    ensures
        d == deed_of(g, *s, *l),
{
    match g {
        Gesture::Swipe(dx, dy) => {
            if s.screen == Screen::Trail && s.centered {
                Deed::Pan(dx, dy)
            } else {
                Deed::Nothing
            }
        },
        Gesture::Long(held_us) => {
            if s.screen == Screen::Settings {
                if held_us >= POWER_OFF_PRESS_MS * 1000 {
                    Deed::PowerOff
                } else {
                    Deed::Nothing
                }
            } else if s.panned {
                Deed::Recenter
            } else {
                Deed::Nothing
            }
        },
        Gesture::Tap(x, y) => {
            if y >= l.tabs {
                let tab: Screen = if x < TAB_W {
                    Screen::Trail
                } else if x < 2 * TAB_W {
                    Screen::Homing
                } else {
                    Screen::Settings
                };
                if tab != s.screen && s.tabs_ready {
                    Deed::Show(tab)
                } else {
                    Deed::Nothing
                }
            } else if s.screen != Screen::Settings {
                Deed::Nothing
            } else if l.auto_off.0 <= y && y < l.auto_off.1 {
                Deed::ToggleAutoOff
            } else if l.reset.0 <= y && y < l.reset.1 {
                Deed::WarmReset
            } else if l.card.0 <= y && y < l.card.1 && s.logging {
                Deed::EjectCard
            } else {
                Deed::Nothing
            }
        },
    }
}

/// The device is switched off, restarted or stops logging only from the settings, and is
/// switched off only by a press of a second or more.
pub proof fn law_settings_guard(g: Gesture, s: Scene, l: Layout)
    ensures
        ({
            let d = deed_of(g, s, l);
            (d == Deed::PowerOff || d == Deed::WarmReset || d == Deed::EjectCard || d
                == Deed::ToggleAutoOff) ==> s.screen == Screen::Settings
        }),
        deed_of(g, s, l) == Deed::PowerOff ==> (g matches Gesture::Long(held_us) && held_us
            >= POWER_OFF_PRESS_MS * 1000),
        deed_of(g, s, l) == Deed::EjectCard ==> s.logging,
        deed_of(g, s, l) matches Deed::Show(t) ==> t != s.screen && s.tabs_ready,
{
}

/// The screen that is shown, and since when.
#[derive(Debug, Clone, Copy, PartialEq, Eq, Structural)]
pub struct Shown {
    pub screen: Screen,
    pub since_us: u64,
}

impl Shown {
    /// The trail map.
    pub fn new(now_us: u64) -> (s: Self)
        ensures
            s == (Shown { screen: Screen::Trail, since_us: now_us }),
    {
        Shown { screen: Screen::Trail, since_us: now_us }
    }

    /// Whether the tabs answer.
    pub fn tabs_ready(&self, now_us: u64) -> (yes: bool)
        requires
            self.since_us <= now_us,
        ensures
            yes == passed_ms(self.since_us, now_us, TAB_GUARD_MS),
    {
        passed(self.since_us, now_us, TAB_GUARD_MS)
    }

    /// Shows a screen.
    pub fn show(&mut self, screen: Screen, now_us: u64)
        ensures
            *final(self) == (Shown { screen, since_us: now_us }),
    {
        self.screen = screen;
        self.since_us = now_us;
    }
}

/// The front light.
#[derive(Debug, Clone, Copy, PartialEq, Eq, Structural)]
pub struct Light {
    /// It goes off by itself.
    pub auto_off: bool,
    /// It went off by itself.
    pub dimmed: bool,
    /// When the user last did something.
    pub input_us: u64,
}

impl Light {
    /// Whether the light goes off now.
    pub open spec fn goes_off(self, input: bool, step: u8, now_us: u64) -> bool {
        !input && self.auto_off && !self.dimmed && step > 0 && passed_ms(
            self.input_us,
            now_us,
            (AUTO_OFF_SECS * 1000) as u64,
        )
    }

    /// The light after a look at whether the user did something.
    pub open spec fn attended(self, input: bool, step: u8, now_us: u64) -> Self {
        if input {
            Light { dimmed: false, input_us: now_us, ..self }
        } else if self.goes_off(input, step, now_us) {
            Light { dimmed: true, ..self }
        } else {
            self
        }
    }

    /// The step that the light is set to anew, if it is.
    pub open spec fn set(self, input: bool, step: u8, now_us: u64) -> Option<u8> {
        if input && self.dimmed && step > 0 {
            Some(step)
        } else if self.goes_off(input, step, now_us) {
            Some(0u8)
        } else {
            None
        }
    }

    /// The step that is in effect.
    pub open spec fn in_effect(self, step: u8) -> u8 {
        if self.dimmed {
            0
        } else {
            step
        }
    }

    /// A light that is on.
    pub fn new(auto_off: bool, now_us: u64) -> (l: Self)
        ensures
            l == (Light { auto_off, dimmed: false, input_us: now_us }),
    {
        Light { auto_off, dimmed: false, input_us: now_us }
    }

    /// Looks whether the user did something. Gives the step to set, where the light goes
    /// off or comes back.
    pub fn attend(&mut self, input: bool, step: u8, now_us: u64) -> (set: Option<u8>)
        requires
            old(self).input_us <= now_us,
        ensures
            *final(self) == old(self).attended(input, step, now_us),
            set == (if input && old(self).dimmed && step > 0 {
                Some(step)
            } else if old(self).goes_off(input, step, now_us) {
                Some(0u8)
            } else {
                None
            }),
            set == old(self).set(input, step, now_us),
    {
        if input {
            self.input_us = now_us;
            if self.dimmed {
                self.dimmed = false;
                if step > 0 {
                    return Some(step);
                }
            }
            None
        } else if self.auto_off && !self.dimmed && step > 0 && passed(
            self.input_us,
            now_us,
            AUTO_OFF_SECS * 1000,
        ) {
            self.dimmed = true;
            Some(0)
        } else {
            None
        }
    }

    /// The step that is in effect.
    pub fn effective(&self, step: u8) -> (e: u8)
        ensures
            e == self.in_effect(step),
    {
        if self.dimmed {
            0
        } else {
            step
        }
    }

    /// Lets the light go off by itself, or no longer.
    pub fn toggle_auto_off(&mut self)
        ensures
            *final(self) == (Light { auto_off: !old(self).auto_off, ..*old(self) }),
    {
        self.auto_off = !self.auto_off;
    }
}

/// Whatever the user does brings the light back, and it does not go off before half a
/// minute has passed.
pub proof fn law_light_comes_back(l: Light, step: u8, now_us: u64, later_us: u64)
    requires
        now_us <= later_us,
        later_us - now_us < AUTO_OFF_SECS * 1_000_000,
    ensures
        l.attended(true, step, now_us).in_effect(step) == step,
        l.attended(true, step, now_us).attended(false, step, later_us).in_effect(step) == step,
{
}

/// When the page was drawn, and when it has to be drawn for a new brightness.
#[derive(Debug, Clone, Copy, PartialEq, Eq, Structural)]
pub struct Redraw {
    pub drawn_us: u64,
    pub wanted_us: Option<u64>,
}

impl Redraw {
    /// After the brightness was changed: the page is wanted a little later.
    pub open spec fn wanting(self, now_us: u64) -> Self {
        Redraw {
            wanted_us: Some((now_us + BRIGHTNESS_REDRAW_DELAY_MS * 1000) as u64),
            ..self
        }
    }

    /// After the page was drawn: it is not wanted any more.
    pub open spec fn done(self, now_us: u64) -> Self {
        Redraw { drawn_us: now_us, wanted_us: None }
    }

    /// Whether the page is to be drawn: where that was asked for, where the brightness has
    /// not changed for a while after it changed, or where frames came once and the age
    /// shown is old.
    pub open spec fn is_due(self, asked: bool, received: bool, now_us: u64) -> bool {
        ||| asked
        ||| self.wanted_us matches Some(t) && t <= now_us
        ||| received && passed_ms(self.drawn_us, now_us, (STALE_REDRAW_SECS * 1000) as u64)
    }

    /// Drawn now.
    pub fn new(now_us: u64) -> (r: Self)
        ensures
            r == (Redraw { drawn_us: now_us, wanted_us: None }),
    {
        Redraw { drawn_us: now_us, wanted_us: None }
    }

    /// Takes down that the brightness has changed.
    pub fn brightness_changed(&mut self, now_us: u64)
        requires
            now_us <= u64::MAX - BRIGHTNESS_REDRAW_DELAY_MS * 1000,
        ensures
            *final(self) == (Redraw {
                wanted_us: Some((now_us + BRIGHTNESS_REDRAW_DELAY_MS * 1000) as u64),
                ..*old(self)
            }),
            *final(self) == old(self).wanting(now_us),
    {
        self.wanted_us = Some(now_us + BRIGHTNESS_REDRAW_DELAY_MS * 1000);
    }

    /// Whether the page is to be drawn.
    pub fn due(&self, asked: bool, received: bool, now_us: u64) -> (yes: bool)
        requires
            self.drawn_us <= now_us,
        ensures
            yes == self.is_due(asked, received, now_us),
    {
        if asked {
            return true;
        }
        if let Some(t) = self.wanted_us {
            if t <= now_us {
                return true;
            }
        }
        received && passed(self.drawn_us, now_us, STALE_REDRAW_SECS * 1000)
    }

    /// Takes down that the page was drawn.
    pub fn drawn(&mut self, now_us: u64)
        ensures
            *final(self) == (Redraw { drawn_us: now_us, wanted_us: None }),
            *final(self) == old(self).done(now_us),
    {
        self.drawn_us = now_us;
        self.wanted_us = None;
    }
}

/// However often the brightness changes, the page is drawn for it only once the changes
/// have stopped, and then once: when it was drawn, it is not due again until it is old, or
/// at all where no frame came.
pub proof fn law_brightness_is_drawn_once(
    r: Redraw,
    changed_us: u64,
    now_us: u64,
    drawn_us: u64,
    later_us: u64,
    received: bool,
)
    requires
        r.drawn_us <= changed_us <= now_us <= drawn_us <= later_us,
        changed_us <= u64::MAX - BRIGHTNESS_REDRAW_DELAY_MS * 1000,
    ensures
        ({
            let s = Redraw {
                wanted_us: Some((changed_us + BRIGHTNESS_REDRAW_DELAY_MS * 1000) as u64),
                ..r
            };
            let t = Redraw { drawn_us, wanted_us: None };
            &&& s.is_due(false, false, now_us) == passed_ms(
                changed_us,
                now_us,
                BRIGHTNESS_REDRAW_DELAY_MS,
            )
            &&& !t.is_due(false, false, later_us)
            &&& !passed_ms(drawn_us, later_us, (STALE_REDRAW_SECS * 1000) as u64) ==> !t.is_due(
                false,
                received,
                later_us,
            )
        }),
{
}

/// Steps 1, 2 and 3 are an eighth, a quarter and a half of the full light, rounded down;
/// 0 is off, and 4 and everything above is the full light.
pub proof fn law_duty_is_a_fraction(step: u8, max: u16)
    ensures
        duty_of(0, max) == 0,
        8 * duty_of(1, max) <= max < 8 * (duty_of(1, max) + 1),
        4 * duty_of(2, max) <= max < 4 * (duty_of(2, max) + 1),
        2 * duty_of(3, max) <= max < 2 * (duty_of(3, max) + 1),
        step >= 4 ==> duty_of(step, max) == max,
{
}

/// The step of a duty is the highest one that the duty is enough for.
pub proof fn law_step_is_the_highest_reached(duty: u16, max: u16)
    ensures
        step_for(duty, max) <= 4,
        duty_of(step_for(duty, max), max) <= duty,
        forall|k: u8|
            step_for(duty, max) < k <= 4 ==> duty < #[trigger] duty_of(k, max),
{
}

/// Off and full light are named; the steps between have their digit.
pub proof fn law_step_names(step: u8)
    ensures
        step == 0 ==> step_shown(step) == "OFF"@,
        1 <= step <= 3 ==> step_shown(step).len() == 1 && step_shown(step)[0] as u32 == 0x30 + step,
        step > 3 ==> step_shown(step) == "MAX"@,
{
    reveal_strlit("1");
    reveal_strlit("2");
    reveal_strlit("3");
}

/// The zoom steps rise, each to between twice and two and a half times the one before.
pub proof fn law_zoom_steps_rise(k: int)
    requires
        0 <= k < 6,
    ensures
        SCALE_M_PER_PX@.len() == 7,
        SCALE_M_PER_PX@[0] == 1,
        2 * SCALE_M_PER_PX@[k] <= SCALE_M_PER_PX@[k + 1],
        2 * SCALE_M_PER_PX@[k + 1] <= 5 * SCALE_M_PER_PX@[k],
        SCALE_M_PER_PX@[6] == 100,
{
}

/// A press moves one thing by one step, if it can still move: in the settings the light, up
/// with the first button and down with the second; elsewhere the zoom, the other way round.
/// What it does not move stays as it is.
pub proof fn law_a_press_is_one_step(k: Knobs)
    requires
        k.valid(),
    ensures
        k.after_a(true).scale == k.scale,
        k.after_b(true).scale == k.scale,
        k.after_a(false).brightness == k.brightness,
        k.after_b(false).brightness == k.brightness,
        k.after_a(true).brightness - k.brightness == if k.brightness == 4 {
            0int
        } else {
            1
        },
        k.brightness - k.after_b(true).brightness == if k.brightness == 0 {
            0int
        } else {
            1
        },
        k.scale - k.after_a(false).scale == if k.scale == 0 {
            0int
        } else {
            1
        },
        k.after_b(false).scale - k.scale == if k.scale == 6 {
            0int
        } else {
            1
        },
{
}

/// A look at the buttons counts those that are down and were not before. One of them alone
/// is reported as a change of the zoom or of the light exactly if it made one; both at once
/// are taken in turn, the first one first.
pub proof fn law_presses_are_reported(s: Buttons, a: bool, b: bool, settings: bool)
    requires
        s.knobs.valid(),
    ensures
        ({
            let first = a && !s.a;
            let second = b && !s.b;
            let k = s.turned(a, b, settings);
            let p = s.pressed(a, b, settings);
            &&& p.input <==> first || second
            &&& p.zoomed ==> !settings && p.input
            &&& p.lit ==> settings && p.input
            &&& !(first && second) ==> (p.zoomed <==> k.scale != s.knobs.scale) && (p.lit
                <==> k.brightness != s.knobs.brightness)
            &&& first && second ==> p.zoomed == !settings && p.lit == settings && k
                == s.knobs.after_a(settings).after_b(settings)
            &&& first && !second ==> k == s.knobs.after_a(settings)
            &&& second && !first ==> k == s.knobs.after_b(settings)
            &&& !first && !second ==> k == s.knobs
        }),
{
}

/// A touch lasts from the first look that finds a finger to the third in a row that finds
/// none; a finger found again before that goes on with it. What it was is told by where the
/// finger was first and last and by how long ago it was first found: moved by 40 points or
/// more it is a swipe by that much, else held for 800 ms or more a long press of that time,
/// else a tap where it was last.
pub proof fn law_touch_from_first_to_last(
    t: Touch,
    from: (i32, i32),
    to: (i32, i32),
    began_us: u64,
    moved_us: u64,
    ended_us: u64,
)
    requires
        !t.active,
        began_us <= moved_us <= ended_us,
        0 <= from.0 <= i16::MAX && 0 <= from.1 <= i16::MAX,
        0 <= to.0 <= i16::MAX && 0 <= to.1 <= i16::MAX,
    ensures
        ({
            let t1 = t.seen(Some(from), began_us);
            let t2 = t1.seen(Some(to), moved_us);
            let t3 = t2.seen(None, ended_us);
            let t4 = t3.seen(None, ended_us);
            let t5 = t4.seen(None, ended_us);
            let dx = to.0 - from.0;
            let dy = to.1 - from.1;
            let swiped = dx * dx + dy * dy >= 1600;
            let held = ended_us - began_us;
            let g = t4.gesture(ended_us);
            &&& !t.released(None) && !t1.released(Some(to)) && !t2.released(None) && !t3.released(
                None,
            )
            &&& t4.released(None) && !t4.released(Some(to))
            &&& t1.active && t2.active && t3.active && t4.active && !t5.active
            &&& t3.seen(Some(to), ended_us) == t2 && t4.seen(Some(to), ended_us) == t2
            &&& swiped ==> (g matches Gesture::Swipe(x, y) && x == dx && y == dy)
            &&& !swiped && held >= 800_000 ==> (g matches Gesture::Long(us) && us == held)
            &&& !swiped && held < 800_000 ==> g == Gesture::Tap(to.0, to.1)
        }),
{
}

/// Which deed is done, and only then. The map moves by a swipe over it, if there is one to
/// move, and comes back with a long press. A tap among the tabs shows the screen of the
/// third of the width that it falls in, unless that is shown already or the tabs are not
/// ready. In the settings a press of a second switches off, and a tap above the tabs does
/// what its row says, the first row that holds it; the card's only while it is in use.
pub proof fn law_deeds(g: Gesture, s: Scene, l: Layout)
    ensures
        ({
            let d = deed_of(g, s, l);
            let set = s.screen == Screen::Settings;
            &&& d is Pan <==> g is Swipe && s.screen == Screen::Trail && s.centered
            &&& d matches Deed::Pan(dx, dy) ==> g == Gesture::Swipe(dx, dy)
            &&& d == Deed::Recenter <==> g is Long && !set && s.panned
            &&& d == Deed::PowerOff <==> set && (g matches Gesture::Long(us) && us >= 1_000_000)
            &&& d == Deed::Show(Screen::Trail) <==> s.tabs_ready && s.screen != Screen::Trail && (
            g matches Gesture::Tap(x, y) && y >= l.tabs && x < 160)
            &&& d == Deed::Show(Screen::Homing) <==> s.tabs_ready && s.screen != Screen::Homing && (
            g matches Gesture::Tap(x, y) && y >= l.tabs && 160 <= x < 320)
            &&& d == Deed::Show(Screen::Settings) <==> s.tabs_ready && !set && (
            g matches Gesture::Tap(x, y) && y >= l.tabs && x >= 320)
            &&& d == Deed::ToggleAutoOff <==> set && (g matches Gesture::Tap(_, y) && y < l.tabs
                && l.auto_off.0 <= y < l.auto_off.1)
            &&& d == Deed::WarmReset <==> set && (g matches Gesture::Tap(_, y) && y < l.tabs
                && l.reset.0 <= y < l.reset.1 && !(l.auto_off.0 <= y < l.auto_off.1))
            &&& d == Deed::EjectCard <==> set && s.logging && (g matches Gesture::Tap(_, y) && y
                < l.tabs && l.card.0 <= y < l.card.1 && !(l.auto_off.0 <= y < l.auto_off.1) && !(
            l.reset.0 <= y < l.reset.1))
        }),
{
}

/// A span has passed when the clock shows its beginning and the span, or more.
pub proof fn law_spans_pass(from_us: u64, now_us: u64, ms: u64)
    ensures
        passed_ms(from_us, now_us, ms) <==> now_us >= from_us + 1000 * ms,
{
}

/// The light goes off by itself 30 s or more after the last input, if that is switched on
/// and there is light. An input brings it back and counts as the last one. It is set anew
/// exactly when what is in effect changes, and then to what is in effect.
pub proof fn law_light_is_set_when_it_changes(l: Light, input: bool, step: u8, now_us: u64)
    requires
        l.input_us <= now_us,
    ensures
        ({
            let m = l.attended(input, step, now_us);
            &&& m.auto_off == l.auto_off
            &&& input ==> !m.dimmed && m.input_us == now_us
            &&& !input ==> m.input_us == l.input_us
            &&& !input ==> (m.dimmed <==> l.dimmed || l.auto_off && step > 0 && now_us - l.input_us
                >= 30_000_000)
            &&& l.set(input, step, now_us) is Some <==> m.in_effect(step) != l.in_effect(step)
            &&& l.set(input, step, now_us) matches Some(e) ==> e == m.in_effect(step)
            &&& m.dimmed ==> m.in_effect(step) == 0
            &&& !m.dimmed ==> m.in_effect(step) == step
        }),
{
}

/// The page is drawn when it is asked for, when the time that it was wanted at has come, or,
/// once frames came, three minutes or more after it was last drawn; and at no other time.
pub proof fn law_when_to_draw(r: Redraw, asked: bool, received: bool, now_us: u64)
    requires
        r.drawn_us <= now_us,
    ensures
        asked ==> r.is_due(asked, received, now_us),
        !asked ==> (r.is_due(asked, received, now_us) <==> (r.wanted_us is Some
            && r.wanted_us->Some_0 <= now_us) || (received && now_us >= r.drawn_us
            + 180_000_000)),
{
}

/// A card in use is shown as such, whatever was before; one that was let go of may be taken
/// out; and otherwise there is none. Each state is shown under a name of its own.
pub proof fn law_card_is_shown(logging: bool, ejected: bool, a: SdState, b: SdState)
    ensures
        card_state(logging, ejected) == SdState::Logging <==> logging,
        card_state(logging, ejected) == SdState::Ejected <==> ejected && !logging,
        card_state(logging, ejected) == SdState::NoCard <==> !ejected && !logging,
        a.shown() == b.shown() ==> a == b,
{
    reveal_strlit("LOGGING");
    reveal_strlit("REMOVE OK");
    reveal_strlit("NO CARD");
    assert("LOGGING"@.len() == 7 && "LOGGING"@[0] == 'L');
    assert("REMOVE OK"@.len() == 9);
    assert("NO CARD"@.len() == 7 && "NO CARD"@[0] == 'N');
}

/// A light that is off is at step 0; any other is at the highest step that its duty is
/// enough for, so that a step that was set is found again.
pub proof fn law_step_of_a_duty(duty: u16, max: u16, step: u8)
    ensures
        step_of(0, max) == 0,
        duty > 0 ==> duty_of(step_of(duty, max), max) <= duty,
        duty > 0 && step_of(duty, max) < step <= 4 ==> duty < duty_of(step, max),
        step <= 4 && max >= 8 ==> step_of(duty_of(step, max), max) == step,
        step_of(duty, max) <= 4,
{
}

/// A changed brightness has the page drawn from 600 ms after the last change on, and drawing
/// it settles that: after it the page is drawn again only when asked for, or, once frames
/// came, three minutes later.
pub proof fn law_drawing_settles(
    r: Redraw,
    changed_us: u64,
    drawn_us: u64,
    now_us: u64,
    received: bool,
)
    requires
        changed_us <= u64::MAX / 2,
        r.drawn_us <= now_us,
        drawn_us <= now_us,
    ensures
        r.wanting(changed_us).drawn_us == r.drawn_us,
        r.wanting(changed_us).is_due(false, false, now_us) <==> now_us >= changed_us + 600_000,
        r.done(drawn_us).is_due(false, received, now_us) <==> received && now_us >= drawn_us
            + 180_000_000,
        r.wanting(changed_us).done(drawn_us) == r.done(drawn_us),
{
}

} // verus!
